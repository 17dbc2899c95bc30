use solana_runner::lesson::{Course, CourseEntry};

fn entry(name: &str, path: &str, is_dir: bool) -> CourseEntry {
    CourseEntry { name: String::from(name), path: String::from(path), is_dir }
}

#[test]
fn catalog_registers_prefixed_directories() {
    let entries = vec![
        entry("solana-01-introduction", "lessons-code/solana-01-introduction", true),
        entry("solana-cpi", "lessons-code/solana-cpi", true),
        entry("README.md", "lessons-code/README.md", false),
        entry("near-01-intro", "lessons-code/near-01-intro", true),
    ];
    let course = Course::from_entries(String::from("lessons-code"), "solana-", &entries);
    assert_eq!(course.basedir, "lessons-code");
    assert_eq!(course.lessons.len(), 2);

    let l = course.lesson("01-introduction").unwrap();
    assert_eq!(l.slug, "01-introduction");
    assert_eq!(l.dir, "lessons-code/solana-01-introduction");

    let c = course.lesson("cpi").unwrap();
    assert_eq!(c.dir, "lessons-code/solana-cpi");

    assert!(course.lesson("near-01-intro").is_none());
    assert!(course.lesson("01-intro").is_none());
    assert!(course.lesson("README.md").is_none());
}

#[test]
fn catalog_ignores_plain_files_with_prefix() {
    let entries = vec![entry("solana-notes.txt", "lessons-code/solana-notes.txt", false)];
    let course = Course::from_entries(String::from("lessons-code"), "solana-", &entries);
    assert!(course.lessons.is_empty());
    assert!(course.lesson("notes.txt").is_none());
}

#[test]
fn later_entry_with_same_slug_wins() {
    let entries = vec![
        entry("solana-cpi", "old/solana-cpi", true),
        entry("solana-cpi", "new/solana-cpi", true),
    ];
    let course = Course::from_entries(String::from("lessons-code"), "solana-", &entries);
    assert_eq!(course.lessons.len(), 1);
    let l = course.lesson("cpi").unwrap();
    assert_eq!(l.dir, "new/solana-cpi");
}

#[test]
fn empty_prefix_registers_every_directory() {
    let entries = vec![entry("anything", "base/anything", true)];
    let course = Course::from_entries(String::from("base"), "", &entries);
    assert_eq!(course.lessons.len(), 1);
    assert_eq!(course.lesson("anything").unwrap().dir, "base/anything");
}
