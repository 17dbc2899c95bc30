use solana_runner::types::{TTest, TTestResponse};

#[test]
fn empty_records_report_harness_failure() {
    let r = TTestResponse::from_tests(Vec::new());
    assert!(!r.passed);
    assert_eq!(r.error.as_deref(), Some("No tests executed."));
    assert_eq!(r.tests.len(), 0);
}

#[test]
fn all_passed_has_no_error() {
    let r = TTestResponse::from_tests(vec![
        TTest::ok(String::from("a")),
        TTest::ok(String::from("b")),
    ]);
    assert!(r.passed);
    assert!(r.error.is_none());
    assert_eq!(r.tests.len(), 2);
}

#[test]
fn one_failure_fails_the_report() {
    let r = TTestResponse::from_tests(vec![
        TTest::ok(String::from("a")),
        TTest::error(String::from("b"), String::from("boom")),
    ]);
    assert!(!r.passed);
    assert_eq!(r.error.as_deref(), Some("1 of 2 tests failed"));
}

#[test]
fn failure_counts_are_decimal() {
    let mut tests = Vec::new();
    for i in 0..13 {
        let title = format!("t{:02}", i);
        if i < 11 {
            tests.push(TTest::error(title, String::from("x")));
        } else {
            tests.push(TTest::ok(title));
        }
    }
    let r = TTestResponse::from_tests(tests);
    assert!(!r.passed);
    assert_eq!(r.error.as_deref(), Some("11 of 13 tests failed"));
}

#[test]
fn records_come_back_sorted_by_title() {
    let r = TTestResponse::from_tests(vec![
        TTest::ok(String::from("zeta")),
        TTest::ok(String::from("alpha")),
    ]);
    assert_eq!(r.tests[0].title, "alpha");
    assert_eq!(r.tests[1].title, "zeta");
}

#[test]
fn sort_is_independent_of_arrival_order() {
    let a = TTestResponse::from_tests(vec![
        TTest::ok(String::from("m")),
        TTest::error(String::from("c"), String::from("d")),
        TTest::ok(String::from("z")),
    ]);
    let b = TTestResponse::from_tests(vec![
        TTest::ok(String::from("z")),
        TTest::ok(String::from("m")),
        TTest::error(String::from("c"), String::from("d")),
    ]);
    let titles_a: Vec<&str> = a.tests.iter().map(|t| t.title.as_str()).collect();
    let titles_b: Vec<&str> = b.tests.iter().map(|t| t.title.as_str()).collect();
    assert_eq!(titles_a, vec!["c", "m", "z"]);
    assert_eq!(titles_a, titles_b);
}

#[test]
fn error_response_keeps_message() {
    let r = TTestResponse::error(String::from("Lesson not found: 99-missing"));
    assert!(!r.passed);
    assert_eq!(r.error.as_deref(), Some("Lesson not found: 99-missing"));
    assert!(r.tests.is_empty());
}
