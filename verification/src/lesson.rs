//! The lesson catalog: the template directories registered at startup, one
//! per lesson slug, and the lookup the pipeline starts from.
//!
//! The catalog is built from a directory listing: every subdirectory whose
//! name carries the course prefix registers a lesson under the rest of its
//! name, later entries replacing earlier ones with the same slug.

use vstd::prelude::*;
use vstd::string::*;

use crate::strings::{str_starts_with, str_eq};

verus! {

/// One lesson: its slug and the template directory holding its sources.
pub struct Lesson {
    pub slug: String,
    pub dir: String,
}

/// Mathematical value of a [`Lesson`].
#[verifier::ext_equal]
pub struct LessonView {
    pub slug: Seq<char>,
    pub dir: Seq<char>,
}

impl View for Lesson {
    type V = LessonView;

    open spec fn view(&self) -> LessonView {
        LessonView { slug: self.slug@, dir: self.dir@ }
    }
}

impl DeepView for Lesson {
    type V = LessonView;

    open spec fn deep_view(&self) -> LessonView {
        self.view()
    }
}

/// One entry of the catalog directory's listing, as handed to the builder:
/// the entry's bare name, its full path, and whether it is a directory.
pub struct CourseEntry {
    pub name: String,
    pub path: String,
    pub is_dir: bool,
}

/// No two lessons share a slug.
pub open spec fn distinct_slugs(s: Seq<LessonView>) -> bool {
    forall|i: int, j: int| 0 <= i < j < s.len() ==> s[i].slug != s[j].slug
}

/// Some lesson carries this slug.
pub open spec fn has_slug(s: Seq<LessonView>, slug: Seq<char>) -> bool {
    exists|i: int| 0 <= i < s.len() && s[i].slug == slug
}

/// The listing entry `name`/`path`/`is_dir` registers the lesson `l` under
/// the course prefix `prefix`.
pub open spec fn entry_registers(
    name: Seq<char>,
    path: Seq<char>,
    is_dir: bool,
    prefix: Seq<char>,
    l: LessonView,
) -> bool {
    &&& is_dir
    &&& prefix.is_prefix_of(name)
    &&& l.slug == name.skip(prefix.len() as int)
    &&& l.dir == path
}

/// Some entry of the listing registers the lesson `l`.
pub open spec fn lesson_registered(
    entries: Seq<CourseEntry>,
    prefix: Seq<char>,
    l: LessonView,
) -> bool {
    exists|j: int|
        0 <= j < entries.len() && entry_registers(
            entries[j].name@,
            entries[j].path@,
            entries[j].is_dir,
            prefix,
            l,
        )
}

/// A lesson registered by a prefix of the listing is registered by any
/// longer prefix of it too.
proof fn lemma_registered_extend(
    entries: Seq<CourseEntry>,
    m: int,
    m2: int,
    prefix: Seq<char>,
    l: LessonView,
)
    requires
        0 <= m <= m2 <= entries.len(),
        lesson_registered(entries.take(m), prefix, l),
    ensures
        lesson_registered(entries.take(m2), prefix, l),
{
    let t0 = entries.take(m);
    let t1 = entries.take(m2);
    let j0 = choose|j: int|
        0 <= j < t0.len() && entry_registers(t0[j].name@, t0[j].path@, t0[j].is_dir, prefix, l);
    assert(t1[j0] == t0[j0]);
    assert(entry_registers(t1[j0].name@, t1[j0].path@, t1[j0].is_dir, prefix, l));
}

/// The catalog: the registered lessons and the directory they came from.
pub struct Course {
    pub lessons: Vec<Lesson>,
    pub basedir: String,
}

impl Course {
    /// Which position holds this slug, if any.
    fn find_slug(lessons: &Vec<Lesson>, slug: &str) -> (r: Option<usize>)
        ensures
            match r {
                Some(u) => u < lessons@.len() && lessons.deep_view()[u as int].slug == slug@,
                None => !has_slug(lessons.deep_view(), slug@),
            },
    {
        let n = lessons.len();
        let mut i: usize = 0;
        while i < n
            invariant
                i <= n,
                n == lessons@.len(),
                forall|k: int| 0 <= k < i ==> lessons.deep_view()[k].slug != slug@,
            decreases n - i,
        {
            if str_eq(lessons[i].slug.as_str(), slug) {
                return Some(i);
            }
            i = i + 1;
        }
        None
    }

    /// Builds the catalog from a directory listing: every directory entry
    /// whose name starts with `prefix` registers a lesson under the rest of
    /// its name; a later entry with the same slug replaces the earlier one.
    pub fn from_entries(basedir: String, prefix: &str, entries: &Vec<CourseEntry>) -> (c: Course)
        ensures
            c.basedir == basedir,
            distinct_slugs(c.lessons.deep_view()),
            forall|i: int|
                0 <= i < c.lessons.deep_view().len() ==> lesson_registered(
                    entries@,
                    prefix@,
                    #[trigger] c.lessons.deep_view()[i],
                ),
            forall|j: int|
                0 <= j < entries@.len() && entries@[j].is_dir && prefix@.is_prefix_of(
                    #[trigger] entries@[j].name@,
                ) ==> has_slug(c.lessons.deep_view(), entries@[j].name@.skip(prefix@.len() as int)),
    {
        let mut lessons: Vec<Lesson> = Vec::new();
        let plen = prefix.unicode_len();
        let n = entries.len();
        let mut k: usize = 0;
        while k < n
            invariant
                k <= n,
                n == entries@.len(),
                plen == prefix@.len(),
                distinct_slugs(lessons.deep_view()),
                forall|i: int|
                    0 <= i < lessons.deep_view().len() ==> lesson_registered(
                        entries@.take(k as int),
                        prefix@,
                        #[trigger] lessons.deep_view()[i],
                    ),
                forall|j: int|
                    0 <= j < k && entries@[j].is_dir && prefix@.is_prefix_of(
                        #[trigger] entries@[j].name@,
                    ) ==> has_slug(lessons.deep_view(), entries@[j].name@.skip(prefix@.len() as int)),
            decreases n - k,
        {
            let ghost before = lessons.deep_view();
            let ghost ki = k as int;
            let e = &entries[k];
            if e.is_dir && str_starts_with(e.name.as_str(), prefix) {
                let nlen = e.name.unicode_len();
                let slug_str = e.name.substring_char(plen, nlen);
                proof {
                    assert(slug_str@ =~= e.name@.skip(prefix@.len() as int));
                }
                let lesson = Lesson { slug: String::from_str(slug_str), dir: e.path.clone() };
                let ghost lv = lesson.deep_view();
                proof {
                    assert(entries@.take(ki + 1)[ki] == entries@[ki]);
                    assert(entry_registers(
                        entries@[ki].name@,
                        entries@[ki].path@,
                        entries@[ki].is_dir,
                        prefix@,
                        lv,
                    ));
                }
                match Self::find_slug(&lessons, slug_str) {
                    Some(u) => {
                        proof {
                            assert(before[u as int].slug == lv.slug);
                        }
                        vstd::std_specs::core::index_set(&mut lessons, u, lesson);
                        proof {
                            let after = lessons.deep_view();
                            assert(after =~= before.update(u as int, lv));
                            assert forall|i: int, j2: int|
                                0 <= i < j2 < after.len() implies after[i].slug
                                != after[j2].slug by {
                                assert(after[i].slug == before[i].slug);
                                assert(after[j2].slug == before[j2].slug);
                            }
                            assert forall|i: int| 0 <= i < after.len() implies lesson_registered(
                                entries@.take(ki + 1),
                                prefix@,
                                #[trigger] after[i],
                            ) by {
                                if i == u as int {
                                    assert(after[i] == lv);
                                    let t1 = entries@.take(ki + 1);
                                    assert(entry_registers(
                                        t1[ki].name@,
                                        t1[ki].path@,
                                        t1[ki].is_dir,
                                        prefix@,
                                        after[i],
                                    ));
                                } else {
                                    assert(after[i] == before[i]);
                                    assert(lesson_registered(
                                        entries@.take(ki),
                                        prefix@,
                                        before[i],
                                    ));
                                    lemma_registered_extend(entries@, ki, ki + 1, prefix@, after[i]);
                                }
                            }
                            assert forall|i: int| 0 <= i < before.len() implies has_slug(
                                after,
                                #[trigger] before[i].slug,
                            ) by {
                                if i == u as int {
                                    assert(after[u as int].slug == before[u as int].slug);
                                } else {
                                    assert(after[i].slug == before[i].slug);
                                }
                            }
                            assert(after[u as int].slug == lv.slug);
                            assert(has_slug(after, lv.slug));
                        }
                    },
                    None => {
                        lessons.push(lesson);
                        proof {
                            let after = lessons.deep_view();
                            let b = before.len() as int;
                            assert(after =~= before.push(lv));
                            assert forall|i: int, j2: int|
                                0 <= i < j2 < after.len() implies after[i].slug
                                != after[j2].slug by {
                                if j2 == b {
                                    assert(after[i] == before[i]);
                                    assert(after[j2] == lv);
                                    if after[i].slug == lv.slug {
                                        assert(before[i].slug == lv.slug);
                                        assert(has_slug(before, lv.slug));
                                    }
                                } else {
                                    assert(after[i] == before[i]);
                                    assert(after[j2] == before[j2]);
                                }
                            }
                            assert forall|i: int| 0 <= i < after.len() implies lesson_registered(
                                entries@.take(ki + 1),
                                prefix@,
                                #[trigger] after[i],
                            ) by {
                                if i == b {
                                    assert(after[i] == lv);
                                    let t1 = entries@.take(ki + 1);
                                    assert(entry_registers(
                                        t1[ki].name@,
                                        t1[ki].path@,
                                        t1[ki].is_dir,
                                        prefix@,
                                        after[i],
                                    ));
                                } else {
                                    assert(after[i] == before[i]);
                                    assert(lesson_registered(
                                        entries@.take(ki),
                                        prefix@,
                                        before[i],
                                    ));
                                    lemma_registered_extend(entries@, ki, ki + 1, prefix@, after[i]);
                                }
                            }
                            assert forall|i: int| 0 <= i < before.len() implies has_slug(
                                after,
                                #[trigger] before[i].slug,
                            ) by {
                                assert(after[i].slug == before[i].slug);
                            }
                            assert(after[b].slug == lv.slug);
                            assert(has_slug(after, lv.slug));
                        }
                    },
                }
                proof {
                    assert(lv.slug == entries@[ki].name@.skip(prefix@.len() as int));
                    assert(has_slug(lessons.deep_view(), lv.slug));
                }
            } else {
                proof {
                    assert forall|i: int|
                        0 <= i < lessons.deep_view().len() implies lesson_registered(
                        entries@.take(ki + 1),
                        prefix@,
                        #[trigger] lessons.deep_view()[i],
                    ) by {
                        lemma_registered_extend(
                            entries@,
                            ki,
                            ki + 1,
                            prefix@,
                            lessons.deep_view()[i],
                        );
                    }
                }
            }
            k = k + 1;
        }
        let c = Course { lessons, basedir };
        proof {
            assert(entries@.take(n as int) =~= entries@);
        }
        c
    }

    /// The lesson registered under this slug, if any.
    pub fn lesson(&self, lesson_slug: &str) -> (r: Option<&Lesson>)
        ensures
            match r {
                Some(l) => {
                    &&& l.slug@ == lesson_slug@
                    &&& exists|i: int|
                        0 <= i < self.lessons@.len() && self.lessons.deep_view()[i] == l.deep_view()
                },
                None => !has_slug(self.lessons.deep_view(), lesson_slug@),
            },
    {
        let n = self.lessons.len();
        let mut i: usize = 0;
        while i < n
            invariant
                i <= n,
                n == self.lessons@.len(),
                forall|k: int| 0 <= k < i ==> self.lessons.deep_view()[k].slug != lesson_slug@,
            decreases n - i,
        {
            if str_eq(self.lessons[i].slug.as_str(), lesson_slug) {
                let l = &self.lessons[i];
                proof {
                    assert(self.lessons.deep_view()[i as int] == l.deep_view());
                }
                return Some(l);
            }
            i = i + 1;
        }
        None
    }
}

} // verus!
