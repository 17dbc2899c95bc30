//! The result aggregator: sorts the collected records by title and combines
//! them into one report with an overall verdict and a summary message.

use vstd::prelude::*;
use vstd::string::*;
use vstd::seq_lib::lemma_multiset_commutative;

use crate::strings::{lex_le, lemma_lex_le_total, lemma_lex_le_trans, dec_rep, usize_to_dec};
use crate::types::{TTest, TTestView, TTestResponse, TTestResponseView};

verus! {

broadcast use vstd::seq_lib::group_to_multiset_ensures, vstd::multiset::group_multiset_axioms;

/// The records are sorted by title, ascending.
pub open spec fn sorted_by_title(s: Seq<TTestView>) -> bool {
    forall|i: int, j: int| 0 <= i <= j < s.len() ==> lex_le(s[i].title, s[j].title)
}

/// The first `n` records are sorted by title, ascending.
pub open spec fn sorted_upto(s: Seq<TTestView>, n: int) -> bool {
    forall|k: int, l: int| 0 <= k <= l < n && l < s.len() ==> lex_le(s[k].title, s[l].title)
}

/// How many records report a failure.
pub open spec fn count_failed(s: Seq<TTestView>) -> nat
    decreases s.len(),
{
    if s.len() == 0 {
        0
    } else {
        count_failed(s.drop_last()) + (if s.last().passed {
            0nat
        } else {
            1nat
        })
    }
}

/// Every record reports a pass.
pub open spec fn all_passed(s: Seq<TTestView>) -> bool {
    forall|i: int| 0 <= i < s.len() ==> s[i].passed
}

/// The top-level message when some tests failed.
pub open spec fn failure_message(failed: nat, total: nat) -> Seq<char> {
    dec_rep(failed) + " of "@ + dec_rep(total) + " tests failed"@
}

/// The top-level message when no records were recovered at all.
pub open spec fn no_tests_message() -> Seq<char> {
    "No tests executed."@
}

/// What the aggregator promises: `rep` is the report for the records
/// `records`, in whatever order they arrived.
///
/// The verdict is a pass exactly when there is at least one record and none
/// failed; the error message is present exactly when the verdict is a
/// failure; and the report's records are the given ones, sorted by title.
pub open spec fn aggregated(records: Seq<TTestView>, rep: TTestResponseView) -> bool {
    &&& rep.tests.to_multiset() == records.to_multiset()
    &&& sorted_by_title(rep.tests)
    &&& rep.passed == (records.len() > 0 && all_passed(records))
    &&& rep.error == (if records.len() == 0 {
        Some(no_tests_message())
    } else if all_passed(records) {
        None::<Seq<char>>
    } else {
        Some(failure_message(count_failed(records), records.len()))
    })
}

/// No two records share a title.
pub open spec fn distinct_titles(s: Seq<TTestView>) -> bool {
    forall|i: int, j: int| 0 <= i < j < s.len() ==> s[i].title != s[j].title
}

/// Law: the aggregator's record order is canonical. Two sorted sequences
/// holding exactly the same records, neither repeating a title, are equal —
/// so the records a report returns do not depend on the order in which the
/// toolchain delivered them.
pub proof fn lemma_sorted_order_canonical(a: Seq<TTestView>, b: Seq<TTestView>)
    requires
        sorted_by_title(a),
        sorted_by_title(b),
        distinct_titles(a),
        distinct_titles(b),
        a.to_multiset() == b.to_multiset(),
    ensures
        a == b,
    decreases a.len(),
{
    assert(a.len() == a.to_multiset().len());
    assert(b.len() == b.to_multiset().len());
    if a.len() == 0 {
        assert(a =~= b);
    } else {
        assert(a.contains(a[0]));
        assert(b.to_multiset().count(a[0]) > 0);
        assert(b.contains(a[0]));
        let j = choose|j: int| 0 <= j < b.len() && b[j] == a[0];
        assert(b.contains(b[0]));
        assert(a.to_multiset().count(b[0]) > 0);
        assert(a.contains(b[0]));
        let i = choose|i: int| 0 <= i < a.len() && a[i] == b[0];
        assert(lex_le(b[0].title, b[j].title));
        assert(lex_le(a[0].title, a[i].title));
        crate::strings::lemma_lex_le_antisym(a[0].title, b[0].title);
        assert(a[0].title == b[0].title);
        if j != 0 {
            assert(b[0].title != b[j].title);
            assert(false);
        }
        assert(a[0] == b[0]);
        let at = a.drop_first();
        let bt = b.drop_first();
        assert(at =~= a.remove(0));
        assert(bt =~= b.remove(0));
        assert(at.to_multiset() =~= a.to_multiset().remove(a[0]));
        assert(bt.to_multiset() =~= b.to_multiset().remove(b[0]));
        assert(forall|k: int| 0 <= k < at.len() ==> at[k] == a[k + 1]);
        assert(forall|k: int| 0 <= k < bt.len() ==> bt[k] == b[k + 1]);
        lemma_sorted_order_canonical(at, bt);
        assert(at == bt);
        assert(a.len() == b.len());
        assert forall|k: int| 0 <= k < a.len() implies a[k] == b[k] by {
            if k > 0 {
                assert(a[k] == at[k - 1]);
                assert(b[k] == bt[k - 1]);
            }
        }
        assert(a =~= b);
    }
}

/// Law: whatever order the toolchain delivered the records in, the
/// aggregator returns them in one and the same order. Two reports built from
/// the same records — arrived in any two orders — hold equal record
/// sequences, provided no title repeats.
pub proof fn lemma_report_order_independent(
    records1: Seq<TTestView>,
    records2: Seq<TTestView>,
    rep1: TTestResponseView,
    rep2: TTestResponseView,
)
    requires
        aggregated(records1, rep1),
        aggregated(records2, rep2),
        records1.to_multiset() == records2.to_multiset(),
        distinct_titles(rep1.tests),
        distinct_titles(rep2.tests),
    ensures
        rep1.tests == rep2.tests,
{
    lemma_sorted_order_canonical(rep1.tests, rep2.tests);
}

/// No record failed exactly when the failure count is zero.
proof fn lemma_count_failed_zero(s: Seq<TTestView>)
    ensures
        (count_failed(s) == 0) == all_passed(s),
    decreases s.len(),
{
    if s.len() > 0 {
        lemma_count_failed_zero(s.drop_last());
        assert(forall|i: int| 0 <= i < s.len() - 1 ==> s.drop_last()[i] == s[i]);
        if all_passed(s) {
            assert(all_passed(s.drop_last()));
        }
        if count_failed(s) == 0 {
            assert(forall|i: int| 0 <= i < s.len() - 1 ==> s[i] == s.drop_last()[i]);
        }
    }
}

/// Updating one position replaces exactly that element in the multiset.
proof fn lemma_update_to_multiset(s: Seq<TTestView>, i: int, v: TTestView)
    requires
        0 <= i < s.len(),
    ensures
        s.update(i, v).to_multiset() =~= s.to_multiset().remove(s[i]).insert(v),
        s.to_multiset().count(s[i]) >= 1,
{
    let left = s.subrange(0, i);
    let u = s[i];
    let right = s.subrange(i + 1, s.len() as int);
    let upd = s.update(i, v);
    assert(s =~= left.push(u) + right);
    assert(upd =~= left.push(v) + right);
    lemma_multiset_commutative(left.push(u), right);
    lemma_multiset_commutative(left.push(v), right);
    assert(left.push(u).to_multiset() =~= left.to_multiset().insert(u));
    assert(left.push(v).to_multiset() =~= left.to_multiset().insert(v));
    assert(s.to_multiset() =~= left.to_multiset().insert(u).add(right.to_multiset()));
    assert(upd.to_multiset() =~= left.to_multiset().insert(v).add(right.to_multiset()));
    assert(upd.to_multiset() =~= s.to_multiset().remove(u).insert(v));
}

/// Swapping two positions leaves the multiset unchanged.
proof fn lemma_swap_to_multiset(s: Seq<TTestView>, i: int, j: int)
    requires
        0 <= i < s.len(),
        0 <= j < s.len(),
        i != j,
    ensures
        s.update(i, s[j]).update(j, s[i]).to_multiset() =~= s.to_multiset(),
{
    let s2 = s.update(i, s[j]);
    lemma_update_to_multiset(s, i, s[j]);
    lemma_update_to_multiset(s2, j, s[i]);
    assert(s2[j] == s[j]);
    assert(s2.to_multiset() =~= s.to_multiset().remove(s[i]).insert(s[j]));
    assert(s.update(i, s[j]).update(j, s[i]).to_multiset() =~= s2.to_multiset().remove(s[j]).insert(
        s[i],
    ));
}

/// An exact copy of one record.
fn clone_test(t: &TTest) -> (r: TTest)
    ensures
        r == *t,
{
    let title = t.title.clone();
    let error = match &t.error {
        Some(e) => Some(e.clone()),
        None => None,
    };
    TTest { title, passed: t.passed, error }
}

/// Swaps two records in place.
fn swap_tests(v: &mut Vec<TTest>, a: usize, b: usize)
    requires
        a < old(v).len(),
        b < old(v).len(),
        a != b,
    ensures
        final(v).deep_view() == old(v).deep_view().update(a as int, old(v).deep_view()[b as int])
            .update(b as int, old(v).deep_view()[a as int]),
        final(v).deep_view().to_multiset() == old(v).deep_view().to_multiset(),
        final(v)@.len() == old(v)@.len(),
{
    let ta = clone_test(&v[a]);
    let tb = clone_test(&v[b]);
    vstd::std_specs::core::index_set(v, a, tb);
    vstd::std_specs::core::index_set(v, b, ta);
    proof {
        let d = old(v).deep_view();
        assert(v.deep_view() =~= d.update(a as int, d[b as int]).update(b as int, d[a as int]));
        lemma_swap_to_multiset(d, a as int, b as int);
    }
}

/// `lex_le` is reflexive.
proof fn lemma_lex_le_refl(a: Seq<char>)
    ensures
        lex_le(a, a),
{
    lemma_lex_le_total(a, a);
}

/// Sorts the records by title, ascending, keeping exactly the same records.
pub fn sort_by_title(v: &mut Vec<TTest>)
    ensures
        final(v).deep_view().to_multiset() == old(v).deep_view().to_multiset(),
        sorted_by_title(final(v).deep_view()),
        final(v)@.len() == old(v)@.len(),
{
    let ghost orig = old(v).deep_view();
    proof {
        if orig.len() > 0 {
            lemma_lex_le_refl(orig[0].title);
        }
    }
    let mut i: usize = 1;
    while i < v.len()
        invariant
            1 <= i,
            v.deep_view().to_multiset() == orig.to_multiset(),
            v@.len() == old(v)@.len(),
            sorted_upto(v.deep_view(), i as int),
        decreases v@.len() - i,
    {
        let mut j: usize = i;
        while j > 0 && !str_le_at(v, j - 1, j)
            invariant
                j <= i < v@.len(),
                v.deep_view().to_multiset() == orig.to_multiset(),
                v@.len() == old(v)@.len(),
                forall|k: int, l: int|
                    0 <= k < l <= i && l != j ==> lex_le(
                        v.deep_view()[k].title,
                        v.deep_view()[l].title,
                    ),
            decreases j,
        {
            let ghost before = v.deep_view();
            swap_tests(v, j - 1, j);
            proof {
                let after = v.deep_view();
                let ji = j as int;
                lemma_lex_le_total(before[ji - 1].title, before[ji].title);
                assert forall|k: int, l: int|
                    0 <= k < l <= i && l != ji - 1 implies lex_le(
                    after[k].title,
                    after[l].title,
                ) by {
                    if l == ji {
                        if k < ji - 1 {
                            assert(after[k] == before[k]);
                            assert(after[l] == before[ji - 1]);
                        } else {
                            assert(k == ji - 1);
                            assert(after[k] == before[ji]);
                            assert(after[l] == before[ji - 1]);
                        }
                    } else if l < ji - 1 {
                        assert(after[k] == before[k]);
                        assert(after[l] == before[l]);
                    } else {
                        assert(l > ji);
                        assert(after[l] == before[l]);
                        if k == ji - 1 {
                            assert(after[k] == before[ji]);
                        } else if k == ji {
                            assert(after[k] == before[ji - 1]);
                        } else {
                            assert(after[k] == before[k]);
                        }
                    }
                }
            }
            j = j - 1;
        }
        proof {
            let d = v.deep_view();
            let ji = j as int;
            assert forall|k: int, l: int| 0 <= k <= l <= i implies lex_le(
                d[k].title,
                d[l].title,
            ) by {
                if k == l {
                    lemma_lex_le_refl(d[k].title);
                } else if l == ji {
                    assert(j > 0 ==> lex_le(d[ji - 1].title, d[ji].title));
                    if k < ji - 1 {
                        assert(lex_le(d[k].title, d[ji - 1].title));
                        lemma_lex_le_trans(d[k].title, d[ji - 1].title, d[ji].title);
                    }
                }
            }
        }
        i = i + 1;
    }
    proof {
        let d = v.deep_view();
        if v@.len() <= 1 {
            assert forall|k: int, l: int| 0 <= k <= l < d.len() implies lex_le(
                d[k].title,
                d[l].title,
            ) by {
                lemma_lex_le_refl(d[k].title);
            }
        }
    }
}

/// Compares the titles of two records in the vector.
fn str_le_at(v: &Vec<TTest>, a: usize, b: usize) -> (r: bool)
    requires
        a < v.len(),
        b < v.len(),
    ensures
        r == lex_le(v.deep_view()[a as int].title, v.deep_view()[b as int].title),
{
    crate::strings::str_le(v[a].title.as_str(), v[b].title.as_str())
}

impl TTestResponse {
    /// Combines the collected records into one report.
    ///
    /// No records at all is reported as its own failure; otherwise the verdict
    /// is a pass exactly when every record passed, the summary message counts
    /// the failures, and the records come back sorted by title.
    pub fn from_tests(tests: Vec<TTest>) -> (r: TTestResponse)
        ensures
            aggregated(tests.deep_view(), r@),
    {
        let ghost records = tests.deep_view();
        if tests.len() == 0 {
            let r = TTestResponse::error(String::from_str("No tests executed."));
            proof {
                assert(records =~= Seq::<TTestView>::empty());
                assert(r@.tests =~= Seq::<TTestView>::empty());
            }
            return r;
        }
        let total = tests.len();
        let mut failed: usize = 0;
        let mut idx: usize = 0;
        while idx < total
            invariant
                idx <= total,
                failed <= idx,
                total == tests@.len(),
                records == tests.deep_view(),
                failed == count_failed(records.take(idx as int)),
            decreases total - idx,
        {
            if !tests[idx].passed {
                failed = failed + 1;
            }
            proof {
                assert(records.take(idx + 1).drop_last() =~= records.take(idx as int));
                assert(records.take(idx + 1).last() == records[idx as int]);
            }
            idx = idx + 1;
        }
        proof {
            assert(records.take(total as int) =~= records);
            lemma_count_failed_zero(records);
        }
        let passed = failed == 0;
        let error: Option<String>;
        if passed {
            error = None;
        } else {
            let mut msg = usize_to_dec(failed);
            msg.append(" of ");
            let t = usize_to_dec(total);
            msg.append(t.as_str());
            msg.append(" tests failed");
            proof {
                assert(msg@ =~= failure_message(count_failed(records), records.len()));
            }
            error = Some(msg);
        }
        let mut ts = tests;
        sort_by_title(&mut ts);
        let r = TTestResponse { passed, error, tests: ts };
        r
    }
}

} // verus!
