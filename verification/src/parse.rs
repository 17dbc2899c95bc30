//! The output parser: a line-oriented state machine that turns the
//! toolchain's raw stdout lines into structured test records.
//!
//! Each line is classified, in priority order, as a test-result line
//! (`test <name> ... <result>`), the opening marker of a per-test diagnostic
//! block (`---- <name> stdout ----`), a blank line, or anything else. A
//! result line whose result token is `ok` emits a passing record at once; a
//! diagnostic block collects its assertion-related lines until a blank line
//! closes it and emits the failing record. A block never closed emits
//! nothing, and a `FAILED` result line alone emits nothing either: the
//! failing record comes only from the diagnostic block.

use vstd::prelude::*;
use vstd::string::*;

use crate::strings::{contains_sub, strip_all_prefix, strip_all_suffix, str_starts_with,
    str_ends_with, str_contains, str_eq, match_at, str_strip_all_prefix, str_strip_all_suffix};
use crate::types::{TTest, TTestView};

verus! {

/// The marker opening a result line.
pub open spec fn result_prefix() -> Seq<char> {
    "test "@
}

/// The separator between a test's name and its result token.
pub open spec fn result_sep() -> Seq<char> {
    " ... "@
}

/// The result token of a passing test.
pub open spec fn ok_token() -> Seq<char> {
    "ok"@
}

/// The marker opening a diagnostic block's first line.
pub open spec fn block_prefix() -> Seq<char> {
    "---- "@
}

/// The marker closing a diagnostic block's first line.
pub open spec fn block_suffix() -> Seq<char> {
    " stdout ----"@
}

/// The substring that keeps a line of a diagnostic block.
pub open spec fn assert_marker() -> Seq<char> {
    "assert"@
}

/// The name and result token of a result line, if the line is one: after the
/// opening marker, the name runs to the first space, which must begin the
/// separator; the rest of the line is the result token.
pub open spec fn result_line_parts(l: Seq<char>) -> Option<(Seq<char>, Seq<char>)> {
    if result_prefix().is_prefix_of(l) {
        let rest = l.skip(result_prefix().len() as int);
        match rest.index_of_first(' ') {
            Some(i) => {
                if i > 0 && i + result_sep().len() <= rest.len() && rest.subrange(
                    i,
                    i + result_sep().len() as int,
                ) == result_sep() {
                    Some((rest.subrange(0, i), rest.skip(i + result_sep().len() as int)))
                } else {
                    None
                }
            },
            None => None,
        }
    } else {
        None
    }
}

/// What one line means to the parser.
pub enum LineClassView {
    TestResult { name: Seq<char>, result: Seq<char> },
    BlockStart { name: Seq<char> },
    Blank,
    Other,
}

/// Classification of one line, in the parser's priority order.
pub open spec fn spec_classify(l: Seq<char>) -> LineClassView {
    match result_line_parts(l) {
        Some((name, result)) => LineClassView::TestResult { name, result },
        None => {
            if block_prefix().is_prefix_of(l) && block_suffix().is_suffix_of(l) {
                LineClassView::BlockStart {
                    name: strip_all_suffix(strip_all_prefix(l, block_prefix()), block_suffix()),
                }
            } else if l.len() == 0 {
                LineClassView::Blank
            } else {
                LineClassView::Other
            }
        },
    }
}

/// The parser's state: outside any diagnostic block, or collecting one
/// test's block with the assertion lines gathered so far.
pub enum ParseState {
    Idle,
    Collecting { name: String, buffer: String },
}

/// Mathematical value of a [`ParseState`].
pub enum ParseStateView {
    Idle,
    Collecting { name: Seq<char>, buffer: Seq<char> },
}

impl View for ParseState {
    type V = ParseStateView;

    open spec fn view(&self) -> ParseStateView {
        match self {
            ParseState::Idle => ParseStateView::Idle,
            ParseState::Collecting { name, buffer } => ParseStateView::Collecting {
                name: name@,
                buffer: buffer@,
            },
        }
    }
}

/// One step of the state machine: the state after reading `l`, and the
/// record emitted by that line, if any.
pub open spec fn spec_step(st: ParseStateView, l: Seq<char>) -> (ParseStateView, Option<
    TTestView,
>) {
    match spec_classify(l) {
        LineClassView::TestResult { name, result } => {
            if result == ok_token() {
                (st, Some(TTestView { title: name, passed: true, error: None }))
            } else {
                (st, None)
            }
        },
        LineClassView::BlockStart { name } => {
            (ParseStateView::Collecting { name, buffer: Seq::empty() }, None)
        },
        LineClassView::Blank => {
            match st {
                ParseStateView::Collecting { name, buffer } => {
                    (
                        ParseStateView::Idle,
                        Some(TTestView { title: name, passed: false, error: Some(buffer) }),
                    )
                },
                ParseStateView::Idle => (ParseStateView::Idle, None),
            }
        },
        LineClassView::Other => {
            match st {
                ParseStateView::Collecting { name, buffer } => {
                    if contains_sub(l, assert_marker()) {
                        (
                            ParseStateView::Collecting {
                                name,
                                buffer: buffer + l + seq!['\n'],
                            },
                            None,
                        )
                    } else {
                        (ParseStateView::Collecting { name, buffer }, None)
                    }
                },
                ParseStateView::Idle => (ParseStateView::Idle, None),
            }
        },
    }
}

/// The records emitted by running the machine over `lines` from state `st`;
/// a block still open at the end of input emits nothing.
pub open spec fn spec_parse_from(st: ParseStateView, lines: Seq<Seq<char>>) -> Seq<TTestView>
    decreases lines.len(),
{
    if lines.len() == 0 {
        Seq::empty()
    } else {
        let (st2, out) = spec_step(st, lines[0]);
        (match out {
            Some(r) => seq![r],
            None => Seq::<TTestView>::empty(),
        }) + spec_parse_from(st2, lines.drop_first())
    }
}

/// The records emitted for `lines`, starting outside any block.
pub open spec fn spec_parse(lines: Seq<Seq<char>>) -> Seq<TTestView> {
    spec_parse_from(ParseStateView::Idle, lines)
}

/// Exec counterpart of [`LineClassView`].
pub enum LineClass {
    TestResult { name: String, result: String },
    BlockStart { name: String },
    Blank,
    Other,
}

impl View for LineClass {
    type V = LineClassView;

    open spec fn view(&self) -> LineClassView {
        match self {
            LineClass::TestResult { name, result } => LineClassView::TestResult {
                name: name@,
                result: result@,
            },
            LineClass::BlockStart { name } => LineClassView::BlockStart { name: name@ },
            LineClass::Blank => LineClassView::Blank,
            LineClass::Other => LineClassView::Other,
        }
    }
}

/// The position of the first space in `s`, if any.
fn find_first_space(s: &str) -> (r: Option<usize>)
    ensures
        match r {
            Some(u) => u < s@.len() && s@.index_of_first(' ') == Some(u as int),
            None => s@.index_of_first(' ') is None,
        },
{
    let n = s.unicode_len();
    let mut i: usize = 0;
    while i < n
        invariant
            i <= n,
            n == s@.len(),
            forall|k: int| 0 <= k < i ==> s@[k] != ' ',
        decreases n - i,
    {
        if s.get_char(i) == ' ' {
            proof {
                s@.index_of_first_ensures(' ');
                assert(s@.contains(' ')) by {
                    assert(s@[i as int] == ' ');
                }
            }
            return Some(i);
        }
        i = i + 1;
    }
    proof {
        s@.index_of_first_ensures(' ');
        if s@.index_of_first(' ') is Some {
            let j = s@.index_of_first(' ')->0;
            assert(s@[j] != ' ');
        }
    }
    None
}

/// Classifies one line as the state machine's spec does.
pub fn classify_line(line: &str) -> (c: LineClass)
    ensures
        c@ == spec_classify(line@),
{
    proof {
        reveal_strlit("test ");
        reveal_strlit(" ... ");
        reveal_strlit("---- ");
        reveal_strlit(" stdout ----");
    }
    if str_starts_with(line, "test ") {
        let ll = line.unicode_len();
        let rest = line.substring_char(5, ll);
        proof {
            assert(rest@ =~= line@.skip(result_prefix().len() as int));
        }
        let rl = rest.unicode_len();
        if let Some(i) = find_first_space(rest) {
            if i > 0 && i + 5 <= rl && match_at(rest, i, " ... ") {
                let name = rest.substring_char(0, i);
                let result = rest.substring_char(i + 5, rl);
                proof {
                    assert(result@ =~= rest@.skip(i + result_sep().len() as int));
                }
                return LineClass::TestResult {
                    name: String::from_str(name),
                    result: String::from_str(result),
                };
            }
        }
    }
    if str_starts_with(line, "---- ") && str_ends_with(line, " stdout ----") {
        let a = str_strip_all_prefix(line, "---- ");
        let b = str_strip_all_suffix(a, " stdout ----");
        return LineClass::BlockStart { name: String::from_str(b) };
    }
    if line.unicode_len() == 0 {
        return LineClass::Blank;
    }
    LineClass::Other
}

/// Runs one step of the state machine on one line.
pub fn parse_step(st: ParseState, line: &str) -> (res: (ParseState, Option<TTest>))
    ensures
        (res.0@, res.1.deep_view()) == spec_step(st@, line@),
{
    let c = classify_line(line);
    match c {
        LineClass::TestResult { name, result } => {
            proof {
                reveal_strlit("ok");
            }
            if str_eq(result.as_str(), "ok") {
                (st, Some(TTest::ok(name)))
            } else {
                (st, None)
            }
        },
        LineClass::BlockStart { name } => {
            (ParseState::Collecting { name, buffer: String::new() }, None)
        },
        LineClass::Blank => {
            match st {
                ParseState::Collecting { name, buffer } => {
                    (ParseState::Idle, Some(TTest::error(name, buffer)))
                },
                ParseState::Idle => (ParseState::Idle, None),
            }
        },
        LineClass::Other => {
            match st {
                ParseState::Collecting { name, buffer } => {
                    if str_contains(line, "assert") {
                        proof {
                            reveal_strlit("assert");
                            reveal_strlit("\n");
                        }
                        let mut buffer = buffer;
                        let ghost b0 = buffer@;
                        buffer.append(line);
                        buffer.append("\n");
                        proof {
                            assert(buffer@ =~= b0 + line@ + seq!['\n']);
                        }
                        (ParseState::Collecting { name, buffer }, None)
                    } else {
                        proof {
                            reveal_strlit("assert");
                        }
                        (ParseState::Collecting { name, buffer }, None)
                    }
                },
                ParseState::Idle => (ParseState::Idle, None),
            }
        },
    }
}

/// Turns the toolchain's stdout lines into test records, one pass, in order.
pub fn test_results_from_stdout(lines: &Vec<String>) -> (res: Vec<TTest>)
    ensures
        res.deep_view() == spec_parse(lines.deep_view()),
{
    let ghost all = lines.deep_view();
    let mut st = ParseState::Idle;
    let mut out: Vec<TTest> = Vec::new();
    let mut i: usize = 0;
    proof {
        assert(all.skip(0) =~= all);
        assert(out.deep_view() =~= Seq::<TTestView>::empty());
    }
    while i < lines.len()
        invariant
            i <= lines@.len(),
            all == lines.deep_view(),
            all.len() == lines@.len(),
            spec_parse(all) == out.deep_view() + spec_parse_from(st@, all.skip(i as int)),
        decreases lines@.len() - i,
    {
        let ghost st_before = st@;
        let ghost out_before = out.deep_view();
        let (st2, rec) = parse_step(st, lines[i].as_str());
        st = st2;
        proof {
            assert(all.skip(i as int)[0] == all[i as int]);
            assert(all[i as int] == lines@[i as int]@);
            assert(all.skip(i as int).drop_first() =~= all.skip(i + 1));
        }
        match rec {
            Some(t) => {
                out.push(t);
                proof {
                    assert(out.deep_view() =~= out_before.push(t.deep_view()));
                    assert(out_before.push(t.deep_view()) =~= out_before + seq![t.deep_view()]);
                    assert(out.deep_view() + spec_parse_from(st@, all.skip(i + 1)) =~= out_before
                        + (seq![t.deep_view()] + spec_parse_from(st@, all.skip(i + 1))));
                }
            },
            None => {
                proof {
                    assert(out.deep_view() + spec_parse_from(st@, all.skip(i + 1)) =~= out_before
                        + (Seq::<TTestView>::empty() + spec_parse_from(st@, all.skip(i + 1))));
                }
            },
        }
        i = i + 1;
    }
    proof {
        assert(all.skip(lines@.len() as int) =~= Seq::<Seq<char>>::empty());
        assert(out.deep_view() + spec_parse_from(st@, Seq::<Seq<char>>::empty())
            =~= out.deep_view());
    }
    out
}

} // verus!
