//! The report's outward JSON form, rendered exactly: two-space indentation,
//! string escaping, and an `error` field written only where one is present —
//! at the top level and in each record alike.

use vstd::prelude::*;
use vstd::string::*;

use crate::types::{TTest, TTestView, TTestResponse, TTestResponseView};

verus! {

/// The character for one hexadecimal digit.
pub open spec fn hex_digit(d: nat) -> char {
    if d < 10 {
        crate::strings::dec_digit(d)
    } else if d == 10 {
        'a'
    } else if d == 11 {
        'b'
    } else if d == 12 {
        'c'
    } else if d == 13 {
        'd'
    } else if d == 14 {
        'e'
    } else {
        'f'
    }
}

/// How one character is written inside a JSON string: quotes and backslashes
/// escaped, the named control characters short-escaped, any other control
/// character written as a four-digit escape, everything else as itself.
pub open spec fn esc_char(c: char) -> Seq<char> {
    if c == '"' {
        seq!['\\', '"']
    } else if c == '\\' {
        seq!['\\', '\\']
    } else if c == '\u{8}' {
        seq!['\\', 'b']
    } else if c == '\t' {
        seq!['\\', 't']
    } else if c == '\n' {
        seq!['\\', 'n']
    } else if c == '\u{c}' {
        seq!['\\', 'f']
    } else if c == '\r' {
        seq!['\\', 'r']
    } else if (c as u32) < 0x20 {
        seq!['\\', 'u', '0', '0', hex_digit((c as u32 / 16) as nat), hex_digit(
            (c as u32 % 16) as nat,
        )]
    } else {
        seq![c]
    }
}

/// A whole character sequence, escaped.
pub open spec fn json_escape(s: Seq<char>) -> Seq<char>
    decreases s.len(),
{
    if s.len() == 0 {
        Seq::empty()
    } else {
        esc_char(s[0]) + json_escape(s.drop_first())
    }
}

/// A JSON string literal: the escaped text in quotes.
pub open spec fn json_string(s: Seq<char>) -> Seq<char> {
    seq!['"'] + json_escape(s) + seq!['"']
}

/// A JSON boolean.
pub open spec fn bool_text(b: bool) -> Seq<char> {
    if b {
        "true"@
    } else {
        "false"@
    }
}

/// One record as a pretty-printed JSON object, its `error` field written
/// only when the record carries a diagnostic.
pub open spec fn test_json(t: TTestView) -> Seq<char> {
    "{\n      \"title\": "@ + json_string(t.title) + ",\n      \"passed\": "@ + bool_text(t.passed)
        + (match t.error {
        Some(e) => ",\n      \"error\": "@ + json_string(e),
        None => Seq::<char>::empty(),
    }) + "\n    }"@
}

/// The records after the first, each behind an array separator.
pub open spec fn tests_json_tail(ts: Seq<TTestView>) -> Seq<char>
    decreases ts.len(),
{
    if ts.len() == 0 {
        Seq::empty()
    } else {
        ",\n    "@ + test_json(ts[0]) + tests_json_tail(ts.drop_first())
    }
}

/// The record array, pretty-printed; empty stays on one line.
pub open spec fn tests_json(ts: Seq<TTestView>) -> Seq<char> {
    if ts.len() == 0 {
        "[]"@
    } else {
        "[\n    "@ + test_json(ts[0]) + tests_json_tail(ts.drop_first()) + "\n  ]"@
    }
}

/// The whole report as pretty-printed JSON: verdict, the top-level `error`
/// only when one is present, then the records.
pub open spec fn report_json(r: TTestResponseView) -> Seq<char> {
    "{\n  \"passed\": "@ + bool_text(r.passed) + (match r.error {
        Some(e) => ",\n  \"error\": "@ + json_string(e),
        None => Seq::<char>::empty(),
    }) + ",\n  \"tests\": "@ + tests_json(r.tests) + "\n}"@
}

/// Escaping one more character appends its escape.
proof fn lemma_json_escape_push(s: Seq<char>, c: char)
    ensures
        json_escape(s.push(c)) == json_escape(s) + esc_char(c),
    decreases s.len(),
{
    if s.len() == 0 {
        assert(s.push(c)[0] == c);
        assert(s.push(c).drop_first() =~= Seq::<char>::empty());
        assert(json_escape(Seq::<char>::empty()) =~= Seq::<char>::empty());
        assert(json_escape(s.push(c)) =~= esc_char(c));
        assert(json_escape(s) + esc_char(c) =~= esc_char(c));
    } else {
        assert(s.push(c)[0] == s[0]);
        assert(s.push(c).drop_first() =~= s.drop_first().push(c));
        lemma_json_escape_push(s.drop_first(), c);
        assert(json_escape(s.push(c)) =~= json_escape(s) + esc_char(c));
    }
}

/// One more record extends the array's tail by one separator and object.
proof fn lemma_tests_json_tail_push(ts: Seq<TTestView>, t: TTestView)
    ensures
        tests_json_tail(ts.push(t)) == tests_json_tail(ts) + (",\n    "@ + test_json(t)),
    decreases ts.len(),
{
    if ts.len() == 0 {
        assert(ts.push(t)[0] == t);
        assert(ts.push(t).drop_first() =~= Seq::<TTestView>::empty());
        assert(tests_json_tail(Seq::<TTestView>::empty()) =~= Seq::<char>::empty());
        assert(tests_json_tail(ts.push(t)) =~= ",\n    "@ + test_json(t));
        assert(tests_json_tail(ts) + (",\n    "@ + test_json(t)) =~= ",\n    "@ + test_json(t));
    } else {
        assert(ts.push(t)[0] == ts[0]);
        assert(ts.push(t).drop_first() =~= ts.drop_first().push(t));
        lemma_tests_json_tail_push(ts.drop_first(), t);
        assert(tests_json_tail(ts.push(t)) =~= tests_json_tail(ts) + (",\n    "@ + test_json(t)));
    }
}

/// A one-character string for the hexadecimal digit `d`.
fn hex_digit_str(d: usize) -> (s: String)
    requires
        d < 16,
    ensures
        s@ == seq![hex_digit(d as nat)],
{
    if d < 10 {
        crate::strings::digit_string(d)
    } else if d == 10 {
        let s = String::from_str("a");
        proof {
            reveal_strlit("a");
            assert(s@ =~= seq![hex_digit(d as nat)]);
        }
        s
    } else if d == 11 {
        let s = String::from_str("b");
        proof {
            reveal_strlit("b");
            assert(s@ =~= seq![hex_digit(d as nat)]);
        }
        s
    } else if d == 12 {
        let s = String::from_str("c");
        proof {
            reveal_strlit("c");
            assert(s@ =~= seq![hex_digit(d as nat)]);
        }
        s
    } else if d == 13 {
        let s = String::from_str("d");
        proof {
            reveal_strlit("d");
            assert(s@ =~= seq![hex_digit(d as nat)]);
        }
        s
    } else if d == 14 {
        let s = String::from_str("e");
        proof {
            reveal_strlit("e");
            assert(s@ =~= seq![hex_digit(d as nat)]);
        }
        s
    } else {
        let s = String::from_str("f");
        proof {
            reveal_strlit("f");
            assert(s@ =~= seq![hex_digit(d as nat)]);
        }
        s
    }
}

/// Escapes a whole string slice.
fn json_escape_str(s: &str) -> (out: String)
    ensures
        out@ == json_escape(s@),
{
    let n = s.unicode_len();
    let mut out = String::new();
    proof {
        assert(s@.take(0) =~= Seq::<char>::empty());
    }
    let mut i: usize = 0;
    while i < n
        invariant
            i <= n,
            n == s@.len(),
            out@ == json_escape(s@.take(i as int)),
        decreases n - i,
    {
        let c = s.get_char(i);
        let ghost pre = out@;
        if c == '"' {
            out.append("\\\"");
            proof {
                reveal_strlit("\\\"");
                assert(out@ =~= pre + esc_char(c));
            }
        } else if c == '\\' {
            out.append("\\\\");
            proof {
                reveal_strlit("\\\\");
                assert(out@ =~= pre + esc_char(c));
            }
        } else if c == '\u{8}' {
            out.append("\\b");
            proof {
                reveal_strlit("\\b");
                assert(out@ =~= pre + esc_char(c));
            }
        } else if c == '\t' {
            out.append("\\t");
            proof {
                reveal_strlit("\\t");
                assert(out@ =~= pre + esc_char(c));
            }
        } else if c == '\n' {
            out.append("\\n");
            proof {
                reveal_strlit("\\n");
                assert(out@ =~= pre + esc_char(c));
            }
        } else if c == '\u{c}' {
            out.append("\\f");
            proof {
                reveal_strlit("\\f");
                assert(out@ =~= pre + esc_char(c));
            }
        } else if c == '\r' {
            out.append("\\r");
            proof {
                reveal_strlit("\\r");
                assert(out@ =~= pre + esc_char(c));
            }
        } else if (c as u32) < 0x20 {
            out.append("\\u00");
            let cu = c as u32;
            let hi = (cu / 16) as usize;
            let lo = (cu % 16) as usize;
            let hs = hex_digit_str(hi);
            out.append(hs.as_str());
            let ls = hex_digit_str(lo);
            out.append(ls.as_str());
            proof {
                reveal_strlit("\\u00");
                assert(out@ =~= pre + esc_char(c));
            }
        } else {
            let one = s.substring_char(i, i + 1);
            out.append(one);
            proof {
                assert(one@ =~= seq![c]);
                assert(esc_char(c) == seq![c]);
                assert(out@ =~= pre + esc_char(c));
            }
        }
        proof {
            lemma_json_escape_push(s@.take(i as int), c);
            assert(s@.take(i + 1) =~= s@.take(i as int).push(c));
            assert(out@ =~= json_escape(s@.take(i + 1)));
        }
        i = i + 1;
    }
    proof {
        assert(s@.take(n as int) =~= s@);
    }
    out
}

/// Writes a string slice as a JSON string literal.
fn json_string_str(s: &str) -> (out: String)
    ensures
        out@ == json_string(s@),
{
    let mut out = String::from_str("\"");
    let esc = json_escape_str(s);
    out.append(esc.as_str());
    out.append("\"");
    proof {
        reveal_strlit("\"");
        assert(("\"")@ =~= seq!['"']);
        assert(out@ =~= json_string(s@));
    }
    out
}

/// Writes one record as a pretty-printed JSON object.
fn test_json_str(t: &TTest) -> (out: String)
    ensures
        out@ == test_json(t@),
{
    let mut out = String::from_str("{\n      \"title\": ");
    let title = json_string_str(t.title.as_str());
    out.append(title.as_str());
    out.append(",\n      \"passed\": ");
    if t.passed {
        out.append("true");
    } else {
        out.append("false");
    }
    match &t.error {
        Some(e) => {
            out.append(",\n      \"error\": ");
            let es = json_string_str(e.as_str());
            out.append(es.as_str());
        },
        None => {},
    }
    out.append("\n    }");
    proof {
        assert(out@ =~= test_json(t@));
    }
    out
}

/// Writes the record array, pretty-printed.
fn tests_json_str(tests: &Vec<TTest>) -> (out: String)
    ensures
        out@ == tests_json(tests.deep_view()),
{
    let ghost dv = tests.deep_view();
    let n = tests.len();
    if n == 0 {
        let out = String::from_str("[]");
        return out;
    }
    let mut out = String::from_str("[\n    ");
    let first = test_json_str(&tests[0]);
    out.append(first.as_str());
    proof {
        assert(dv.subrange(1, 1) =~= Seq::<TTestView>::empty());
        assert(out@ =~= "[\n    "@ + test_json(dv[0]) + tests_json_tail(dv.subrange(1, 1)));
    }
    let mut i: usize = 1;
    while i < n
        invariant
            1 <= i <= n,
            n == tests@.len(),
            dv == tests.deep_view(),
            dv.len() == n,
            out@ == "[\n    "@ + test_json(dv[0]) + tests_json_tail(dv.subrange(1, i as int)),
        decreases n - i,
    {
        out.append(",\n    ");
        let item = test_json_str(&tests[i]);
        out.append(item.as_str());
        proof {
            lemma_tests_json_tail_push(dv.subrange(1, i as int), dv[i as int]);
            assert(dv.subrange(1, i + 1) =~= dv.subrange(1, i as int).push(dv[i as int]));
            assert(out@ =~= "[\n    "@ + test_json(dv[0]) + tests_json_tail(
                dv.subrange(1, i + 1),
            ));
        }
        i = i + 1;
    }
    out.append("\n  ]");
    proof {
        assert(dv.drop_first() =~= dv.subrange(1, n as int));
        assert(out@ =~= tests_json(dv));
    }
    out
}

impl TTestResponse {
    /// Writes the whole report as pretty-printed JSON, exactly as
    /// [`report_json`] lays it out.
    pub fn to_json_pretty(&self) -> (out: String)
        ensures
            out@ == report_json(self@),
    {
        let mut out = String::from_str("{\n  \"passed\": ");
        if self.passed {
            out.append("true");
        } else {
            out.append("false");
        }
        match &self.error {
            Some(e) => {
                out.append(",\n  \"error\": ");
                let es = json_string_str(e.as_str());
                out.append(es.as_str());
            },
            None => {},
        }
        out.append(",\n  \"tests\": ");
        let ts = tests_json_str(&self.tests);
        out.append(ts.as_str());
        out.append("\n}");
        proof {
            assert(out@ =~= report_json(self@));
        }
        out
    }
}

} // verus!
