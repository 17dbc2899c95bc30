use solana_runner::parse::test_results_from_stdout;

fn lines(v: &[&str]) -> Vec<String> {
    v.iter().map(|s| String::from(*s)).collect()
}

#[test]
fn parse_ok_line() {
    let out = test_results_from_stdout(&lines(&["test foo ... ok"]));
    assert_eq!(out.len(), 1);
    assert_eq!(out[0].title, "foo");
    assert!(out[0].passed);
    assert!(out[0].error.is_none());
}

#[test]
fn parse_diagnostic_block() {
    let out = test_results_from_stdout(&lines(&[
        "---- bar stdout ----",
        "thread panicked",
        "assertion failed: left != right",
        "",
    ]));
    assert_eq!(out.len(), 1);
    assert_eq!(out[0].title, "bar");
    assert!(!out[0].passed);
    let diag = out[0].error.as_ref().unwrap();
    assert!(diag.contains("assertion failed: left != right"));
    assert!(!diag.contains("thread panicked"));
    assert_eq!(diag, "assertion failed: left != right\n");
}

#[test]
fn parse_failed_line_alone_yields_nothing() {
    let out = test_results_from_stdout(&lines(&["test baz ... FAILED"]));
    assert_eq!(out.len(), 0);
}

#[test]
fn parse_unknown_result_token_ignored() {
    let out = test_results_from_stdout(&lines(&["test baz ... ignored", "test ok_one ... ok"]));
    assert_eq!(out.len(), 1);
    assert_eq!(out[0].title, "ok_one");
}

#[test]
fn parse_block_without_blank_line_is_dropped() {
    let out = test_results_from_stdout(&lines(&[
        "---- gone stdout ----",
        "assertion failed: 1 == 2",
    ]));
    assert_eq!(out.len(), 0);
}

#[test]
fn parse_new_block_discards_open_one() {
    let out = test_results_from_stdout(&lines(&[
        "---- first stdout ----",
        "assert one",
        "---- second stdout ----",
        "assert two",
        "",
    ]));
    assert_eq!(out.len(), 1);
    assert_eq!(out[0].title, "second");
    assert_eq!(out[0].error.as_deref(), Some("assert two\n"));
}

#[test]
fn parse_block_with_no_assert_lines_has_empty_diagnostic() {
    let out = test_results_from_stdout(&lines(&[
        "---- quiet stdout ----",
        "some noise",
        "",
    ]));
    assert_eq!(out.len(), 1);
    assert_eq!(out[0].title, "quiet");
    assert!(!out[0].passed);
    assert_eq!(out[0].error.as_deref(), Some(""));
}

#[test]
fn parse_blank_line_outside_block_is_noop() {
    let out = test_results_from_stdout(&lines(&["", "test t1 ... ok", ""]));
    assert_eq!(out.len(), 1);
    assert_eq!(out[0].title, "t1");
}

#[test]
fn parse_repeated_markers_are_stripped() {
    let out = test_results_from_stdout(&lines(&["---- ---- deep stdout ----", ""]));
    assert_eq!(out.len(), 1);
    assert_eq!(out[0].title, "deep");
}

#[test]
fn parse_result_line_during_block_keeps_state() {
    let out = test_results_from_stdout(&lines(&[
        "---- failing stdout ----",
        "test other ... ok",
        "assertion failed: boom",
        "",
    ]));
    assert_eq!(out.len(), 2);
    assert_eq!(out[0].title, "other");
    assert!(out[0].passed);
    assert_eq!(out[1].title, "failing");
    assert_eq!(out[1].error.as_deref(), Some("assertion failed: boom\n"));
}

#[test]
fn parse_mixed_stream_in_order() {
    let out = test_results_from_stdout(&lines(&[
        "   Compiling lesson v0.1.0",
        "running 3 tests",
        "test alpha ... ok",
        "test beta ... FAILED",
        "failures:",
        "---- beta stdout ----",
        "thread 'beta' panicked",
        "assertion failed: `(left == right)`",
        "",
        "test gamma ... ok",
    ]));
    assert_eq!(out.len(), 3);
    assert_eq!(out[0].title, "alpha");
    assert_eq!(out[1].title, "beta");
    assert!(!out[1].passed);
    assert_eq!(out[1].error.as_deref(), Some("assertion failed: `(left == right)`\n"));
    assert_eq!(out[2].title, "gamma");
}
