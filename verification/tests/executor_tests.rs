use solana_runner::executor::{
    TestExecutor, compile_args, test_args, mirror_args, cargo_candidate, cargo_program,
    compile_gate, prepare_gate, lesson_not_found_response, after_test_run,
};
use solana_runner::types::{TEditorFile, TTestRequest};

fn request_with_files(files: Vec<TEditorFile>) -> TTestRequest {
    TTestRequest {
        runner: String::from("docker-runner"),
        request_type: Some(String::from("course")),
        course_slug: String::from("intro-to-solana"),
        lesson_slug: String::from("01-introduction"),
        files,
        image: None,
    }
}

#[test]
fn source_write_plan_places_files_under_src() {
    let req = request_with_files(vec![
        TEditorFile { path: String::from("lib.rs"), content: String::from("fn main() {}") },
        TEditorFile { path: String::from("util/helper.rs"), content: String::from("// helper") },
    ]);
    let exec = TestExecutor::new(String::from("/tmp/session_0001"), req);
    let plan = exec.source_write_plan();
    assert_eq!(plan.len(), 2);
    assert_eq!(plan[0].path, "/tmp/session_0001/src/lib.rs");
    assert_eq!(plan[0].content, "fn main() {}");
    assert_eq!(plan[1].path, "/tmp/session_0001/src/util/helper.rs");
    assert_eq!(plan[1].content, "// helper");
}

#[test]
fn compile_args_are_offline_build() {
    let args = compile_args();
    assert_eq!(args, vec![String::from("build-bpf"), String::from("--offline")]);
}

#[test]
fn test_args_run_one_worker_one_module_offline() {
    let args = test_args();
    assert_eq!(
        args,
        vec![
            String::from("test-sbf"),
            String::from("--jobs"),
            String::from("1"),
            String::from("--test"),
            String::from("lesson_tests"),
            String::from("--offline"),
        ]
    );
}

#[test]
fn mirror_args_copy_and_delete() {
    let args = mirror_args("/tmp/dummy-program/target/", "/tmp/session_0001/target/");
    assert_eq!(
        args,
        vec![
            String::from("-azi"),
            String::from("--delete"),
            String::from("/tmp/dummy-program/target/"),
            String::from("/tmp/session_0001/target/"),
        ]
    );
}

#[test]
fn cargo_program_prefers_home_launcher() {
    assert_eq!(cargo_candidate("/home/user"), "/home/user/.cargo/bin/cargo");
    assert_eq!(
        cargo_program(Some(String::from("/home/user")), true),
        "/home/user/.cargo/bin/cargo"
    );
    assert_eq!(cargo_program(Some(String::from("/home/user")), false), "cargo");
    assert_eq!(cargo_program(None, true), "cargo");
}

#[test]
fn compile_gate_aborts_on_failure() {
    assert!(compile_gate(true, "ExitStatus(unix_wait_status(0))").is_ok());
    let err = compile_gate(false, "ExitStatus(unix_wait_status(256))").unwrap_err();
    assert_eq!(err, "Failed to compile code; exit code = ExitStatus(unix_wait_status(256))");
}

#[test]
fn prepare_gate_aborts_on_failure() {
    assert!(prepare_gate(true, "ExitStatus(unix_wait_status(0))").is_ok());
    let err = prepare_gate(false, "ExitStatus(unix_wait_status(512))").unwrap_err();
    assert_eq!(
        err,
        "Failed to prepare working directory with dummy project; exit code = ExitStatus(unix_wait_status(512))"
    );
}

#[test]
fn missing_lesson_is_reported() {
    let r = lesson_not_found_response("99-missing");
    assert!(!r.passed);
    assert_eq!(r.error.as_deref(), Some("Lesson not found: 99-missing"));
    assert!(r.tests.is_empty());
}

#[test]
fn after_test_run_parses_sorts_and_aggregates() {
    let lines: Vec<String> = vec![
        String::from("test zeta ... ok"),
        String::from("test beta ... FAILED"),
        String::from("---- beta stdout ----"),
        String::from("assertion failed: expected 3 to equal 1"),
        String::from(""),
        String::from("test alpha ... ok"),
    ];
    let r = after_test_run(&lines);
    assert!(!r.passed);
    assert_eq!(r.error.as_deref(), Some("1 of 3 tests failed"));
    let titles: Vec<&str> = r.tests.iter().map(|t| t.title.as_str()).collect();
    assert_eq!(titles, vec!["alpha", "beta", "zeta"]);
    assert_eq!(r.tests[1].error.as_deref(), Some("assertion failed: expected 3 to equal 1\n"));
}

#[test]
fn after_test_run_with_no_records_reports_harness_failure() {
    let lines: Vec<String> = vec![String::from("   Compiling lesson v0.1.0")];
    let r = after_test_run(&lines);
    assert!(!r.passed);
    assert_eq!(r.error.as_deref(), Some("No tests executed."));
}
