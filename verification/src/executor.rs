//! The grading session's decisions: where the submitted files go, how the
//! toolchain is invoked, the hard gate after the compile step, and the report
//! assembled from the test step's output.
//!
//! The commands themselves, and all filesystem work, run outside the library;
//! what stands here decides, from plain values, what to run and what each
//! outcome means for the invocation.

use vstd::prelude::*;
use vstd::string::*;

use crate::parse::{spec_parse, test_results_from_stdout};
use crate::report::aggregated;
use crate::types::{TEditorFile, TTestRequest, TTestResponse, TTestResponseView};

verus! {

/// One grading session: the workspace directory it builds in and the request
/// it grades.
pub struct TestExecutor {
    pub dir: String,
    pub test_request: TTestRequest,
}

/// The top-level message when the compile step fails.
pub open spec fn compile_failed_message(status: Seq<char>) -> Seq<char> {
    "Failed to compile code; exit code = "@ + status
}

/// The top-level message when seeding the dependency cache fails.
pub open spec fn prepare_failed_message(status: Seq<char>) -> Seq<char> {
    "Failed to prepare working directory with dummy project; exit code = "@ + status
}

/// The top-level message when no lesson carries the requested slug.
pub open spec fn lesson_not_found_message(slug: Seq<char>) -> Seq<char> {
    "Lesson not found: "@ + slug
}

impl TestExecutor {
    /// A session building in `dir`, grading `test_request`.
    pub fn new(dir: String, test_request: TTestRequest) -> (e: Self)
        ensures
            e.dir == dir,
            e.test_request == test_request,
    {
        Self { dir, test_request }
    }

    /// Where each submitted file is written: its request path placed under
    /// the workspace's fixed source subdirectory, with its content unchanged.
    pub fn source_write_plan(&self) -> (plan: Vec<TEditorFile>)
        ensures
            plan@.len() == self.test_request.files@.len(),
            forall|i: int|
                0 <= i < plan@.len() ==> (#[trigger] plan@[i]).path@ == self.dir@ + "/src/"@
                    + self.test_request.files@[i].path@ && plan@[i].content@
                    == self.test_request.files@[i].content@,
    {
        let files = &self.test_request.files;
        let n = files.len();
        let mut plan: Vec<TEditorFile> = Vec::new();
        let mut i: usize = 0;
        while i < n
            invariant
                i <= n,
                n == files@.len(),
                plan@.len() == i,
                forall|k: int|
                    0 <= k < i ==> (#[trigger] plan@[k]).path@ == self.dir@ + "/src/"@
                        + files@[k].path@ && plan@[k].content@ == files@[k].content@,
            decreases n - i,
        {
            let f = &files[i];
            let mut path = self.dir.clone();
            path.append("/src/");
            path.append(f.path.as_str());
            let content = f.content.clone();
            plan.push(TEditorFile { path, content });
            i = i + 1;
        }
        plan
    }
}

/// The build command's arguments: the toolchain's build step, offline.
pub fn compile_args() -> (args: Vec<String>)
    ensures
        args@.len() == 2,
        args@[0]@ == "build-bpf"@,
        args@[1]@ == "--offline"@,
{
    let mut v: Vec<String> = Vec::new();
    v.push(String::from_str("build-bpf"));
    v.push(String::from_str("--offline"));
    v
}

/// The test command's arguments: the toolchain's test step, one worker, the
/// single lesson test module, offline.
pub fn test_args() -> (args: Vec<String>)
    ensures
        args@.len() == 6,
        args@[0]@ == "test-sbf"@,
        args@[1]@ == "--jobs"@,
        args@[2]@ == "1"@,
        args@[3]@ == "--test"@,
        args@[4]@ == "lesson_tests"@,
        args@[5]@ == "--offline"@,
{
    let mut v: Vec<String> = Vec::new();
    v.push(String::from_str("test-sbf"));
    v.push(String::from_str("--jobs"));
    v.push(String::from_str("1"));
    v.push(String::from_str("--test"));
    v.push(String::from_str("lesson_tests"));
    v.push(String::from_str("--offline"));
    v
}

/// The arguments of the one-way mirror that seeds a fresh workspace's
/// dependency cache from the shared baseline: archive mode, deleting whatever
/// the destination holds that the source does not.
pub fn mirror_args(source: &str, dest: &str) -> (args: Vec<String>)
    ensures
        args@.len() == 4,
        args@[0]@ == "-azi"@,
        args@[1]@ == "--delete"@,
        args@[2]@ == source@,
        args@[3]@ == dest@,
{
    let mut v: Vec<String> = Vec::new();
    v.push(String::from_str("-azi"));
    v.push(String::from_str("--delete"));
    v.push(String::from_str(source));
    v.push(String::from_str(dest));
    v
}

/// The path of the user-local toolchain launcher under a home directory.
pub fn cargo_candidate(home: &str) -> (p: String)
    ensures
        p@ == home@ + "/.cargo/bin/cargo"@,
{
    let mut p = String::from_str(home);
    p.append("/.cargo/bin/cargo");
    p
}

/// Which program runs the toolchain: the user-local launcher when the home
/// directory is known and that launcher is a file, the one on the search
/// path otherwise.
pub fn cargo_program(home: Option<String>, candidate_is_file: bool) -> (p: String)
    ensures
        p@ == (match home {
            Some(h) => if candidate_is_file {
                h@ + "/.cargo/bin/cargo"@
            } else {
                "cargo"@
            },
            None => "cargo"@,
        }),
{
    match home {
        Some(h) => {
            if candidate_is_file {
                cargo_candidate(h.as_str())
            } else {
                String::from_str("cargo")
            }
        },
        None => String::from_str("cargo"),
    }
}

/// Gate for the cache seed result: on failure the report carries this
/// step's message.
pub fn prepare_gate(success: bool, status_text: &str) -> (r: Result<(), String>)
    ensures
        match r {
            Ok(u) => success,
            Err(m) => !success && m@ == prepare_failed_message(status_text@),
        },
{
    if success {
        Ok(())
    } else {
        let mut m = String::from_str("Failed to prepare working directory with dummy project; exit code = ");
        m.append(status_text);
        Err(m)
    }
}

/// The hard gate after the compile step: a non-zero exit aborts the whole
/// invocation with its exact message, and the test step is never attempted;
/// a zero exit lets the invocation continue.
pub fn compile_gate(success: bool, status_text: &str) -> (r: Result<(), String>)
    ensures
        match r {
            Ok(u) => success,
            Err(m) => !success && m@ == compile_failed_message(status_text@),
        },
{
    if success {
        Ok(())
    } else {
        let mut m = String::from_str("Failed to compile code; exit code = ");
        m.append(status_text);
        Err(m)
    }
}

/// The report for a request naming a slug the catalog does not hold.
pub fn lesson_not_found_response(lesson_slug: &str) -> (r: TTestResponse)
    ensures
        r@ == (TTestResponseView {
            passed: false,
            error: Some(lesson_not_found_message(lesson_slug@)),
            tests: Seq::empty(),
        }),
{
    let mut m = String::from_str("Lesson not found: ");
    m.append(lesson_slug);
    TTestResponse::error(m)
}

/// The report after the test step: its stdout lines are parsed into records
/// and aggregated, whatever the step's exit status was — a failing test run
/// still surfaces every record that could be recovered.
pub fn after_test_run(stdout_lines: &Vec<String>) -> (r: TTestResponse)
    ensures
        aggregated(spec_parse(stdout_lines.deep_view()), r@),
{
    let records = test_results_from_stdout(stdout_lines);
    TTestResponse::from_tests(records)
}

} // verus!
