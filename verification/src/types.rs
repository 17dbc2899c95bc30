//! The data carried through the grading pipeline: one test's outcome, the
//! aggregated report, and the incoming grading request.

use vstd::prelude::*;

verus! {

/// One test's final outcome: its title, whether it passed, and, for a failed
/// test, the diagnostic text collected from the toolchain's output.
pub struct TTest {
    pub title: String,
    pub passed: bool,
    pub error: Option<String>,
}

/// Mathematical value of a [`TTest`]: the same fields over `Seq<char>`.
#[verifier::ext_equal]
pub struct TTestView {
    pub title: Seq<char>,
    pub passed: bool,
    pub error: Option<Seq<char>>,
}

impl View for TTest {
    type V = TTestView;

    open spec fn view(&self) -> TTestView {
        TTestView {
            title: self.title@,
            passed: self.passed,
            error: match self.error {
                Some(e) => Some(e@),
                None => None,
            },
        }
    }
}

impl DeepView for TTest {
    type V = TTestView;

    open spec fn deep_view(&self) -> TTestView {
        self.view()
    }
}

impl TTest {
    /// A record for a test that passed; it carries no diagnostic.
    pub fn ok(title: String) -> (t: TTest)
        ensures
            t@ == (TTestView { title: title@, passed: true, error: None }),
    {
        TTest { title, passed: true, error: None }
    }

    /// A record for a test that failed, with the diagnostic text explaining why.
    pub fn error(title: String, error: String) -> (t: TTest)
        ensures
            t@ == (TTestView { title: title@, passed: false, error: Some(error@) }),
    {
        TTest { title, passed: false, error: Some(error) }
    }
}

/// The aggregated report for one grading invocation: the overall verdict, an
/// optional top-level error message, and the per-test records.
pub struct TTestResponse {
    pub passed: bool,
    pub error: Option<String>,
    pub tests: Vec<TTest>,
}

/// Mathematical value of a [`TTestResponse`].
#[verifier::ext_equal]
pub struct TTestResponseView {
    pub passed: bool,
    pub error: Option<Seq<char>>,
    pub tests: Seq<TTestView>,
}

impl View for TTestResponse {
    type V = TTestResponseView;

    open spec fn view(&self) -> TTestResponseView {
        TTestResponseView {
            passed: self.passed,
            error: match self.error {
                Some(e) => Some(e@),
                None => None,
            },
            tests: self.tests.deep_view(),
        }
    }
}

impl DeepView for TTestResponse {
    type V = TTestResponseView;

    open spec fn deep_view(&self) -> TTestResponseView {
        self.view()
    }
}

impl TTestResponse {
    /// A report for an invocation that could not run any tests: the message
    /// says why, the verdict is a failure, and there are no records.
    pub fn error(error: String) -> (r: TTestResponse)
        ensures
            r@ == (TTestResponseView { passed: false, error: Some(error@), tests: Seq::empty() }),
    {
        let r = TTestResponse { passed: false, error: Some(error), tests: Vec::new() };
        proof {
            assert(r@.tests =~= Seq::<TTestView>::empty());
            assert(r@ =~= (TTestResponseView {
                passed: false,
                error: r@.error,
                tests: Seq::empty(),
            }));
        }
        r
    }
}

/// One submitted source file: where it goes under the workspace's source
/// directory, and what it holds.
pub struct TEditorFile {
    pub path: String,
    pub content: String,
}

/// A grading request as the endpoint hands it to the pipeline: which runner
/// and lesson it is for, and the submitted files.
pub struct TTestRequest {
    pub runner: String,
    pub request_type: Option<String>,
    pub course_slug: String,
    pub lesson_slug: String,
    pub files: Vec<TEditorFile>,
    pub image: Option<String>,
}

} // verus!
