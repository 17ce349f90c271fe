//! The reported form of a finished step, and the payload that carries all
//! results of a run to a webhook.
use crate::status::{Outcome, Status};
use vstd::prelude::*;

verus! {

/// A step after the run: what the report needs of it.
pub struct Step {
    pub name: String,
    pub description: Option<String>,
    /// Whether the step's output is reported.
    pub do_output: bool,
    /// The outcome of the step; `None` when it never finished.
    pub outcome: Option<Outcome>,
    /// How long the step took, in milliseconds.
    pub duration_ms: u64,
}

/// The flat, reported form of a finished step.
#[derive(Clone, Debug)]
pub struct StepResult {
    pub name: String,
    pub description: Option<String>,
    pub pass: bool,
    pub output: String,
    pub error: Option<String>,
    /// Milliseconds.
    pub duration: u64,
}

/// The error reported for a step that never finished.
pub open spec fn unfinished_error() -> Seq<char> {
    "Not finished"@
}

/// The output reported for an outcome.
pub open spec fn reported_output(do_output: bool, o: Outcome) -> Seq<char> {
    if do_output && o.output is Some {
        o.output->Some_0@
    } else {
        Seq::empty()
    }
}

impl Status {
    /// The outcome of a completed step, `None` for any other.
    pub fn outcome(self) -> (r: Option<Outcome>)
        ensures
            self matches Status::Completed(o) ==> r == Some(o),
            !(self is Completed) ==> r is None,
    {
        match self {
            Status::Completed(o) => Some(o),
            _ => None,
        }
    }
}

impl StepResult {
    /// Projects a step to its result. A step with an outcome passes when
    /// the outcome has no error, reports that error, and reports its output
    /// only when `do_output` is set (empty when there is none). A step
    /// without an outcome fails with the error "Not finished".
    pub fn from(step: Step) -> (r: StepResult)
        ensures
            r.name == step.name,
            r.description == step.description,
            r.duration == step.duration_ms,
            r.pass == (step.outcome matches Some(o) && o.error is None),
            step.outcome matches Some(o) ==> {
                &&& r.error == o.error
                &&& r.output@ == reported_output(step.do_output, o)
            },
            step.outcome is None ==> {
                &&& r.output@ == Seq::<char>::empty()
                &&& r.error is Some
                &&& r.error->Some_0@ == unfinished_error()
            },
    {
        let duration = step.duration_ms;
        let name = step.name;
        let description = step.description;
        let (pass, output, error) = match step.outcome {
            Some(outcome) => {
                let output = if step.do_output {
                    match outcome.output {
                        Some(text) => text,
                        None => String::new(),
                    }
                } else {
                    String::new()
                };
                let pass = outcome.error.is_none();
                (pass, output, outcome.error)
            },
            None => (false, String::new(), Some(String::from_str("Not finished"))),
        };
        StepResult { name, description, pass, output, error, duration }
    }
}

/// Whether any result in `tests` failed.
pub open spec fn any_failed(tests: Seq<StepResult>) -> bool {
    exists|i: int| 0 <= i < tests.len() && !(#[trigger] tests[i]).pass
}

/// What is sent to a webhook after a run: the origin, whether anything
/// failed, and every result.
#[derive(Clone, Debug)]
pub struct WebHook {
    pub hostname: String,
    pub has_errors: bool,
    pub tests: Vec<StepResult>,
}

/// Whether any of the results failed.
pub fn has_errors(results: &Vec<StepResult>) -> (r: bool)
    ensures
        r == any_failed(results@),
{
    let mut i: usize = 0;
    while i < results.len()
        invariant
            i <= results@.len(),
            forall|j: int| 0 <= j < i ==> (#[trigger] results@[j]).pass,
        decreases results.len() - i,
    {
        if !results[i].pass {
            return true;
        }
        i = i + 1;
    }
    false
}

impl WebHook {
    /// The payload for `tests`, sent from `hostname`.
    pub fn new(hostname: String, tests: Vec<StepResult>) -> (r: WebHook)
        ensures
            r.hostname == hostname,
            r.tests@ == tests@,
            r.has_errors == any_failed(tests@),
    {
        let has_errors = has_errors(&tests);
        WebHook { hostname, has_errors, tests }
    }
}

} // verus!
