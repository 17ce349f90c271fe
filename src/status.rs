//! The lifecycle of a step and the outcome of running it.
use vstd::prelude::*;

verus! {

/// What running a step's action produced: an optional output and an
/// optional error. No error means the step passed.
#[derive(Clone, Debug)]
pub struct Outcome {
    pub output: Option<String>,
    pub error: Option<String>,
}

/// The lifecycle state of a step.
#[derive(Clone, Debug)]
pub enum Status {
    Outstanding,
    InProgress,
    Completed(Outcome),
}

/// The error recorded for a step whose dependency failed.
pub open spec fn dependency_error() -> Seq<char> {
    "Dependency not met"@
}

impl Outcome {
    pub open spec fn passed_spec(&self) -> bool {
        self.error is None
    }

    /// Whether the action succeeded.
    pub fn passed(&self) -> (r: bool)
        ensures
            r == self.passed_spec(),
    {
        self.error.is_none()
    }

    /// The outcome of a step that was not run because a dependency failed.
    pub fn dependency_failure() -> (r: Outcome)
        ensures
            r.output is None,
            r.error is Some,
            r.error->Some_0@ == dependency_error(),
    {
        Outcome { output: None, error: Some(String::from_str("Dependency not met")) }
    }
}

impl Status {
    pub open spec fn is_completed_spec(&self) -> bool {
        self is Completed
    }

    /// A completed step whose outcome passed.
    pub open spec fn is_passed_spec(&self) -> bool {
        match self {
            Status::Completed(o) => o.passed_spec(),
            _ => false,
        }
    }

    /// A completed step whose outcome failed.
    pub open spec fn is_failed_spec(&self) -> bool {
        match self {
            Status::Completed(o) => !o.passed_spec(),
            _ => false,
        }
    }

    /// Whether the step reached its terminal state.
    pub fn is_completed(&self) -> (r: bool)
        ensures
            r == self.is_completed_spec(),
    {
        match self {
            Status::Completed(_) => true,
            _ => false,
        }
    }

    /// Whether the step has been neither dispatched nor completed.
    pub fn is_outstanding(&self) -> (r: bool)
        ensures
            r == (*self is Outstanding),
    {
        match self {
            Status::Outstanding => true,
            _ => false,
        }
    }
}

} // verus!
