//! What a probe reports for one attempt, and the record kept for each
//! endpoint once its checking is over.

use vstd::prelude::*;

verus! {

/// The result of a single probe of an endpoint.
///
/// Any response counts as a success, whatever its status code: a probe
/// measures whether the endpoint can be reached, not whether it is
/// healthy.
#[derive(Debug, Clone, PartialEq, Eq)]
pub enum AttemptOutcome {
    /// A response arrived; the value is its status code.
    Success(u16),
    /// No response arrived; the value describes the cause.
    Failure(String),
}

/// An [`AttemptOutcome`] as a mathematical value.
pub enum AttemptView {
    Success(u16),
    Failure(Seq<char>),
}

impl View for AttemptOutcome {
    type V = AttemptView;

    open spec fn view(&self) -> AttemptView {
        match self {
            AttemptOutcome::Success(code) => AttemptView::Success(*code),
            AttemptOutcome::Failure(description) => AttemptView::Failure(description@),
        }
    }
}

/// The views of a sequence of outcomes, one for one.
pub open spec fn attempt_views(outcomes: Seq<AttemptOutcome>) -> Seq<AttemptView> {
    Seq::new(outcomes.len(), |i: int| outcomes[i]@)
}

/// A point in time: whole seconds since the Unix epoch, and the
/// nanoseconds into that second.
#[derive(Debug, Clone, Copy, PartialEq, Eq)]
pub struct Timestamp {
    pub secs: i64,
    pub nanos: u32,
}

/// The terminal record for one endpoint.
#[derive(Debug, PartialEq, Eq)]
pub struct CheckResult {
    /// The endpoint that was checked.
    pub endpoint: String,
    /// The status code of the attempt that succeeded, or the message that
    /// sums up the last failure.
    pub outcome: Result<u16, String>,
    /// Milliseconds from the start of the first attempt to the terminal
    /// outcome.
    pub elapsed_millis: u128,
    /// When the checking of this endpoint began.
    pub observed_at: Timestamp,
}

/// A [`CheckResult`] as a mathematical value.
pub struct CheckResultView {
    pub endpoint: Seq<char>,
    pub outcome: Result<u16, Seq<char>>,
    pub elapsed_millis: nat,
    pub observed_at: Timestamp,
}

impl View for CheckResult {
    type V = CheckResultView;

    open spec fn view(&self) -> CheckResultView {
        CheckResultView {
            endpoint: self.endpoint@,
            outcome: match self.outcome {
                Ok(code) => Ok(code),
                Err(message) => Err(message@),
            },
            elapsed_millis: self.elapsed_millis as nat,
            observed_at: self.observed_at,
        }
    }
}

impl CheckResult {
    /// Whether the endpoint answered within its retry budget.
    pub fn is_ok(&self) -> (ok: bool)
        ensures
            ok == (self@.outcome is Ok),
    {
        self.outcome.is_ok()
    }
}

} // verus!
