//! Checking one endpoint: probe it, and probe it again after each failure
//! until an attempt succeeds or the retry budget is spent.

use vstd::prelude::*;
use vstd::string::StringExecFns;
use crate::clock::now_utc;
use crate::outcome::{AttemptOutcome, AttemptView, CheckResult, CheckResultView, attempt_views};
use crate::text::{decimal, digits_value, lemma_decimal_round_trip, push_decimal};
use std::time::Instant;

verus! {

/// The message of an endpoint whose retry budget is spent: it names the
/// budget and ends with the description of the last failure.
pub open spec fn failure_message(max_retries: nat, description: Seq<char>) -> Seq<char> {
    "Error after "@ + decimal(max_retries) + " retries: "@ + description
}

/// What follows an attempt, given how many attempts failed before it.
pub enum RetryStep {
    /// The attempt failed and the budget allows another.
    Retry,
    /// The endpoint has its terminal outcome.
    Done(Result<u16, String>),
}

/// A [`RetryStep`] as a mathematical value.
pub enum RetryStepView {
    Retry,
    Done(Result<u16, Seq<char>>),
}

impl View for RetryStep {
    type V = RetryStepView;

    open spec fn view(&self) -> RetryStepView {
        match self {
            RetryStep::Retry => RetryStepView::Retry,
            RetryStep::Done(Ok(code)) => RetryStepView::Done(Ok(*code)),
            RetryStep::Done(Err(message)) => RetryStepView::Done(Err(message@)),
        }
    }
}

/// The step that follows `outcome` when `failures` attempts have failed
/// before it: a success ends the checking with its code; a failure ends it
/// with the failure message once it is failure number `max_retries + 1`,
/// and calls for another attempt before that.
pub open spec fn step_after(failures: nat, max_retries: nat, outcome: AttemptView) -> RetryStepView {
    match outcome {
        AttemptView::Success(code) => RetryStepView::Done(Ok(code)),
        AttemptView::Failure(description) => if failures + 1 > max_retries {
            RetryStepView::Done(Err(failure_message(max_retries, description)))
        } else {
            RetryStepView::Retry
        },
    }
}

/// Whether `outcomes` can be the attempts made for one endpoint, from the
/// first to the last: at least one and at most `max_retries + 1`, every one
/// but the last a failure, and the last either a success or attempt number
/// `max_retries + 1`.
pub open spec fn is_complete_run(outcomes: Seq<AttemptView>, max_retries: nat) -> bool {
    &&& 1 <= outcomes.len() <= max_retries + 1
    &&& forall|i: int| 0 <= i < outcomes.len() - 1 ==> #[trigger] outcomes[i] is Failure
    &&& (outcomes.last() is Success || outcomes.len() == max_retries + 1)
}

/// The terminal outcome of a complete run: the code of the last attempt if
/// it succeeded, the failure message built from it if it did not.
pub open spec fn terminal_outcome(outcomes: Seq<AttemptView>, max_retries: nat) -> Result<
    u16,
    Seq<char>,
>
    recommends
        outcomes.len() > 0,
{
    match outcomes.last() {
        AttemptView::Success(code) => Ok(code),
        AttemptView::Failure(description) => Err(failure_message(max_retries, description)),
    }
}

/// The retry state of one endpoint: its budget and the failures so far.
#[derive(Debug, Clone, Copy, PartialEq, Eq)]
pub struct RetryExecutor {
    max_retries: u32,
    failures: u32,
}

impl RetryExecutor {
    /// The retry budget.
    pub closed spec fn budget(&self) -> nat {
        self.max_retries as nat
    }

    /// The number of attempts that have failed so far.
    pub closed spec fn failed(&self) -> nat {
        self.failures as nat
    }

    #[verifier::type_invariant]
    spec fn within_budget(&self) -> bool {
        self.failures <= self.max_retries
    }

    /// The state before the first attempt.
    pub fn new(max_retries: u32) -> (executor: RetryExecutor)
        ensures
            executor.budget() == max_retries,
            executor.failed() == 0,
    {
        RetryExecutor { max_retries, failures: 0 }
    }

    /// Takes in the outcome of the attempt just made and says what follows.
    /// After `Retry` one more failure is on record; after `Done` the state
    /// is as it was.
    pub fn on_outcome(&mut self, outcome: AttemptOutcome) -> (step: RetryStep)
        ensures
            step@ == step_after(old(self).failed(), old(self).budget(), outcome@),
            final(self).budget() == old(self).budget(),
            final(self).failed() == if step is Retry {
                old(self).failed() + 1
            } else {
                old(self).failed()
            },
            final(self).failed() <= final(self).budget(),
    {
        proof {
            use_type_invariant(&*self);
        }
        match outcome {
            AttemptOutcome::Success(code) => RetryStep::Done(Ok(code)),
            AttemptOutcome::Failure(description) => {
                if self.failures >= self.max_retries {
                    let mut message = "Error after ".to_owned();
                    push_decimal(&mut message, self.max_retries as u64);
                    message.append(" retries: ");
                    message.append(description.as_str());
                    RetryStep::Done(Err(message))
                } else {
                    self.failures = self.failures + 1;
                    RetryStep::Retry
                }
            },
        }
    }
}

/// Whether `probe` may be called on the endpoint `url` with this timeout.
pub open spec fn probe_accepts<P: Fn(&str, u64) -> AttemptOutcome>(
    probe: &P,
    url: Seq<char>,
    timeout_secs: u64,
) -> bool {
    forall|s: &str| s@ == url ==> #[trigger] probe.requires((s, timeout_secs))
}

/// Whether `outcome` is a possible answer of `probe` for the endpoint `url`
/// with this timeout.
pub open spec fn probe_answers<P: Fn(&str, u64) -> AttemptOutcome>(
    probe: &P,
    url: Seq<char>,
    timeout_secs: u64,
    outcome: AttemptOutcome,
) -> bool {
    exists|s: &str| s@ == url && #[trigger] probe.ensures((s, timeout_secs), outcome)
}

/// Whether `status` is a terminal record of checking the endpoint `url`
/// with `probe`: it names the endpoint, and its outcome is the terminal
/// outcome of some complete run for the budget, each attempt of which is an
/// answer of `probe` for this endpoint and timeout.
pub open spec fn is_check_of<P: Fn(&str, u64) -> AttemptOutcome>(
    status: CheckResultView,
    url: Seq<char>,
    timeout_secs: u64,
    max_retries: nat,
    probe: &P,
) -> bool {
    &&& status.endpoint == url
    &&& exists|outcomes: Seq<AttemptOutcome>|
        {
            &&& is_complete_run(#[trigger] attempt_views(outcomes), max_retries)
            &&& forall|i: int|
                0 <= i < outcomes.len() ==> probe_answers(
                    probe,
                    url,
                    timeout_secs,
                    #[trigger] outcomes[i],
                )
            &&& status.outcome == terminal_outcome(attempt_views(outcomes), max_retries)
        }
}

/// Checks one endpoint: calls `probe` on it until an attempt succeeds or
/// `max_retries + 1` attempts have failed, one straight after the other,
/// and returns the terminal record.
///
/// The elapsed time and the timestamp of the record are readings of the
/// clocks, of which nothing is known.
pub fn check_website<P: Fn(&str, u64) -> AttemptOutcome>(
    url: &str,
    timeout_secs: u64,
    max_retries: u32,
    probe: &P,
) -> (status: CheckResult)
    requires
        probe.requires((url, timeout_secs)),
    ensures
        is_check_of(status@, url@, timeout_secs, max_retries as nat, probe),
{
    let start = Instant::now();
    let now = now_utc();
    let mut executor = RetryExecutor::new(max_retries);
    let ghost mut outcomes: Seq<AttemptOutcome> = Seq::empty();
    loop
        invariant
            probe.requires((url, timeout_secs)),
            executor.budget() == max_retries,
            executor.failed() == outcomes.len(),
            executor.failed() <= executor.budget(),
            forall|i: int| 0 <= i < outcomes.len() ==> #[trigger] outcomes[i]@ is Failure,
            forall|i: int|
                0 <= i < outcomes.len() ==> probe_answers(
                    probe,
                    url@,
                    timeout_secs,
                    #[trigger] outcomes[i],
                ),
        decreases executor.budget() - executor.failed(),
    {
        let outcome = probe(url, timeout_secs);
        proof {
            assert(probe_answers(probe, url@, timeout_secs, outcome));
            outcomes = outcomes.push(outcome);
        }
        match executor.on_outcome(outcome) {
            RetryStep::Retry => {},
            RetryStep::Done(terminal) => {
                let status = CheckResult {
                    endpoint: url.to_owned(),
                    outcome: terminal,
                    elapsed_millis: start.elapsed().as_millis(),
                    observed_at: now,
                };
                proof {
                    let views = attempt_views(outcomes);
                    assert(views.last() == outcomes.last()@);
                    assert forall|i: int| 0 <= i < views.len() - 1 implies #[trigger] views[i]
                        is Failure by {
                        assert(outcomes[i]@ is Failure);
                    }
                    assert(is_complete_run(views, max_retries as nat));
                    assert(status@.outcome == terminal_outcome(views, max_retries as nat));
                }
                return status;
            },
        }
    }
}

/// An endpoint as the retry loop meets it: its answer to attempt number
/// `k`, counted from zero.
pub type Responder = spec_fn(nat) -> AttemptView;

/// The number of the last attempt made against `responder` when attempts
/// `0` to `k - 1` have failed, plus one.
pub open spec fn attempts_from(responder: Responder, k: nat, max_retries: nat) -> nat
    decreases max_retries - k,
{
    if k >= max_retries || responder(k) is Success {
        k + 1
    } else {
        attempts_from(responder, k + 1, max_retries)
    }
}

/// How many attempts are made against `responder`: up to and with its
/// first success, and `max_retries + 1` if none of those succeeds.
pub open spec fn attempts_made(responder: Responder, max_retries: nat) -> nat {
    attempts_from(responder, 0, max_retries)
}

/// The attempts made against `responder`, in order.
pub open spec fn run_against(responder: Responder, max_retries: nat) -> Seq<AttemptView> {
    Seq::new(attempts_made(responder, max_retries), |i: int| responder(i as nat))
}

proof fn lemma_attempts_from(responder: Responder, k: nat, max_retries: nat)
    requires
        k <= max_retries,
    ensures
        k < attempts_from(responder, k, max_retries) <= max_retries + 1,
        forall|i: nat|
            k <= i < attempts_from(responder, k, max_retries) - 1 ==> #[trigger] responder(i)
                is Failure,
        responder((attempts_from(responder, k, max_retries) - 1) as nat) is Success
            || attempts_from(responder, k, max_retries) == max_retries + 1,
    decreases max_retries - k,
{
    if k >= max_retries || responder(k) is Success {
    } else {
        lemma_attempts_from(responder, k + 1, max_retries);
    }
}

/// The attempts made against a responder form a complete run: the loop
/// stops at the first success and never goes past `max_retries + 1`
/// attempts.
pub proof fn lemma_run_is_complete(responder: Responder, max_retries: nat)
    ensures
        is_complete_run(run_against(responder, max_retries), max_retries),
{
    lemma_attempts_from(responder, 0, max_retries);
    let run = run_against(responder, max_retries);
    assert forall|i: int| 0 <= i < run.len() - 1 implies #[trigger] run[i] is Failure by {
        assert(responder(i as nat) is Failure);
    }
}

/// A complete run that answers as `responder` does is the run against
/// `responder`: the answers fix how many attempts are made.
pub proof fn lemma_run_is_unique(
    outcomes: Seq<AttemptView>,
    responder: Responder,
    max_retries: nat,
)
    requires
        is_complete_run(outcomes, max_retries),
        forall|i: int| 0 <= i < outcomes.len() ==> #[trigger] outcomes[i] == responder(i as nat),
    ensures
        outcomes == run_against(responder, max_retries),
{
    lemma_attempts_from(responder, 0, max_retries);
    let made = attempts_made(responder, max_retries);
    let last = (outcomes.len() - 1) as nat;
    if outcomes.len() < made {
        assert(outcomes[last as int] == responder(last));
        assert(responder(last) is Failure);
    } else if outcomes.len() > made {
        assert(outcomes[made - 1] == responder((made - 1) as nat));
        assert(outcomes[made - 1] is Failure);
    }
    assert(outcomes =~= run_against(responder, max_retries));
}

/// An endpoint ends `Ok` exactly when one of the attempts made on it
/// succeeded. Otherwise all `max_retries + 1` attempts failed, and it ends
/// `Err` with the failure message for `max_retries` and the description of
/// the last failure.
pub proof fn lemma_ok_iff_an_attempt_succeeded(outcomes: Seq<AttemptView>, max_retries: nat)
    requires
        is_complete_run(outcomes, max_retries),
    ensures
        terminal_outcome(outcomes, max_retries) is Ok <==> exists|i: int|
            0 <= i < outcomes.len() && #[trigger] outcomes[i] is Success,
        terminal_outcome(outcomes, max_retries) is Err ==> {
            &&& outcomes.len() == max_retries + 1
            &&& forall|i: int| 0 <= i < outcomes.len() ==> #[trigger] outcomes[i] is Failure
            &&& terminal_outcome(outcomes, max_retries) == Err::<u16, Seq<char>>(
                failure_message(max_retries, outcomes.last()->Failure_0),
            )
        },
{
    let last = outcomes.len() - 1;
    if outcomes[last] is Success {
    } else {
        assert forall|i: int| 0 <= i < outcomes.len() implies #[trigger] outcomes[i]
            is Failure by {}
    }
}

/// The failure message reports the retry budget: after its opening words
/// stand the digits of `max_retries`, which read back as that number, and
/// after them the word for retries.
pub proof fn lemma_failure_message_names_budget(max_retries: nat, description: Seq<char>)
    ensures
        ({
            let message = failure_message(max_retries, description);
            let digits = decimal(max_retries);
            let n = digits.len() as int;
            &&& message.len() == 12 + n + 10 + description.len()
            &&& message.subrange(0, 12) == "Error after "@
            &&& message.subrange(12, 12 + n) == digits
            &&& digits_value(digits) == max_retries
            &&& message.subrange(12 + n, 22 + n) == " retries: "@
            &&& message.subrange(22 + n, message.len() as int) == description
        }),
{
    reveal_strlit("Error after ");
    reveal_strlit(" retries: ");
    lemma_decimal_round_trip(max_retries);
}

/// Two responders that succeed and fail at the same attempts are checked
/// alike: the same number of attempts is made on each, and both end `Ok`
/// or both end `Err`, whatever their codes and descriptions.
pub proof fn lemma_same_answers_same_classification(
    first: Responder,
    second: Responder,
    max_retries: nat,
)
    requires
        forall|k: nat| k <= max_retries ==> (#[trigger] first(k) is Success <==> second(k) is Success),
    ensures
        attempts_made(first, max_retries) == attempts_made(second, max_retries),
        terminal_outcome(run_against(first, max_retries), max_retries) is Ok <==> terminal_outcome(
            run_against(second, max_retries),
            max_retries,
        ) is Ok,
{
    lemma_same_attempts_from(first, second, 0, max_retries);
    lemma_attempts_from(first, 0, max_retries);
}

proof fn lemma_same_attempts_from(first: Responder, second: Responder, k: nat, max_retries: nat)
    requires
        k <= max_retries,
        forall|k: nat| k <= max_retries ==> (#[trigger] first(k) is Success <==> second(k) is Success),
    ensures
        attempts_from(first, k, max_retries) == attempts_from(second, k, max_retries),
    decreases max_retries - k,
{
    assert(first(k) is Success <==> second(k) is Success);
    if k >= max_retries || first(k) is Success {
    } else {
        lemma_same_attempts_from(first, second, k + 1, max_retries);
    }
}

/// The sum of the times that the attempts took.
pub open spec fn total_millis(durations: Seq<nat>) -> nat
    decreases durations.len(),
{
    if durations.len() == 0 {
        0
    } else {
        total_millis(durations.drop_last()) + durations.last()
    }
}

/// When no attempt takes longer than `timeout_millis`, the attempts of a
/// complete run take no longer than `(max_retries + 1) * timeout_millis`
/// together.
pub proof fn lemma_attempts_within_time_budget(
    outcomes: Seq<AttemptView>,
    durations: Seq<nat>,
    max_retries: nat,
    timeout_millis: nat,
)
    requires
        is_complete_run(outcomes, max_retries),
        durations.len() == outcomes.len(),
        forall|i: int| 0 <= i < durations.len() ==> #[trigger] durations[i] <= timeout_millis,
    ensures
        0 <= total_millis(durations) <= (max_retries + 1) * timeout_millis,
{
    lemma_total_millis_bound(durations, timeout_millis);
    assert(durations.len() * timeout_millis <= (max_retries + 1) * timeout_millis)
        by (nonlinear_arith)
        requires
            durations.len() <= max_retries + 1,
    ;
}

proof fn lemma_total_millis_bound(durations: Seq<nat>, bound: nat)
    requires
        forall|i: int| 0 <= i < durations.len() ==> #[trigger] durations[i] <= bound,
    ensures
        total_millis(durations) <= durations.len() * bound,
    decreases durations.len(),
{
    if durations.len() > 0 {
        lemma_total_millis_bound(durations.drop_last(), bound);
        assert(durations.len() * bound == (durations.len() - 1) * bound + bound)
            by (nonlinear_arith);
    }
}

} // verus!
