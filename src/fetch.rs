use vstd::prelude::*;

verus! {

/// How one HTTP attempt ended.
#[derive(Debug, PartialEq)]
pub enum AttemptOutcome {
    /// The response body, as text.
    Body(String),
    /// The attempt ran into its timeout.
    TimedOut,
    /// Any other failure, with its description; it is not retried.
    Failed(String),
}

/// Why a fetch gave up.
#[derive(Debug, PartialEq)]
pub enum FetchError {
    /// Every attempt ran into its timeout.
    TimedOut,
    /// A failure other than a timeout, with its description.
    Transport(String),
}

/// What to do after an attempt.
#[derive(Debug, PartialEq)]
pub enum RetryStep {
    /// Make another attempt.
    Retry,
    /// The fetch is over, with this result.
    Finish(Result<String, FetchError>),
}

/// The decision after attempt number `attempt` (counting from one) out of at
/// most `retries`: a body ends the fetch, another failure ends it at once, and a
/// timeout is retried while attempts are left.
pub open spec fn next_step(attempt: nat, retries: nat, outcome: AttemptOutcome) -> RetryStep {
    match outcome {
        AttemptOutcome::Body(b) => RetryStep::Finish(Ok(b)),
        AttemptOutcome::Failed(e) => RetryStep::Finish(Err(FetchError::Transport(e))),
        AttemptOutcome::TimedOut => if attempt < retries {
            RetryStep::Retry
        } else {
            RetryStep::Finish(Err(FetchError::TimedOut))
        },
    }
}

/// Decides what follows attempt number `attempt` out of at most `retries`.
pub fn after_attempt(attempt: usize, retries: usize, outcome: AttemptOutcome) -> (r: RetryStep)
    requires
        1 <= attempt <= retries,
    ensures
        r == next_step(attempt as nat, retries as nat, outcome),
{
    match outcome {
        AttemptOutcome::Body(b) => RetryStep::Finish(Ok(b)),
        AttemptOutcome::Failed(e) => RetryStep::Finish(Err(FetchError::Transport(e))),
        AttemptOutcome::TimedOut => if attempt < retries {
            RetryStep::Retry
        } else {
            RetryStep::Finish(Err(FetchError::TimedOut))
        },
    }
}

/// The result of a fetch whose attempts, from number `attempt` on, end as
/// `outcomes` says; `None` where the outcomes run out before the fetch is over.
pub open spec fn fetch_result(outcomes: Seq<AttemptOutcome>, attempt: nat, retries: nat) -> Option<
    Result<String, FetchError>,
>
    decreases outcomes.len(),
{
    if outcomes.len() == 0 {
        None
    } else {
        match next_step(attempt, retries, outcomes[0]) {
            RetryStep::Retry => fetch_result(outcomes.drop_first(), attempt + 1, retries),
            RetryStep::Finish(r) => Some(r),
        }
    }
}

/// `n` timeouts in a row.
pub open spec fn timeouts(n: nat) -> Seq<AttemptOutcome> {
    Seq::new(n, |i: int| AttemptOutcome::TimedOut)
}

proof fn lemma_timeouts_skipped(n: nat, attempt: nat, retries: nat, rest: Seq<AttemptOutcome>)
    requires
        attempt + n <= retries,
    ensures
        fetch_result(timeouts(n) + rest, attempt, retries) == fetch_result(rest, attempt + n, retries),
    decreases n,
{
    if n > 0 {
        let s = timeouts(n) + rest;
        assert(s[0] == AttemptOutcome::TimedOut);
        assert(s.drop_first() =~= timeouts((n - 1) as nat) + rest);
        lemma_timeouts_skipped((n - 1) as nat, attempt + 1, retries, rest);
    } else {
        assert(timeouts(n) + rest =~= rest);
    }
}

/// With a budget of `retries` attempts, a fetch that times out `retries - 1`
/// times and then receives a body returns that body; one that times out
/// `retries` times ends with a timeout error.
pub proof fn lemma_retry_budget(retries: nat, body: String)
    requires
        retries > 0,
    ensures
        fetch_result(timeouts((retries - 1) as nat).push(AttemptOutcome::Body(body)), 1, retries)
            == Some(Ok::<String, FetchError>(body)),
        fetch_result(timeouts(retries), 1, retries) == Some(Err::<String, FetchError>(FetchError::TimedOut)),
{
    let n = (retries - 1) as nat;
    let ok = seq![AttemptOutcome::Body(body)];
    lemma_timeouts_skipped(n, 1, retries, ok);
    assert(timeouts(n).push(AttemptOutcome::Body(body)) =~= timeouts(n) + ok);
    assert(fetch_result(ok.drop_first(), retries + 1, retries) is None);
    let late = seq![AttemptOutcome::TimedOut];
    lemma_timeouts_skipped(n, 1, retries, late);
    assert(timeouts(retries) =~= timeouts(n) + late);
}

} // verus!
