//! The payload fetcher's retry policy, as a pure decision core.
//!
//! The byte retrieval itself is I/O and lives outside this library. What is
//! verified here is every decision the fetcher makes: whether an attempt's
//! outcome ends the fetch or earns another attempt, which error an exhausted
//! or fatal fetch surfaces, and the capped exponential backoff schedule.
//! `run_fetch` consumes a script of attempt outcomes (one per attempt, as a
//! driver observed or injected them) and returns the fetch's verdict.

use vstd::prelude::*;
use crate::error::ErrorKind;

verus! {

/// The bounded-retry policy: at most `max_attempts` attempts, with delays of
/// `base_delay_ms` doubled after each attempt and capped at `max_delay_ms`.
#[derive(Clone, Copy, PartialEq, Eq, Structural, Debug)]
pub struct RetryPolicy {
    pub max_attempts: u32,
    pub base_delay_ms: u64,
    pub max_delay_ms: u64,
}

/// A policy must allow at least one attempt.
pub open spec fn policy_wf(p: RetryPolicy) -> bool {
    p.max_attempts >= 1
}

/// What one retrieval attempt came back with.
#[derive(Clone, Debug, PartialEq, Eq)]
pub enum AttemptOutcome {
    /// The full object or file contents, fully drained.
    Payload(Vec<u8>),
    /// A timeout, throttling signal, or equivalent; retried on remote
    /// requests only — local failures are not transient.
    Transient,
    /// The object or file does not exist; never retried.
    NotFound,
    /// The store refused access; never retried.
    AccessDenied,
    /// A local read error; never retried.
    Io,
    /// The caller's cancellation signal was observed; never retried.
    Cancelled,
}

/// What the fetcher does after seeing one attempt's outcome.
#[derive(Clone, Debug, PartialEq, Eq)]
pub enum RetryDecision {
    /// Return this payload to the caller.
    Succeed(Vec<u8>),
    /// Fail with this error; make no further attempt.
    Fail(ErrorKind),
    /// Wait this many milliseconds, then attempt again.
    RetryAfter(u64),
}

/// The delay before the attempt after attempt number `attempt` (counted from
/// zero): the base delay, doubled once per attempt already made, capped.
pub open spec fn spec_backoff(base: int, cap: int, attempt: nat) -> int
    decreases attempt,
{
    if attempt == 0 {
        if base >= cap { cap } else { base }
    } else {
        let prev = spec_backoff(base, cap, (attempt - 1) as nat);
        if prev * 2 >= cap { cap } else { prev * 2 }
    }
}

pub proof fn lemma_backoff_range(base: int, cap: int, attempt: nat)
    requires
        0 <= base,
        0 <= cap,
    ensures
        0 <= spec_backoff(base, cap, attempt) <= cap,
    decreases attempt,
{
    if attempt > 0 {
        lemma_backoff_range(base, cap, (attempt - 1) as nat);
    }
}

/// Computes the backoff delay for the given attempt number.
pub fn delay_for_attempt(policy: &RetryPolicy, attempt: u32) -> (r: u64)
    ensures
        r == spec_backoff(policy.base_delay_ms as int, policy.max_delay_ms as int, attempt as nat),
        r <= policy.max_delay_ms,
{
    let cap = policy.max_delay_ms;
    let mut d: u64 = if policy.base_delay_ms >= cap { cap } else { policy.base_delay_ms };
    let mut i: u32 = 0;
    while i < attempt
        invariant
            i <= attempt,
            d <= cap,
            cap == policy.max_delay_ms,
            d == spec_backoff(policy.base_delay_ms as int, cap as int, i as nat),
        decreases attempt - i,
    {
        if d >= cap - d {
            d = cap;
        } else {
            d = d * 2;
        }
        i = i + 1;
    }
    d
}

/// The decision after attempt number `attempt_index` (counted from zero)
/// came back with `outcome`. A payload always succeeds; a transient failure
/// earns another attempt only on a remote request with budget left, and
/// otherwise surfaces as `RetriesExhausted` (remote) or `IoError` (local);
/// every other failure is fatal at once, with no retry.
pub open spec fn spec_next_step(
    policy: RetryPolicy,
    remote: bool,
    attempt_index: nat,
    outcome: AttemptOutcome,
) -> RetryDecision {
    match outcome {
        AttemptOutcome::Payload(b) => RetryDecision::Succeed(b),
        AttemptOutcome::Transient => if remote && attempt_index + 1 < policy.max_attempts {
            RetryDecision::RetryAfter(
                spec_backoff(policy.base_delay_ms as int, policy.max_delay_ms as int, attempt_index) as u64,
            )
        } else if remote {
            RetryDecision::Fail(ErrorKind::RetriesExhausted)
        } else {
            RetryDecision::Fail(ErrorKind::IoError)
        },
        AttemptOutcome::NotFound => RetryDecision::Fail(
            if remote { ErrorKind::ObjectNotFound } else { ErrorKind::FileNotFound },
        ),
        AttemptOutcome::AccessDenied => RetryDecision::Fail(ErrorKind::AccessDenied),
        AttemptOutcome::Io => RetryDecision::Fail(ErrorKind::IoError),
        AttemptOutcome::Cancelled => RetryDecision::Fail(ErrorKind::Cancelled),
    }
}

/// Decides what to do after one attempt. A driver performing real I/O calls
/// this after every attempt and obeys the decision; the pure `run_fetch`
/// below composes it over a whole script of outcomes.
pub fn next_step(
    policy: &RetryPolicy,
    remote: bool,
    attempt_index: u32,
    outcome: AttemptOutcome,
) -> (r: RetryDecision)
    requires
        attempt_index < policy.max_attempts,
    ensures
        r == spec_next_step(*policy, remote, attempt_index as nat, outcome),
{
    match outcome {
        AttemptOutcome::Payload(b) => RetryDecision::Succeed(b),
        AttemptOutcome::Transient => {
            if remote && attempt_index + 1 < policy.max_attempts {
                let d = delay_for_attempt(policy, attempt_index);
                proof {
                    lemma_backoff_range(
                        policy.base_delay_ms as int,
                        policy.max_delay_ms as int,
                        attempt_index as nat,
                    );
                }
                RetryDecision::RetryAfter(d)
            } else if remote {
                RetryDecision::Fail(ErrorKind::RetriesExhausted)
            } else {
                RetryDecision::Fail(ErrorKind::IoError)
            }
        }
        AttemptOutcome::NotFound => {
            if remote {
                RetryDecision::Fail(ErrorKind::ObjectNotFound)
            } else {
                RetryDecision::Fail(ErrorKind::FileNotFound)
            }
        }
        AttemptOutcome::AccessDenied => RetryDecision::Fail(ErrorKind::AccessDenied),
        AttemptOutcome::Io => RetryDecision::Fail(ErrorKind::IoError),
        AttemptOutcome::Cancelled => RetryDecision::Fail(ErrorKind::Cancelled),
    }
}

/// How many attempts a fetch with the given budget makes on this script:
/// one per leading transient outcome, plus the attempt that settles it,
/// never more than the budget.
pub open spec fn spec_attempts(outs: Seq<AttemptOutcome>, budget: nat) -> nat
    decreases budget,
{
    if outs.len() == 0 || budget <= 1 {
        1
    } else if outs[0] is Transient {
        1 + spec_attempts(outs.skip(1), (budget - 1) as nat)
    } else {
        1
    }
}

/// The verdict of a fetch with the given budget on this script: the first
/// decisive outcome wins; a budget spent entirely on transient failures
/// surfaces as `RetriesExhausted` on a remote request and `IoError` on a
/// local one.
pub open spec fn spec_fetch_verdict(
    outs: Seq<AttemptOutcome>,
    budget: nat,
    remote: bool,
) -> Result<Vec<u8>, ErrorKind>
    decreases budget,
{
    if outs.len() == 0 {
        Err(ErrorKind::IoError)
    } else {
        match outs[0] {
            AttemptOutcome::Payload(b) => Ok(b),
            AttemptOutcome::Transient => if budget > 1 {
                spec_fetch_verdict(outs.skip(1), (budget - 1) as nat, remote)
            } else {
                Err(if remote { ErrorKind::RetriesExhausted } else { ErrorKind::IoError })
            },
            AttemptOutcome::NotFound => Err(
                if remote { ErrorKind::ObjectNotFound } else { ErrorKind::FileNotFound },
            ),
            AttemptOutcome::AccessDenied => Err(ErrorKind::AccessDenied),
            AttemptOutcome::Io => Err(ErrorKind::IoError),
            AttemptOutcome::Cancelled => Err(ErrorKind::Cancelled),
        }
    }
}

/// The result of a fetch: how many attempts were made, and the verdict.
#[derive(Debug)]
pub struct FetchResult {
    pub attempts: usize,
    pub outcome: Result<Vec<u8>, ErrorKind>,
}

/// Runs the whole retry loop over a script of attempt outcomes, one entry
/// per attempt actually made. A remote request's budget is the policy's
/// `max_attempts`; a local request gets a single attempt. The verdict is the
/// first decisive outcome, the payload returned exactly as the script held
/// it, and no attempt is made past the first decisive outcome or the budget.
pub fn run_fetch(policy: &RetryPolicy, remote: bool, outcomes: Vec<AttemptOutcome>) -> (r: FetchResult)
    requires
        policy_wf(*policy),
        outcomes@.len() >= policy.max_attempts,
        outcomes@.len() >= 1,
    ensures
        ({
            let budget: nat = if remote { policy.max_attempts as nat } else { 1 };
            &&& r.attempts == spec_attempts(outcomes@, budget)
            &&& r.outcome == spec_fetch_verdict(outcomes@, budget, remote)
            &&& 1 <= r.attempts <= budget
        }),
{
    let ghost orig: Seq<AttemptOutcome> = outcomes@;
    let budget: usize = if remote { policy.max_attempts as usize } else { 1 };
    let mut rest = outcomes;
    let mut i: usize = 0;
    proof {
        assert(orig.skip(0) =~= orig);
    }
    #[verifier::loop_isolation(false)]
    loop
        invariant
            i < budget,
            budget <= rest@.len() + i,
            budget == if remote { policy.max_attempts as nat } else { 1nat },
            policy.max_attempts >= 1,
            rest@ == orig.skip(i as int),
            spec_fetch_verdict(orig, budget as nat, remote) == spec_fetch_verdict(
                rest@,
                (budget - i) as nat,
                remote,
            ),
            spec_attempts(orig, budget as nat) == i + spec_attempts(rest@, (budget - i) as nat),
        decreases budget - i,
    {
        let ghost before = rest@;
        let out = rest.remove(0);
        let ghost gout = out;
        proof {
            assert(rest@ =~= before.skip(1));
            assert(before[0] == gout);
            assert(before.len() >= budget - i >= 1);
        }
        let dec = next_step(policy, remote, i as u32, out);
        match dec {
            RetryDecision::Succeed(b) => {
                proof {
                    assert(gout == AttemptOutcome::Payload(b));
                    assert(spec_fetch_verdict(before, (budget - i) as nat, remote)
                        == Result::<Vec<u8>, ErrorKind>::Ok(b));
                    assert(spec_attempts(before, (budget - i) as nat) == 1);
                }
                return FetchResult { attempts: i + 1, outcome: Ok(b) };
            }
            RetryDecision::Fail(k) => {
                proof {
                    if gout is Transient {
                        assert(budget - i == 1);
                    }
                    assert(spec_fetch_verdict(before, (budget - i) as nat, remote)
                        == Result::<Vec<u8>, ErrorKind>::Err(k));
                    assert(spec_attempts(before, (budget - i) as nat) == 1);
                }
                return FetchResult { attempts: i + 1, outcome: Err(k) };
            }
            RetryDecision::RetryAfter(_) => {
                proof {
                    assert(gout is Transient);
                    assert(remote && i + 1 < policy.max_attempts);
                    assert(spec_fetch_verdict(before, (budget - i) as nat, remote)
                        == spec_fetch_verdict(rest@, (budget - i - 1) as nat, remote));
                    assert(spec_attempts(before, (budget - i) as nat)
                        == 1 + spec_attempts(rest@, (budget - i - 1) as nat));
                    assert(orig.skip(i as int).skip(1) =~= orig.skip(i + 1));
                }
                i = i + 1;
            }
        }
    }
}

/// A fetch that fails transiently twice and then succeeds returns exactly
/// that payload, in exactly three attempts.
pub proof fn lemma_transient_twice_then_success(outs: Seq<AttemptOutcome>, budget: nat, b: Vec<u8>)
    requires
        budget >= 3,
        outs.len() >= budget,
        outs[0] is Transient,
        outs[1] is Transient,
        outs[2] == AttemptOutcome::Payload(b),
    ensures
        spec_fetch_verdict(outs, budget, true) == Result::<Vec<u8>, ErrorKind>::Ok(b),
        spec_attempts(outs, budget) == 3,
{
    let s1 = outs.skip(1);
    let s2 = outs.skip(2);
    assert(s1[0] == outs[1]);
    assert(s1.skip(1) =~= s2);
    assert(s2[0] == outs[2]);
    assert(spec_fetch_verdict(s2, (budget - 2) as nat, true)
        == Result::<Vec<u8>, ErrorKind>::Ok(b));
    assert(spec_attempts(s2, (budget - 2) as nat) == 1);
    assert(spec_fetch_verdict(s1, (budget - 1) as nat, true)
        == spec_fetch_verdict(s2, (budget - 2) as nat, true));
    assert(spec_attempts(s1, (budget - 1) as nat) == 2);
    assert(spec_fetch_verdict(outs, budget, true)
        == spec_fetch_verdict(s1, (budget - 1) as nat, true));
    assert(spec_attempts(outs, budget) == 3);
}

/// A fetch whose every attempt fails transiently fails with
/// `RetriesExhausted`, after exactly its whole budget of attempts.
pub proof fn lemma_retry_exhaustion(outs: Seq<AttemptOutcome>, budget: nat)
    requires
        budget >= 1,
        outs.len() >= budget,
        forall|i: int| 0 <= i < budget ==> outs[i] is Transient,
    ensures
        spec_fetch_verdict(outs, budget, true) == Result::<Vec<u8>, ErrorKind>::Err(
            ErrorKind::RetriesExhausted,
        ),
        spec_attempts(outs, budget) == budget,
    decreases budget,
{
    assert(outs[0] is Transient);
    if budget > 1 {
        assert forall|i: int| 0 <= i < budget - 1 implies outs.skip(1)[i] is Transient by {
            assert(outs.skip(1)[i] == outs[i + 1]);
        }
        lemma_retry_exhaustion(outs.skip(1), (budget - 1) as nat);
    }
}

/// A non-transient failure on the first attempt is never retried: the fetch
/// fails at once, after exactly one attempt.
pub proof fn lemma_fatal_no_retry(outs: Seq<AttemptOutcome>, budget: nat)
    requires
        budget >= 1,
        outs.len() >= budget,
        outs[0] is NotFound,
    ensures
        spec_fetch_verdict(outs, budget, true) == Result::<Vec<u8>, ErrorKind>::Err(
            ErrorKind::ObjectNotFound,
        ),
        spec_attempts(outs, budget) == 1,
{
}

} // verus!
