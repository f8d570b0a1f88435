//! The retry policy of the flash-loan executor.
//!
//! Before sending, the executor dry-runs the flash loan up to
//! `max_retries` times, sleeping 200 ms, 400 ms, 800 ms, ... between
//! attempts. The calls, the signing and the receipt handling are made by the
//! application; the schedule stands here.

use vstd::prelude::*;

verus! {

/// Dry runs before giving up.
pub const MAX_RETRIES: u32 = 3;

/// The first back-off, in milliseconds.
pub const BASE_BACKOFF_MS: u64 = 200;

/// The largest attempt index whose back-off fits in a `u64`.
pub const MAX_BACKOFF_ATTEMPT: u32 = 56;

/// `2^n`.
pub open spec fn pow2(n: nat) -> nat
    decreases n,
{
    if n == 0 {
        1
    } else {
        2 * pow2((n - 1) as nat)
    }
}

/// The back-off after the failed dry run number `attempt` (from 0).
pub open spec fn spec_backoff_ms(attempt: nat) -> nat {
    (BASE_BACKOFF_MS as nat) * pow2(attempt)
}

proof fn lemma_pow2_monotone(a: nat, b: nat)
    requires
        a <= b,
    ensures
        pow2(a) <= pow2(b),
    decreases b,
{
    if a < b {
        lemma_pow2_monotone(a, (b - 1) as nat);
    }
}

/// The back-off after the failed dry run number `attempt`: 200 ms doubled
/// once per earlier attempt.
pub fn backoff_delay_ms(attempt: u32) -> (ms: u64)
    requires
        attempt <= MAX_BACKOFF_ATTEMPT,
    ensures
        ms == spec_backoff_ms(attempt as nat),
{
    proof {
        reveal_with_fuel(pow2, 57);
        assert(pow2(56) == 72_057_594_037_927_936nat);
        lemma_pow2_monotone(attempt as nat, 56);
    }
    let mut factor: u64 = 1;
    let mut i: u32 = 0;
    while i < attempt
        invariant
            i <= attempt <= MAX_BACKOFF_ATTEMPT,
            factor == pow2(i as nat),
            pow2(attempt as nat) <= 72_057_594_037_927_936nat,
        decreases attempt - i,
    {
        proof {
            lemma_pow2_monotone((i + 1) as nat, attempt as nat);
        }
        factor = factor * 2;
        i = i + 1;
    }
    BASE_BACKOFF_MS * factor
}

/// What the executor does after a dry run.
#[derive(Debug, PartialEq, Eq)]
pub enum RetryStep {
    /// The dry run passed: go on to send.
    Proceed,
    /// The dry run failed: sleep this many milliseconds and try again.
    RetryAfterMs(u64),
    /// The dry run failed and no attempts are left: report its error.
    GiveUp,
}

/// The step after dry run number `attempt` (from 0) of `max_retries`.
pub open spec fn spec_retry_step(attempt: u32, max_retries: u32, ok: bool) -> RetryStep {
    if ok {
        RetryStep::Proceed
    } else if attempt + 1 < max_retries {
        RetryStep::RetryAfterMs(spec_backoff_ms(attempt as nat) as u64)
    } else {
        RetryStep::GiveUp
    }
}

/// The executor's decision after dry run number `attempt` of `max_retries`.
pub fn simulation_retry_step(attempt: u32, max_retries: u32, simulation_ok: bool) -> (s: RetryStep)
    requires
        attempt < max_retries,
        !simulation_ok && attempt + 1 < max_retries ==> attempt <= MAX_BACKOFF_ATTEMPT,
    ensures
        s == spec_retry_step(attempt, max_retries, simulation_ok),
{
    if simulation_ok {
        RetryStep::Proceed
    } else if attempt + 1 < max_retries {
        RetryStep::RetryAfterMs(backoff_delay_ms(attempt))
    } else {
        RetryStep::GiveUp
    }
}

/// Whether any dry run is made: with no retries allowed the executor sends
/// without one.
pub fn simulation_required(max_retries: u32) -> (r: bool)
    ensures
        r == (max_retries > 0),
{
    max_retries > 0
}

/// Each back-off doubles the one before it.
pub proof fn lemma_backoff_doubles(attempt: nat)
    ensures
        spec_backoff_ms(attempt + 1) == 2 * spec_backoff_ms(attempt),
        spec_backoff_ms(0) == BASE_BACKOFF_MS,
{
    assert(pow2(attempt + 1) == 2 * pow2(attempt));
    assert(BASE_BACKOFF_MS * (2 * pow2(attempt)) == 2 * (BASE_BACKOFF_MS * pow2(attempt))) by (
    nonlinear_arith);
}

/// The last allowed dry run never sleeps: a failure there gives up, so at
/// most `max_retries` dry runs are made and at most `max_retries - 1` sleeps.
pub proof fn lemma_last_attempt_gives_up(max_retries: u32)
    requires
        max_retries > 0,
    ensures
        spec_retry_step((max_retries - 1) as u32, max_retries, false) == RetryStep::GiveUp,
        spec_retry_step((max_retries - 1) as u32, max_retries, true) == RetryStep::Proceed,
{
}

/// Under the executor's own limit of three dry runs, the sleeps are 200 ms
/// and then 400 ms.
pub proof fn lemma_default_schedule()
    ensures
        spec_retry_step(0, MAX_RETRIES, false) == RetryStep::RetryAfterMs(200),
        spec_retry_step(1, MAX_RETRIES, false) == RetryStep::RetryAfterMs(400),
        spec_retry_step(2, MAX_RETRIES, false) == RetryStep::GiveUp,
{
    reveal_with_fuel(pow2, 3);
}


/// A passing dry run always proceeds; a failing one sleeps the back-off of
/// its attempt and tries again while attempts are left, and gives up on the
/// last one.
pub proof fn lemma_retry_rule(attempt: u32, max_retries: u32)
    requires
        attempt < max_retries,
    ensures
        spec_retry_step(attempt, max_retries, true) == RetryStep::Proceed,
        attempt + 1 < max_retries ==> spec_retry_step(attempt, max_retries, false)
            == RetryStep::RetryAfterMs((BASE_BACKOFF_MS * pow2(attempt as nat)) as u64),
        attempt + 1 == max_retries ==> spec_retry_step(attempt, max_retries, false)
            == RetryStep::GiveUp,
{
}

} // verus!
