//! RPC endpoint health and block-number consensus.
//!
//! Latency and success-rate averages are floating point and stay with the
//! application's endpoint statistics; the failure streak that benches an
//! endpoint and the agreement rule between two endpoints stand here.

use vstd::prelude::*;

verus! {

/// Consecutive failed calls after which an endpoint is benched.
pub const MAX_CONSECUTIVE_FAILURES: u32 = 3;

/// The block numbers two endpoints agreed on.
#[derive(Debug)]
pub struct U64Pair {
    pub a: u64,
    pub b: u64,
}

/// The distance between two block numbers.
pub open spec fn block_gap(x: u64, y: u64) -> int {
    if x > y {
        x - y
    } else {
        y - x
    }
}

/// What two endpoints' block readings give: both answered, within one block
/// of each other.
pub open spec fn spec_consensus(a: Option<u64>, b: Option<u64>) -> Option<(u64, u64)> {
    match (a, b) {
        (Some(x), Some(y)) => if block_gap(x, y) <= 1 {
            Some((x, y))
        } else {
            None
        },
        _ => None,
    }
}

/// Consensus needs two endpoints.
pub open spec fn has_quorum(endpoints: nat) -> bool {
    endpoints >= 2
}

/// Whether there are enough endpoints to ask for consensus.
pub fn consensus_possible(endpoints: usize) -> (r: bool)
    ensures
        r == has_quorum(endpoints as nat),
{
    endpoints >= 2
}

/// The agreed block numbers of the first two endpoints, from what each
/// answered (`None`: it failed or timed out): `Some` only if both answered
/// and they agree within one block.
pub fn consensus_block_number(a: Option<u64>, b: Option<u64>) -> (r: Option<U64Pair>)
    ensures
        match spec_consensus(a, b) {
            Some((x, y)) => r matches Some(p) && p.a == x && p.b == y,
            None => r is None,
        },
{
    match (a, b) {
        (Some(x), Some(y)) => {
            let diff = if x > y {
                x - y
            } else {
                y - x
            };
            if diff <= 1 {
                Some(U64Pair { a: x, b: y })
            } else {
                None
            }
        },
        _ => None,
    }
}

/// The failure streak after a call: a success resets it, a failure adds one.
pub open spec fn spec_next_streak(streak: u32, ok: bool) -> int {
    if ok {
        0
    } else {
        streak + 1
    }
}

/// The failure streak of an endpoint after a call.
pub fn next_consecutive_failures(streak: u32, ok: bool) -> (r: u32)
    requires
        ok || streak < u32::MAX,
    ensures
        r == spec_next_streak(streak, ok),
{
    if ok {
        0
    } else {
        streak + 1
    }
}

/// Whether an endpoint with this failure streak is benched: its score is
/// then infinite, so it is never chosen as best.
pub fn is_benched(streak: u32) -> (r: bool)
    ensures
        r == (streak >= MAX_CONSECUTIVE_FAILURES),
{
    streak >= MAX_CONSECUTIVE_FAILURES
}

/// Agreement does not depend on which endpoint is asked first: swapping the
/// readings swaps the agreed pair.
pub proof fn lemma_consensus_symmetric(a: Option<u64>, b: Option<u64>)
    ensures
        spec_consensus(a, b) is Some <==> spec_consensus(b, a) is Some,
        spec_consensus(a, b) matches Some((x, y)) ==> spec_consensus(b, a) == Some((y, x)),
{
}

/// A reading always agrees with itself and with the next block, and never
/// with a block two or more away; a missing reading gives no consensus.
pub proof fn lemma_consensus_window(x: u64, y: u64)
    ensures
        spec_consensus(Some(x), Some(x)) == Some((x, x)),
        x < u64::MAX ==> spec_consensus(Some(x), Some((x + 1) as u64)) is Some,
        block_gap(x, y) >= 2 ==> spec_consensus(Some(x), Some(y)) is None,
        spec_consensus(None, Some(y)) is None,
        spec_consensus(Some(x), None) is None,
{
}

/// Three failed calls in a row bench an endpoint, whatever its streak was,
/// and one successful call brings it back.
pub proof fn lemma_three_failures_bench(streak: u32)
    requires
        streak <= u32::MAX - 3,
    ensures
        spec_next_streak(
            spec_next_streak(spec_next_streak(streak, false) as u32, false) as u32,
            false,
        ) >= MAX_CONSECUTIVE_FAILURES,
        spec_next_streak(streak, true) < MAX_CONSECUTIVE_FAILURES,
{
}


/// Consensus can be asked with two endpoints, never with fewer, and adding
/// an endpoint never takes that away.
pub proof fn lemma_quorum_from_two(n: nat)
    ensures
        has_quorum(2),
        !has_quorum(0),
        !has_quorum(1),
        has_quorum(n) ==> has_quorum(n + 1),
        has_quorum(n) <==> n >= 2,
{
}

} // verus!
