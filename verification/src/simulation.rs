//! The block checks of the pre-flight simulator and the audit trail they
//! write.
//!
//! The gas, liquidity and profit checks compare floating-point amounts and
//! are made by the application, which appends to the same trail.

use crate::price_oracle::age;
use crate::rpc_manager::U64Pair;
use crate::text::{decimal, push_u64};
use vstd::prelude::*;

verus! {

/// The outcome of one pre-flight check, with its explanation.
#[derive(Debug)]
pub enum CheckStatus {
    Pass(String),
    Fail(String),
    Skipped(String),
}

/// A check outcome as a value.
pub enum StatusView {
    Pass(Seq<char>),
    Fail(Seq<char>),
    Skipped(Seq<char>),
}

impl CheckStatus {
    pub open spec fn view(&self) -> StatusView {
        match self {
            CheckStatus::Pass(s) => StatusView::Pass(s@),
            CheckStatus::Fail(s) => StatusView::Fail(s@),
            CheckStatus::Skipped(s) => StatusView::Skipped(s@),
        }
    }
}

/// A trail entry as a value: the check's name and its outcome.
pub open spec fn entry_view(e: (String, CheckStatus)) -> (Seq<char>, StatusView) {
    (e.0@, e.1@)
}

/// The audit trail as a value.
pub open spec fn trace_view(t: Seq<(String, CheckStatus)>) -> Seq<(Seq<char>, StatusView)> {
    t.map_values(|e: (String, CheckStatus)| entry_view(e))
}

/// The trail entry of the consensus check.
pub open spec fn consensus_entry(consensus: Option<(u64, u64)>) -> (Seq<char>, StatusView) {
    match consensus {
        Some((a, b)) => (
            "rpc consensus"@,
            StatusView::Pass("blocks "@ + decimal(a as nat) + "/"@ + decimal(b as nat)),
        ),
        None => ("rpc consensus"@, StatusView::Fail("disagree"@)),
    }
}

/// The head block is older than the limit.
pub open spec fn head_is_stale(head_timestamp: Option<u64>, now: u64, max_age: u64) -> bool {
    head_timestamp matches Some(ts) && age(now, ts) > max_age
}

/// The trail entries of the RPC health check: consensus, then, when the
/// head block is known, its freshness.
pub open spec fn rpc_health_entries(
    consensus: Option<(u64, u64)>,
    head_timestamp: Option<u64>,
    now: u64,
    max_age: u64,
) -> Seq<(Seq<char>, StatusView)> {
    match head_timestamp {
        None => seq![consensus_entry(consensus)],
        Some(ts) => {
            let a = age(now, ts) as nat;
            if age(now, ts) > max_age {
                seq![
                    consensus_entry(consensus),
                    (
                        "block freshness"@,
                        StatusView::Fail("head block is "@ + decimal(a) + "s old"@),
                    ),
                ]
            } else {
                seq![
                    consensus_entry(consensus),
                    ("block freshness"@, StatusView::Pass("head block age "@ + decimal(a) + "s"@)),
                ]
            }
        },
    }
}

/// The consensus readings as a value.
pub open spec fn consensus_view(c: Option<U64Pair>) -> Option<(u64, u64)> {
    match c {
        Some(p) => Some((p.a, p.b)),
        None => None,
    }
}

/// The RPC health check: it passes when the endpoints agreed on the block
/// number and the head block, if known, is no older than `max_block_age_seconds`.
/// Its entries are appended to `trace`.
pub fn check_rpc_health(
    consensus: &Option<U64Pair>,
    head_timestamp: Option<u64>,
    now: u64,
    max_block_age_seconds: u64,
    trace: &mut Vec<(String, CheckStatus)>,
) -> (ok: bool)
    ensures
        ok == (consensus is Some && !head_is_stale(head_timestamp, now, max_block_age_seconds)),
        trace_view(final(trace)@) == trace_view(old(trace)@) + rpc_health_entries(
            consensus_view(*consensus),
            head_timestamp,
            now,
            max_block_age_seconds,
        ),
{
    let ghost before = trace@;
    let consensus_ok = match consensus {
        Some(pair) => {
            let mut msg = "blocks ".to_owned();
            push_u64(&mut msg, pair.a);
            msg.append("/");
            push_u64(&mut msg, pair.b);
            trace.push(("rpc consensus".to_owned(), CheckStatus::Pass(msg)));
            true
        },
        None => {
            trace.push(("rpc consensus".to_owned(), CheckStatus::Fail("disagree".to_owned())));
            false
        },
    };
    let ghost after_consensus = trace@;
    assert(trace_view(after_consensus) =~= trace_view(before).push(
        consensus_entry(consensus_view(*consensus)),
    ));
    match head_timestamp {
        Some(ts) => {
            let block_age = now.saturating_sub(ts);
            if block_age > max_block_age_seconds {
                let mut msg = "head block is ".to_owned();
                push_u64(&mut msg, block_age);
                msg.append("s old");
                trace.push(("block freshness".to_owned(), CheckStatus::Fail(msg)));
                assert(trace_view(trace@) =~= trace_view(before) + rpc_health_entries(
                    consensus_view(*consensus),
                    head_timestamp,
                    now,
                    max_block_age_seconds,
                ));
                return false;
            } else {
                let mut msg = "head block age ".to_owned();
                push_u64(&mut msg, block_age);
                msg.append("s");
                trace.push(("block freshness".to_owned(), CheckStatus::Pass(msg)));
            }
        },
        None => {},
    }
    assert(trace_view(trace@) =~= trace_view(before) + rpc_health_entries(
        consensus_view(*consensus),
        head_timestamp,
        now,
        max_block_age_seconds,
    ));
    consensus_ok
}

/// The trail entry of the staleness check of an opportunity found at block
/// `found`, with the head at `current`.
pub open spec fn opportunity_age_entry(max_drift: u64, current: u64, found: u64) -> (
    Seq<char>,
    StatusView,
) {
    let drift = age(current, found);
    if drift > max_drift {
        (
            "opportunity age"@,
            StatusView::Fail(
                "scanner block "@ + decimal(found as nat) + " is "@ + decimal(drift as nat)
                    + " blocks behind"@,
            ),
        )
    } else {
        (
            "opportunity age"@,
            StatusView::Pass(
                "scanner block "@ + decimal(found as nat) + ", head "@ + decimal(current as nat),
            ),
        )
    }
}

/// The staleness check of an opportunity: when the scanner recorded the
/// block it saw, the head must be at most `max_drift` blocks past it. The
/// entry is appended to `trace`; nothing is appended when no block was
/// recorded.
pub fn check_opportunity_age(
    max_drift: u64,
    current_block: u64,
    discovered_block: Option<u64>,
    trace: &mut Vec<(String, CheckStatus)>,
)
    ensures
        trace_view(final(trace)@) == match discovered_block {
            Some(found) => trace_view(old(trace)@).push(
                opportunity_age_entry(max_drift, current_block, found),
            ),
            None => trace_view(old(trace)@),
        },
{
    let ghost before = trace@;
    match discovered_block {
        Some(found) => {
            let drift = current_block.saturating_sub(found);
            if drift > max_drift {
                let mut msg = "scanner block ".to_owned();
                push_u64(&mut msg, found);
                msg.append(" is ");
                push_u64(&mut msg, drift);
                msg.append(" blocks behind");
                trace.push(("opportunity age".to_owned(), CheckStatus::Fail(msg)));
            } else {
                let mut msg = "scanner block ".to_owned();
                push_u64(&mut msg, found);
                msg.append(", head ");
                push_u64(&mut msg, current_block);
                trace.push(("opportunity age".to_owned(), CheckStatus::Pass(msg)));
            }
            assert(trace_view(trace@) =~= trace_view(before).push(
                opportunity_age_entry(max_drift, current_block, found),
            ));
        },
        None => {},
    }
}

/// Whether the deep `eth_call` dry run is attempted: only when every earlier
/// check that can fail the run passed. When it is not, the trail records it
/// as skipped.
pub fn gate_deep_simulation(passed: bool, trace: &mut Vec<(String, CheckStatus)>) -> (run: bool)
    ensures
        run == passed,
        trace_view(final(trace)@) == if passed {
            trace_view(old(trace)@)
        } else {
            trace_view(old(trace)@).push(
                ("eth_call simulation"@, StatusView::Skipped("earlier check failed"@)),
            )
        },
{
    let ghost before = trace@;
    if !passed {
        trace.push(
            (
                "eth_call simulation".to_owned(),
                CheckStatus::Skipped("earlier check failed".to_owned()),
            ),
        );
        assert(trace_view(trace@) =~= trace_view(before).push(
            ("eth_call simulation"@, StatusView::Skipped("earlier check failed"@)),
        ));
    }
    passed
}

/// A head block older than the limit fails the health check even when the
/// endpoints agree, and a health check with a fresh or unknown head passes
/// exactly when they agree.
pub proof fn lemma_stale_head_fails(
    consensus: Option<(u64, u64)>,
    head_timestamp: Option<u64>,
    now: u64,
    max_age: u64,
)
    ensures
        rpc_health_entries(consensus, head_timestamp, now, max_age)[0] == consensus_entry(
            consensus,
        ),
        rpc_health_entries(consensus, head_timestamp, now, max_age).len() == if head_timestamp
            is Some {
            2int
        } else {
            1int
        },
        head_is_stale(head_timestamp, now, max_age) ==> rpc_health_entries(
            consensus,
            head_timestamp,
            now,
            max_age,
        )[1].1 is Fail,
        !head_is_stale(head_timestamp, now, max_age) && head_timestamp is Some
            ==> rpc_health_entries(consensus, head_timestamp, now, max_age)[1].1 is Pass,
{
}

/// An opportunity fails the staleness check exactly when the head is more
/// than `max_drift` blocks past the block it was found at; a head behind
/// that block counts as no drift.
pub proof fn lemma_opportunity_drift(max_drift: u64, current: u64, found: u64)
    ensures
        (opportunity_age_entry(max_drift, current, found).1 is Fail) <==> (current > found
            && current - found > max_drift),
{
}


/// The head block is stale exactly when it is more than `max_age` seconds
/// older than `now`; an unknown head is never stale.
pub proof fn lemma_head_staleness(head_timestamp: Option<u64>, now: u64, max_age: u64)
    ensures
        head_timestamp matches Some(ts) ==> (head_is_stale(head_timestamp, now, max_age) <==> now
            > ts + max_age),
        head_timestamp is None ==> !head_is_stale(head_timestamp, now, max_age),
{
}

} // verus!
