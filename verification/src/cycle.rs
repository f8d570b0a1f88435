//! How one round of the bot's main loop ends: what it writes to the trade
//! journal and how long it waits before the next round.

use vstd::prelude::*;

verus! {

/// How a round of the main loop ended.
#[derive(Debug, Clone, Copy, PartialEq, Eq)]
pub enum RoundEnd {
    /// The scanner found nothing worth a look.
    NoOpportunity,
    /// The profit evaluator declined the best opportunity.
    NotProfitable,
    /// The risk engine rejected the trade.
    RiskRejected,
    /// The circuit breaker is pausing trading.
    RiskPaused,
    /// The pre-flight simulation rejected the trade.
    SimulationRejected,
    /// The trade was sent; each execution is journaled on its own.
    Executed,
}

/// The journal status of a round, when the round itself is journaled.
pub open spec fn spec_journal_status(end: RoundEnd) -> Option<Seq<char>> {
    match end {
        RoundEnd::NotProfitable => Some("skipped"@),
        RoundEnd::RiskRejected => Some("rejected"@),
        RoundEnd::SimulationRejected => Some("sim_rejected"@),
        _ => None,
    }
}

/// The wait before the next round, in milliseconds.
pub open spec fn spec_wait_ms(end: RoundEnd) -> u64 {
    match end {
        RoundEnd::NoOpportunity => 2_000,
        RoundEnd::RiskPaused => 30_000,
        _ => 500,
    }
}

/// The journal status written for a round that ends this way, if any.
pub fn journal_status(end: RoundEnd) -> (s: Option<&'static str>)
    ensures
        match spec_journal_status(end) {
            Some(t) => s matches Some(x) && x@ == t,
            None => s is None,
        },
{
    match end {
        RoundEnd::NotProfitable => Some("skipped"),
        RoundEnd::RiskRejected => Some("rejected"),
        RoundEnd::SimulationRejected => Some("sim_rejected"),
        _ => None,
    }
}

/// How long to wait before the next round.
pub fn wait_ms(end: RoundEnd) -> (ms: u64)
    ensures
        ms == spec_wait_ms(end),
{
    match end {
        RoundEnd::NoOpportunity => 2_000,
        RoundEnd::RiskPaused => 30_000,
        _ => 500,
    }
}

/// The journal status of one execution of an executed trade.
pub fn execution_status(succeeded: bool) -> (s: &'static str)
    ensures
        s@ == if succeeded {
            "executed"@
        } else {
            "failed"@
        },
{
    if succeeded {
        "executed"
    } else {
        "failed"
    }
}

/// Every declined trade is journaled, except while the breaker pauses
/// trading, and no round waits longer than a breaker pause.
pub proof fn lemma_declined_rounds_are_journaled(end: RoundEnd)
    ensures
        (end == RoundEnd::NotProfitable || end == RoundEnd::RiskRejected || end
            == RoundEnd::SimulationRejected) ==> spec_journal_status(end) is Some,
        (end == RoundEnd::RiskPaused || end == RoundEnd::NoOpportunity) ==> spec_journal_status(
            end,
        ) is None,
        spec_wait_ms(end) <= spec_wait_ms(RoundEnd::RiskPaused),
{
}


/// The waits of the main loop: 2 s when nothing was found, 30 s while the
/// breaker pauses trading, and 500 ms after every other round (declined by
/// profit, risk or simulation, or executed).
pub proof fn lemma_round_waits(end: RoundEnd)
    ensures
        end == RoundEnd::NoOpportunity ==> spec_wait_ms(end) == 2_000,
        end == RoundEnd::RiskPaused ==> spec_wait_ms(end) == 30_000,
        end != RoundEnd::NoOpportunity && end != RoundEnd::RiskPaused ==> spec_wait_ms(end) == 500,
{
}

/// The journal statuses: a round declined by profit is journaled as
/// `skipped`, by risk as `rejected`, by simulation as `sim_rejected`, and no
/// other round is journaled as a whole.
pub proof fn lemma_round_statuses(end: RoundEnd)
    ensures
        end == RoundEnd::NotProfitable ==> spec_journal_status(end) == Some("skipped"@),
        end == RoundEnd::RiskRejected ==> spec_journal_status(end) == Some("rejected"@),
        end == RoundEnd::SimulationRejected ==> spec_journal_status(end) == Some("sim_rejected"@),
        end != RoundEnd::NotProfitable && end != RoundEnd::RiskRejected && end
            != RoundEnd::SimulationRejected ==> spec_journal_status(end) is None,
{
}

} // verus!
