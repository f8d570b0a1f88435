//! The counting rule of the trade journal.
//!
//! The journal itself is a SQLite database kept by the application; it
//! reads the realized results of the most recent executed trades, newest
//! first, and marks each as a loss (`Some(true)`), not a loss
//! (`Some(false)`) or not yet realized (`None`).

use vstd::prelude::*;

verus! {

/// How many of the newest outcomes, counted from the start, are losses:
/// the run stops at the first trade that did not lose or has no result.
pub open spec fn leading_losses(outcomes: Seq<Option<bool>>) -> nat
    decreases outcomes.len(),
{
    if outcomes.len() == 0 {
        0
    } else if outcomes[0] == Some(true) {
        1 + leading_losses(outcomes.drop_first())
    } else {
        0
    }
}

proof fn lemma_leading_losses_prefix(outcomes: Seq<Option<bool>>, i: int)
    requires
        0 <= i <= outcomes.len(),
        forall|k: int| 0 <= k < i ==> outcomes[k] == Some(true),
    ensures
        leading_losses(outcomes) == i + leading_losses(outcomes.subrange(i, outcomes.len() as int)),
    decreases i,
{
    if i > 0 {
        lemma_leading_losses_prefix(outcomes.drop_first(), i - 1);
        assert(outcomes.drop_first().subrange(i - 1, outcomes.len() - 1) =~= outcomes.subrange(
            i,
            outcomes.len() as int,
        ));
    } else {
        assert(outcomes.subrange(0, outcomes.len() as int) =~= outcomes);
    }
}

/// The number of consecutive losses among the newest executed trades.
pub fn consecutive_failures(outcomes: &Vec<Option<bool>>) -> (count: u32)
    requires
        outcomes@.len() <= u32::MAX,
    ensures
        count == leading_losses(outcomes@),
{
    let n = outcomes.len();
    let mut count: u32 = 0;
    let mut i: usize = 0;
    while i < n
        invariant
            i <= n,
            n == outcomes@.len(),
            n <= u32::MAX,
            count == i,
            forall|k: int| 0 <= k < i ==> outcomes@[k] == Some(true),
        decreases n - i,
    {
        match outcomes[i] {
            Some(true) => {
                count = count + 1;
            },
            _ => {
                proof {
                    lemma_leading_losses_prefix(outcomes@, i as int);
                    let rest = outcomes@.subrange(i as int, n as int);
                    assert(rest[0] == outcomes@[i as int]);
                }
                return count;
            },
        }
        i = i + 1;
    }
    proof {
        lemma_leading_losses_prefix(outcomes@, n as int);
    }
    count
}

/// The count never exceeds the number of trades read, and a trade that did
/// not lose, at the front, makes it zero.
pub proof fn lemma_leading_losses_bounds(outcomes: Seq<Option<bool>>)
    ensures
        leading_losses(outcomes) <= outcomes.len(),
        outcomes.len() > 0 && outcomes[0] != Some(true) ==> leading_losses(outcomes) == 0,
    decreases outcomes.len(),
{
    if outcomes.len() > 0 {
        lemma_leading_losses_bounds(outcomes.drop_first());
    }
}


/// The count is the length of the run of losses at the front: every outcome
/// before it is a realized loss, and the outcome at it, if any, is not.
pub proof fn lemma_leading_losses_run(outcomes: Seq<Option<bool>>)
    ensures
        leading_losses(outcomes) <= outcomes.len(),
        forall|k: int| 0 <= k < leading_losses(outcomes) ==> outcomes[k] == Some(true),
        leading_losses(outcomes) < outcomes.len() ==> outcomes[leading_losses(outcomes) as int]
            != Some(true),
    decreases outcomes.len(),
{
    if outcomes.len() > 0 && outcomes[0] == Some(true) {
        let rest = outcomes.drop_first();
        lemma_leading_losses_run(rest);
        assert forall|k: int| 0 <= k < leading_losses(outcomes) implies outcomes[k] == Some(true) by {
            if k > 0 {
                assert(outcomes[k] == rest[k - 1]);
            }
        }
        if leading_losses(outcomes) < outcomes.len() {
            assert(outcomes[leading_losses(outcomes) as int] == rest[leading_losses(rest) as int]);
        }
    }
}

} // verus!
