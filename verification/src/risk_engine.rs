//! The risk engine's time-keeping core: rolling windows of recorded amounts,
//! the failure tracker and the circuit breaker.
//!
//! Money limits (trade size, flash-loan size, wallet floor, loss and gas
//! budgets) are compared in floating point by the application; everything
//! that decides on time stamps and counts stands here.

use crate::text::{decimal, push_u64};
use vstd::prelude::*;

verus! {

/// How long recorded entries are kept, in seconds.
pub const RETENTION_SECS: u64 = 90_000;

/// A risk decision on a proposed trade.
#[derive(Debug, PartialEq)]
pub enum RiskDecision {
    Approve,
    Reject(String),
    Paused,
}

/// Seconds since the Unix epoch, by the system clock.
///
/// Calls `std::time::SystemTime::now` and `duration_since(UNIX_EPOCH)`; a
/// clock set before the epoch reads as 0. Nothing is promised of the value:
/// it is whatever the clock says.
#[verifier::external_body]
pub fn now_secs() -> u64 {
    std::time::SystemTime::now().duration_since(std::time::UNIX_EPOCH).unwrap_or_default().as_secs()
}

/// `now - seconds`, or 0 when that would be negative.
pub open spec fn cutoff(now: u64, seconds: u64) -> u64 {
    if now >= seconds {
        (now - seconds) as u64
    } else {
        0
    }
}

/// Holds of time stamps at or after `from`.
pub open spec fn at_or_after(from: u64) -> spec_fn(u64) -> bool {
    |t: u64| t >= from
}

/// Holds of window entries stamped at or after `from`.
pub open spec fn entry_at_or_after<V>(from: u64) -> spec_fn((u64, V)) -> bool {
    |e: (u64, V)| e.0 >= from
}

/// The time stamps of `ts` at or after `from`, in order.
pub open spec fn times_since(ts: Seq<u64>, from: u64) -> Seq<u64> {
    ts.filter(at_or_after(from))
}

/// The entries of `es` stamped at or after `from`, in order.
pub open spec fn entries_since<V>(es: Seq<(u64, V)>, from: u64) -> Seq<(u64, V)> {
    es.filter(entry_at_or_after::<V>(from))
}

/// A window after recording `amount` at `now`: old entries past the
/// retention period are dropped.
pub open spec fn window_after_push<V>(es: Seq<(u64, V)>, now: u64, amount: V) -> Seq<(u64, V)> {
    entries_since(es.push((now, amount)), cutoff(now, RETENTION_SECS))
}

/// The amounts of the entries of `es` recorded within `seconds` of `now`.
pub open spec fn amounts_within<V>(es: Seq<(u64, V)>, now: u64, seconds: u64) -> Seq<V> {
    entries_since(es, cutoff(now, seconds)).map_values(|e: (u64, V)| e.1)
}

/// How many failures of `ts` fall within `window` seconds of `now`.
pub open spec fn failures_within(ts: Seq<u64>, now: u64, window: u64) -> nat {
    times_since(ts, cutoff(now, window)).len()
}

fn saturating_cutoff(now: u64, seconds: u64) -> (c: u64)
    ensures
        c == cutoff(now, seconds),
{
    now.saturating_sub(seconds)
}

/// Amounts recorded over time, each with the second it was recorded at.
pub struct RollingWindow<V> {
    pub entries: Vec<(u64, V)>,
}

impl<V: Copy> RollingWindow<V> {
    /// An empty window.
    pub fn new() -> (w: Self)
        ensures
            w.entries@ == Seq::<(u64, V)>::empty(),
    {
        Self { entries: Vec::new() }
    }

    /// Records `amount` at second `now` and drops what is older than the
    /// retention period.
    pub fn push_at(&mut self, now: u64, amount: V)
        ensures
            final(self).entries@ == window_after_push(old(self).entries@, now, amount),
    {
        self.entries.push((now, amount));
        self.prune(saturating_cutoff(now, RETENTION_SECS));
    }

    /// Records `amount` now, by the system clock.
    pub fn push(&mut self, amount: V)
        ensures
            exists|now: u64|
                final(self).entries@ == #[trigger] window_after_push(
                    old(self).entries@,
                    now,
                    amount,
                ),
    {
        let now = now_secs();
        self.push_at(now, amount);
    }

    /// The amounts recorded within `seconds` of `now`, oldest first; the
    /// application sums them.
    pub fn amounts_within_at(&self, now: u64, seconds: u64) -> (r: Vec<V>)
        ensures
            r@ == amounts_within(self.entries@, now, seconds),
    {
        let from = saturating_cutoff(now, seconds);
        let ghost pred = entry_at_or_after::<V>(from);
        let mut out: Vec<V> = Vec::new();
        let n = self.entries.len();
        let mut i: usize = 0;
        while i < n
            invariant
                i <= n,
                n == self.entries@.len(),
                pred == entry_at_or_after::<V>(from),
                out@ == self.entries@.take(i as int).filter(pred).map_values(|e: (u64, V)| e.1),
            decreases n - i,
        {
            let e = self.entries[i];
            proof {
                assert(self.entries@.take(i + 1) =~= self.entries@.take(i as int).push(e));
                self.entries@.take(i as int).lemma_filter_push(e, pred);
            }
            if e.0 >= from {
                out.push(e.1);
            }
            assert(out@ =~= self.entries@.take(i + 1).filter(pred).map_values(
                |e: (u64, V)| e.1,
            ));
            i = i + 1;
        }
        assert(self.entries@.take(n as int) =~= self.entries@);
        out
    }

    /// The amounts recorded within `seconds` of now, by the system clock.
    pub fn amounts_within(&self, seconds: u64) -> (r: Vec<V>)
        ensures
            exists|now: u64| r@ == #[trigger] amounts_within(self.entries@, now, seconds),
    {
        let now = now_secs();
        self.amounts_within_at(now, seconds)
    }

    /// Keeps the entries stamped at or after `from`, in order.
    pub fn prune(&mut self, from: u64)
        ensures
            final(self).entries@ == entries_since(old(self).entries@, from),
    {
        let ghost pred = entry_at_or_after::<V>(from);
        let mut kept: Vec<(u64, V)> = Vec::new();
        let n = self.entries.len();
        let mut i: usize = 0;
        while i < n
            invariant
                i <= n,
                n == self.entries@.len(),
                pred == entry_at_or_after::<V>(from),
                kept@ == self.entries@.take(i as int).filter(pred),
            decreases n - i,
        {
            let e = self.entries[i];
            proof {
                assert(self.entries@.take(i + 1) =~= self.entries@.take(i as int).push(e));
                self.entries@.take(i as int).lemma_filter_push(e, pred);
            }
            if e.0 >= from {
                kept.push(e);
            }
            i = i + 1;
        }
        assert(self.entries@.take(n as int) =~= self.entries@);
        self.entries = kept;
    }
}

/// Time stamps of recent failed trades.
pub struct FailureTracker {
    pub timestamps: Vec<u64>,
}

impl FailureTracker {
    /// No failures.
    pub fn new() -> (t: Self)
        ensures
            t.timestamps@ == Seq::<u64>::empty(),
    {
        Self { timestamps: Vec::new() }
    }

    /// Records a failure at second `now` and drops what is older than the
    /// retention period.
    pub fn record_failure_at(&mut self, now: u64)
        ensures
            final(self).timestamps@ == times_since(
                old(self).timestamps@.push(now),
                cutoff(now, RETENTION_SECS),
            ),
    {
        self.timestamps.push(now);
        self.prune_old_at(now);
    }

    /// Records a failure now, then drops what is older than the retention
    /// period; both by the system clock, read once for each.
    pub fn record_failure(&mut self)
        ensures
            exists|at: u64, now: u64|
                final(self).timestamps@ == #[trigger] times_since(
                    old(self).timestamps@.push(at),
                    #[trigger] cutoff(now, RETENTION_SECS),
                ),
    {
        let at = now_secs();
        self.timestamps.push(at);
        self.prune_old();
    }

    /// A success breaks the run of failures.
    pub fn record_success(&mut self)
        ensures
            final(self).timestamps@ == Seq::<u64>::empty(),
    {
        self.timestamps.clear();
    }

    /// How many failures fall within `window_secs` of second `now`.
    pub fn consecutive_at(&self, now: u64, window_secs: u64) -> (c: u32)
        ensures
            c == failures_within(self.timestamps@, now, window_secs) as u32,
    {
        let from = saturating_cutoff(now, window_secs);
        let ghost pred = at_or_after(from);
        let n = self.timestamps.len();
        let mut count: usize = 0;
        let mut i: usize = 0;
        while i < n
            invariant
                i <= n,
                n == self.timestamps@.len(),
                pred == at_or_after(from),
                count == self.timestamps@.take(i as int).filter(pred).len(),
                count <= i,
            decreases n - i,
        {
            let t = self.timestamps[i];
            proof {
                assert(self.timestamps@.take(i + 1) =~= self.timestamps@.take(i as int).push(t));
                self.timestamps@.take(i as int).lemma_filter_push(t, pred);
            }
            if t >= from {
                count = count + 1;
            }
            i = i + 1;
        }
        assert(self.timestamps@.take(n as int) =~= self.timestamps@);
        count as u32
    }

    /// How many failures fall within `window_secs` of now, by the system clock.
    pub fn consecutive(&self, window_secs: u64) -> (c: u32)
        ensures
            exists|now: u64|
                c == #[trigger] failures_within(self.timestamps@, now, window_secs) as u32,
    {
        let now = now_secs();
        self.consecutive_at(now, window_secs)
    }

    /// Drops the failures older than the retention period before `now`.
    pub fn prune_old_at(&mut self, now: u64)
        ensures
            final(self).timestamps@ == times_since(
                old(self).timestamps@,
                cutoff(now, RETENTION_SECS),
            ),
    {
        let from = saturating_cutoff(now, RETENTION_SECS);
        let ghost pred = at_or_after(from);
        let mut kept: Vec<u64> = Vec::new();
        let n = self.timestamps.len();
        let mut i: usize = 0;
        while i < n
            invariant
                i <= n,
                n == self.timestamps@.len(),
                pred == at_or_after(from),
                kept@ == self.timestamps@.take(i as int).filter(pred),
            decreases n - i,
        {
            let t = self.timestamps[i];
            proof {
                assert(self.timestamps@.take(i + 1) =~= self.timestamps@.take(i as int).push(t));
                self.timestamps@.take(i as int).lemma_filter_push(t, pred);
            }
            if t >= from {
                kept.push(t);
            }
            i = i + 1;
        }
        assert(self.timestamps@.take(n as int) =~= self.timestamps@);
        self.timestamps = kept;
    }

    /// Drops the failures older than the retention period, by the system clock.
    pub fn prune_old(&mut self)
        ensures
            exists|now: u64|
                final(self).timestamps@ == times_since(
                    old(self).timestamps@,
                    #[trigger] cutoff(now, RETENTION_SECS),
                ),
    {
        let now = now_secs();
        self.prune_old_at(now);
    }
}

/// What the circuit breaker says of a moment.
pub enum BreakerVerdict {
    /// A pause is still running.
    Paused,
    /// Too many failures fall within the reset window: the breaker trips,
    /// with this many failures counted.
    Tripped(u32),
    /// The breaker lets the trade go on to the money limits.
    Clear,
}

/// The circuit breaker as a value: limits, failure times and pause end.
pub struct BreakerModel {
    pub max_consecutive_failures: u32,
    pub circuit_breaker_pause_secs: u64,
    pub failure_reset_window_secs: u64,
    pub failures: Seq<u64>,
    pub paused_until: u64,
}

/// The breaker's verdict at second `now`.
pub open spec fn verdict(m: BreakerModel, now: u64) -> BreakerVerdict {
    if now < m.paused_until {
        BreakerVerdict::Paused
    } else if failures_within(m.failures, now, m.failure_reset_window_secs) as u32
        >= m.max_consecutive_failures {
        BreakerVerdict::Tripped(failures_within(m.failures, now, m.failure_reset_window_secs) as u32)
    } else {
        BreakerVerdict::Clear
    }
}

/// Tripping at `now` would overflow the pause end.
pub open spec fn pause_overflows(m: BreakerModel, now: u64) -> bool {
    now + m.circuit_breaker_pause_secs > u64::MAX
}

/// The breaker after judging second `now`: a trip starts a pause.
pub open spec fn after_evaluate(m: BreakerModel, now: u64) -> BreakerModel {
    match verdict(m, now) {
        BreakerVerdict::Tripped(_) => BreakerModel {
            paused_until: (now + m.circuit_breaker_pause_secs) as u64,
            ..m
        },
        _ => m,
    }
}

/// The breaker after a trade's outcome at second `now`: a loss is a failure,
/// anything else clears the failures.
pub open spec fn after_outcome(m: BreakerModel, now: u64, loss: bool) -> BreakerModel {
    if loss {
        BreakerModel { failures: times_since(m.failures.push(now), cutoff(now, RETENTION_SECS)), ..m }
    } else {
        BreakerModel { failures: Seq::empty(), ..m }
    }
}

/// The breaker after a manual resume.
pub open spec fn after_resume(m: BreakerModel) -> BreakerModel {
    BreakerModel { paused_until: 0, failures: Seq::empty(), ..m }
}

/// The reason given when the breaker trips with `n` failures.
pub open spec fn breaker_reason(n: u32) -> Seq<char> {
    "circuit breaker tripped — "@ + decimal(n as nat) + " failures"@
}

/// The integer part of the risk engine: consecutive-failure tracking and the
/// pause it triggers.
pub struct CircuitBreaker {
    pub max_consecutive_failures: u32,
    pub circuit_breaker_pause_secs: u64,
    pub failure_reset_window_secs: u64,
    pub failures: FailureTracker,
    pub paused_until: u64,
}

impl CircuitBreaker {
    /// The breaker as a value.
    pub open spec fn view(&self) -> BreakerModel {
        BreakerModel {
            max_consecutive_failures: self.max_consecutive_failures,
            circuit_breaker_pause_secs: self.circuit_breaker_pause_secs,
            failure_reset_window_secs: self.failure_reset_window_secs,
            failures: self.failures.timestamps@,
            paused_until: self.paused_until,
        }
    }

    /// A breaker with no failures and no pause.
    pub fn new(
        max_consecutive_failures: u32,
        circuit_breaker_pause_secs: u64,
        failure_reset_window_secs: u64,
    ) -> (b: Self)
        ensures
            b@ == (BreakerModel {
                max_consecutive_failures,
                circuit_breaker_pause_secs,
                failure_reset_window_secs,
                failures: Seq::empty(),
                paused_until: 0,
            }),
    {
        Self {
            max_consecutive_failures,
            circuit_breaker_pause_secs,
            failure_reset_window_secs,
            failures: FailureTracker::new(),
            paused_until: 0,
        }
    }

    /// Whether a pause runs at second `now`.
    pub fn is_paused_at(&self, now: u64) -> (r: bool)
        ensures
            r == (now < self.paused_until),
    {
        now < self.paused_until
    }

    /// Starts a pause of `circuit_breaker_pause_secs` at second `now`.
    pub fn activate_pause_at(&mut self, now: u64)
        requires
            !pause_overflows(old(self)@, now),
        ensures
            final(self)@ == (BreakerModel {
                paused_until: (now + old(self).circuit_breaker_pause_secs) as u64,
                ..old(self)@
            }),
    {
        self.paused_until = now + self.circuit_breaker_pause_secs;
    }

    /// Ends any pause and forgets the failures.
    pub fn resume(&mut self)
        ensures
            final(self)@ == after_resume(old(self)@),
    {
        self.paused_until = 0;
        self.failures.timestamps.clear();
    }

    /// The breaker's part of judging a trade at second `now`: `Paused` while
    /// a pause runs; a rejection, and a new pause, when too many failures fall
    /// within the reset window; `None` when the trade goes on to the money
    /// limits.
    pub fn evaluate_at(&mut self, now: u64) -> (r: Option<RiskDecision>)
        requires
            verdict(old(self)@, now) is Tripped ==> !pause_overflows(old(self)@, now),
        ensures
            final(self)@ == after_evaluate(old(self)@, now),
            match verdict(old(self)@, now) {
                BreakerVerdict::Paused => r == Some(RiskDecision::Paused),
                BreakerVerdict::Tripped(n) => r matches Some(RiskDecision::Reject(msg))
                    && msg@ == breaker_reason(n),
                BreakerVerdict::Clear => r is None,
            },
    {
        if self.is_paused_at(now) {
            return Some(RiskDecision::Paused);
        }
        let failures = self.failures.consecutive_at(now, self.failure_reset_window_secs);
        if failures >= self.max_consecutive_failures {
            self.activate_pause_at(now);
            let mut msg = "circuit breaker tripped — ".to_owned();
            push_u64(&mut msg, failures as u64);
            msg.append(" failures");
            return Some(RiskDecision::Reject(msg));
        }
        None
    }

    /// Records the outcome of a trade at second `now`.
    pub fn record_outcome_at(&mut self, now: u64, loss: bool)
        ensures
            final(self)@ == after_outcome(old(self)@, now, loss),
    {
        if loss {
            self.failures.record_failure_at(now);
        } else {
            self.failures.record_success();
        }
    }
}

/// Filtering by a later cutoff after an earlier one is filtering by the later.
proof fn lemma_times_since_twice(ts: Seq<u64>, early: u64, late: u64)
    requires
        early <= late,
    ensures
        times_since(times_since(ts, early), late) == times_since(ts, late),
    decreases ts.len(),
{
    if ts.len() > 0 {
        let init = ts.drop_last();
        let t = ts.last();
        assert(ts =~= init.push(t));
        lemma_times_since_twice(init, early, late);
        init.lemma_filter_push(t, at_or_after(early));
        init.lemma_filter_push(t, at_or_after(late));
        times_since(init, early).lemma_filter_push(t, at_or_after(late));
    } else {
        reveal(Seq::filter);
    }
}

/// Once the breaker trips at `now`, every moment before the pause ends is
/// answered `Paused`, and judging such a moment changes nothing.
pub proof fn lemma_pause_holds_until_expiry(m: BreakerModel, now: u64, t: u64)
    requires
        verdict(m, now) is Tripped,
        !pause_overflows(m, now),
        now <= t < now + m.circuit_breaker_pause_secs,
    ensures
        verdict(after_evaluate(m, now), t) is Paused,
        after_evaluate(after_evaluate(m, now), t) == after_evaluate(m, now),
{
}

/// After a resume the breaker is clear at any moment, as long as at least one
/// failure is needed to trip it.
pub proof fn lemma_resume_clears(m: BreakerModel, now: u64)
    requires
        m.max_consecutive_failures > 0,
    ensures
        verdict(after_resume(m), now) is Clear,
        after_evaluate(after_resume(m), now) == after_resume(m),
{
    reveal(Seq::filter);
}

/// A successful trade clears the failure run: once no pause runs, the breaker
/// is clear, as long as at least one failure is needed to trip it.
pub proof fn lemma_success_clears(m: BreakerModel, at: u64, now: u64)
    requires
        m.max_consecutive_failures > 0,
        now >= m.paused_until,
    ensures
        verdict(after_outcome(m, at, false), now) is Clear,
{
    reveal(Seq::filter);
}

/// A loss recorded at `now` adds exactly one failure to the count within any
/// reset window no longer than the retention period.
pub proof fn lemma_loss_counts_once(m: BreakerModel, now: u64, window: u64)
    requires
        window <= RETENTION_SECS,
    ensures
        failures_within(after_outcome(m, now, true).failures, now, window) == failures_within(
            m.failures,
            now,
            window,
        ) + 1,
{
    let early = cutoff(now, RETENTION_SECS);
    let late = cutoff(now, window);
    lemma_times_since_twice(m.failures.push(now), early, late);
    m.failures.lemma_filter_push(now, at_or_after(late));
}

/// With no pause running, a loss at `now` trips the breaker at `now` exactly
/// when the failures within the reset window reach the limit with it.
pub proof fn lemma_loss_trips_at_limit(m: BreakerModel, now: u64)
    requires
        m.failure_reset_window_secs <= RETENTION_SECS,
        now >= m.paused_until,
        failures_within(m.failures, now, m.failure_reset_window_secs) < u32::MAX,
    ensures
        (verdict(after_outcome(m, now, true), now) is Tripped) <==> failures_within(
            m.failures,
            now,
            m.failure_reset_window_secs,
        ) + 1 >= m.max_consecutive_failures,
{
    lemma_loss_counts_once(m, now, m.failure_reset_window_secs);
}

/// Filtering entries by a later cutoff after an earlier one is filtering by
/// the later.
proof fn lemma_entries_since_twice<V>(es: Seq<(u64, V)>, early: u64, late: u64)
    requires
        early <= late,
    ensures
        entries_since(entries_since(es, early), late) == entries_since(es, late),
    decreases es.len(),
{
    if es.len() > 0 {
        let init = es.drop_last();
        let e = es.last();
        assert(es =~= init.push(e));
        lemma_entries_since_twice(init, early, late);
        init.lemma_filter_push(e, entry_at_or_after::<V>(early));
        init.lemma_filter_push(e, entry_at_or_after::<V>(late));
        entries_since(init, early).lemma_filter_push(e, entry_at_or_after::<V>(late));
    } else {
        reveal(Seq::filter);
    }
}

/// An amount recorded at `now` is counted by every window ending at `now`
/// no longer than the retention period, after everything counted there
/// before: recording loses nothing a risk limit looks at.
pub proof fn lemma_recorded_amount_counted<V>(es: Seq<(u64, V)>, now: u64, amount: V, seconds: u64)
    requires
        seconds <= RETENTION_SECS,
    ensures
        amounts_within(window_after_push(es, now, amount), now, seconds) == amounts_within(
            es,
            now,
            seconds,
        ).push(amount),
{
    let early = cutoff(now, RETENTION_SECS);
    let late = cutoff(now, seconds);
    lemma_entries_since_twice(es.push((now, amount)), early, late);
    es.lemma_filter_push((now, amount), entry_at_or_after::<V>(late));
    let kept = entries_since(es, late);
    assert(kept.push((now, amount)).map_values(|e: (u64, V)| e.1) =~= kept.map_values(
        |e: (u64, V)| e.1,
    ).push(amount));
}


/// Judging a moment never touches the failure record or the limits: a trip
/// only starts a pause, ending `circuit_breaker_pause_secs` after `now`;
/// otherwise nothing changes. Failures are cleared only by a success or a
/// resume.
pub proof fn lemma_evaluate_keeps_failures(m: BreakerModel, now: u64)
    ensures
        after_evaluate(m, now).failures == m.failures,
        after_evaluate(m, now).max_consecutive_failures == m.max_consecutive_failures,
        after_evaluate(m, now).circuit_breaker_pause_secs == m.circuit_breaker_pause_secs,
        after_evaluate(m, now).failure_reset_window_secs == m.failure_reset_window_secs,
        verdict(m, now) is Tripped && !pause_overflows(m, now) ==> after_evaluate(m, now).paused_until
            == now + m.circuit_breaker_pause_secs,
        !(verdict(m, now) is Tripped) ==> after_evaluate(m, now) == m,
{
}

/// When the pause that a trip started ends and the failures that tripped the
/// breaker still fall within the reset window, the breaker trips again at
/// once, with the same count.
pub proof fn lemma_trips_again_after_pause(m: BreakerModel, now: u64)
    requires
        verdict(m, now) is Tripped,
        !pause_overflows(m, now),
        failures_within(
            m.failures,
            (now + m.circuit_breaker_pause_secs) as u64,
            m.failure_reset_window_secs,
        ) as u32 >= m.max_consecutive_failures,
    ensures
        verdict(
            after_evaluate(m, now),
            (now + m.circuit_breaker_pause_secs) as u64,
        ) == BreakerVerdict::Tripped(
            failures_within(
                m.failures,
                (now + m.circuit_breaker_pause_secs) as u64,
                m.failure_reset_window_secs,
            ) as u32,
        ),
{
}

} // verus!
