use sharklet::log_store::{AppState, LogStore, LOG_CAPACITY};
use sharklet::logger::consecutive_failures;
use sharklet::risk_engine::{
    now_secs, CircuitBreaker, FailureTracker, RiskDecision, RollingWindow, RETENTION_SECS,
};

#[test]
fn log_store_keeps_newest_hundred() {
    let mut store = LogStore::new();
    assert!(store.get().is_empty());
    for i in 0..150 {
        store.push(format!("msg {}", i));
    }
    let lines = store.get();
    assert_eq!(lines.len(), LOG_CAPACITY);
    assert_eq!(lines[0], "msg 50");
    assert_eq!(lines[99], "msg 149");
}

#[test]
fn log_store_under_capacity_keeps_all() {
    let mut store = LogStore::new();
    store.push("EXECUTED trade".to_string());
    store.push("skip: thin spread".to_string());
    assert_eq!(store.get(), vec!["EXECUTED trade".to_string(), "skip: thin spread".to_string()]);
    let state = AppState { health: true };
    assert!(state.health);
}

#[test]
fn rolling_window_keeps_recent_amounts() {
    let mut w: RollingWindow<f64> = RollingWindow::new();
    w.push_at(1_000, 1.5);
    w.push_at(5_000, 2.0);
    w.push_at(10_000, 4.0);
    // within the last hour of t = 10_000: only the entry at 10_000
    assert_eq!(w.amounts_within_at(10_000, 3_600), vec![4.0]);
    // within 9_000 s: the entries at 5_000 and 10_000 (cutoff 1_000 keeps 1_000 too)
    assert_eq!(w.amounts_within_at(10_000, 9_000), vec![1.5, 2.0, 4.0]);
    assert_eq!(w.amounts_within_at(10_000, 8_000), vec![2.0, 4.0]);
    // a push far in the future drops what is older than the retention period
    w.push_at(1_000 + RETENTION_SECS + 1, 8.0);
    assert_eq!(w.entries.len(), 3);
    assert_eq!(w.entries[0], (5_000, 2.0));
}

#[test]
fn rolling_window_prune() {
    let mut w: RollingWindow<u32> = RollingWindow::new();
    w.push_at(10, 1);
    w.push_at(20, 2);
    w.push_at(30, 3);
    w.prune(20);
    assert_eq!(w.entries, vec![(20, 2), (30, 3)]);
}

#[test]
fn failure_tracker_counts_within_window() {
    let mut t = FailureTracker::new();
    t.record_failure_at(100);
    t.record_failure_at(4_000);
    t.record_failure_at(5_000);
    assert_eq!(t.consecutive_at(5_000, 3_600), 2);
    assert_eq!(t.consecutive_at(5_000, 10_000), 3);
    t.record_success();
    assert_eq!(t.consecutive_at(5_000, 10_000), 0);
}

#[test]
fn failure_tracker_prunes_old_failures() {
    let mut t = FailureTracker::new();
    t.record_failure_at(10);
    t.record_failure_at(10 + RETENTION_SECS + 5);
    assert_eq!(t.timestamps, vec![10 + RETENTION_SECS + 5]);
    t.prune_old_at(u64::MAX);
    assert!(t.timestamps.is_empty());
}

#[test]
fn failure_tracker_with_system_clock() {
    let mut t = FailureTracker::new();
    t.record_failure();
    t.record_failure();
    assert_eq!(t.consecutive(3_600), 2);
    t.prune_old();
    assert_eq!(t.timestamps.len(), 2);
}

#[test]
fn clock_reads_seconds_since_epoch() {
    let a = now_secs();
    assert!(a > 1_600_000_000);
    let b = now_secs();
    assert!(b >= a);
}

#[test]
fn circuit_breaker_trips_pauses_and_resumes() {
    let mut b = CircuitBreaker::new(3, 300, 3_600);
    let now = 1_000_000;
    assert_eq!(b.evaluate_at(now), None);
    b.record_outcome_at(now, true);
    b.record_outcome_at(now + 1, true);
    assert_eq!(b.evaluate_at(now + 2), None);
    b.record_outcome_at(now + 2, true);
    assert_eq!(
        b.evaluate_at(now + 3),
        Some(RiskDecision::Reject("circuit breaker tripped — 3 failures".to_string()))
    );
    assert_eq!(b.paused_until, now + 303);
    assert!(b.is_paused_at(now + 302));
    assert_eq!(b.evaluate_at(now + 302), Some(RiskDecision::Paused));
    assert!(!b.is_paused_at(now + 303));
    b.resume();
    assert_eq!(b.paused_until, 0);
    assert_eq!(b.evaluate_at(now + 4), None);
}

#[test]
fn circuit_breaker_success_clears_failures() {
    let mut b = CircuitBreaker::new(2, 60, 3_600);
    b.record_outcome_at(100, true);
    b.record_outcome_at(101, false);
    b.record_outcome_at(102, true);
    assert_eq!(b.evaluate_at(103), None);
}

#[test]
fn circuit_breaker_forgets_failures_outside_window() {
    let mut b = CircuitBreaker::new(2, 60, 100);
    b.record_outcome_at(1_000, true);
    b.record_outcome_at(1_050, true);
    assert_eq!(b.evaluate_at(1_200), None);
    assert!(matches!(b.evaluate_at(1_100), Some(RiskDecision::Reject(_))));
}

#[test]
fn circuit_breaker_activate_pause() {
    let mut b = CircuitBreaker::new(3, 300, 3_600);
    b.activate_pause_at(50);
    assert_eq!(b.paused_until, 350);
    assert_eq!(b.evaluate_at(349), Some(RiskDecision::Paused));
}

#[test]
fn journal_counts_leading_losses() {
    assert_eq!(consecutive_failures(&vec![]), 0);
    assert_eq!(consecutive_failures(&vec![Some(true), Some(true), Some(false), Some(true)]), 2);
    assert_eq!(consecutive_failures(&vec![Some(true), None, Some(true)]), 1);
    assert_eq!(consecutive_failures(&vec![Some(false), Some(true)]), 0);
    assert_eq!(consecutive_failures(&vec![Some(true); 20]), 20);
}

#[test]
fn recorded_loss_counts_in_every_window() {
    let mut w: RollingWindow<f64> = RollingWindow::new();
    w.push_at(100, 1.0);
    w.push_at(50_000, 2.0);
    let now = 90_050;
    let before_hour = w.amounts_within_at(now, 3_600);
    let before_day = w.amounts_within_at(now, 86_400);
    w.push_at(now, 3.0);
    let mut expected_hour = before_hour.clone();
    expected_hour.push(3.0);
    let mut expected_day = before_day.clone();
    expected_day.push(3.0);
    assert_eq!(w.amounts_within_at(now, 3_600), expected_hour);
    assert_eq!(w.amounts_within_at(now, 86_400), expected_day);
    assert_eq!(w.amounts_within_at(now, 86_400), vec![2.0, 3.0]);
}
