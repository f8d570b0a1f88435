use sharklet::cycle::{execution_status, journal_status, wait_ms, RoundEnd};
use sharklet::executor::{backoff_delay_ms, simulation_required, simulation_retry_step, RetryStep, MAX_RETRIES};
use sharklet::rpc_manager::U64Pair;
use sharklet::simulation::{check_opportunity_age, check_rpc_health, gate_deep_simulation, CheckStatus};

fn render(trace: &[(String, CheckStatus)]) -> Vec<String> {
    trace
        .iter()
        .map(|(l, s)| match s {
            CheckStatus::Pass(m) => format!("{l}: pass {m}"),
            CheckStatus::Fail(m) => format!("{l}: fail {m}"),
            CheckStatus::Skipped(m) => format!("{l}: skipped {m}"),
        })
        .collect()
}

#[test]
fn rpc_health_passes_with_fresh_head() {
    let mut trace = Vec::new();
    let ok = check_rpc_health(&Some(U64Pair { a: 100, b: 101 }), Some(1_000), 1_010, 30, &mut trace);
    assert!(ok);
    assert_eq!(render(&trace), vec!["rpc consensus: pass blocks 100/101", "block freshness: pass head block age 10s"]);
}

#[test]
fn rpc_health_fails_on_stale_head() {
    let mut trace = Vec::new();
    let ok = check_rpc_health(&Some(U64Pair { a: 5, b: 5 }), Some(1_000), 1_031, 30, &mut trace);
    assert!(!ok);
    assert_eq!(render(&trace), vec!["rpc consensus: pass blocks 5/5", "block freshness: fail head block is 31s old"]);
}

#[test]
fn rpc_health_fails_without_consensus() {
    let mut trace = Vec::new();
    let ok = check_rpc_health(&None, None, 1_031, 30, &mut trace);
    assert!(!ok);
    assert_eq!(render(&trace), vec!["rpc consensus: fail disagree"]);
    let ok = check_rpc_health(&None, Some(1_030), 1_031, 30, &mut trace);
    assert!(!ok);
    assert_eq!(trace.len(), 3);
}

#[test]
fn opportunity_age_check() {
    let mut trace = Vec::new();
    check_opportunity_age(1, 101, Some(100), &mut trace);
    check_opportunity_age(1, 105, Some(100), &mut trace);
    check_opportunity_age(1, 90, Some(100), &mut trace);
    check_opportunity_age(1, 105, None, &mut trace);
    assert_eq!(
        render(&trace),
        vec![
            "opportunity age: pass scanner block 100, head 101",
            "opportunity age: fail scanner block 100 is 5 blocks behind",
            "opportunity age: pass scanner block 100, head 90",
        ]
    );
}

#[test]
fn deep_simulation_gate() {
    let mut trace = Vec::new();
    assert!(gate_deep_simulation(true, &mut trace));
    assert!(trace.is_empty());
    assert!(!gate_deep_simulation(false, &mut trace));
    assert_eq!(render(&trace), vec!["eth_call simulation: skipped earlier check failed"]);
}

#[test]
fn backoff_schedule() {
    assert_eq!(backoff_delay_ms(0), 200);
    assert_eq!(backoff_delay_ms(1), 400);
    assert_eq!(backoff_delay_ms(2), 800);
    assert_eq!(backoff_delay_ms(56), 200 * 2u64.pow(56));
}

#[test]
fn retry_steps() {
    assert_eq!(simulation_retry_step(0, MAX_RETRIES, true), RetryStep::Proceed);
    assert_eq!(simulation_retry_step(0, MAX_RETRIES, false), RetryStep::RetryAfterMs(200));
    assert_eq!(simulation_retry_step(1, MAX_RETRIES, false), RetryStep::RetryAfterMs(400));
    assert_eq!(simulation_retry_step(2, MAX_RETRIES, false), RetryStep::GiveUp);
    assert_eq!(simulation_retry_step(0, 1, false), RetryStep::GiveUp);
    assert!(simulation_required(MAX_RETRIES));
    assert!(!simulation_required(0));
}

#[test]
fn round_endings() {
    assert_eq!(journal_status(RoundEnd::NotProfitable), Some("skipped"));
    assert_eq!(journal_status(RoundEnd::RiskRejected), Some("rejected"));
    assert_eq!(journal_status(RoundEnd::SimulationRejected), Some("sim_rejected"));
    assert_eq!(journal_status(RoundEnd::RiskPaused), None);
    assert_eq!(journal_status(RoundEnd::NoOpportunity), None);
    assert_eq!(journal_status(RoundEnd::Executed), None);
    assert_eq!(wait_ms(RoundEnd::NoOpportunity), 2_000);
    assert_eq!(wait_ms(RoundEnd::RiskPaused), 30_000);
    assert_eq!(wait_ms(RoundEnd::NotProfitable), 500);
    assert_eq!(wait_ms(RoundEnd::Executed), 500);
    assert_eq!(execution_status(true), "executed");
    assert_eq!(execution_status(false), "failed");
}
