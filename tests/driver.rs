use mixingcut::driver::{after_iteration, Decision, StopReason};

#[test]
fn small_change_stops_as_converged() {
    assert_eq!(
        after_iteration(0, 1000, true, false, false),
        Decision { stop: Some(StopReason::Converged), accept: false, report: false }
    );
    // convergence is checked before the increase, and is printed in verbose mode
    assert_eq!(
        after_iteration(3, 1000, true, true, true),
        Decision { stop: Some(StopReason::Converged), accept: false, report: true }
    );
    assert_eq!(
        after_iteration(999, 1000, true, false, true),
        Decision { stop: Some(StopReason::Converged), accept: false, report: true }
    );
}

#[test]
fn increase_stops_the_run() {
    assert_eq!(
        after_iteration(10, 1000, false, true, true),
        Decision { stop: Some(StopReason::Increasing), accept: false, report: false }
    );
}

#[test]
fn iteration_cap_stops_the_run() {
    assert_eq!(
        after_iteration(999, 1000, false, false, true),
        Decision { stop: Some(StopReason::IterationLimit), accept: true, report: false }
    );
    assert_eq!(
        after_iteration(0, 1, false, false, true),
        Decision { stop: Some(StopReason::IterationLimit), accept: true, report: true }
    );
}

#[test]
fn descent_continues_and_reports_every_tenth_iteration() {
    assert_eq!(after_iteration(0, 1000, false, false, true), Decision { stop: None, accept: true, report: true });
    assert_eq!(after_iteration(7, 1000, false, false, true), Decision { stop: None, accept: true, report: false });
    assert_eq!(after_iteration(20, 1000, false, false, true), Decision { stop: None, accept: true, report: true });
    assert_eq!(after_iteration(20, 1000, false, false, false), Decision { stop: None, accept: true, report: false });
}
