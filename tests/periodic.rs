use hcbs_test_suite::periodic::{LoopAction, PeriodicLoop, POLL_QUANTUM_MS};

/// Drives a loop on a simulated clock that advances by each wait.
fn invocations(period_ms: u64, deadline_ms: u64) -> u64 {
    let mut l = PeriodicLoop::new(Some(period_ms), Some(deadline_ms));
    let mut now = 0u64;
    let mut n = 0u64;
    loop {
        match l.step(now, false) {
            LoopAction::Stop => return n,
            LoopAction::Invoke => n += 1,
            LoopAction::Wait(d) => {
                assert!(d > 0 && d <= POLL_QUANTUM_MS);
                now += d;
            }
        }
    }
}

#[test]
fn invocation_count_within_bounds() {
    let n = invocations(100, 1000);
    assert!(n >= 1000 / 100 - 1 && n <= 10, "{n}");
    let n = invocations(30, 100);
    assert!(n >= 100 / 30 - 1 && n <= 4, "{n}");
}

#[test]
fn cancellation_stops_at_once_and_for_good() {
    let mut l = PeriodicLoop::new(Some(10), None);
    assert_eq!(l.step(50, true), LoopAction::Stop);
    assert!(l.is_stopped());
    assert_eq!(l.step(60, false), LoopAction::Stop);
}

#[test]
fn cancellation_wins_over_due_tick() {
    let mut l = PeriodicLoop::new(Some(10), Some(1000));
    assert_eq!(l.step(10, true), LoopAction::Stop);
}

#[test]
fn deadline_stops_plain_wait() {
    let mut l = PeriodicLoop::new(None, Some(25));
    assert_eq!(l.step(0, false), LoopAction::Wait(10));
    assert_eq!(l.step(20, false), LoopAction::Wait(5));
    assert_eq!(l.step(25, false), LoopAction::Stop);
}

#[test]
fn no_deadline_no_period_waits_forever() {
    let mut l = PeriodicLoop::new(None, None);
    for t in 0..100u64 {
        assert_eq!(l.step(t * 1000, false), LoopAction::Wait(POLL_QUANTUM_MS));
    }
}

#[test]
fn tick_falls_due_after_one_period() {
    let mut l = PeriodicLoop::new(Some(4), None);
    assert_eq!(l.step(0, false), LoopAction::Wait(4));
    assert_eq!(l.step(4, false), LoopAction::Invoke);
    assert_eq!(l.step(4, false), LoopAction::Wait(4));
}
