use hcbs_test_suite::policy::{
    SchedAttr, SchedPolicy, SchedPolicyError, SCHED_DEADLINE, SCHED_FIFO, SCHED_FLAG_RESET_ON_FORK,
};

fn attr(policy: u32) -> SchedAttr {
    SchedAttr {
        size: 48,
        sched_policy: policy,
        sched_flags: 0,
        sched_nice: 0,
        sched_priority: 0,
        sched_runtime: 0,
        sched_deadline: 0,
        sched_period: 0,
    }
}

#[test]
fn other_is_nice_zero() {
    assert_eq!(SchedPolicy::other(), SchedPolicy::OTHER { nice: 0 });
}

#[test]
fn deadline_record_in_nanoseconds_with_reset_on_fork() {
    let a = SchedPolicy::DEADLINE { runtime_ms: 10, deadline_ms: 20, period_ms: 30 }.to_attr();
    assert_eq!(a.size, 48);
    assert_eq!(a.sched_policy, SCHED_DEADLINE);
    assert_eq!(a.sched_flags, SCHED_FLAG_RESET_ON_FORK);
    assert_eq!(a.sched_runtime, 10_000_000);
    assert_eq!(a.sched_deadline, 20_000_000);
    assert_eq!(a.sched_period, 30_000_000);
}

#[test]
fn fifo_record() {
    let a = SchedPolicy::FIFO(50).to_attr();
    assert_eq!(a.sched_policy, SCHED_FIFO);
    assert_eq!(a.sched_priority, 50);
    assert_eq!(a.sched_flags, 0);
    assert_eq!(a.sched_runtime, 0);
}

#[test]
fn nice_carried_for_time_sharing() {
    let a = SchedPolicy::BATCH { nice: -5 }.to_attr();
    assert_eq!(a.sched_policy, 3);
    assert_eq!(a.sched_nice, -5);
}

#[test]
fn unknown_policy_is_reported() {
    assert_eq!(SchedPolicy::from_attr(&attr(7)), Err(SchedPolicyError::UnknownPolicyError(7)));
}

#[test]
fn deadline_read_back_in_milliseconds() {
    let mut a = attr(SCHED_DEADLINE);
    a.sched_runtime = 2_500_000;
    a.sched_deadline = 4_000_000;
    a.sched_period = 8_000_000;
    assert_eq!(
        SchedPolicy::from_attr(&a),
        Ok(SchedPolicy::DEADLINE { runtime_ms: 2, deadline_ms: 4, period_ms: 8 })
    );
}

#[test]
fn every_policy_round_trips() {
    let all = [
        SchedPolicy::OTHER { nice: 3 },
        SchedPolicy::BATCH { nice: -2 },
        SchedPolicy::IDLE,
        SchedPolicy::FIFO(99),
        SchedPolicy::RR(1),
        SchedPolicy::DEADLINE { runtime_ms: 4, deadline_ms: 10, period_ms: 10 },
    ];
    for p in all {
        assert_eq!(SchedPolicy::from_attr(&p.to_attr()), Ok(p));
    }
}

#[test]
fn oversized_deadline_saturates() {
    let a = SchedPolicy::DEADLINE { runtime_ms: u64::MAX, deadline_ms: 1, period_ms: 1 }.to_attr();
    assert_eq!(a.sched_runtime, u64::MAX);
    assert_eq!(a.sched_deadline, 1_000_000);
}
