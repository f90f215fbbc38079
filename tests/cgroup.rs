use hcbs_test_suite::cgroup::{
    cgroup_of_entry, cgroup_path, cgroup_setup, controller_paths, cpu_controller_listed, kernel_admits, Bandwidth,
    CgroupError, DestroyStep, Hierarchy, Knob, KnobWrite, MyCgroup, Reservation, MAX_PERIOD_US,
};

fn res(runtime_us: u64, period_us: u64) -> Reservation {
    Reservation { runtime_us, period_us }
}

fn w(knob: Knob, value_us: u64) -> KnobWrite {
    KnobWrite { knob, value_us }
}

#[test]
fn paths_per_hierarchy() {
    assert_eq!(cgroup_path(Hierarchy::Legacy, "g0"), "/sys/fs/cgroup/cpu/g0");
    assert_eq!(cgroup_path(Hierarchy::Unified, "g0"), "/sys/fs/cgroup/g0");
}

#[test]
fn controller_chain_top_down() {
    assert_eq!(controller_paths("a/b/c"), vec!["a", "a/b", "a/b/c"]);
    assert_eq!(controller_paths("g0"), vec!["g0"]);
    assert!(controller_paths("").is_empty());
}

#[test]
fn cpu_controller_detection() {
    assert!(cpu_controller_listed(b"cpuset cpu io memory\n"));
    assert!(!cpu_controller_listed(b"io memory pids\n"));
    assert!(!cpu_controller_listed(b""));
}

#[test]
fn growing_runtime_writes_period_first() {
    let ws = cgroup_setup(50_000, 100_000, res(0, 1_000_000)).unwrap();
    assert_eq!(ws, vec![w(Knob::Period, 100_000), w(Knob::Runtime, 50_000)]);
}

#[test]
fn shrinking_runtime_writes_runtime_first() {
    let ws = cgroup_setup(10_000, 500_000, res(50_000, 100_000)).unwrap();
    assert_eq!(ws, vec![w(Knob::Runtime, 10_000), w(Knob::Period, 500_000)]);
}

#[test]
fn unchanged_knobs_are_not_written() {
    assert!(cgroup_setup(50_000, 100_000, res(50_000, 100_000)).unwrap().is_empty());
    let ws = cgroup_setup(10_000, 100_000, res(50_000, 100_000)).unwrap();
    assert_eq!(ws, vec![w(Knob::Runtime, 10_000)]);
}

#[test]
fn runtime_above_period_refused() {
    assert_eq!(
        cgroup_setup(110_000, 100_000, res(0, 100_000)),
        Err(CgroupError::RuntimeAbovePeriod { runtime_us: 110_000, period_us: 100_000 })
    );
}

#[test]
fn managed_domain_refusals() {
    assert!(matches!(MyCgroup::new(".", 10, 100, false), Err(CgroupError::RootCgroup)));
    assert!(matches!(MyCgroup::new("g0", 0, 0, false), Err(CgroupError::ZeroPeriod)));
    assert!(matches!(
        MyCgroup::new("g0", 110, 100, false),
        Err(CgroupError::RuntimeAbovePeriod { .. })
    ));
    let g = MyCgroup::new("g0", 10, 100, true).unwrap();
    assert_eq!(g.name(), "g0");
    assert!(g.force_kill());
}

#[test]
fn update_runtime_only_when_changed() {
    let g = MyCgroup::new("g0", 10, 100, false).unwrap();
    assert!(g.update_runtime(10, 10).is_empty());
    assert_eq!(g.update_runtime(20, 10), vec![w(Knob::Runtime, 20)]);
}

#[test]
fn destroy_absent_domain_does_nothing() {
    let g = MyCgroup::new("g0", 10, 100, true).unwrap();
    assert!(g.destroy(false, 7, &[7, 8], 10).is_empty());
}

#[test]
fn destroy_with_force_kill_evicts_before_zeroing() {
    let g = MyCgroup::new("g0", 10, 100, true).unwrap();
    assert_eq!(
        g.destroy(true, 7, &[10, 7, 11], 5),
        vec![
            DestroyStep::MigrateToRoot(7),
            DestroyStep::Kill(10),
            DestroyStep::MigrateToRoot(10),
            DestroyStep::Kill(11),
            DestroyStep::MigrateToRoot(11),
            DestroyStep::SetRuntimeZero,
            DestroyStep::RemoveDir,
        ]
    );
}

#[test]
fn destroy_without_force_kill() {
    let g = MyCgroup::new("g0", 10, 100, false).unwrap();
    assert_eq!(
        g.destroy(true, 7, &[10], 5),
        vec![DestroyStep::SetRuntimeZero, DestroyStep::RemoveDir]
    );
    assert_eq!(g.destroy(true, 7, &[], 0), vec![DestroyStep::RemoveDir]);
}

#[test]
fn kernel_admission_edge_cases() {
    assert!(!kernel_admits(res(0, 0)));
    assert!(!kernel_admits(res(1, 100_000)));
    assert!(!kernel_admits(res(110_000, 100_000)));
    assert!(!kernel_admits(res(110_000, MAX_PERIOD_US + 1)));
    assert!(kernel_admits(res(2, 100_000)));
    assert!(kernel_admits(res(0, 100_000)));
    assert!(kernel_admits(res(10_000, 100_000)));
}

#[test]
fn bandwidth_resolution() {
    let b = Bandwidth { runtime_ms: Some(20), period_ms: None };
    assert_eq!(b.resolve(res(5, 1_000_000)), Some(res(20_000, 1_000_000)));
    let b = Bandwidth { runtime_ms: None, period_ms: Some(u64::MAX) };
    assert_eq!(b.resolve(res(5, 10)), None);
}

#[test]
fn domain_of_process_entry() {
    assert_eq!(cgroup_of_entry(b"0::/g0/sub\n"), Some(b"g0/sub".to_vec()));
    assert_eq!(cgroup_of_entry(b"0::/\n"), Some(b".".to_vec()));
    assert_eq!(cgroup_of_entry(b"1:cpu:/g0\n"), None);
    assert_eq!(cgroup_of_entry(b""), None);
}
