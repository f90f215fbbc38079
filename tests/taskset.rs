use hcbs_test_suite::taskset::{
    can_run_taskset, ceiling_runtime, compute_insights, compute_result_insights, generator_args,
    output_path, parse_config_file, parse_taskset_file, parse_taskset_results, plan_run,
    result_is_complete, AdmissionLimits, DeadlineOffset, PeriodicTaskData, PeriodicThreadData,
    RunAction, Taskset, TasksetConfig, TasksetError, TasksetRun, TasksetRunResult,
};

fn task(runtime_ms: u64, period_ms: u64) -> PeriodicTaskData {
    PeriodicTaskData { runtime_ms, period_ms }
}

fn run(tasks: Vec<PeriodicTaskData>, num_cpus: u64, runtime_ms: u64, period_ms: u64) -> TasksetRun {
    TasksetRun {
        tasks: Taskset { name: "ts".to_string(), data: tasks },
        config: TasksetConfig { name: "c".to_string(), num_cpus, runtime_ms, period_ms },
        output_file: "out/ts/output-c".to_string(),
    }
}

fn log_for(num_tasks: u64, per_task: u64, miss_at: Option<(u64, u64)>) -> String {
    let mut s = String::from("# task instance activation start finish offset\n");
    for t in 0..num_tasks {
        for i in 0..per_task {
            let offset = if miss_at == Some((t, i)) { "0.000001" } else { "-12.500000" };
            s += &format!("{t} {i} {} 0 20 {offset}\n", 1000 * i);
        }
    }
    s
}

#[test]
fn parse_taskset_description() {
    let ts = parse_taskset_file("set1".to_string(), b"20 100 100\n40 200 200\n").unwrap();
    assert_eq!(ts.name, "set1");
    assert_eq!(ts.data, vec![task(20, 100), task(40, 200)]);
}

#[test]
fn taskset_deadline_must_equal_period() {
    assert_eq!(
        parse_taskset_file("s".to_string(), b"20 100 100\n20 90 100\n").unwrap_err(),
        TasksetError::MalformedTaskset
    );
    assert!(parse_taskset_file("s".to_string(), b"").is_err());
    assert!(parse_taskset_file("s".to_string(), b"20 100\n").is_err());
}

#[test]
fn parse_run_configuration() {
    let c = parse_config_file("cfg".to_string(), b"1 60 100\n").unwrap();
    assert_eq!((c.num_cpus, c.runtime_ms, c.period_ms), (1, 60, 100));
    assert_eq!(c.name, "cfg");
    assert_eq!(
        parse_config_file("cfg".to_string(), b"1 60\n").unwrap_err(),
        TasksetError::MalformedConfig
    );
    assert!(parse_config_file("cfg".to_string(), b"1 60 100\n2 3 4\n").is_err());
}

#[test]
fn parse_output_log() {
    let text = b"# header\n0 0 100 3 20 -80.500000\n  \t# note\n1 0 100 5 60 5.25\n";
    let rs = parse_taskset_results(text).unwrap();
    assert_eq!(rs.len(), 2);
    assert_eq!(rs[0].task, 0);
    assert_eq!(rs[0].rel_start_time_us, 3);
    assert_eq!(
        rs[0].deadline_offset,
        DeadlineOffset { negative: true, whole: 80, frac_e18: 500_000_000_000_000_000 }
    );
    assert_eq!(rs[1].task, 1);
    assert_eq!(rs[1].rel_finishing_time_us, 60);
    assert_eq!(
        rs[1].deadline_offset,
        DeadlineOffset { negative: false, whole: 5, frac_e18: 250_000_000_000_000_000 }
    );
}

#[test]
fn output_log_errors() {
    assert!(parse_taskset_results(b"").unwrap().is_empty());
    assert_eq!(
        parse_taskset_results(b"0 0 100 3 20 -80.5\n0 0 100 3 20\n").unwrap_err(),
        TasksetError::MalformedLog
    );
    assert!(parse_taskset_results(b"0 0 100 3 20 7\n").is_err());
    assert!(parse_taskset_results(b"0 0 100 3 20 1.5 9\n").is_err());
}

#[test]
fn offset_sign_decides_miss() {
    assert!(!DeadlineOffset { negative: true, whole: 0, frac_e18: 5 }.is_miss());
    assert!(DeadlineOffset { negative: false, whole: 0, frac_e18: 1 }.is_miss());
    assert!(!DeadlineOffset { negative: false, whole: 0, frac_e18: 0 }.is_miss());
}

#[test]
fn reference_run_is_admissible_and_complete() {
    let r = run(vec![task(20, 100), task(40, 200)], 1, 60, 100);
    let lim = AdmissionLimits::with_default_bw(1);
    assert!(can_run_taskset(&r, &lim));
    assert_eq!(
        plan_run(&r, &lim, false),
        Ok(RunAction::Execute { runtime_us: 60_000, period_us: 100_000 })
    );
    assert_eq!(plan_run(&r, &lim, true), Ok(RunAction::Analyze));
    let results = parse_taskset_results(log_for(2, 200, None).as_bytes()).unwrap();
    let result = TasksetRunResult { taskset: r.tasks.clone(), config: r.config.clone(), results };
    assert!(result_is_complete(&result, 200));
    assert!(!result_is_complete(&result, 199));
    let insights = compute_result_insights(&result);
    assert_eq!(insights.num_overruns, 0);
    assert_eq!(insights.num_instances, 400);
    assert!(!insights.failed());
}

#[test]
fn missing_instances_are_malformed_output() {
    let r = run(vec![task(20, 100), task(40, 200)], 1, 60, 100);
    let results = parse_taskset_results(log_for(1, 5, None).as_bytes()).unwrap();
    let result = TasksetRunResult { taskset: r.tasks, config: r.config, results };
    assert!(!result_is_complete(&result, 5));
}

#[test]
fn inadmissible_runs_are_skipped() {
    let lim = AdmissionLimits::with_default_bw(1);
    assert!(!can_run_taskset(&run(vec![task(20, 100)], 2, 60, 100), &lim));
    assert!(!can_run_taskset(&run(vec![task(20, 100)], 1, 96, 100), &lim));
    assert!(!can_run_taskset(&run(vec![task(10, 30)], 1, 60, 100), &lim));
    assert!(!can_run_taskset(&run(vec![], 1, 60, 100), &lim));
    assert!(!can_run_taskset(&run(vec![task(20, 100)], 1, 0, 0), &lim));
    assert!(can_run_taskset(&run(vec![task(10, 40)], 1, 95, 100), &lim));
    assert_eq!(plan_run(&run(vec![task(20, 100)], 2, 60, 100), &lim, false), Ok(RunAction::Skip));
}

#[test]
fn one_small_miss_fails_the_run() {
    let r = run(vec![task(20, 100), task(40, 200)], 1, 60, 100);
    let results = parse_taskset_results(log_for(2, 500, Some((1, 7))).as_bytes()).unwrap();
    let result = TasksetRunResult { taskset: r.tasks, config: r.config, results };
    let insights = compute_result_insights(&result);
    assert_eq!(insights.num_overruns, 1);
    assert_eq!(insights.num_instances, 1000);
    assert!(insights.failed());
    assert_eq!(
        insights.worst_overrun,
        Some(DeadlineOffset { negative: false, whole: 0, frac_e18: 1_000_000_000_000 })
    );
}

#[test]
fn empty_result_has_no_worst_offset() {
    let r = run(vec![task(20, 100)], 1, 60, 100);
    let result = TasksetRunResult { taskset: r.tasks, config: r.config, results: vec![] };
    let insights = compute_result_insights(&result);
    assert_eq!(insights.worst_overrun, None);
    assert_eq!(insights.num_overruns, 0);
}

#[test]
fn generator_arguments() {
    let data = PeriodicThreadData {
        start_priority: 98,
        tasks: vec![task(20, 100), task(40, 200)],
        num_instances_per_job: 200,
        extra_args: vec!["-v".to_string()],
        out_file: "/tmp/out.txt".to_string(),
    };
    assert_eq!(
        generator_args(&data).unwrap(),
        vec![
            "-C", "20000", "-p", "100000", "-P", "98", "-C", "40000", "-p", "200000", "-P", "97",
            "-v", "-N", "200", "-n", "2"
        ]
    );
}

#[test]
fn generator_argument_refusals() {
    let mut data = PeriodicThreadData {
        start_priority: 98,
        tasks: vec![],
        num_instances_per_job: 200,
        extra_args: vec![],
        out_file: String::new(),
    };
    assert_eq!(generator_args(&data), Err(TasksetError::NoTasks));
    data.tasks = vec![task(20, 200), task(40, 100)];
    assert_eq!(generator_args(&data), Err(TasksetError::UnsortedTasks));
    data.tasks = vec![task(u64::MAX, u64::MAX)];
    assert_eq!(generator_args(&data), Err(TasksetError::TimeOverflow));
}

#[test]
fn tasks_beyond_priorities_are_left_out() {
    let data = PeriodicThreadData {
        start_priority: 1,
        tasks: vec![task(1, 10), task(2, 20)],
        num_instances_per_job: 3,
        extra_args: vec![],
        out_file: String::new(),
    };
    assert_eq!(
        generator_args(&data).unwrap(),
        vec!["-C", "1000", "-p", "10000", "-P", "1", "-N", "3", "-n", "1"]
    );
}

#[test]
fn log_location() {
    assert_eq!(output_path("results", "set1", "cfg2"), "results/set1/output-cfg2");
}

#[test]
fn expected_runtime_of_longest_task() {
    let r = run(vec![task(20, 100), task(40, 200)], 1, 60, 100);
    assert_eq!(compute_insights(&r, 200), 40_000_000);
    let r = run(vec![task(1, u64::MAX)], 1, 60, 100);
    assert_eq!(compute_insights(&r, 2), u64::MAX);
}

#[test]
fn budget_from_ceiling() {
    let lim = AdmissionLimits::with_default_bw(4);
    assert_eq!(ceiling_runtime(1_000_000, &lim), 950_000);
    let zero = AdmissionLimits { max_num_cpus: 1, max_bw_num: 1, max_bw_den: 0 };
    assert_eq!(ceiling_runtime(1_000_000, &zero), 0);
}

fn named(taskset: &str, config: &str) -> TasksetRun {
    let mut r = run(vec![task(1, 10)], 1, 5, 10);
    r.tasks.name = taskset.to_string();
    r.config.name = config.to_string();
    r.output_file = format!("{taskset}/{config}");
    r
}

#[test]
fn runs_ordered_by_taskset_then_config() {
    let runs = vec![
        named("b", "c1"),
        named("a", "c2"),
        named("a", "c1"),
        named("ab", "c0"),
        named("a", "c1"),
    ];
    let order = hcbs_test_suite::taskset::run_order(&runs);
    assert_eq!(order, vec![2, 4, 1, 3, 0]);
    assert!(hcbs_test_suite::taskset::run_order(&vec![]).is_empty());
}
