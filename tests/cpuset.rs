use hcbs_test_suite::cpuset::{display_cpus, CpuSet, CpuSetBuildError, CpuSetUnchecked};

fn unchecked(text: &str) -> CpuSetUnchecked {
    CpuSetUnchecked::from_bytes(text.as_bytes()).unwrap()
}

fn online(text: &str) -> CpuSet {
    CpuSet::from_online_list(text.as_bytes()).unwrap()
}

#[test]
fn parse_list_with_ranges() {
    let c = unchecked("0,2-4,7");
    assert_eq!(c.as_slice(), &[0, 2, 3, 4, 7]);
    assert_eq!(c.to_string(), "[0, 2, 3, 4, 7]");
}

#[test]
fn format_keeps_first_seen_order() {
    let c = unchecked("7,1-2,0");
    assert_eq!(c.to_string(), "[7, 1, 2, 0]");
}

#[test]
fn parse_collapses_duplicates() {
    let c = unchecked("1,0-2,1");
    assert_eq!(c.as_slice(), &[1, 0, 2]);
    assert_eq!(c.num_cpus(), 3);
}

#[test]
fn parse_whitespace_after_commas_and_at_end() {
    assert_eq!(unchecked("0, 1,\t2").as_slice(), &[0, 1, 2]);
    assert_eq!(unchecked("0-3\n").as_slice(), &[0, 1, 2, 3]);
}

#[test]
fn parse_rejects_malformed_lists() {
    for text in ["", " 0", "3-1", "1,,2", "1,", "a", "1-", "-1", "1-2-3", "4294967296"] {
        assert!(CpuSetUnchecked::from_bytes(text.as_bytes()).is_err(), "{text}");
    }
}

#[test]
fn parse_accepts_largest_index() {
    assert_eq!(unchecked("4294967295").as_slice(), &[4294967295]);
}

#[test]
fn parse_through_from_str() {
    let c: CpuSetUnchecked = "5-6".parse().unwrap();
    assert_eq!(c.as_slice(), &[5, 6]);
}

#[test]
fn add_and_remove_cpu() {
    let c = CpuSetUnchecked::empty().add_cpu(3).add_cpu(1).add_cpu(3).add_cpu(2);
    assert_eq!(c.as_slice(), &[3, 1, 2]);
    let c = c.remove_cpu(3);
    assert_eq!(c.as_slice(), &[1, 2]);
    let c = c.remove_cpu(9);
    assert_eq!(c.as_slice(), &[1, 2]);
    assert_eq!(c.num_cpus(), 2);
}

#[test]
fn promotion_reports_first_unavailable_cpu() {
    let all = online("0-3");
    match unchecked("1,5,6").into_checked(&all) {
        Err(CpuSetBuildError::UnavailableCPU(5)) => {}
        other => panic!("unexpected {other:?}"),
    }
    let ok = unchecked("3,1").into_checked(&all).unwrap();
    assert_eq!(ok.as_slice(), &[3, 1]);
}

#[test]
fn single_cpu() {
    let all = online("0-3");
    assert_eq!(CpuSet::single(&all, 2).unwrap().as_slice(), &[2]);
    assert!(matches!(CpuSet::single(&all, 9), Err(CpuSetBuildError::UnavailableCPU(9))));
}

#[test]
fn any_subset_within_online_count() {
    let all = online("0-3");
    assert_eq!(CpuSet::any_subset(&all, 4).unwrap().as_slice(), &[0, 1, 2, 3]);
    assert_eq!(CpuSet::any_subset(&all, 2).unwrap().as_slice(), &[0, 1]);
    assert_eq!(CpuSet::any_subset(&all, 0).unwrap().num_cpus(), 0);
}

#[test]
fn any_subset_beyond_online_count() {
    let all = online("0-3");
    assert!(matches!(CpuSet::any_subset(&all, 5), Err(CpuSetBuildError::UnavailableCPUs)));
}

#[test]
fn online_list_parse_error() {
    assert!(matches!(
        CpuSet::from_online_list(b"zero"),
        Err(CpuSetBuildError::ParseError(_))
    ));
}

#[test]
fn render_empty_and_single() {
    assert_eq!(CpuSet::empty().to_string(), "[]");
    assert_eq!(display_cpus(&[12]), "[12]");
    assert_eq!(display_cpus(&[0, 10, 100]), "[0, 10, 100]");
}
