use hcbs_test_suite::report::{
    batch_test_result, batch_test_result_skippable, is_batch_test, verdict, verdict_skippable,
    Skippable, TestSettings, Verdict,
};

const BATCH: TestSettings = TestSettings { batch: true, colors: false };
const INTERACTIVE: TestSettings = TestSettings { batch: false, colors: false };

#[test]
fn batch_mode_never_fails() {
    assert!(is_batch_test(&BATCH));
    assert_eq!(batch_test_result::<(), String>(&BATCH, Err("bad".to_string())), Ok(()));
}

#[test]
fn interactive_mode_returns_error() {
    assert!(!is_batch_test(&INTERACTIVE));
    assert_eq!(
        batch_test_result::<(), String>(&INTERACTIVE, Err("bad".to_string())),
        Err("bad".to_string())
    );
    assert_eq!(batch_test_result::<u8, String>(&INTERACTIVE, Ok(3)), Ok(()));
}

#[test]
fn skip_is_not_a_failure() {
    let r: Result<Skippable<(), String>, String> = Ok(Skippable::Skipped("small".to_string()));
    assert_eq!(verdict_skippable(&r), Verdict::Skipped);
    assert_eq!(batch_test_result_skippable(&INTERACTIVE, r), Ok(()));
    let r: Result<Skippable<(), String>, String> = Err("bad".to_string());
    assert_eq!(verdict_skippable(&r), Verdict::Failure);
    assert_eq!(batch_test_result_skippable(&INTERACTIVE, r), Err("bad".to_string()));
}

#[test]
fn verdicts_of_plain_outcomes() {
    assert_eq!(verdict::<u8, String>(&Ok(1)), Verdict::Success);
    assert_eq!(verdict::<u8, String>(&Err(String::new())), Verdict::Failure);
}

#[test]
fn skippable_into_result() {
    let s: Skippable<u8, String> = Skippable::Result(4);
    assert_eq!(s.into_result(), Ok(4));
    let s: Skippable<u8, String> = Skippable::Skipped("x".to_string());
    assert_eq!(s.into_result(), Err("x".to_string()));
}
