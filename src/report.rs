//! How a scenario's outcome is reported and whether it fails the process:
//! in batch mode every outcome is reported and none fails the batch.
use vstd::prelude::*;

verus! {

/// Settings fixed once at process start.
#[derive(Debug, Clone, Copy, PartialEq, Eq, Structural)]
pub struct TestSettings {
    /// Running as part of a batch: report, never abort.
    pub batch: bool,
    /// Colour the report.
    pub colors: bool,
}

/// A scenario's outcome, or the reason it was skipped.
pub enum Skippable<T, E> {
    Result(T),
    Skipped(E),
}

/// The verdict reported for a scenario.
#[derive(Debug, Clone, Copy, PartialEq, Eq, Structural)]
pub enum Verdict {
    Success,
    Failure,
    Skipped,
}

impl<T, E> Skippable<T, E> {
    /// The outcome as a plain result; a skip becomes its reason.
    pub fn into_result(self) -> (r: Result<T, E>)
        ensures
            match self {
                Skippable::Result(v) => r == Ok::<T, E>(v),
                Skippable::Skipped(e) => r == Err::<T, E>(e),
            },
    {
        match self {
            Skippable::Result(v) => Ok(v),
            Skippable::Skipped(e) => Err(e),
        }
    }
}

pub fn is_batch_test(settings: &TestSettings) -> (r: bool)
    ensures
        r == settings.batch,
{
    settings.batch
}

/// The verdict for a plain outcome.
pub fn verdict<T, E>(result: &Result<T, E>) -> (r: Verdict)
    ensures
        r == (if result is Ok {
            Verdict::Success
        } else {
            Verdict::Failure
        }),
{
    match result {
        Ok(_) => Verdict::Success,
        Err(_) => Verdict::Failure,
    }
}

/// The verdict for an outcome that may have been skipped.
pub fn verdict_skippable<T, E>(result: &Result<Skippable<T, E>, E>) -> (r: Verdict)
    ensures
        r == (match result {
            Ok(Skippable::Result(_)) => Verdict::Success,
            Ok(Skippable::Skipped(_)) => Verdict::Skipped,
            Err(_) => Verdict::Failure,
        }),
{
    match result {
        Ok(Skippable::Result(_)) => Verdict::Success,
        Ok(Skippable::Skipped(_)) => Verdict::Skipped,
        Err(_) => Verdict::Failure,
    }
}

/// What the scenario hands back once reported: success in batch mode,
/// otherwise its own error.
pub fn batch_test_result<T, E>(settings: &TestSettings, result: Result<T, E>) -> (r: Result<(), E>)
    ensures
        settings.batch ==> r is Ok,
        !settings.batch ==> match result {
            Ok(_) => r is Ok,
            Err(e) => r == Err::<(), E>(e),
        },
{
    if settings.batch {
        return Ok(());
    }
    match result {
        Ok(_) => Ok(()),
        Err(e) => Err(e),
    }
}

/// As `batch_test_result`, for an outcome that may have been skipped; a skip
/// never fails.
pub fn batch_test_result_skippable<T, E>(settings: &TestSettings, result: Result<
    Skippable<T, E>,
    E,
>) -> (r: Result<(), E>)
    ensures
        settings.batch ==> r is Ok,
        !settings.batch ==> match result {
            Ok(_) => r is Ok,
            Err(e) => r == Err::<(), E>(e),
        },
{
    if settings.batch {
        return Ok(());
    }
    match result {
        Ok(_) => Ok(()),
        Err(e) => Err(e),
    }
}

} // verus!
