use clipstack::execution::{conclude, Run};
use clipstack::ExecuteError;

#[test]
fn run_that_did_not_start() {
    assert_eq!(conclude(Run::NotSpawned), Err(ExecuteError::Spawn));
}

#[test]
fn run_that_could_not_be_awaited() {
    assert_eq!(conclude(Run::NotAwaited), Err(ExecuteError::OutputWait));
}

#[test]
fn run_that_reported_failure() {
    let run = Run::Exited { success: false, stdout: vec![1, 2, 3] };
    assert_eq!(conclude(run), Err(ExecuteError::Execution));
}

#[test]
fn run_that_went_well() {
    let run = Run::Exited { success: true, stdout: vec![1, 2, 3] };
    assert_eq!(conclude(run), Ok(vec![1, 2, 3]));
}

#[test]
fn failures_have_names() {
    assert_eq!(ExecuteError::Spawn.to_text(), "Spawn");
    assert_eq!(ExecuteError::OutputWait.to_text(), "OutputWait");
    assert_eq!(ExecuteError::Execution.to_text(), "Execution");
    assert_eq!(ExecuteError::Spawn.to_text(), format!("{:#?}", ExecuteError::Spawn));
}
