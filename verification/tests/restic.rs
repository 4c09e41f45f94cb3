use serpula::restic::{run_restic, ResticError};

#[test]
fn run_restic_errors_on_nonzero_exit() {
    let result = run_restic(Ok(Some(1)));
    assert!(
        result.is_err(),
        "run_restic must return Err when restic exits non-zero"
    );
    let msg = result.unwrap_err().message();
    assert!(
        msg.contains("restic exited with status"),
        "error message should mention exit status, got: {msg}"
    );
    assert_eq!(msg, "restic exited with status 1");
}

#[test]
fn run_restic_ok_on_zero_exit() {
    let result = run_restic(Ok(Some(0)));
    assert!(
        result.is_ok(),
        "run_restic must return Ok(()) when restic exits 0"
    );
}

#[test]
fn run_restic_error_message_contains_exit_code() {
    let msg = run_restic(Ok(Some(42))).unwrap_err().message();
    assert!(
        msg.contains("42"),
        "error message must contain the actual exit code 42, got: {msg}"
    );
}

#[test]
fn run_restic_reports_signals_and_spawn_errors() {
    let err = run_restic(Ok(None)).unwrap_err();
    assert!(matches!(err, ResticError::Exit(-1)));
    assert_eq!(err.message(), "restic exited with status -1");
    let err = run_restic(Err("not found".to_string())).unwrap_err();
    assert!(matches!(err, ResticError::Spawn(_)));
    assert_eq!(
        err.message(),
        "failed to spawn restic (is it installed and on PATH?): not found"
    );
}
