use ptyproc::error::{last_error, Error};
use ptyproc::process::{ExitStatus, PtyProcess, PtyReader, PtyWriter, TerminateAction};

fn session() -> PtyProcess {
    PtyProcess::init(PtyReader { handle: 11 }, PtyWriter { handle: 12 }, 21, 22)
}

#[test]
fn io_handles_taken_exactly_once() {
    let mut p = session();
    let (r, wtr) = p.get_io_handles().unwrap();
    assert_eq!(r.handle, 11);
    assert_eq!(wtr.handle, 12);
    match p.get_io_handles() {
        Err(Error::HandleAlreadyTaken) => {},
        other => panic!("second retrieval must fail with HandleAlreadyTaken, got {:?}", other.is_ok()),
    }
    match p.get_io_handles() {
        Err(Error::HandleAlreadyTaken) => {},
        _ => panic!("third retrieval must fail too"),
    }
}

#[test]
fn init_holds_the_given_handles() {
    let p = session();
    assert_eq!(p.pty_handle, 21);
    assert_eq!(p.process_handle, 22);
    assert!(p.kill_timeout_ms.is_none());
    assert!(p.status.is_none());
}

#[test]
fn kill_timeout_is_configurable() {
    let mut p = session();
    p.set_kill_timeout(Some(100));
    assert_eq!(p.kill_timeout_ms, Some(100));
    p.set_kill_timeout(None);
    assert_eq!(p.kill_timeout_ms, None);
}

#[test]
fn exit_status_reports_what_was_observed() {
    let mut p = session();
    assert_eq!(p.exit_status(), None);
    p.record_exit(ExitStatus::Signaled(2));
    assert_eq!(p.exit_status(), Some(ExitStatus::Signaled(2)));
}

#[test]
fn termination_escalates_only_after_the_timeout() {
    let mut p = session();
    p.set_kill_timeout(Some(100));
    assert_eq!(p.termination_step(0, false), TerminateAction::KeepWaiting);
    assert_eq!(p.termination_step(99, false), TerminateAction::KeepWaiting);
    assert_eq!(p.termination_step(100, false), TerminateAction::ForceKill);
    assert_eq!(p.termination_step(5000, false), TerminateAction::ForceKill);
}

#[test]
fn termination_without_timeout_waits_indefinitely() {
    let p = session();
    assert_eq!(p.termination_step(0, false), TerminateAction::KeepWaiting);
    assert_eq!(p.termination_step(u64::MAX, false), TerminateAction::KeepWaiting);
}

#[test]
fn errors_describe_themselves() {
    assert_eq!(Error::InvalidInput.describe(), "nul byte found in provided data");
    assert_eq!(Error::LookupFailure.describe(), "could not resolve executable");
    assert_eq!(Error::OsSpawnFailure(2).describe(), "could not spawn pty process");
    assert_eq!(Error::HandleAlreadyTaken.describe(), "IO handles already taken");
    assert_eq!(Error::Unsupported.describe(), "not supported on this platform");
}

#[test]
fn last_error_is_a_spawn_failure() {
    assert!(matches!(last_error(), Error::OsSpawnFailure(_)));
}

#[test]
fn termination_stops_once_the_child_exited() {
    let mut p = session();
    p.set_kill_timeout(Some(100));
    assert_eq!(p.termination_step(0, true), TerminateAction::AlreadyDone);
    assert_eq!(p.termination_step(100000, true), TerminateAction::AlreadyDone);
}
