use command_ext::{
    CheckOutputError, CheckStatusError, Command, CommandExt, ExitStatus, RawOutput,
};
use std::io::{Error, ErrorKind};

fn exited(code: i32) -> ExitStatus {
    ExitStatus { success: code == 0, code: Some(code), text: format!("exit status: {code}") }
}

fn killed() -> ExitStatus {
    ExitStatus { success: false, code: None, text: "signal: 9 (SIGKILL)".to_string() }
}

fn raw(status: ExitStatus, stdout: &[u8], stderr: &[u8]) -> RawOutput {
    RawOutput { status, stdout: stdout.to_vec(), stderr: stderr.to_vec() }
}

fn sample() -> Command {
    Command::new(b"git").arg(b"commit").arg(b"-m").arg(b"two words")
}

#[test]
fn check_hands_the_status_on() {
    let status = sample().check(Ok(exited(3))).unwrap();
    assert!(!status.success());
    assert_eq!(status.code(), Some(3));
    assert_eq!(status.text, "exit status: 3");
}

#[test]
fn check_reports_a_failed_start() {
    let err = sample().check(Err(Error::new(ErrorKind::NotFound, "missing"))).unwrap_err();
    assert_eq!(err.exe.0, b"git".to_vec());
    assert_eq!(err.source.kind(), ErrorKind::NotFound);
    assert_eq!(err.message(), "Failed to execute `git`");
}

#[test]
fn check_status_accepts_exit_code_zero() {
    assert!(sample().check_status(Ok(exited(0))).is_ok());
}

#[test]
fn check_status_reports_exit_code_one() {
    match sample().check_status(Ok(exited(1))) {
        Err(CheckStatusError::Status(e)) => {
            assert_eq!(e.status.code, Some(1));
            assert!(!e.status.success);
            assert_eq!(e.cmd.exe, b"git".to_vec());
            assert_eq!(e.cmd.args.len(), 3);
            assert_eq!(
                e.message(),
                "Command `git commit -m two words` exited unsuccessfully (exit status: 1)"
            );
        }
        other => panic!("unexpected: {other:?}"),
    }
}

#[test]
fn check_status_reports_a_signal() {
    match sample().check_status(Ok(killed())) {
        Err(e @ CheckStatusError::Status(_)) => assert_eq!(
            e.message(),
            "Command `git commit -m two words` exited unsuccessfully (signal: 9 (SIGKILL))"
        ),
        other => panic!("unexpected: {other:?}"),
    }
}

#[test]
fn check_status_reports_a_failed_start() {
    match sample().check_status(Err(Error::from(ErrorKind::PermissionDenied))) {
        Err(e @ CheckStatusError::Execution(_)) => {
            assert_eq!(e.message(), "Failed to execute `git`");
        }
        other => panic!("unexpected: {other:?}"),
    }
}

#[test]
fn check_output_returns_what_was_captured() {
    let cmd = Command::new(b"echo").arg(b"hello");
    assert_eq!(cmd.check_output(Ok(raw(exited(0), b"hello", b""))).unwrap(), "hello");
    assert_eq!(cmd.check_output(Ok(raw(exited(0), b"hello\n", b"noise"))).unwrap(), "hello\n");
    assert_eq!(cmd.check_output(Ok(raw(exited(0), b"", b""))).unwrap(), "");
    assert_eq!(cmd.check_output(Ok(raw(exited(0), "  ünï\n ".as_bytes(), b""))).unwrap(), "  ünï\n ");
}

#[test]
fn check_output_reports_bytes_that_are_not_text() {
    let cmd = Command::new(b"printf").arg(b"\\xff");
    match cmd.check_output(Ok(raw(exited(0), &[0xff], b""))) {
        Err(CheckOutputError::NonUtf8Output(e)) => {
            assert_eq!(e.source.valid_up_to(), 0);
            assert_eq!(e.cmd.exe, b"printf".to_vec());
            assert_eq!(e.message(), "Command `printf \\xff` returned non-utf8 output");
        }
        other => panic!("unexpected: {other:?}"),
    }
    match cmd.check_output(Ok(raw(exited(0), &[b'o', b'k', 0xc3], b""))) {
        Err(CheckOutputError::NonUtf8Output(e)) => assert_eq!(e.source.valid_up_to(), 2),
        other => panic!("unexpected: {other:?}"),
    }
}

#[test]
fn check_output_reports_a_failed_run_before_decoding() {
    let cmd = Command::new(b"false");
    match cmd.check_output(Ok(raw(exited(1), &[0xff], b"boom"))) {
        Err(CheckOutputError::Status(e)) => {
            assert_eq!(e.status.code, Some(1));
            assert_eq!(e.message(), "Command `false` exited unsuccessfully (exit status: 1)");
        }
        other => panic!("unexpected: {other:?}"),
    }
}

#[test]
fn check_output_reports_a_failed_start() {
    let cmd = Command::new(b"nope");
    match cmd.check_output(Err(Error::from(ErrorKind::NotFound))) {
        Err(e @ CheckOutputError::Execution(_)) => {
            assert_eq!(e.message(), "Failed to execute `nope`");
        }
        other => panic!("unexpected: {other:?}"),
    }
}

#[test]
fn failure_report_is_the_standard_error_of_a_failed_run() {
    assert_eq!(raw(exited(1), b"out", b"boom\n").failure_report(), Some("boom\n".to_string()));
    assert_eq!(raw(killed(), b"", &[b'a', 0xff, b'b']).failure_report(), Some("a\u{fffd}b".to_string()));
    assert_eq!(raw(exited(0), b"out", b"warning").failure_report(), None);
}

#[test]
fn check_full_output_keeps_everything() {
    let out = sample().check_full_output(Ok(raw(exited(2), b"so\n", &[0xff, b'e']))).unwrap();
    assert_eq!(out.status.code, Some(2));
    assert!(!out.status.success);
    assert_eq!(out.stdout_raw(), b"so\n");
    assert_eq!(out.stdout().unwrap(), "so\n");
    assert_eq!(out.stdout_lossy(), "so\n");
    assert_eq!(out.stderr_raw(), &[0xff, b'e']);
    assert_eq!(out.stderr_lossy(), "\u{fffd}e");
    let err = out.stderr().unwrap_err();
    assert_eq!(err.source.valid_up_to(), 0);
    assert_eq!(err.cmd.exe, b"git".to_vec());
    assert_eq!(err.message(), "Command `git commit -m two words` returned non-utf8 output");
}

#[test]
fn check_full_output_decodes_standard_error_too() {
    let out = sample().check_full_output(Ok(raw(exited(0), &[0x80], b"fine"))).unwrap();
    assert_eq!(out.stderr().unwrap(), "fine");
    assert_eq!(out.stderr_lossy(), "fine");
    assert!(out.stdout().is_err());
    assert_eq!(out.stdout_lossy(), "\u{fffd}");
    assert_eq!(out.stdout_raw(), &[0x80]);
}

#[test]
fn check_full_output_reports_a_failed_start() {
    let err = sample().check_full_output(Err(Error::from(ErrorKind::NotFound))).unwrap_err();
    assert_eq!(err.exe.0, b"git".to_vec());
    assert_eq!(err.message(), "Failed to execute `git`");
}
