use command_ext::{
    BoundaryTextViolation, CheckOutputError, CheckStatusError, Command, Exe, ExeAndArgs,
    ExecutionError, ExitStatus, NonUtf8OutputError, StatusError,
};

fn execution() -> ExecutionError {
    ExecutionError {
        exe: Exe::from(&Command::new(b"x")),
        source: std::io::Error::from(std::io::ErrorKind::NotFound),
    }
}

fn status() -> StatusError {
    StatusError {
        cmd: ExeAndArgs::from(&Command::new(b"x")),
        status: ExitStatus { success: false, code: Some(2), text: "exit status: 2".into() },
    }
}

#[test]
fn exe_is_the_program() {
    let exe = Exe::from(&Command::new(b"/bin/ls").arg(b"-l"));
    assert_eq!(exe.0, b"/bin/ls".to_vec());
    assert_eq!(exe.to_text(), "/bin/ls");
}

#[test]
fn exe_is_decoded_lossily() {
    let exe = Exe::from(&Command::new(&[b'l', 0xff, b's']));
    assert_eq!(exe.to_text(), "l\u{fffd}s");
}

#[test]
fn exe_and_args_without_arguments() {
    let cmd = ExeAndArgs::from(&Command::new(b"ls"));
    assert_eq!(cmd.exe, b"ls".to_vec());
    assert!(cmd.args.is_empty());
    assert_eq!(cmd.to_text(), "ls");
}

#[test]
fn exe_and_args_joins_with_spaces_and_does_not_quote() {
    let cmd = ExeAndArgs::from(&Command::new(b"echo").arg(b"a b").arg(b"").arg(b"c"));
    assert_eq!(cmd.args, vec![b"a b".to_vec(), b"".to_vec(), b"c".to_vec()]);
    assert_eq!(cmd.to_text(), "echo a b  c");
}

#[test]
fn exe_and_args_is_decoded_lossily() {
    let cmd = ExeAndArgs::from(&Command::new(&[0xff]).arg(&[b'x', 0x80]).arg(b"y"));
    assert_eq!(cmd.to_text(), "\u{fffd} x\u{fffd} y");
}

#[test]
fn duplicate_is_equal() {
    let cmd = ExeAndArgs::from(&Command::new(b"a").arg(b"b"));
    let copy = cmd.duplicate();
    assert_eq!(copy.exe, cmd.exe);
    assert_eq!(copy.args, cmd.args);
}

#[test]
fn boundary_violation_names_the_operation() {
    let e = BoundaryTextViolation { purpose: "redirect" };
    assert_eq!(e.message(), "redirect requires all parts of the command be valid utf8");
}

#[test]
fn failures_widen_into_the_unions() {
    assert!(matches!(CheckStatusError::from(execution()), CheckStatusError::Execution(_)));
    assert!(matches!(CheckStatusError::from(status()), CheckStatusError::Status(_)));
    assert!(matches!(CheckOutputError::from(execution()), CheckOutputError::Execution(_)));
    assert!(matches!(CheckOutputError::from(status()), CheckOutputError::Status(_)));
    let source = std::str::from_utf8(&[0xff]).unwrap_err();
    let non_utf8 = NonUtf8OutputError { cmd: ExeAndArgs::from(&Command::new(b"x")), source };
    match CheckOutputError::from(non_utf8) {
        e @ CheckOutputError::NonUtf8Output(_) => {
            assert_eq!(e.message(), "Command `x` returned non-utf8 output");
        }
        other => panic!("unexpected: {other:?}"),
    }
}
