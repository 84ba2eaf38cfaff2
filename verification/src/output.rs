//! What a finished process leaves behind: its exit status and what it wrote.

use vstd::prelude::*;
use vstd::utf8::{decode_utf8, valid_utf8};
use crate::command::Command;
use crate::error::utils::{ExeAndArgs, ExeAndArgsView};
use crate::error::NonUtf8OutputError;
use crate::text::{decode_lossy, lossy_text};

verus! {

/// How a process ended.
#[derive(Debug)]
pub struct ExitStatus {
    /// Whether the process reported success.
    pub success: bool,
    /// The exit code, if the process exited of its own accord.
    pub code: Option<i32>,
    /// The platform's description of the status.
    pub text: String,
}

impl ExitStatus {
    /// Whether the process reported success.
    pub fn success(&self) -> (success: bool)
        ensures
            success == self.success,
    {
        self.success
    }

    /// The exit code, if the process exited of its own accord.
    pub fn code(&self) -> (code: Option<i32>)
        ensures
            code == self.code,
    {
        self.code
    }
}

/// The status and the captured output of a finished process, as the
/// platform hands them over.
#[derive(Debug)]
pub struct RawOutput {
    pub status: ExitStatus,
    pub stdout: Vec<u8>,
    pub stderr: Vec<u8>,
}

impl RawOutput {
    /// What to write to the diagnostic stream before a failed run is
    /// reported: the captured standard error, lossily decoded, if the process
    /// did not report success; nothing otherwise.
    pub fn failure_report(&self) -> (report: Option<String>)
        ensures
            self.status.success ==> report is None,
            !self.status.success ==> (report matches Some(text) && text@ == lossy_text(
                self.stderr@,
            )),
    {
        if self.status.success() {
            None
        } else {
            Some(decode_lossy(self.stderr.as_slice()))
        }
    }
}

/// The status and the captured output of a finished process, together with
/// the command that was run.
#[derive(Debug)]
pub struct Output {
    /// The exit status of the command.
    pub status: ExitStatus,
    stdout: Vec<u8>,
    stderr: Vec<u8>,
    cmd: ExeAndArgs,
}

/// The mathematical value of an [`Output`].
pub struct OutputView {
    pub status: ExitStatus,
    pub stdout: Seq<u8>,
    pub stderr: Seq<u8>,
    pub cmd: ExeAndArgsView,
}

impl View for Output {
    type V = OutputView;

    closed spec fn view(&self) -> OutputView {
        OutputView {
            status: self.status,
            stdout: self.stdout@,
            stderr: self.stderr@,
            cmd: self.cmd@,
        }
    }
}

impl Output {
    /// The outcome `output` of running `cmd`.
    pub fn new(cmd: &Command, output: RawOutput) -> (this: Output)
        ensures
            this@ == (OutputView {
                status: output.status,
                stdout: output.stdout@,
                stderr: output.stderr@,
                cmd: ExeAndArgsView { exe: cmd@.program, args: cmd@.args },
            }),
    {
        let RawOutput { status, stdout, stderr } = output;
        Output { status, stdout, stderr, cmd: ExeAndArgs::from(cmd) }
    }

    /// Decodes captured bytes on behalf of this outcome.
    fn decode<'a>(&self, bytes: &'a [u8]) -> (res: Result<&'a str, NonUtf8OutputError>)
        ensures
            match res {
                Ok(text) => valid_utf8(bytes@) && text@ == decode_utf8(bytes@),
                Err(e) => !valid_utf8(bytes@) && e.cmd@ == self@.cmd,
            },
    {
        match std::str::from_utf8(bytes) {
            Ok(text) => Ok(text),
            Err(source) => Err(NonUtf8OutputError { cmd: self.cmd.duplicate(), source }),
        }
    }

    /// What the command wrote to its standard output, as text. Fails exactly
    /// when the bytes are not well-formed UTF-8.
    pub fn stdout(&self) -> (res: Result<&str, NonUtf8OutputError>)
        ensures
            match res {
                Ok(text) => valid_utf8(self@.stdout) && text@ == decode_utf8(self@.stdout),
                Err(e) => !valid_utf8(self@.stdout) && e.cmd@ == self@.cmd,
            },
    {
        self.decode(self.stdout.as_slice())
    }

    /// What the command wrote to its standard output, lossily decoded.
    pub fn stdout_lossy(&self) -> (text: String)
        ensures
            text@ == lossy_text(self@.stdout),
            valid_utf8(self@.stdout) ==> text@ == decode_utf8(self@.stdout),
    {
        decode_lossy(self.stdout.as_slice())
    }

    /// What the command wrote to its standard output, byte for byte.
    pub fn stdout_raw(&self) -> (bytes: &[u8])
        ensures
            bytes@ == self@.stdout,
    {
        self.stdout.as_slice()
    }

    /// What the command wrote to its standard error, as text. Fails exactly
    /// when the bytes are not well-formed UTF-8.
    pub fn stderr(&self) -> (res: Result<&str, NonUtf8OutputError>)
        ensures
            match res {
                Ok(text) => valid_utf8(self@.stderr) && text@ == decode_utf8(self@.stderr),
                Err(e) => !valid_utf8(self@.stderr) && e.cmd@ == self@.cmd,
            },
    {
        self.decode(self.stderr.as_slice())
    }

    /// What the command wrote to its standard error, lossily decoded.
    pub fn stderr_lossy(&self) -> (text: String)
        ensures
            text@ == lossy_text(self@.stderr),
            valid_utf8(self@.stderr) ==> text@ == decode_utf8(self@.stderr),
    {
        decode_lossy(self.stderr.as_slice())
    }

    /// What the command wrote to its standard error, byte for byte.
    pub fn stderr_raw(&self) -> (bytes: &[u8])
        ensures
            bytes@ == self@.stderr,
    {
        self.stderr.as_slice()
    }
}

} // verus!
