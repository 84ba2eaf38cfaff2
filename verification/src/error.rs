//! The failures that the library reports.

use vstd::prelude::*;
use vstd::std_specs::convert::FromSpecImpl;
use vstd::string::StringExecFns;
use crate::error::utils::{Exe, ExeAndArgs};
use crate::output::ExitStatus;
use crate::text::lossy_text;

pub mod utils;

verus! {

/// [`std::io::Error`], carried as an opaque value.
#[verifier::external_type_specification]
#[verifier::external_body]
pub struct ExIoError(std::io::Error);

/// The process could not be started.
#[derive(Debug)]
pub struct ExecutionError {
    /// The program that was to run.
    pub exe: Exe,
    /// What the platform reported.
    pub source: std::io::Error,
}

impl ExecutionError {
    /// The failure in words.
    pub fn message(&self) -> (text: String)
        ensures
            text@ == "Failed to execute `"@ + lossy_text(self.exe@) + "`"@,
    {
        let mut text = String::from_str("Failed to execute `");
        text.append(self.exe.to_text().as_str());
        text.append("`");
        text
    }
}

/// The process ran and ended without success.
#[derive(Debug)]
pub struct StatusError {
    /// The command that ran.
    pub cmd: ExeAndArgs,
    /// How it ended.
    pub status: ExitStatus,
}

impl StatusError {
    /// The failure in words.
    pub fn message(&self) -> (text: String)
        ensures
            text@ == "Command `"@ + self.cmd@.text() + "` exited unsuccessfully ("@
                + self.status.text@ + ")"@,
    {
        let mut text = String::from_str("Command `");
        text.append(self.cmd.to_text().as_str());
        text.append("` exited unsuccessfully (");
        text.append(self.status.text.as_str());
        text.append(")");
        text
    }
}

/// The process wrote bytes that are not well-formed UTF-8 where text was
/// asked for.
#[derive(Debug)]
pub struct NonUtf8OutputError {
    /// The command that ran.
    pub cmd: ExeAndArgs,
    /// Where the decoding stopped.
    pub source: std::str::Utf8Error,
}

impl NonUtf8OutputError {
    /// The failure in words.
    pub fn message(&self) -> (text: String)
        ensures
            text@ == "Command `"@ + self.cmd@.text() + "` returned non-utf8 output"@,
    {
        let mut text = String::from_str("Command `");
        text.append(self.cmd.to_text().as_str());
        text.append("` returned non-utf8 output");
        text
    }
}

/// A component of a descriptor is not well-formed UTF-8, so no command
/// string can carry it through a shell.
#[derive(Debug)]
pub struct BoundaryTextViolation {
    /// The operation that needed the command string.
    pub purpose: &'static str,
}

impl BoundaryTextViolation {
    /// The failure in words.
    pub fn message(&self) -> (text: String)
        ensures
            text@ == self.purpose@ + " requires all parts of the command be valid utf8"@,
    {
        let mut text = String::from_str(self.purpose);
        text.append(" requires all parts of the command be valid utf8");
        text
    }
}

/// Why a status check failed.
#[derive(Debug)]
pub enum CheckStatusError {
    Execution(ExecutionError),
    Status(StatusError),
}

impl CheckStatusError {
    /// The failure in words: those of the failure it holds.
    pub fn message(&self) -> (text: String)
        ensures
            match self {
                CheckStatusError::Execution(e) => text@ == "Failed to execute `"@ + lossy_text(
                    e.exe@,
                ) + "`"@,
                CheckStatusError::Status(e) => text@ == "Command `"@ + e.cmd@.text()
                    + "` exited unsuccessfully ("@ + e.status.text@ + ")"@,
            },
    {
        match self {
            CheckStatusError::Execution(e) => e.message(),
            CheckStatusError::Status(e) => e.message(),
        }
    }
}

impl From<ExecutionError> for CheckStatusError {
    fn from(e: ExecutionError) -> (res: CheckStatusError) {
        CheckStatusError::Execution(e)
    }
}

impl FromSpecImpl<ExecutionError> for CheckStatusError {
    open spec fn obeys_from_spec() -> bool {
        true
    }

    open spec fn from_spec(e: ExecutionError) -> CheckStatusError {
        CheckStatusError::Execution(e)
    }
}

impl From<StatusError> for CheckStatusError {
    fn from(e: StatusError) -> (res: CheckStatusError) {
        CheckStatusError::Status(e)
    }
}

impl FromSpecImpl<StatusError> for CheckStatusError {
    open spec fn obeys_from_spec() -> bool {
        true
    }

    open spec fn from_spec(e: StatusError) -> CheckStatusError {
        CheckStatusError::Status(e)
    }
}

/// Why an output check failed.
#[derive(Debug)]
pub enum CheckOutputError {
    Execution(ExecutionError),
    Status(StatusError),
    NonUtf8Output(NonUtf8OutputError),
}

impl CheckOutputError {
    /// The failure in words: those of the failure it holds.
    pub fn message(&self) -> (text: String)
        ensures
            match self {
                CheckOutputError::Execution(e) => text@ == "Failed to execute `"@ + lossy_text(
                    e.exe@,
                ) + "`"@,
                CheckOutputError::Status(e) => text@ == "Command `"@ + e.cmd@.text()
                    + "` exited unsuccessfully ("@ + e.status.text@ + ")"@,
                CheckOutputError::NonUtf8Output(e) => text@ == "Command `"@ + e.cmd@.text()
                    + "` returned non-utf8 output"@,
            },
    {
        match self {
            CheckOutputError::Execution(e) => e.message(),
            CheckOutputError::Status(e) => e.message(),
            CheckOutputError::NonUtf8Output(e) => e.message(),
        }
    }
}

impl From<ExecutionError> for CheckOutputError {
    fn from(e: ExecutionError) -> (res: CheckOutputError) {
        CheckOutputError::Execution(e)
    }
}

impl FromSpecImpl<ExecutionError> for CheckOutputError {
    open spec fn obeys_from_spec() -> bool {
        true
    }

    open spec fn from_spec(e: ExecutionError) -> CheckOutputError {
        CheckOutputError::Execution(e)
    }
}

impl From<StatusError> for CheckOutputError {
    fn from(e: StatusError) -> (res: CheckOutputError) {
        CheckOutputError::Status(e)
    }
}

impl FromSpecImpl<StatusError> for CheckOutputError {
    open spec fn obeys_from_spec() -> bool {
        true
    }

    open spec fn from_spec(e: StatusError) -> CheckOutputError {
        CheckOutputError::Status(e)
    }
}

impl From<NonUtf8OutputError> for CheckOutputError {
    fn from(e: NonUtf8OutputError) -> (res: CheckOutputError) {
        CheckOutputError::NonUtf8Output(e)
    }
}

impl FromSpecImpl<NonUtf8OutputError> for CheckOutputError {
    open spec fn obeys_from_spec() -> bool {
        true
    }

    open spec fn from_spec(e: NonUtf8OutputError) -> CheckOutputError {
        CheckOutputError::NonUtf8Output(e)
    }
}

} // verus!
