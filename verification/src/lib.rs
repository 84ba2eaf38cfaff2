//! Extra behaviours for a process-invocation descriptor: privilege escalation,
//! remote execution, output redirection and outcome classification.
//!
//! The descriptor is a plain value; spawning a process is left to the caller,
//! who hands the raw result back to the classification functions.

pub mod command;
pub mod commandline;
pub mod effect;
pub mod error;
pub mod ext;
pub mod output;
pub mod quote;
pub mod shell;
pub mod text;

pub use command::Command;
pub use commandline::{convert_to_commandline, decompose_command};
pub use error::utils::{Exe, ExeAndArgs};
pub use error::{
    BoundaryTextViolation, CheckOutputError, CheckStatusError, ExecutionError, NonUtf8OutputError,
    StatusError,
};
pub use ext::CommandExt;
pub use output::{ExitStatus, Output, RawOutput};
