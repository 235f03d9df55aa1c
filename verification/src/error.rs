//! Command errors: a dismissed dialog, no graph loaded yet, a failed read,
//! an ingest error, or an internal failure, each with its message.

use crate::ingest::{core_error_text, SeamCoreError};
use vstd::prelude::*;
use vstd::string::StringExecFns;

verus! {

/// Why a command failed.
#[derive(Debug)]
pub enum CommandError {
    Cancelled,
    NoGraphLoaded,
    Io(String),
    Core(SeamCoreError),
    Internal(String),
}

/// The message of a command error.
pub open spec fn command_error_text(e: CommandError) -> Seq<char> {
    match e {
        CommandError::Cancelled => "no file selected"@,
        CommandError::NoGraphLoaded => "no graph loaded yet"@,
        CommandError::Io(m) => "failed to read file: "@ + m@,
        CommandError::Core(c) => core_error_text(c),
        CommandError::Internal(m) => "internal error: "@ + m@,
    }
}

impl CommandError {
    /// The message shown for this error.
    pub fn message(&self) -> (r: String)
        ensures
            r@ == command_error_text(*self),
    {
        match self {
            CommandError::Cancelled => String::from_str("no file selected"),
            CommandError::NoGraphLoaded => String::from_str("no graph loaded yet"),
            CommandError::Io(m) => {
                let mut r = String::from_str("failed to read file: ");
                r.append(m.as_str());
                r
            },
            CommandError::Core(c) => c.message(),
            CommandError::Internal(m) => {
                let mut r = String::from_str("internal error: ");
                r.append(m.as_str());
                r
            },
        }
    }
}

} // verus!
