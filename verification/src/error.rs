use vstd::prelude::*;
use vstd::string::*;

verus! {

/// Why a search could not be carried out.
#[derive(Debug, PartialEq, Eq)]
pub enum GrepError {
    /// The command line does not name both a query and a file.
    InsufficientArguments,
    /// The file could not be read as text; `cause` describes the failure.
    FileReadError { cause: String },
}

/// What [`GrepError::message`] says of a command line that is too short.
pub const MESSAGE_INSUFFICIENT_ARGUMENTS: &'static str = "not enough arguments";

/// What [`GrepError::message`] puts before the cause of a failed read.
pub const MESSAGE_FILE_READ_ERROR: &'static str = "cannot read the file: ";

impl GrepError {
    /// The text of the message that [`GrepError::message`] composes.
    pub open spec fn message_text(self) -> Seq<char> {
        match self {
            GrepError::InsufficientArguments => MESSAGE_INSUFFICIENT_ARGUMENTS@,
            GrepError::FileReadError { cause } => MESSAGE_FILE_READ_ERROR@ + cause@,
        }
    }

    /// Composes a message for the user that says what went wrong.
    pub fn message(&self) -> (message: String)
        ensures
            message@ == self.message_text(),
    {
        match self {
            GrepError::InsufficientArguments => String::from_str(MESSAGE_INSUFFICIENT_ARGUMENTS),
            GrepError::FileReadError { cause } => String::from_str(MESSAGE_FILE_READ_ERROR).concat(
                cause.as_str(),
            ),
        }
    }
}

/// The process exit status for an outcome: 0 for success, 1 for any failure.
pub open spec fn exit_status<T>(outcome: Result<T, GrepError>) -> int {
    if outcome is Ok {
        0
    } else {
        1
    }
}

/// Computes the process exit status that reports `outcome`.
pub fn exit_code<T>(outcome: &Result<T, GrepError>) -> (code: i32)
    ensures
        code == exit_status(*outcome),
{
    match outcome {
        Ok(_) => 0,
        Err(_) => 1,
    }
}

} // verus!
