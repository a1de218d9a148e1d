//! The failures that a test plan can end in.

use vstd::prelude::*;

verus! {

/// What can go wrong while a command sequence is drawn or replayed.
#[derive(Debug, PartialEq, Eq)]
pub enum Error {
    /// No command could be drawn: the model offered nothing to choose from.
    Generation { reason: String },
    /// Error in the execution of the system-under-test
    SystemExecution { source: String },
    /// Model state machine postcondition does not hold
    Postcondition { command: String, expected: String, actual: String },
}

impl Clone for Error {
    fn clone(&self) -> (copy: Error)
        ensures
            copy == *self,
    {
        match self {
            Error::Generation { reason } => Error::Generation { reason: reason.clone() },
            Error::SystemExecution { source } => Error::SystemExecution { source: source.clone() },
            Error::Postcondition { command, expected, actual } => Error::Postcondition {
                command: command.clone(),
                expected: expected.clone(),
                actual: actual.clone(),
            },
        }
    }
}

impl Error {
    /// The text that a report shows for this error.
    pub open spec fn message_text(self) -> Seq<char> {
        match self {
            Error::Generation { reason } => reason@,
            Error::SystemExecution { source } => source@,
            Error::Postcondition { command, expected, actual } => {
                "Postcondition does not hold. Command: "@ + command@
                    + ". Expected result: "@ + expected@
                    + ". Actual result: "@ + actual@
            },
        }
    }

    /// A generation failure with the given reason.
    pub fn new_generation_error(reason: String) -> (e: Error)
        ensures
            e == (Error::Generation { reason }),
    {
        Error::Generation { reason }
    }

    /// A failure of the system under test, described by `source`.
    pub fn new_system_execution_error(source: String) -> (e: Error)
        ensures
            e == (Error::SystemExecution { source }),
    {
        Error::SystemExecution { source }
    }

    /// A disagreement between model and system on the outcome of `command`.
    pub fn new_postcondition_error(command: String, expected: String, actual: String) -> (e: Error)
        ensures
            e == (Error::Postcondition { command, expected, actual }),
    {
        Error::Postcondition { command, expected, actual }
    }

    /// The description of the underlying failure, where there is one.
    pub fn source(&self) -> (s: Option<&String>)
        ensures
            s == match *self {
                Error::SystemExecution { source } => Some(&source),
                _ => None,
            },
    {
        match self {
            Error::SystemExecution { source } => Some(source),
            _ => None,
        }
    }

    /// Renders the error as a report shows it.
    pub fn message(&self) -> (text: String)
        ensures
            text@ == self.message_text(),
    {
        match self {
            Error::Generation { reason } => reason.clone(),
            Error::SystemExecution { source } => source.clone(),
            Error::Postcondition { command, expected, actual } => {
                let mut text = String::from_str("Postcondition does not hold. Command: ");
                text.append(command.as_str());
                text.append(". Expected result: ");
                text.append(expected.as_str());
                text.append(". Actual result: ");
                text.append(actual.as_str());
                text
            },
        }
    }
}

} // verus!
