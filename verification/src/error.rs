//! What can go wrong.

use vstd::prelude::*;

verus! {

/// The failures of the document and of its clock edits.
#[derive(Clone, Copy, Debug, PartialEq, Eq, Structural)]
pub enum Error {
    /// No task has the identifier.
    TaskUuidNotFound,
    /// A position among the children of a task is beyond the list.
    ChildOutOfIndex,
    /// A command came with fewer words than it needs.
    UnsufficientInput,
    /// No clock has the identifier.
    ClockNotFound,
    /// No entry of a clock edit has the number.
    ClockOutOfIndex,
}

impl Error {
    /// What the failure is called when it is shown.
    pub open spec fn message_text(self) -> Seq<char> {
        match self {
            Error::TaskUuidNotFound => "Task UUID not found"@,
            Error::ChildOutOfIndex => "Child out of index"@,
            Error::UnsufficientInput => "Not enough input provided"@,
            Error::ClockNotFound => "Clock could not be found"@,
            Error::ClockOutOfIndex => "Clock is out of index"@,
        }
    }

    /// What the failure is called when it is shown.
    pub fn message(&self) -> (text: String)
        ensures
            text@ == self.message_text(),
    {
        match self {
            Error::TaskUuidNotFound => "Task UUID not found".to_owned(),
            Error::ChildOutOfIndex => "Child out of index".to_owned(),
            Error::UnsufficientInput => "Not enough input provided".to_owned(),
            Error::ClockNotFound => "Clock could not be found".to_owned(),
            Error::ClockOutOfIndex => "Clock is out of index".to_owned(),
        }
    }
}

/// The failures of the command line.
#[derive(Debug)]
pub enum CliError {
    /// A word of a command could not be read.
    ParseError { msg: String },
    /// No command has the name.
    CommandNotFound { command: String },
    /// There was no input.
    Empty,
    /// Anything else.
    OtherError { msg: String },
}

impl CliError {
    /// What the failure is called when it is shown.
    pub open spec fn message_text(self) -> Seq<char> {
        match self {
            CliError::ParseError { msg } => "Couldn't parse: "@ + msg@,
            CliError::CommandNotFound { command } => "Command not found: "@ + command@,
            CliError::Empty => "Input is empty"@,
            CliError::OtherError { msg } => "Error: "@ + msg@,
        }
    }

    /// What the failure is called when it is shown.
    pub fn message(&self) -> (text: String)
        ensures
            text@ == self.message_text(),
    {
        match self {
            CliError::ParseError { msg } => "Couldn't parse: ".to_owned().concat(msg.as_str()),
            CliError::CommandNotFound { command } => "Command not found: ".to_owned().concat(
                command.as_str(),
            ),
            CliError::Empty => "Input is empty".to_owned(),
            CliError::OtherError { msg } => "Error: ".to_owned().concat(msg.as_str()),
        }
    }
}

/// Why a command failed: with a failure of the document, with one of the
/// command line, or with a message of its own.
#[derive(Debug)]
pub enum CommandError {
    Core(Error),
    Cli(CliError),
    Other(String),
}

impl CommandError {
    /// What the failure is called when it is shown.
    pub open spec fn message_text(self) -> Seq<char> {
        match self {
            CommandError::Core(e) => e.message_text(),
            CommandError::Cli(e) => e.message_text(),
            CommandError::Other(text) => text@,
        }
    }

    /// What the failure is called when it is shown.
    pub fn message(&self) -> (text: String)
        ensures
            text@ == self.message_text(),
    {
        match self {
            CommandError::Core(e) => e.message(),
            CommandError::Cli(e) => e.message(),
            CommandError::Other(text) => text.clone(),
        }
    }
}

} // verus!
