//! The errors that the tool reports, and their messages.

use vstd::prelude::*;
use crate::flags::CMD;

verus! {

/// An error of the tool, with the values that its message names.
#[derive(Debug)]
pub enum CliError {
    /// A flag was given to a command that does not take it.
    FlagNotAllowed { flag: String, cmd: CMD },
    /// A flag was given twice.
    DuplicateFlag { flag: String },
    /// A flag that the command needs was not given.
    MissingMandatoryFlag { flag: String },
    /// No target path was given to the context builder.
    MissingTarget,
    /// No key was given to the context builder.
    MissingKey,
    /// The command line was empty.
    NoCommand,
    /// The command needs a target path and none was given.
    ExpectedTarget,
    /// The password is longer than the key.
    PasswordTooLong,
    /// `help` was asked about a command that does not exist.
    UnknownHelpTopic { topic: String },
    /// The first argument names no command.
    UnknownCommand { command: String },
    /// The archive does not have the expected layout.
    WrongFileFormat,
    /// A file entry of the archive records a length of zero.
    EmptyFileAndName,
    /// The ciphertext does not open with the given key.
    WrongPassword,
}

/// The mathematical value of a [`CliError`]: its variant and the text it names.
pub enum CliErrorView {
    FlagNotAllowed(Seq<char>, CMD),
    DuplicateFlag(Seq<char>),
    MissingMandatoryFlag(Seq<char>),
    MissingTarget,
    MissingKey,
    NoCommand,
    ExpectedTarget,
    PasswordTooLong,
    UnknownHelpTopic(Seq<char>),
    UnknownCommand(Seq<char>),
    WrongFileFormat,
    EmptyFileAndName,
    WrongPassword,
}

impl View for CliError {
    type V = CliErrorView;

    open spec fn view(&self) -> CliErrorView {
        match self {
            CliError::FlagNotAllowed { flag, cmd } => CliErrorView::FlagNotAllowed(flag@, *cmd),
            CliError::DuplicateFlag { flag } => CliErrorView::DuplicateFlag(flag@),
            CliError::MissingMandatoryFlag { flag } => CliErrorView::MissingMandatoryFlag(flag@),
            CliError::MissingTarget => CliErrorView::MissingTarget,
            CliError::MissingKey => CliErrorView::MissingKey,
            CliError::NoCommand => CliErrorView::NoCommand,
            CliError::ExpectedTarget => CliErrorView::ExpectedTarget,
            CliError::PasswordTooLong => CliErrorView::PasswordTooLong,
            CliError::UnknownHelpTopic { topic } => CliErrorView::UnknownHelpTopic(topic@),
            CliError::UnknownCommand { command } => CliErrorView::UnknownCommand(command@),
            CliError::WrongFileFormat => CliErrorView::WrongFileFormat,
            CliError::EmptyFileAndName => CliErrorView::EmptyFileAndName,
            CliError::WrongPassword => CliErrorView::WrongPassword,
        }
    }
}

/// The view of a result whose success carries nothing.
pub open spec fn unit_result_view(r: Result<(), CliError>) -> Result<(), CliErrorView> {
    match r {
        Ok(()) => Ok(()),
        Err(e) => Err(e@),
    }
}

impl CliErrorView {
    /// The message that the tool prints for this error.
    pub open spec fn message(self) -> Seq<char> {
        match self {
            CliErrorView::FlagNotAllowed(flag, cmd) => "flag '"@ + flag
                + "' is not allowed for command: "@ + cmd.spec_name(),
            CliErrorView::DuplicateFlag(flag) => "duplicate flag '"@ + flag + "'"@,
            CliErrorView::MissingMandatoryFlag(flag) => "missing mandatory flag "@ + flag,
            CliErrorView::MissingTarget => "missing target"@,
            CliErrorView::MissingKey => "missing key"@,
            CliErrorView::NoCommand => "no command"@,
            CliErrorView::ExpectedTarget => "expected target"@,
            CliErrorView::PasswordTooLong => "password is too long"@,
            CliErrorView::UnknownHelpTopic(topic) => "unknown command '"@ + topic + "'"@,
            CliErrorView::UnknownCommand(command) => "unknown command "@ + command,
            CliErrorView::WrongFileFormat => "wrong file format"@,
            CliErrorView::EmptyFileAndName => "empty file and name"@,
            CliErrorView::WrongPassword => "wrong password"@,
        }
    }
}

impl CliError {
    /// The message that the tool prints for this error.
    pub fn to_string(&self) -> (s: String)
        ensures
            s@ == self@.message(),
    {
        match self {
            CliError::FlagNotAllowed { flag, cmd } => {
                let mut s = "flag '".to_owned();
                s.append(flag.as_str());
                s.append("' is not allowed for command: ");
                let name = cmd.to_string();
                s.append(name.as_str());
                s
            },
            CliError::DuplicateFlag { flag } => {
                let mut s = "duplicate flag '".to_owned();
                s.append(flag.as_str());
                s.append("'");
                s
            },
            CliError::MissingMandatoryFlag { flag } => {
                let mut s = "missing mandatory flag ".to_owned();
                s.append(flag.as_str());
                s
            },
            CliError::MissingTarget => "missing target".to_owned(),
            CliError::MissingKey => "missing key".to_owned(),
            CliError::NoCommand => "no command".to_owned(),
            CliError::ExpectedTarget => "expected target".to_owned(),
            CliError::PasswordTooLong => "password is too long".to_owned(),
            CliError::UnknownHelpTopic { topic } => {
                let mut s = "unknown command '".to_owned();
                s.append(topic.as_str());
                s.append("'");
                s
            },
            CliError::UnknownCommand { command } => {
                let mut s = "unknown command ".to_owned();
                s.append(command.as_str());
                s
            },
            CliError::WrongFileFormat => "wrong file format".to_owned(),
            CliError::EmptyFileAndName => "empty file and name".to_owned(),
            CliError::WrongPassword => "wrong password".to_owned(),
        }
    }
}

} // verus!
