//! The error sum shared by the whole engine.

use vstd::prelude::*;
use crate::formula::Formula;
use crate::term::Term;

verus! {

/// The kind of an [`Error`], without its payload.
pub enum ErrorKind {
    Command,
    InvalidArguments,
    InvalidFormula,
    InvalidTerm,
    InvalidCommand,
    TooMuchArguments,
    ArgumentsRequired,
    UnableToRead,
    UnknownCommand,
    EmptyFile,
    UnfinishedProof,
    UnexpectedEOF,
    AlreadyExists,
}

/// One flat error sum: every failure of a command, a parse or a script run.
#[derive(Debug)]
pub enum Error {
    /// Error during command execution.
    CommandError(String),
    /// Valid command but incorrect arguments.
    InvalidArguments(String),
    /// Problem with a formula.
    InvalidFormula(Formula, String),
    /// Problem with a term.
    InvalidTerm(Term, String),
    /// Invalid command (in this context).
    InvalidCommand(String),
    /// Arguments given but not expected.
    TooMuchArguments(String),
    /// No arguments given but arguments expected.
    ArgumentsRequired(String),
    /// I/O error.
    UnableToRead,
    /// Unknown command.
    UnknownCommand(String),
    /// Empty file.
    EmptyFile(String),
    UnfinishedProof,
    UnexpectedEOF,
    AlreadyExists(String),
}

impl Error {
    /// The kind of this error.
    pub open spec fn kind(&self) -> ErrorKind {
        match self {
            Error::CommandError(_) => ErrorKind::Command,
            Error::InvalidArguments(_) => ErrorKind::InvalidArguments,
            Error::InvalidFormula(_, _) => ErrorKind::InvalidFormula,
            Error::InvalidTerm(_, _) => ErrorKind::InvalidTerm,
            Error::InvalidCommand(_) => ErrorKind::InvalidCommand,
            Error::TooMuchArguments(_) => ErrorKind::TooMuchArguments,
            Error::ArgumentsRequired(_) => ErrorKind::ArgumentsRequired,
            Error::UnableToRead => ErrorKind::UnableToRead,
            Error::UnknownCommand(_) => ErrorKind::UnknownCommand,
            Error::EmptyFile(_) => ErrorKind::EmptyFile,
            Error::UnfinishedProof => ErrorKind::UnfinishedProof,
            Error::UnexpectedEOF => ErrorKind::UnexpectedEOF,
            Error::AlreadyExists(_) => ErrorKind::AlreadyExists,
        }
    }
}

} // verus!
