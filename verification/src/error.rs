//! What an operation reports when it does not succeed.

use vstd::prelude::*;

verus! {

/// What is wrong with a request.
#[derive(Clone, Copy, Debug, PartialEq, Eq, Structural)]
pub enum DomainErrorKind {
    /// The request itself cannot be served.
    Invalid,
    /// What the request names does not exist.
    NotFound,
}

/// An error in what was asked for.
#[derive(Debug, PartialEq, Eq)]
pub struct DomainError {
    pub kind: DomainErrorKind,
    pub message: String,
}

/// An error of any kind.
#[derive(Debug, PartialEq, Eq)]
pub enum Error {
    /// An error in what was asked for.
    Domain(DomainError),
    /// Anything else.
    Other(String),
}

/// The view of an error: its kind and its message.
pub enum Failure {
    Invalid(Seq<char>),
    NotFound(Seq<char>),
    Other(Seq<char>),
}

impl View for Error {
    type V = Failure;

    open spec fn view(&self) -> Failure {
        match self {
            Error::Domain(error) => match error.kind {
                DomainErrorKind::Invalid => Failure::Invalid(error.message@),
                DomainErrorKind::NotFound => Failure::NotFound(error.message@),
            },
            Error::Other(message) => Failure::Other(message@),
        }
    }
}

impl Failure {
    /// The message of an error.
    pub open spec fn message(self) -> Seq<char> {
        match self {
            Failure::Invalid(message) => message,
            Failure::NotFound(message) => message,
            Failure::Other(message) => message,
        }
    }
}

/// The view of a result: the view of the value, or that of the error.
pub open spec fn viewed<T: View>(result: Result<T, Error>) -> Result<T::V, Failure> {
    match result {
        Ok(value) => Ok(value@),
        Err(error) => Err(error@),
    }
}

/// A result that carries no value, with the view of its error.
pub open spec fn done(result: Result<(), Error>) -> Result<(), Failure> {
    match result {
        Ok(()) => Ok(()),
        Err(error) => Err(error@),
    }
}

/// An error in the request itself.
pub fn invalid(message: String) -> (error: Error)
    ensures
        error@ == Failure::Invalid(message@),
{
    Error::Domain(DomainError { kind: DomainErrorKind::Invalid, message })
}

/// An error for something that does not exist.
pub fn not_found(message: String) -> (error: Error)
    ensures
        error@ == Failure::NotFound(message@),
{
    Error::Domain(DomainError { kind: DomainErrorKind::NotFound, message })
}

/// An error that is not about the request.
pub fn other(message: String) -> (error: Error)
    ensures
        error@ == Failure::Other(message@),
{
    Error::Other(message)
}

impl Error {
    /// The message of the error.
    pub fn message(&self) -> (message: String)
        ensures
            message@ == self@.message(),
    {
        match self {
            Error::Domain(error) => error.message.clone(),
            Error::Other(message) => message.clone(),
        }
    }
}

} // verus!
