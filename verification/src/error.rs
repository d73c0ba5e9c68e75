//! The errors that the router's operations report.

use vstd::prelude::*;

verus! {

/// The kinds of transport failure that the router tells apart.
#[derive(Clone, Copy, Debug, PartialEq, Eq, Structural)]
pub enum IoErrorKind {
    AddrInUse,
    ConnectionAborted,
    InvalidInput,
    InvalidData,
    TimedOut,
    Other,
}

/// A transport failure: its kind and what the transport said about it.
#[derive(Clone, Debug)]
pub struct IoError {
    pub kind: IoErrorKind,
    pub message: String,
}

/// An error together with a human-readable trail.
#[derive(Debug)]
pub struct ErrorWithContext {
    pub context: String,
    pub error: Box<Error>,
}

/// Errors of the router.
#[derive(Debug)]
pub enum Error {
    /// A transport failure.
    IO(IoError),
    /// The feature is switched off in the configuration.
    NotEnabled,
    /// The net does not offer the capability.
    NotImplemented,
    /// Bad serialized input.
    Config(String),
    /// The flow was cancelled.
    AbortedByUser,
    /// A name that resolves to nothing: a net, a rule target, a registry entry.
    NotFound(String),
    /// Nets that depend on each other in a circle: each of the names depends
    /// on the next one, the last one on the first.
    Cycle(Vec<String>),
    /// Anything else, as text.
    Other(String),
    /// Another error with a trail in front of it.
    WithContext(ErrorWithContext),
}

impl ErrorWithContext {
    pub fn new(context: String, error: Error) -> (r: ErrorWithContext)
        ensures
            r.context == context,
            *r.error == error,
    {
        ErrorWithContext { context, error: Box::new(error) }
    }
}

impl Error {
    /// Whether the flow was cancelled by the user.
    pub fn is_aborted(&self) -> (r: bool)
        ensures
            r == (self is AbortedByUser),
    {
        matches!(self, Error::AbortedByUser)
    }

    /// Whether a bind failed because the address is taken.
    pub fn is_addr_in_use(&self) -> (r: bool)
        ensures
            r == (self matches Error::IO(e) && e.kind == IoErrorKind::AddrInUse),
    {
        match self {
            Error::IO(e) => e.kind == IoErrorKind::AddrInUse,
            _ => false,
        }
    }
}

/// An error that is known by its text alone.
pub fn map_other(message: String) -> (r: Error)
    ensures
        r == Error::Other(message),
{
    Error::Other(message)
}

/// Puts `trail` in front of the error of `result`, and leaves a success as it is.
pub fn context<T>(result: Result<T, Error>, trail: String) -> (r: Result<T, Error>)
    ensures
        match result {
            Ok(v) => r == Ok::<T, Error>(v),
            Err(e) => r matches Err(Error::WithContext(w)) && w.context == trail && *w.error == e,
        },
{
    match result {
        Ok(v) => Ok(v),
        Err(e) => Err(Error::WithContext(ErrorWithContext::new(trail, e))),
    }
}

} // verus!
