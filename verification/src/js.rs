//! The value a worker hands back to the callback that waits for it.

use vstd::prelude::*;

verus! {

/// An opaque computation result, loosely shaped after a script value.
///
/// A worker wraps whatever its task produced in one of these so that the pool
/// never has to know what a concrete task computes. `Undefined` is also what a
/// timer or a readiness callback receives. `Error` carries the message of a
/// task that failed, or of a watched source that went bad.
#[derive(Debug, PartialEq, Eq)]
pub enum Js {
    Undefined,
    String(String),
    Int(usize),
    Error(String),
}

impl Js {
    /// The text this value carries, if it is a `String`.
    pub open spec fn text(self) -> Option<String> {
        match self {
            Js::String(s) => Some(s),
            _ => None,
        }
    }

    /// The number this value carries, if it is an `Int`.
    pub open spec fn number(self) -> Option<usize> {
        match self {
            Js::Int(n) => Some(n),
            _ => None,
        }
    }

    /// The failure message this value carries, if it is an `Error`.
    pub open spec fn failure(self) -> Option<String> {
        match self {
            Js::Error(m) => Some(m),
            _ => None,
        }
    }

    /// Unwraps a `String`; every other variant gives `None`.
    pub fn into_string(self) -> (r: Option<String>)
        ensures
            r == self.text(),
    {
        match self {
            Js::String(s) => Some(s),
            _ => None,
        }
    }

    /// Unwraps an `Int`; every other variant gives `None`.
    pub fn into_int(self) -> (r: Option<usize>)
        ensures
            r == self.number(),
    {
        match self {
            Js::Int(n) => Some(n),
            _ => None,
        }
    }

    /// Unwraps the message of an `Error`; every other variant gives `None`.
    pub fn into_error(self) -> (r: Option<String>)
        ensures
            r == self.failure(),
    {
        match self {
            Js::Error(m) => Some(m),
            _ => None,
        }
    }

    /// Whether this value reports a failure.
    pub fn is_error(&self) -> (r: bool)
        ensures
            r == (*self is Error),
    {
        match self {
            Js::Error(_) => true,
            _ => false,
        }
    }
}

} // verus!
