//! Source locations and reading errors.

use crate::text::{decimal, decimal_text};
use vstd::prelude::*;
use vstd::string::*;

verus! {

/// A place in the source text.
#[derive(Copy, Clone, PartialEq, Eq, Debug, Structural)]
pub struct Location {
    /// The line, counted from 1.
    pub line_number: usize,
}

impl Default for Location {
    fn default() -> (location: Location)
        ensures
            location.line_number == 0,
    {
        Location { line_number: 0 }
    }
}

/// What is wrong with the source text, and where.
#[derive(Debug)]
pub struct Error {
    pub location: Location,
    pub message: String,
}

/// An error, with its message as a sequence of characters.
pub struct Failure {
    pub location: Location,
    pub message: Seq<char>,
}

impl View for Error {
    type V = Failure;

    open spec fn view(&self) -> Failure {
        Failure { location: self.location, message: self.message@ }
    }
}

impl Error {
    /// An error with a fixed message.
    pub fn new(location: Location, message: &str) -> (e: Error)
        ensures
            e@ == (Failure { location, message: message@ }),
    {
        Error { location, message: message.to_owned() }
    }

    /// The same error once more.
    pub fn duplicate(&self) -> (e: Error)
        ensures
            e@ == self@,
    {
        Error { location: self.location, message: self.message.clone() }
    }

    /// Write the error as its line number and its message, as in "3: expected function name".
    pub fn to_string(&self) -> (text: String)
        ensures
            text@ == decimal(self.location.line_number as nat) + ": "@ + self.message@,
    {
        decimal_text(self.location.line_number as u64).concat(": ").concat(self.message.as_str())
    }
}

/// A result whose value is taken as it is.
pub open spec fn plain<T>(r: Result<T, Error>) -> Result<T, Failure> {
    match r {
        Ok(x) => Ok(x),
        Err(e) => Err(e@),
    }
}

/// A result whose value is taken by its view.
pub open spec fn viewed<T: View>(r: Result<T, Error>) -> Result<T::V, Failure> {
    match r {
        Ok(x) => Ok(x@),
        Err(e) => Err(e@),
    }
}

} // verus!
