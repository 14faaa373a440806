//! The library's error type.

use vstd::prelude::*;
use vstd::string::*;

verus! {

/// What went wrong.
#[derive(Debug)]
pub enum PeError {
    /// A code path that has not been implemented yet.
    NotImplemented(&'static str),
    /// The input bytes do not form a valid PE file.
    Malformed(String),
    /// An operation is not supported for this file or architecture.
    Unsupported(String),
    /// A caller-supplied argument is invalid.
    InvalidArgument(String),
    /// Something that was asked for does not exist.
    NotFound(String),
    /// I/O failed while reading or writing a file.
    Io(String),
}

/// The mathematical reading of a [`PeError`]: its kind and its text.
pub enum PeErrorModel {
    NotImplemented(Seq<char>),
    Malformed(Seq<char>),
    Unsupported(Seq<char>),
    InvalidArgument(Seq<char>),
    NotFound(Seq<char>),
    Io(Seq<char>),
}

impl View for PeError {
    type V = PeErrorModel;

    open spec fn view(&self) -> PeErrorModel {
        match self {
            PeError::NotImplemented(s) => PeErrorModel::NotImplemented(s@),
            PeError::Malformed(s) => PeErrorModel::Malformed(s@),
            PeError::Unsupported(s) => PeErrorModel::Unsupported(s@),
            PeError::InvalidArgument(s) => PeErrorModel::InvalidArgument(s@),
            PeError::NotFound(s) => PeErrorModel::NotFound(s@),
            PeError::Io(s) => PeErrorModel::Io(s@),
        }
    }
}

impl PeErrorModel {
    /// The text shown to a user for this error.
    pub open spec fn shown(self) -> Seq<char> {
        match self {
            PeErrorModel::NotImplemented(s) => "not implemented yet: "@ + s,
            PeErrorModel::Malformed(s) => "malformed PE: "@ + s,
            PeErrorModel::Unsupported(s) => "unsupported: "@ + s,
            PeErrorModel::InvalidArgument(s) => "invalid argument: "@ + s,
            PeErrorModel::NotFound(s) => "not found: "@ + s,
            PeErrorModel::Io(s) => "I/O error: "@ + s,
        }
    }
}

impl PeError {
    /// The error as a line of text.
    pub fn message(&self) -> (r: String)
        ensures
            r@ == self@.shown(),
    {
        match self {
            PeError::NotImplemented(s) => "not implemented yet: ".to_owned().concat(s),
            PeError::Malformed(s) => "malformed PE: ".to_owned().concat(s.as_str()),
            PeError::Unsupported(s) => "unsupported: ".to_owned().concat(s.as_str()),
            PeError::InvalidArgument(s) => "invalid argument: ".to_owned().concat(s.as_str()),
            PeError::NotFound(s) => "not found: ".to_owned().concat(s.as_str()),
            PeError::Io(s) => "I/O error: ".to_owned().concat(s.as_str()),
        }
    }
}

/// The result of a fallible operation of this library.
pub type PeResult<T> = Result<T, PeError>;

/// A result as mathematical values.
pub open spec fn result_view<T: View>(r: PeResult<T>) -> Result<T::V, PeErrorModel> {
    match r {
        Ok(x) => Ok(x@),
        Err(e) => Err(e@),
    }
}

/// Why an operation stopped, if it did.
pub open spec fn failure(r: PeResult<()>) -> Option<PeErrorModel> {
    match r {
        Ok(_) => None,
        Err(e) => Some(e@),
    }
}

/// A malformed-file error with a fixed text.
pub fn malformed(text: &str) -> (e: PeError)
    ensures
        e@ == PeErrorModel::Malformed(text@),
{
    PeError::Malformed(text.to_owned())
}

/// An invalid-argument error with a fixed text.
pub fn invalid_argument(text: &str) -> (e: PeError)
    ensures
        e@ == PeErrorModel::InvalidArgument(text@),
{
    PeError::InvalidArgument(text.to_owned())
}

/// A not-found error with a fixed text.
pub fn not_found(text: &str) -> (e: PeError)
    ensures
        e@ == PeErrorModel::NotFound(text@),
{
    PeError::NotFound(text.to_owned())
}

} // verus!
