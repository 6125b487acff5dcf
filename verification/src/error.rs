//! The error type of the library.
use vstd::prelude::*;

verus! {

/// The kind of an [`Error`].
#[derive(Debug, Clone, Copy, PartialEq, Eq, Structural, Hash)]
pub enum ErrorKind {
    /// The input breaks a rule of the format, or a value is out of range.
    InvalidInput,
    /// The input is well formed but uses a feature that the library does not handle.
    Unsupported,
    /// The input ends before the element that is being read.
    UnexpectedEof,
}

/// An error: its kind and a reason in words.
#[derive(Debug, Clone)]
pub struct Error {
    pub kind: ErrorKind,
    pub reason: String,
}

/// The model of an [`Error`]: its kind and the characters of its reason.
pub type ErrorModel = (ErrorKind, Seq<char>);

impl View for Error {
    type V = ErrorModel;

    open spec fn view(&self) -> ErrorModel {
        (self.kind, self.reason@)
    }
}

/// The model of a result: the view of its value, or the kind and the reason of its error.
pub open spec fn outcome<T: View>(r: Result<T, Error>) -> Result<T::V, ErrorModel> {
    match r {
        Ok(t) => Ok(t@),
        Err(e) => Err(e@),
    }
}

/// The model of an invalid-input error with the given reason.
pub open spec fn invalid_input_error(reason: Seq<char>) -> ErrorModel {
    (ErrorKind::InvalidInput, reason)
}

/// The model of an unsupported-feature error with the given reason.
pub open spec fn unsupported_error(reason: Seq<char>) -> ErrorModel {
    (ErrorKind::Unsupported, reason)
}

/// The model of the error that is reported where the input ends too early.
pub open spec fn eof_error() -> ErrorModel {
    (ErrorKind::UnexpectedEof, "Unexpected end of input"@)
}

impl Error {
    /// Makes an error of kind [`ErrorKind::InvalidInput`].
    pub fn invalid_input(reason: String) -> (e: Self)
        ensures
            e@ == invalid_input_error(reason@),
    {
        Error { kind: ErrorKind::InvalidInput, reason }
    }

    /// Makes an error of kind [`ErrorKind::Unsupported`].
    pub fn unsupported(reason: String) -> (e: Self)
        ensures
            e@ == unsupported_error(reason@),
    {
        Error { kind: ErrorKind::Unsupported, reason }
    }

    /// Makes the error for input that ends too early.
    pub fn unexpected_eof() -> (e: Self)
        ensures
            e@ == eof_error(),
    {
        Error { kind: ErrorKind::UnexpectedEof, reason: "Unexpected end of input".to_owned() }
    }
}

/// Whether the error is the one for input that ends too early.
pub open spec fn is_eof(e: Error) -> bool {
    e.kind == ErrorKind::UnexpectedEof && e.reason@ == "Unexpected end of input"@
}

/// Whether the error tells of invalid input, for the given reason.
pub open spec fn is_invalid_input(e: Error, reason: Seq<char>) -> bool {
    e.kind == ErrorKind::InvalidInput && e.reason@ == reason
}

/// Whether the error tells of a feature that is not handled, for the given reason.
pub open spec fn is_unsupported(e: Error, reason: Seq<char>) -> bool {
    e.kind == ErrorKind::Unsupported && e.reason@ == reason
}

/// An error of each kind keeps the reason that it is made of.
pub proof fn errors_are_of_their_kind(
    reason: String,
    invalid: Error,
    unsupported: Error,
    eof: Error,
)
    requires
        call_ensures(Error::invalid_input, (reason,), invalid),
        call_ensures(Error::unsupported, (reason,), unsupported),
        call_ensures(Error::unexpected_eof, (), eof),
    ensures
        is_invalid_input(invalid, reason@),
        is_unsupported(unsupported, reason@),
        is_eof(eof),
{
}

} // verus!
