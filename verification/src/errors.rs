//! The closed error taxonomy shared by every parsing operation.

use vstd::prelude::*;

verus! {

/// Declaration of `std::io::Error`, so that the failure reported by an
/// underlying byte source can be carried inside [`WhiteError`].  The type is
/// opaque here: nothing is assumed about its contents.
#[verifier::external_type_specification]
#[verifier::external_body]
pub struct ExIoError(std::io::Error);

/// Error which can occur while parsing a [`White`](crate::White) value.
#[derive(Debug)]
pub enum WhiteError {
    /// There was not enough input to parse a value.
    TooShort,
    /// Excessive input was provided.
    Leftovers,
    /// Parse error occured (data was in invalid format).
    ParseError,
    /// IO Error occured.
    IoError(std::io::Error),
}

pub type WhiteResult<T> = Result<T, WhiteError>;

/// Specification-level classification of a failed parse: either the tokens
/// ran out, or a token did not have the requested format.  Failures of the
/// underlying byte source are not classified here, since they are not a
/// function of the tokens.
pub enum ReadFail {
    /// There were not enough tokens to complete the requested shape.
    TooShort,
    /// A token's text did not convert to the requested scalar.
    ParseError,
}

impl WhiteError {
    /// A fixed, human-readable description of the error kind.
    pub fn description(&self) -> (r: &'static str)
        ensures
            r@ == match self {
                WhiteError::TooShort => "not enough input to parse a value"@,
                WhiteError::Leftovers => "excessive input provided"@,
                WhiteError::ParseError => "parse error occured"@,
                WhiteError::IoError(_) => "IO error occured"@,
            },
    {
        match self {
            WhiteError::TooShort => "not enough input to parse a value",
            WhiteError::Leftovers => "excessive input provided",
            WhiteError::ParseError => "parse error occured",
            WhiteError::IoError(_) => "IO error occured",
        }
    }
}

impl From<std::io::Error> for WhiteError {
    /// Wraps a source failure in the [`WhiteError::IoError`] kind.
    fn from(e: std::io::Error) -> (r: WhiteError) {
        WhiteError::IoError(e)
    }
}

impl vstd::std_specs::convert::FromSpecImpl<std::io::Error> for WhiteError {
    open spec fn obeys_from_spec() -> bool {
        true
    }

    open spec fn from_spec(e: std::io::Error) -> WhiteError {
        WhiteError::IoError(e)
    }
}

/// Trait providing additional methods on [`WhiteResult`].
pub trait WhiteResultExt<T>: Sized {
    /// What [`Self::ok_or_none`] returns.
    spec fn ok_or_none_spec(self) -> WhiteResult<Option<T>>;

    /// Propagates an error, unless it's `TooShort` (returns `None` in that
    /// case), so that natural exhaustion of the input can end a
    /// "while a value is present" loop without being treated as an error.
    fn ok_or_none(self) -> (r: WhiteResult<Option<T>>)
        ensures
            r == self.ok_or_none_spec(),
    ;
}

impl<T> WhiteResultExt<T> for WhiteResult<T> {
    open spec fn ok_or_none_spec(self) -> WhiteResult<Option<T>> {
        match self {
            Ok(x) => Ok(Some(x)),
            Err(WhiteError::TooShort) => Ok(None),
            Err(e) => Err(e),
        }
    }

    fn ok_or_none(self) -> (r: WhiteResult<Option<T>>) {
        match self {
            Ok(x) => Ok(Some(x)),
            Err(WhiteError::TooShort) => Ok(None),
            Err(e) => Err(e),
        }
    }
}

} // verus!
