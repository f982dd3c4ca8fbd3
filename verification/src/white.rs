//! The value-parsing protocol: a capability implemented per value shape,
//! which consumes tokens from any [`StrStream`] and produces a typed value
//! or a classified failure.

use vstd::prelude::*;
use vstd::string::StringExecFns;
use crate::errors::ReadFail;
use crate::errors::WhiteError;
use crate::errors::WhiteResult;
use crate::stream::StrStream;
use crate::tokens::Tokens;
use crate::tokens::tokens_of;

verus! {

/// Trait for values that can be parsed from a stream of
/// whitespace-separated words.
///
/// Implementations for primitives consume and parse one token from a stream
/// (advancing the stream).  Implementations for tuples parse their
/// components from left to right.  The implementation for vectors parses
/// until the end of the stream, and [`Lengthed`](crate::Lengthed) parses a
/// count followed by exactly that many elements.
///
/// The behaviour of each shape is pinned down by [`White::spec_read`], a
/// purely mathematical function from the sequence of tokens ahead to the
/// parsed value's model and the tokens left over, or to a classified
/// failure.  [`White::read`] is proved to follow it on every stream.
pub trait White: Sized {
    /// The mathematical value a parsed `Self` stands for in contracts.
    type Val;

    /// The model of this value.
    spec fn model(&self) -> Self::Val;

    /// The token-level parse: what parsing `Self` from the tokens `ts`
    /// yields — the value's model and the remaining tokens, or a classified
    /// failure.
    spec fn spec_read(ts: Seq<Seq<char>>) -> Result<(Self::Val, Seq<Seq<char>>), ReadFail>;

    /// A successful parse never leaves more tokens than it was given.
    proof fn lemma_no_grow(ts: Seq<Seq<char>>)
        ensures
            Self::spec_read(ts) matches Ok(p) ==> p.1.len() <= ts.len(),
    ;

    /// Consumes tokens from `it` and parses one `Self`, as
    /// [`White::spec_read`] prescribes:
    ///
    /// - `Ok(v)`: the token-level parse succeeds, `v` models its value, and
    ///   the stream holds exactly the tokens the parse left over;
    /// - `TooShort`: the token-level parse runs out of tokens, and the
    ///   stream is fully consumed (a missing token can only be discovered at
    ///   exhaustion);
    /// - `ParseError`: the token-level parse rejects a token's format;
    /// - `Leftovers`: never returned by `read` itself;
    /// - `IoError`: only possible when the stream is fallible.
    ///
    /// On every outcome but an I/O failure, the stream's fallibility is
    /// unchanged.
    fn read<I: StrStream>(it: &mut I) -> (r: WhiteResult<Self>)
        ensures
            match r {
                Ok(v) => Self::spec_read(old(it).remaining()) matches Ok(p) && p.0 == v.model()
                    && p.1 == final(it).remaining() && final(it).infallible() == old(
                    it,
                ).infallible(),
                Err(WhiteError::TooShort) => Self::spec_read(old(it).remaining()) matches Err(
                    ReadFail::TooShort,
                ) && final(it).remaining().len() == 0 && final(it).infallible() == old(
                    it,
                ).infallible(),
                Err(WhiteError::ParseError) => Self::spec_read(old(it).remaining()) matches Err(
                    ReadFail::ParseError,
                ) && final(it).infallible() == old(it).infallible(),
                Err(WhiteError::Leftovers) => false,
                Err(WhiteError::IoError(_)) => !old(it).infallible(),
            },
    ;
}

/// Shapes whose successful parse always consumes at least one token.
/// Element shapes of the open-ended vector parse must consume: an element
/// that succeeded on nothing would repeat forever.
pub trait Consuming: White {
    /// A successful parse of `Self` consumes at least one token.
    proof fn lemma_consumes(ts: Seq<Seq<char>>)
        ensures
            Self::spec_read(ts) matches Ok(p) ==> p.1.len() < ts.len(),
    ;
}

/// Helper function for parsing a [`White`] value from a string.  Leftovers
/// are considered an error.
pub fn parse_string<T: White>(s: &str) -> (r: WhiteResult<T>)
    ensures
        match r {
            Ok(v) => T::spec_read(tokens_of(s@)) matches Ok(p) && p.0 == v.model() && p.1.len()
                == 0,
            Err(WhiteError::TooShort) => T::spec_read(tokens_of(s@)) matches Err(
                ReadFail::TooShort,
            ),
            Err(WhiteError::ParseError) => T::spec_read(tokens_of(s@)) matches Err(
                ReadFail::ParseError,
            ),
            Err(WhiteError::Leftovers) => T::spec_read(tokens_of(s@)) matches Ok(p) && p.1.len()
                > 0,
            Err(WhiteError::IoError(_)) => false,
        },
{
    let mut stream = Tokens::new(String::from_str(s));
    match T::read(&mut stream) {
        Err(e) => Err(e),
        Ok(v) => match stream.next() {
            Ok(Some(_)) => Err(WhiteError::Leftovers),
            Ok(None) => Ok(v),
            Err(e) => Err(WhiteError::IoError(e)),
        },
    }
}

} // verus!
