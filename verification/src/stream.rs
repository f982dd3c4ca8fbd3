//! The token-stream capability: a finite, non-restartable lazy sequence of
//! whitespace-delimited tokens, with I/O failure as a possible outcome of
//! advancing it.

use vstd::prelude::*;

verus! {

/// A streaming iterator yielding the whitespace-delimited tokens of some
/// underlying text, one owned token at a time.
///
/// The stream is modelled by [`StrStream::remaining`], the sequence of tokens
/// it will still yield.  Once [`StrStream::next`] has answered `Ok(None)`, the
/// remaining sequence is empty and stays empty, so every further call answers
/// `Ok(None)` again (idempotent exhaustion).  A stream whose
/// [`StrStream::infallible`] predicate holds never reports an I/O failure.
pub trait StrStream: Sized {
    /// The tokens this stream will still yield, in order.  Every token is a
    /// nonempty run of non-whitespace characters.
    spec fn remaining(&self) -> Seq<Seq<char>>;

    /// Whether advancing this stream can never report an I/O failure.
    spec fn infallible(&self) -> bool;

    /// Yields the next token, `Ok(None)` on exhaustion, or the underlying
    /// source's failure.
    fn next(&mut self) -> (r: Result<Option<String>, std::io::Error>)
        ensures
            match r {
                Ok(Some(t)) => old(self).remaining().len() > 0
                    && t@ == old(self).remaining()[0]
                    && t@.len() > 0
                    && final(self).remaining() == old(self).remaining().drop_first()
                    && final(self).infallible() == old(self).infallible(),
                Ok(None) => old(self).remaining().len() == 0
                    && final(self).remaining().len() == 0
                    && final(self).infallible() == old(self).infallible(),
                Err(_) => !old(self).infallible(),
            },
    ;
}

} // verus!
