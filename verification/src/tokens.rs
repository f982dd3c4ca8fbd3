//! Splitting text into whitespace-delimited tokens.
//!
//! The specification-level function [`tokens_of`] gives the sequence of
//! tokens of a piece of text; the executable scanner works with character
//! indices into the text and is proved to enumerate exactly that sequence.

use vstd::prelude::*;
use vstd::string::StrSliceExecFns;
use vstd::string::StringExecFns;
use crate::stream::StrStream;

verus! {

/// The whitespace characters that separate tokens.
pub open spec fn is_space_char(c: char) -> bool {
    c == ' ' || c == '\t' || c == '\n' || c == '\r' || c == '\x0B' || c == '\x0C'
}

/// Length of the maximal run of non-whitespace characters at the front of
/// `s` (zero if `s` is empty or starts with whitespace).
pub open spec fn token_len(s: Seq<char>) -> nat
    decreases s.len(),
{
    if s.len() == 0 || is_space_char(s[0]) {
        0
    } else {
        1 + token_len(s.drop_first())
    }
}

pub proof fn lemma_token_len_le(s: Seq<char>)
    ensures
        token_len(s) <= s.len(),
    decreases s.len(),
{
    if s.len() != 0 && !is_space_char(s[0]) {
        lemma_token_len_le(s.drop_first());
    }
}

/// The sequence of whitespace-delimited tokens of `s`: each token is a
/// maximal nonempty run of non-whitespace characters, in text order.
pub open spec fn tokens_of(s: Seq<char>) -> Seq<Seq<char>>
    decreases s.len(),
    via tokens_of_dec
{
    if s.len() == 0 {
        Seq::empty()
    } else if is_space_char(s[0]) {
        tokens_of(s.drop_first())
    } else {
        seq![s.take(token_len(s) as int)] + tokens_of(s.skip(token_len(s) as int))
    }
}

#[via_fn]
proof fn tokens_of_dec(s: Seq<char>) {
    lemma_token_len_le(s);
}

/// Dropping one leading whitespace character does not change the tokens.
pub proof fn lemma_tokens_skip_space(u: Seq<char>, i: int)
    requires
        0 <= i < u.len(),
        is_space_char(u[i]),
    ensures
        tokens_of(u.skip(i)) == tokens_of(u.skip(i + 1)),
{
    assert(u.skip(i).drop_first() =~= u.skip(i + 1));
}

/// A non-whitespace character extends the front token by one.
pub proof fn lemma_token_step(u: Seq<char>, i: int)
    requires
        0 <= i < u.len(),
        !is_space_char(u[i]),
    ensures
        token_len(u.skip(i)) == 1 + token_len(u.skip(i + 1)),
{
    assert(u.skip(i).drop_first() =~= u.skip(i + 1));
}

/// The front token ends at the end of text or at whitespace.
pub proof fn lemma_token_end(u: Seq<char>, i: int)
    requires
        0 <= i <= u.len(),
        i == u.len() || is_space_char(u[i]),
    ensures
        token_len(u.skip(i)) == 0,
{
}

/// At the start of a token, the tokens of the rest of the text are that
/// token followed by the tokens after it.
pub proof fn lemma_tokens_decomp(u: Seq<char>, i: int)
    requires
        0 <= i < u.len(),
        !is_space_char(u[i]),
    ensures
        ({
            let n = token_len(u.skip(i)) as int;
            tokens_of(u.skip(i)) == seq![u.subrange(i, i + n)] + tokens_of(u.skip(i + n))
        }),
{
    let s = u.skip(i);
    let n = token_len(s) as int;
    lemma_token_len_le(s);
    assert(s.take(n) =~= u.subrange(i, i + n));
    assert(s.skip(n) =~= u.skip(i + n));
}

/// Whether `c` separates tokens.
pub fn is_space(c: char) -> (b: bool)
    ensures
        b == is_space_char(c),
{
    c == ' ' || c == '\t' || c == '\n' || c == '\r' || c == '\x0B' || c == '\x0C'
}

/// Advances `from` over whitespace, to the next token or the end of `s`.
fn skip_spaces(s: &str, from: usize) -> (r: usize)
    requires
        from as int <= s@.len(),
    ensures
        from <= r,
        r as int <= s@.len(),
        tokens_of(s@.skip(r as int)) == tokens_of(s@.skip(from as int)),
        (r as int) < s@.len() ==> !is_space_char(s@[r as int]),
{
    let n = s.unicode_len();
    let mut i = from;
    while i < n && is_space(s.get_char(i))
        invariant
            from <= i,
            i as int <= s@.len(),
            n as int == s@.len(),
            tokens_of(s@.skip(i as int)) == tokens_of(s@.skip(from as int)),
        decreases n - i,
    {
        proof {
            lemma_tokens_skip_space(s@, i as int);
        }
        i = i + 1;
    }
    i
}

/// Advances `from`, which stands on a token, past that token.
fn scan_token(s: &str, from: usize) -> (r: usize)
    requires
        (from as int) < s@.len(),
        !is_space_char(s@[from as int]),
    ensures
        from < r,
        r as int <= s@.len(),
        token_len(s@.skip(from as int)) == r - from,
{
    let n = s.unicode_len();
    let mut i = from;
    while i < n && !is_space(s.get_char(i))
        invariant
            from <= i,
            i as int <= s@.len(),
            n as int == s@.len(),
            token_len(s@.skip(from as int)) == (i - from) + token_len(s@.skip(i as int)),
        decreases n - i,
    {
        proof {
            lemma_token_step(s@, i as int);
        }
        i = i + 1;
    }
    proof {
        lemma_token_end(s@, i as int);
        lemma_token_step(s@, from as int);
    }
    i
}

/// Scans the next token of `s` at or after character position `from`.
/// Returns the token's text and the position just past it, or `None` when
/// only whitespace remains.
pub(crate) fn next_token_from(s: &str, from: usize) -> (r: Option<(String, usize)>)
    requires
        from as int <= s@.len(),
    ensures
        match r {
            None => tokens_of(s@.skip(from as int)) == Seq::<Seq<char>>::empty(),
            Some(p) => ({
                let ts = tokens_of(s@.skip(from as int));
                ts.len() > 0 && p.0@ == ts[0] && p.0@.len() > 0 && from < p.1 && p.1 as int
                    <= s@.len() && tokens_of(s@.skip(p.1 as int)) == ts.drop_first()
            }),
        },
{
    let n = s.unicode_len();
    let i = skip_spaces(s, from);
    if i == n {
        return None;
    }
    let j = scan_token(s, i);
    proof {
        lemma_tokens_decomp(s@, i as int);
        assert((seq![s@.subrange(i as int, j as int)] + tokens_of(s@.skip(j as int))).drop_first()
            =~= tokens_of(s@.skip(j as int)));
    }
    let t = String::from_str(s.substring_char(i, j));
    Some((t, j))
}

/// A one-shot token cursor over a fixed, owned piece of text: the in-memory
/// provider of the [`StrStream`] capability.
///
/// The cursor stores a character position into the text rather than a
/// borrowed slice, and materializes each token as an owned `String` at the
/// point it is yielded.
pub struct Tokens {
    text: String,
    pos: usize,
}

impl Tokens {
    #[verifier::type_invariant]
    spec fn wf(self) -> bool {
        self.pos as int <= self.text@.len()
    }

    /// A cursor over all the tokens of `text`.
    pub fn new(text: String) -> (r: Tokens)
        ensures
            r.remaining() == tokens_of(text@),
            r.text_view() == text@,
            r.infallible(),
    {
        let r = Tokens { text, pos: 0 };
        proof {
            assert(r.text@.skip(0) =~= r.text@);
        }
        r
    }

    /// The full text this cursor walks over, consumed or not.
    pub fn text(&self) -> (r: &str)
        ensures
            r@ == self.text_view(),
    {
        self.text.as_str()
    }

    /// The text this cursor was created over.
    pub closed spec fn text_view(&self) -> Seq<char> {
        self.text@
    }
}

impl StrStream for Tokens {
    closed spec fn remaining(&self) -> Seq<Seq<char>> {
        tokens_of(self.text@.skip(self.pos as int))
    }

    open spec fn infallible(&self) -> bool {
        true
    }

    fn next(&mut self) -> (r: Result<Option<String>, std::io::Error>) {
        proof {
            use_type_invariant(&*self);
        }
        match next_token_from(self.text.as_str(), self.pos) {
            None => Ok(None),
            Some((t, j)) => {
                self.pos = j;
                Ok(Some(t))
            },
        }
    }
}

} // verus!
