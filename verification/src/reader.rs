//! The line-buffered token cursor: a reader that owns a line-oriented byte
//! source and a reusable line buffer, and provides line-grained and
//! newline-agnostic token access.

use vstd::prelude::*;
use vstd::string::StrSliceExecFns;
use vstd::string::StringExecFns;
use crate::errors::ReadFail;
use crate::errors::WhiteError;
use crate::errors::WhiteResult;
use crate::stream::StrStream;
use crate::tokens::Tokens;
use crate::tokens::tokens_of;
use crate::white::White;

verus! {

/// The capability a [`WhiteReader`] consumes: a source of text that can be
/// read one line at a time.
///
/// The source is modelled by [`LineSource::lines`], the lines it will still
/// deliver (each including its trailing newline, if it has one).  Reading
/// at exhaustion keeps answering `Ok(None)`: an empty line and an exhausted
/// source are distinct outcomes.  A source whose [`LineSource::infallible`]
/// predicate holds never fails.
pub trait LineSource: Sized {
    /// The lines this source will still deliver, in order.  An
    /// implementation outside the verifier may leave the default, of which
    /// nothing is claimed.
    open spec fn lines(&self) -> Seq<Seq<char>> {
        Seq::empty()
    }

    /// Whether reading from this source can never fail.  The default
    /// promises nothing.
    open spec fn infallible(&self) -> bool {
        false
    }

    /// Delivers the next line, `Ok(None)` on exhaustion, or the source's
    /// failure.
    fn read_line(&mut self) -> (r: Result<Option<String>, std::io::Error>)
        ensures
            match r {
                Ok(Some(l)) => old(self).lines().len() > 0 && l@ == old(self).lines()[0]
                    && final(self).lines() == old(self).lines().drop_first()
                    && final(self).infallible() == old(self).infallible(),
                Ok(None) => old(self).lines().len() == 0 && final(self).lines().len() == 0
                    && final(self).infallible() == old(self).infallible(),
                Err(_) => !old(self).infallible(),
            },
    ;
}

/// Length of the first physical line of `s`, its terminating newline
/// included (the whole of `s` if no newline occurs).
pub open spec fn line_len(s: Seq<char>) -> nat
    decreases s.len(),
{
    if s.len() == 0 {
        0
    } else if s[0] == '\n' {
        1
    } else {
        1 + line_len(s.drop_first())
    }
}

pub proof fn lemma_line_len_le(s: Seq<char>)
    ensures
        line_len(s) <= s.len(),
    decreases s.len(),
{
    if s.len() != 0 && s[0] != '\n' {
        lemma_line_len_le(s.drop_first());
    }
}

/// The physical lines of `s`: each is a run of characters up to and
/// including a newline, or up to the end of the text.  An empty text has no
/// lines.
pub open spec fn lines_of(s: Seq<char>) -> Seq<Seq<char>>
    decreases s.len(),
    via lines_of_dec
{
    if s.len() == 0 {
        Seq::empty()
    } else {
        seq![s.take(line_len(s) as int)] + lines_of(s.skip(line_len(s) as int))
    }
}

#[via_fn]
proof fn lines_of_dec(s: Seq<char>) {
    lemma_line_len_le(s);
}

/// A character short of a newline extends the front line by one.
proof fn lemma_line_step(u: Seq<char>, i: int)
    requires
        0 <= i < u.len(),
        u[i] != '\n',
    ensures
        line_len(u.skip(i)) == 1 + line_len(u.skip(i + 1)),
{
    assert(u.skip(i).drop_first() =~= u.skip(i + 1));
}

/// The front line of the rest of the text, followed by the lines after it.
proof fn lemma_lines_decomp(u: Seq<char>, i: int)
    requires
        0 <= i < u.len(),
    ensures
        ({
            let n = line_len(u.skip(i)) as int;
            lines_of(u.skip(i)) == seq![u.subrange(i, i + n)] + lines_of(u.skip(i + n))
        }),
{
    let s = u.skip(i);
    let n = line_len(s) as int;
    lemma_line_len_le(s);
    assert(s.take(n) =~= u.subrange(i, i + n));
    assert(s.skip(n) =~= u.skip(i + n));
}

/// A [`LineSource`] over a fixed, owned piece of text, delivering its
/// physical lines in order: the in-memory provider of the capability.
pub struct TextSource {
    text: String,
    pos: usize,
}

impl TextSource {
    #[verifier::type_invariant]
    spec fn wf(self) -> bool {
        self.pos as int <= self.text@.len()
    }

    /// A source that delivers the physical lines of `text`.
    pub fn new(text: String) -> (r: TextSource)
        ensures
            r.lines() == lines_of(text@),
            r.infallible(),
    {
        let r = TextSource { text, pos: 0 };
        proof {
            assert(r.text@.skip(0) =~= r.text@);
        }
        r
    }
}

impl LineSource for TextSource {
    closed spec fn lines(&self) -> Seq<Seq<char>> {
        lines_of(self.text@.skip(self.pos as int))
    }

    open spec fn infallible(&self) -> bool {
        true
    }

    fn read_line(&mut self) -> (r: Result<Option<String>, std::io::Error>) {
        proof {
            use_type_invariant(&*self);
        }
        let ghost u = self.text@;
        let from = self.pos;
        let n = self.text.as_str().unicode_len();
        if from == n {
            return Ok(None);
        }
        let mut i = from;
        while i < n && self.text.as_str().get_char(i) != '\n'
            invariant
                from <= i,
                i as int <= u.len(),
                n as int == u.len(),
                u == self.text@,
                line_len(u.skip(from as int)) == (i - from) + line_len(u.skip(i as int)),
            decreases n - i,
        {
            proof {
                lemma_line_step(u, i as int);
            }
            i = i + 1;
        }
        let j = if i < n {
            i + 1
        } else {
            i
        };
        proof {
            lemma_lines_decomp(u, from as int);
            assert(line_len(u.skip(from as int)) == j - from);
            assert((seq![u.subrange(from as int, j as int)] + lines_of(
                u.skip(j as int),
            )).drop_first() =~= lines_of(u.skip(j as int)));
        }
        let l = String::from_str(self.text.as_str().substring_char(from, j));
        self.pos = j;
        Ok(Some(l))
    }
}

/// The tokens of a sequence of lines, in order.
pub open spec fn lines_tokens(ls: Seq<Seq<char>>) -> Seq<Seq<char>>
    decreases ls.len(),
{
    if ls.len() == 0 {
        Seq::empty()
    } else {
        tokens_of(ls[0]) + lines_tokens(ls.drop_first())
    }
}

/// Wrapper for a [`LineSource`] allowing easy parsing of values from it.
///
/// The reader owns a line buffer holding the most recently read line and a
/// token cursor into it, which enables scanf-like behaviour
/// (newline-agnostic parsing) next to strictly line-grained parsing.  The
/// cursor works with character positions and hands every token out as an
/// owned value, so no view into the buffer survives a refill.
pub struct WhiteReader<B: LineSource> {
    src: B,
    cur: Tokens,
}

impl<B: LineSource> WhiteReader<B> {
    /// The tokens left on the current line.
    pub closed spec fn line_tokens(&self) -> Seq<Seq<char>> {
        self.cur.remaining()
    }

    /// The full text of the current line, consumed or not.
    pub closed spec fn current_line(&self) -> Seq<char> {
        self.cur.text_view()
    }

    /// The lines the underlying source will still deliver.
    pub closed spec fn source_lines(&self) -> Seq<Seq<char>> {
        self.src.lines()
    }

    /// Whether the underlying source can never fail.
    pub closed spec fn source_infallible(&self) -> bool {
        self.src.infallible()
    }

    /// Wraps a line source.
    pub fn new(src: B) -> (r: WhiteReader<B>)
        ensures
            r.source_lines() == src.lines(),
            r.source_infallible() == src.infallible(),
            r.line_tokens().len() == 0,
    {
        WhiteReader { src, cur: Tokens::new(String::new()) }
    }

    /// Gets the underlying source back.
    pub fn unwrap(self) -> (r: B)
        ensures
            r.lines() == self.source_lines(),
            r.infallible() == self.source_infallible(),
    {
        self.src
    }

    /// Discards the current line and reads the next one into the buffer,
    /// resetting the token cursor to its start.  `Ok(None)` signals an
    /// exhausted source, distinct from an empty line.
    fn read_next_line(&mut self) -> (r: Result<Option<()>, std::io::Error>)
        ensures
            match r {
                Ok(Some(_)) => old(self).source_lines().len() > 0
                    && final(self).current_line() == old(self).source_lines()[0]
                    && final(self).line_tokens() == tokens_of(old(self).source_lines()[0])
                    && final(self).source_lines() == old(self).source_lines().drop_first()
                    && final(self).source_infallible() == old(self).source_infallible(),
                Ok(None) => old(self).source_lines().len() == 0 && final(self).source_lines().len()
                    == 0 && final(self).line_tokens().len() == 0 && final(self).source_infallible()
                    == old(self).source_infallible(),
                Err(_) => !old(self).source_infallible(),
            },
    {
        self.cur = Tokens::new(String::new());
        match self.src.read_line() {
            Ok(Some(l)) => {
                self.cur = Tokens::new(l);
                Ok(Some(()))
            },
            Ok(None) => Ok(None),
            Err(e) => Err(e),
        }
    }
}

impl<B: LineSource> WhiteReader<B> {
    /// Parses a [`White`] value without specially treating newlines: if the
    /// current line runs out of tokens mid-value, the next lines are read
    /// until the source itself is exhausted.  The tokens ahead are the rest
    /// of the current line followed by the tokens of every further line,
    /// [`StrStream::remaining`].
    pub fn parse<T: White>(&mut self) -> (r: WhiteResult<T>)
        ensures
            match r {
                Ok(v) => T::spec_read(old(self).remaining()) matches Ok(p) && p.0 == v.model()
                    && p.1 == final(self).remaining() && final(self).source_infallible() == old(self).source_infallible(),
                Err(WhiteError::TooShort) => T::spec_read(old(self).remaining()) matches Err(
                    ReadFail::TooShort,
                ) && final(self).remaining().len() == 0 && final(self).source_infallible() == old(self).source_infallible(),
                Err(WhiteError::ParseError) => T::spec_read(old(self).remaining()) matches Err(
                    ReadFail::ParseError,
                ) && final(self).source_infallible() == old(self).source_infallible(),
                Err(WhiteError::Leftovers) => false,
                Err(WhiteError::IoError(_)) => !old(self).source_infallible(),
            },
    {
        White::read(self)
    }

    /// Just `parse().unwrap()`, for an input known to fit: the source
    /// cannot fail and the tokens ahead parse as a `T`.
    pub fn p<T: White>(&mut self) -> (r: T)
        requires
            old(self).source_infallible(),
            T::spec_read(old(self).remaining()) matches Ok(_),
        ensures
            T::spec_read(old(self).remaining()) matches Ok(p) && p.0 == r.model() && p.1 == final(self).remaining(),
            final(self).source_infallible(),
    {
        match self.parse() {
            Ok(v) => v,
            Err(_) => vstd::pervasive::unreached(),
        }
    }

    /// Parses some part of the current line into a [`White`] value.  The
    /// tokens ahead are [`WhiteReader::line_tokens`] alone: when they run
    /// out, the outcome is `TooShort` rather than a silent move to the next
    /// line.
    pub fn continue_line<T: White>(&mut self) -> (r: WhiteResult<T>)
        ensures
            final(self).source_lines() == old(self).source_lines(),
            final(self).source_infallible() == old(self).source_infallible(),
            match r {
                Ok(v) => T::spec_read(old(self).line_tokens()) matches Ok(p) && p.0 == v.model()
                    && p.1 == final(self).line_tokens(),
                Err(WhiteError::TooShort) => T::spec_read(old(self).line_tokens()) matches Err(
                    ReadFail::TooShort,
                ) && final(self).line_tokens().len() == 0,
                Err(WhiteError::ParseError) => T::spec_read(old(self).line_tokens()) matches Err(
                    ReadFail::ParseError,
                ),
                Err(WhiteError::Leftovers) => false,
                Err(WhiteError::IoError(_)) => false,
            },
    {
        White::read(&mut self.cur)
    }

    /// Parses the remaining part of the current line into a [`White`] value
    /// **as a whole**: tokens left on the line after the value are an
    /// error.  It can be used with `T = ()` to just check for the end of
    /// the line.
    pub fn finish_line<T: White>(&mut self) -> (r: WhiteResult<T>)
        ensures
            final(self).source_lines() == old(self).source_lines(),
            final(self).source_infallible() == old(self).source_infallible(),
            match r {
                Ok(v) => T::spec_read(old(self).line_tokens()) matches Ok(p) && p.0 == v.model()
                    && p.1.len() == 0 && final(self).line_tokens().len() == 0,
                Err(WhiteError::TooShort) => T::spec_read(old(self).line_tokens()) matches Err(
                    ReadFail::TooShort,
                ) && final(self).line_tokens().len() == 0,
                Err(WhiteError::ParseError) => T::spec_read(old(self).line_tokens()) matches Err(
                    ReadFail::ParseError,
                ),
                Err(WhiteError::Leftovers) => T::spec_read(old(self).line_tokens()) matches Ok(p)
                    && p.1.len() > 0,
                Err(WhiteError::IoError(_)) => false,
            },
    {
        let v = match White::read(&mut self.cur) {
            Ok(v) => v,
            Err(e) => { return Err(e); },
        };
        match self.cur.next() {
            Ok(Some(_)) => Err(WhiteError::Leftovers),
            Ok(None) => Ok(v),
            Err(e) => Err(WhiteError::IoError(e)),
        }
    }

    /// Reads a new line from the source and parses some part of it into a
    /// [`White`] value, discarding whatever was left of the previous line.
    pub fn start_line<T: White>(&mut self) -> (r: WhiteResult<T>)
        ensures
            ({
                let ls = old(self).source_lines();
                match r {
                    Ok(v) => T::spec_read(tokens_of(ls[0])) matches Ok(p) && ls.len() > 0 && p.0
                        == v.model() && final(self).line_tokens() == p.1 && final(self).source_lines() == ls.drop_first() && final(self).source_infallible() == old(self).source_infallible(),
                    Err(WhiteError::TooShort) => (ls.len() == 0 || T::spec_read(
                        tokens_of(ls[0]),
                    ) matches Err(ReadFail::TooShort)) && final(self).line_tokens().len() == 0
                        && final(self).source_infallible() == old(self).source_infallible(),
                    Err(WhiteError::ParseError) => T::spec_read(tokens_of(ls[0])) matches Err(
                        ReadFail::ParseError,
                    ) && ls.len() > 0 && final(self).source_infallible() == old(self).source_infallible(),
                    Err(WhiteError::Leftovers) => false,
                    Err(WhiteError::IoError(_)) => !old(self).source_infallible(),
                }
            }),
    {
        match self.read_next_line() {
            Ok(Some(_)) => (),
            Ok(None) => { return Err(WhiteError::TooShort); },
            Err(e) => { return Err(WhiteError::IoError(e)); },
        }
        self.continue_line()
    }

    /// Reads a new line from the source and parses it into a [`White`]
    /// value **as a whole**: a line with tokens to spare is an error.
    pub fn line<T: White>(&mut self) -> (r: WhiteResult<T>)
        ensures
            ({
                let ls = old(self).source_lines();
                match r {
                    Ok(v) => T::spec_read(tokens_of(ls[0])) matches Ok(p) && ls.len() > 0 && p.0
                        == v.model() && p.1.len() == 0 && final(self).source_lines()
                        == ls.drop_first() && final(self).source_infallible() == old(self).source_infallible(),
                    Err(WhiteError::TooShort) => (ls.len() == 0 || T::spec_read(
                        tokens_of(ls[0]),
                    ) matches Err(ReadFail::TooShort)) && final(self).line_tokens().len() == 0
                        && final(self).source_infallible() == old(self).source_infallible(),
                    Err(WhiteError::ParseError) => T::spec_read(tokens_of(ls[0])) matches Err(
                        ReadFail::ParseError,
                    ) && ls.len() > 0 && final(self).source_infallible() == old(self).source_infallible(),
                    Err(WhiteError::Leftovers) => T::spec_read(tokens_of(ls[0])) matches Ok(p)
                        && ls.len() > 0 && p.1.len() > 0 && final(self).source_infallible() == old(self).source_infallible(),
                    Err(WhiteError::IoError(_)) => !old(self).source_infallible(),
                }
            }),
    {
        match self.read_next_line() {
            Ok(Some(_)) => (),
            Ok(None) => { return Err(WhiteError::TooShort); },
            Err(e) => { return Err(WhiteError::IoError(e)); },
        }
        self.finish_line()
    }

    /// Reads a new line and returns its raw text, without counting it as
    /// consumed: the whole line's tokens stay available to
    /// [`WhiteReader::continue_line`] and [`WhiteReader::parse`], so a
    /// preview does not change the outcome of a subsequent parse.
    pub fn next_line(&mut self) -> (r: WhiteResult<&str>)
        ensures
            ({
                let ls = old(self).source_lines();
                match r {
                    Ok(l) => ls.len() > 0 && l@ == ls[0] && final(self).current_line() == ls[0]
                        && final(self).line_tokens() == tokens_of(ls[0]) && final(self).source_lines() == ls.drop_first() && final(self).source_infallible() == old(self).source_infallible(),
                    Err(WhiteError::TooShort) => ls.len() == 0 && final(self).line_tokens().len()
                        == 0 && final(self).source_infallible() == old(self).source_infallible(),
                    Err(WhiteError::IoError(_)) => !old(self).source_infallible(),
                    _ => false,
                }
            }),
    {
        match self.read_next_line() {
            Ok(Some(_)) => (),
            Ok(None) => { return Err(WhiteError::TooShort); },
            Err(e) => { return Err(WhiteError::IoError(e)); },
        }
        Ok(self.cur.text())
    }
}

impl<B: LineSource> StrStream for WhiteReader<B> {
    open spec fn remaining(&self) -> Seq<Seq<char>> {
        self.line_tokens() + lines_tokens(self.source_lines())
    }

    open spec fn infallible(&self) -> bool {
        self.source_infallible()
    }

    fn next(&mut self) -> (r: Result<Option<String>, std::io::Error>) {
        loop
            invariant
                self.remaining() == old(self).remaining(),
                self.infallible() == old(self).infallible(),
            decreases self.source_lines().len(),
        {
            let ghost pre = *self;
            match self.cur.next() {
                Ok(Some(t)) => {
                    proof {
                        assert((pre.cur.remaining() + lines_tokens(
                            pre.source_lines(),
                        )).drop_first() =~= pre.cur.remaining().drop_first() + lines_tokens(
                            pre.source_lines(),
                        ));
                    }
                    return Ok(Some(t));
                },
                Ok(None) => {
                    proof {
                        assert(self.cur.remaining() + lines_tokens(self.source_lines())
                            =~= lines_tokens(self.source_lines()));
                    }
                },
                Err(e) => { return Err(e); },
            }
            let ghost mid = *self;
            match self.src.read_line() {
                Ok(Some(l)) => {
                    self.cur = Tokens::new(l);
                    proof {
                        assert(lines_tokens(mid.source_lines()) == tokens_of(
                            mid.source_lines()[0],
                        ) + lines_tokens(mid.source_lines().drop_first()));
                    }
                },
                Ok(None) => {
                    return Ok(None);
                },
                Err(e) => { return Err(e); },
            }
        }
    }
}

} // verus!
