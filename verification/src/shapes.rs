//! Composite parsing shapes: tuples, open-ended sequences and
//! length-prefixed sequences.

use vstd::prelude::*;
use crate::errors::ReadFail;
use crate::errors::WhiteError;
use crate::errors::WhiteResult;
use crate::stream::StrStream;
use crate::white::Consuming;
use crate::white::White;

verus! {

/// The models of a sequence of parsed values.
pub open spec fn seq_models<T: White>(s: Seq<T>) -> Seq<T::Val> {
    s.map_values(|x: T| x.model())
}

impl White for () {
    type Val = ();

    open spec fn model(&self) -> () {
        ()
    }

    open spec fn spec_read(ts: Seq<Seq<char>>) -> Result<((), Seq<Seq<char>>), ReadFail> {
        Ok(((), ts))
    }

    proof fn lemma_no_grow(ts: Seq<Seq<char>>) {
    }

    fn read<I: StrStream>(it: &mut I) -> (r: WhiteResult<()>) {
        Ok(())
    }
}

/// The token-level parse of a pair: its components from left to right, the
/// first failure short-circuiting.
pub open spec fn pair_read<T: White, U: White>(ts: Seq<Seq<char>>) -> Result<
    ((T::Val, U::Val), Seq<Seq<char>>),
    ReadFail,
> {
    match T::spec_read(ts) {
        Err(e) => Err(e),
        Ok(p) => match U::spec_read(p.1) {
            Err(e) => Err(e),
            Ok(q) => Ok(((p.0, q.0), q.1)),
        },
    }
}

impl<T: White, U: White> White for (T, U) {
    type Val = (T::Val, U::Val);

    open spec fn model(&self) -> (T::Val, U::Val) {
        (self.0.model(), self.1.model())
    }

    open spec fn spec_read(ts: Seq<Seq<char>>) -> Result<
        ((T::Val, U::Val), Seq<Seq<char>>),
        ReadFail,
    > {
        pair_read::<T, U>(ts)
    }

    proof fn lemma_no_grow(ts: Seq<Seq<char>>) {
        T::lemma_no_grow(ts);
        match T::spec_read(ts) {
            Ok(p) => U::lemma_no_grow(p.1),
            _ => {},
        }
    }

    fn read<I: StrStream>(it: &mut I) -> (r: WhiteResult<(T, U)>) {
        let a = match T::read(it) {
            Ok(a) => a,
            Err(e) => { return Err(e); },
        };
        let b = match U::read(it) {
            Ok(b) => b,
            Err(e) => { return Err(e); },
        };
        Ok((a, b))
    }
}

impl<T: Consuming, U: White> Consuming for (T, U) {
    proof fn lemma_consumes(ts: Seq<Seq<char>>) {
        T::lemma_consumes(ts);
        match T::spec_read(ts) {
            Ok(p) => U::lemma_no_grow(p.1),
            _ => {},
        }
    }
}

/// The token-level parse of a triple: its components from left to right,
/// the first failure short-circuiting.
pub open spec fn triple_read<T: White, U: White, V: White>(ts: Seq<Seq<char>>) -> Result<
    ((T::Val, U::Val, V::Val), Seq<Seq<char>>),
    ReadFail,
> {
    match T::spec_read(ts) {
        Err(e) => Err(e),
        Ok(p) => match U::spec_read(p.1) {
            Err(e) => Err(e),
            Ok(q) => match V::spec_read(q.1) {
                Err(e) => Err(e),
                Ok(w) => Ok(((p.0, q.0, w.0), w.1)),
            },
        },
    }
}

impl<T: White, U: White, V: White> White for (T, U, V) {
    type Val = (T::Val, U::Val, V::Val);

    open spec fn model(&self) -> (T::Val, U::Val, V::Val) {
        (self.0.model(), self.1.model(), self.2.model())
    }

    open spec fn spec_read(ts: Seq<Seq<char>>) -> Result<
        ((T::Val, U::Val, V::Val), Seq<Seq<char>>),
        ReadFail,
    > {
        triple_read::<T, U, V>(ts)
    }

    proof fn lemma_no_grow(ts: Seq<Seq<char>>) {
        T::lemma_no_grow(ts);
        match T::spec_read(ts) {
            Ok(p) => {
                U::lemma_no_grow(p.1);
                match U::spec_read(p.1) {
                    Ok(q) => V::lemma_no_grow(q.1),
                    _ => {},
                }
            },
            _ => {},
        }
    }

    fn read<I: StrStream>(it: &mut I) -> (r: WhiteResult<(T, U, V)>) {
        let a = match T::read(it) {
            Ok(a) => a,
            Err(e) => { return Err(e); },
        };
        let b = match U::read(it) {
            Ok(b) => b,
            Err(e) => { return Err(e); },
        };
        let c = match V::read(it) {
            Ok(c) => c,
            Err(e) => { return Err(e); },
        };
        Ok((a, b, c))
    }
}

impl<T: Consuming, U: White, V: White> Consuming for (T, U, V) {
    proof fn lemma_consumes(ts: Seq<Seq<char>>) {
        T::lemma_consumes(ts);
        match T::spec_read(ts) {
            Ok(p) => {
                U::lemma_no_grow(p.1);
                match U::spec_read(p.1) {
                    Ok(q) => V::lemma_no_grow(q.1),
                    _ => {},
                }
            },
            _ => {},
        }
    }
}

/// The token-level parse of an open-ended sequence: elements until the
/// first attempt that runs out of tokens (which is not an error for this
/// shape), any other failure propagating.  An attempt that runs out leaves
/// the stream exhausted, so the tokens left over are none.
pub open spec fn vec_read<T: White>(ts: Seq<Seq<char>>) -> Result<
    (Seq<T::Val>, Seq<Seq<char>>),
    ReadFail,
> decreases ts.len(),
{
    match T::spec_read(ts) {
        Err(ReadFail::TooShort) => Ok((Seq::empty(), Seq::empty())),
        Err(ReadFail::ParseError) => Err(ReadFail::ParseError),
        Ok(p) => if p.1.len() < ts.len() {
            match vec_read::<T>(p.1) {
                Err(e) => Err(e),
                Ok(q) => Ok((seq![p.0] + q.0, q.1)),
            }
        } else {
            Ok((seq![p.0], p.1))
        },
    }
}

/// Sequence totality: parsing an open-ended sequence never fails for want
/// of tokens — exhaustion ends the sequence instead.
pub proof fn lemma_vec_read_no_short<T: White>(ts: Seq<Seq<char>>)
    ensures
        !(vec_read::<T>(ts) matches Err(ReadFail::TooShort)),
    decreases ts.len(),
{
    match T::spec_read(ts) {
        Ok(p) => {
            if p.1.len() < ts.len() {
                lemma_vec_read_no_short::<T>(p.1);
            }
        },
        _ => {},
    }
}

/// An open-ended sequence of consuming elements swallows the whole stream:
/// a successful parse leaves no tokens over.
pub proof fn lemma_vec_read_exhausts<T: Consuming>(ts: Seq<Seq<char>>)
    ensures
        vec_read::<T>(ts) matches Ok(p) ==> p.1.len() == 0,
    decreases ts.len(),
{
    match T::spec_read(ts) {
        Ok(p) => {
            T::lemma_consumes(ts);
            lemma_vec_read_exhausts::<T>(p.1);
        },
        _ => {},
    }
}

proof fn lemma_vec_read_no_grow<T: White>(ts: Seq<Seq<char>>)
    ensures
        vec_read::<T>(ts) matches Ok(p) ==> p.1.len() <= ts.len(),
    decreases ts.len(),
{
    match T::spec_read(ts) {
        Ok(p) => {
            T::lemma_no_grow(ts);
            if p.1.len() < ts.len() {
                lemma_vec_read_no_grow::<T>(p.1);
            }
        },
        _ => {},
    }
}

impl<T: Consuming> White for Vec<T> {
    type Val = Seq<T::Val>;

    open spec fn model(&self) -> Seq<T::Val> {
        seq_models(self@)
    }

    open spec fn spec_read(ts: Seq<Seq<char>>) -> Result<(Seq<T::Val>, Seq<Seq<char>>), ReadFail> {
        vec_read::<T>(ts)
    }

    proof fn lemma_no_grow(ts: Seq<Seq<char>>) {
        lemma_vec_read_no_grow::<T>(ts);
    }

    fn read<I: StrStream>(it: &mut I) -> (r: WhiteResult<Vec<T>>) {
        let mut v: Vec<T> = Vec::new();
        proof {
            assert(seq_models(v@) =~= Seq::<T::Val>::empty());
        }
        loop
            invariant
                it.infallible() == old(it).infallible(),
                ({
                    let whole = vec_read::<T>(old(it).remaining());
                    match vec_read::<T>(it.remaining()) {
                        Ok(q) => whole matches Ok(w) && w.0 == seq_models(v@) + q.0 && w.1 == q.1,
                        Err(e) => whole matches Err(e2) && e == e2,
                    }
                }),
            decreases it.remaining().len(),
        {
            let ghost pre = *it;
            match T::read(it) {
                Ok(x) => {
                    let ghost vold = v@;
                    v.push(x);
                    proof {
                        T::lemma_consumes(pre.remaining());
                        assert(seq_models(v@) =~= seq_models(vold) + seq![x.model()]);
                        match vec_read::<T>(it.remaining()) {
                            Ok(q) => {
                                assert(seq_models(vold) + (seq![x.model()] + q.0) =~= seq_models(
                                    v@,
                                ) + q.0);
                            },
                            _ => {},
                        }
                    }
                },
                Err(WhiteError::TooShort) => {
                    proof {
                        assert(it.remaining() =~= Seq::<Seq<char>>::empty());
                        assert(seq_models(v@) + Seq::<T::Val>::empty() =~= seq_models(v@));
                    }
                    return Ok(v);
                },
                Err(e) => { return Err(e); },
            }
        }
    }
}

/// Wrapper for reading a vector of values represented by a list prepended
/// by the number of elements.
#[derive(Debug, PartialEq, Eq)]
pub struct Lengthed<T>(pub Vec<T>);

/// The token-level parse of exactly `n` elements: the first failure
/// short-circuits, and running out of tokens before the `n`-th element is
/// an error for this shape.  Tokens past the `n`-th element are left over.
pub open spec fn lengthed_elems<T: White>(ts: Seq<Seq<char>>, n: int) -> Result<
    (Seq<T::Val>, Seq<Seq<char>>),
    ReadFail,
> decreases n,
{
    if n <= 0 {
        Ok((Seq::empty(), ts))
    } else {
        match T::spec_read(ts) {
            Err(e) => Err(e),
            Ok(p) => match lengthed_elems::<T>(p.1, n - 1) {
                Err(e) => Err(e),
                Ok(q) => Ok((seq![p.0] + q.0, q.1)),
            },
        }
    }
}

/// Length-prefixed correctness: a successful parse of `n` prefixed
/// elements yields exactly `n` of them.
pub proof fn lemma_lengthed_len<T: White>(ts: Seq<Seq<char>>, n: int)
    requires
        n >= 0,
    ensures
        lengthed_elems::<T>(ts, n) matches Ok(q) ==> q.0.len() == n,
    decreases n,
{
    if n > 0 {
        match T::spec_read(ts) {
            Ok(p) => lemma_lengthed_len::<T>(p.1, n - 1),
            _ => {},
        }
    }
}

proof fn lemma_lengthed_no_grow<T: White>(ts: Seq<Seq<char>>, n: int)
    ensures
        lengthed_elems::<T>(ts, n) matches Ok(q) ==> q.1.len() <= ts.len(),
    decreases n,
{
    if n > 0 {
        match T::spec_read(ts) {
            Ok(p) => {
                T::lemma_no_grow(ts);
                lemma_lengthed_no_grow::<T>(p.1, n - 1);
            },
            _ => {},
        }
    }
}

impl<T: White> White for Lengthed<T> {
    type Val = Seq<T::Val>;

    open spec fn model(&self) -> Seq<T::Val> {
        seq_models(self.0@)
    }

    open spec fn spec_read(ts: Seq<Seq<char>>) -> Result<(Seq<T::Val>, Seq<Seq<char>>), ReadFail> {
        match usize::spec_read(ts) {
            Err(e) => Err(e),
            Ok(p) => lengthed_elems::<T>(p.1, p.0 as int),
        }
    }

    proof fn lemma_no_grow(ts: Seq<Seq<char>>) {
        usize::lemma_no_grow(ts);
        match usize::spec_read(ts) {
            Ok(p) => lemma_lengthed_no_grow::<T>(p.1, p.0 as int),
            _ => {},
        }
    }

    fn read<I: StrStream>(it: &mut I) -> (r: WhiteResult<Lengthed<T>>) {
        let sz: usize = match White::read(it) {
            Ok(x) => x,
            Err(e) => { return Err(e); },
        };
        let ghost ts1 = it.remaining();
        let mut v: Vec<T> = Vec::new();
        proof {
            assert(seq_models(v@) =~= Seq::<T::Val>::empty());
        }
        while v.len() < sz
            invariant
                v@.len() <= sz,
                it.infallible() == old(it).infallible(),
                usize::spec_read(old(it).remaining()) matches Ok(c) && c.0 == sz && c.1 == ts1,
                ({
                    let whole = lengthed_elems::<T>(ts1, sz as int);
                    match lengthed_elems::<T>(it.remaining(), sz - v@.len()) {
                        Ok(q) => whole matches Ok(w) && w.0 == seq_models(v@) + q.0 && w.1 == q.1,
                        Err(e) => whole matches Err(e2) && e == e2,
                    }
                }),
            decreases sz - v.len(),
        {
            let ghost pre = *it;
            match T::read(it) {
                Ok(x) => {
                    let ghost vold = v@;
                    v.push(x);
                    proof {
                        assert(seq_models(v@) =~= seq_models(vold) + seq![x.model()]);
                        match lengthed_elems::<T>(it.remaining(), sz - v@.len()) {
                            Ok(q) => {
                                assert(seq_models(vold) + (seq![x.model()] + q.0) =~= seq_models(
                                    v@,
                                ) + q.0);
                            },
                            _ => {},
                        }
                    }
                },
                Err(e) => { return Err(e); },
            }
        }
        proof {
            assert(seq_models(v@) + Seq::<T::Val>::empty() =~= seq_models(v@));
        }
        Ok(Lengthed(v))
    }
}

impl<T: White> Consuming for Lengthed<T> {
    proof fn lemma_consumes(ts: Seq<Seq<char>>) {
        match usize::spec_read(ts) {
            Ok(p) => lemma_lengthed_no_grow::<T>(p.1, p.0 as int),
            _ => {},
        }
    }
}

} // verus!
