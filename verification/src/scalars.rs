//! Parsing a single token into a scalar value: integers, `bool`, `char`
//! and `String`.
//!
//! The textual format of integers is pinned down at the specification level
//! by [`digits_val`] and its wrappers: an optional single sign followed by
//! one or more decimal digits, with the value required to fit the target
//! type.

use vstd::prelude::*;
use vstd::arithmetic::div_mod::lemma_fundamental_div_mod;
use vstd::string::StrSliceExecFns;
use crate::errors::ReadFail;
use crate::errors::WhiteError;
use crate::errors::WhiteResult;
use crate::stream::StrStream;
use crate::white::Consuming;
use crate::white::White;

verus! {

/// Whether `c` is a decimal digit.
pub open spec fn is_digit(c: char) -> bool {
    '0' <= c && c <= '9'
}

/// The numeric value of a decimal digit.
pub open spec fn digit_val(c: char) -> int {
    c as u32 - '0' as u32
}

/// Whether every character of `s` is a decimal digit.
pub open spec fn all_digits(s: Seq<char>) -> bool {
    forall|i: int| 0 <= i < s.len() ==> is_digit(s[i])
}

/// The value of a run of decimal digits, most significant first.
pub open spec fn digits_val(s: Seq<char>) -> int
    decreases s.len(),
{
    if s.len() == 0 {
        0
    } else {
        10 * digits_val(s.drop_last()) + digit_val(s.last())
    }
}

/// The value of a nonempty all-digit run, or `None`.
pub open spec fn digits_value(s: Seq<char>) -> Option<int> {
    if s.len() > 0 && all_digits(s) {
        Some(digits_val(s))
    } else {
        None
    }
}

/// The value denoted by a token in unsigned-integer format: an optional
/// leading `+`, then one or more decimal digits.
pub open spec fn unsigned_value(s: Seq<char>) -> Option<int> {
    if s.len() > 0 && s[0] == '+' {
        digits_value(s.skip(1))
    } else {
        digits_value(s)
    }
}

/// The value denoted by a token in signed-integer format: an optional
/// single sign, then one or more decimal digits.
pub open spec fn signed_value(s: Seq<char>) -> Option<int> {
    if s.len() > 0 && s[0] == '-' {
        match digits_value(s.skip(1)) {
            Some(n) => Some(-n),
            None => None,
        }
    } else {
        unsigned_value(s)
    }
}

pub proof fn lemma_digits_val_nonneg(s: Seq<char>)
    requires
        all_digits(s),
    ensures
        digits_val(s) >= 0,
    decreases s.len(),
{
    if s.len() > 0 {
        lemma_digits_val_nonneg(s.drop_last());
    }
}

/// The value of an all-digit run is at least the value of any of its
/// prefixes.
pub proof fn lemma_digits_prefix_le(s: Seq<char>, k: int)
    requires
        all_digits(s),
        0 <= k <= s.len(),
    ensures
        digits_val(s.take(k)) <= digits_val(s),
    decreases s.len() - k,
{
    if k < s.len() {
        assert(s.take(k + 1).drop_last() =~= s.take(k));
        lemma_digits_val_nonneg(s.take(k));
        lemma_digits_prefix_le(s, k + 1);
    } else {
        assert(s.take(k) =~= s);
    }
}

/// Reads the run of decimal digits `s[from..]` as a value, refusing an
/// empty run, a non-digit, or a value above `max`.
fn parse_digits(s: &str, from: usize, max: u64) -> (r: Option<u64>)
    requires
        from as int <= s@.len(),
        max >= 9,
    ensures
        ({
            let t = s@.skip(from as int);
            match r {
                Some(v) => t.len() > 0 && all_digits(t) && digits_val(t) == v as int && v <= max,
                None => !(t.len() > 0 && all_digits(t) && digits_val(t) <= max as int),
            }
        }),
{
    let ghost t = s@.skip(from as int);
    let n = s.unicode_len();
    if from == n {
        return None;
    }
    let mut i = from;
    let mut acc: u64 = 0;
    while i < n
        invariant
            from <= i,
            i as int <= s@.len(),
            n as int == s@.len(),
            (from as int) < s@.len(),
            t == s@.skip(from as int),
            max >= 9,
            all_digits(t.take(i - from)),
            acc as int == digits_val(t.take(i - from)),
            acc <= max,
        decreases n - i,
    {
        let ghost k = i - from;
        let c = s.get_char(i);
        assert(t[k] == s@[i as int]);
        if !(c >= '0' && c <= '9') {
            return None;
        }
        let d: u64 = (c as u32 - '0' as u32) as u64;
        proof {
            assert(t.take(k + 1).drop_last() =~= t.take(k));
            assert(t.take(k + 1).last() == t[k]);
            assert(digits_val(t.take(k + 1)) == 10 * acc + d);
        }
        let m10 = max / 10;
        proof {
            lemma_fundamental_div_mod(max as int, 10);
        }
        if acc > m10 || d > max - 10 * acc {
            proof {
                assert(10 * acc + d > max);
                if all_digits(t) {
                    lemma_digits_prefix_le(t, k + 1);
                }
            }
            return None;
        }
        acc = 10 * acc + d;
        i = i + 1;
    }
    proof {
        assert(t.take(i - from) =~= t);
    }
    Some(acc)
}

/// Parses a whole token in unsigned-integer format, with value at most
/// `max`.
fn parse_unsigned_token(t: &str, max: u64) -> (r: Option<u64>)
    requires
        max >= 9,
    ensures
        match r {
            Some(v) => unsigned_value(t@) == Some(v as int) && v <= max,
            None => unsigned_value(t@) matches Some(n) ==> n > max,
        },
{
    let n = t.unicode_len();
    if n > 0 && t.get_char(0) == '+' {
        parse_digits(t, 1, max)
    } else {
        proof {
            assert(t@.skip(0) =~= t@);
        }
        parse_digits(t, 0, max)
    }
}

/// Parses a whole token in signed-integer format.  A successful result is
/// the sign and the magnitude, at most `neg_mag` for a negative value and
/// `pos_mag` for a non-negative one.
fn parse_signed_token(t: &str, neg_mag: u64, pos_mag: u64) -> (r: Option<(bool, u64)>)
    requires
        neg_mag >= 9,
        pos_mag >= 9,
    ensures
        match r {
            Some(p) => signed_value(t@) == Some(
                if p.0 {
                    -(p.1 as int)
                } else {
                    p.1 as int
                },
            ) && (p.0 ==> p.1 <= neg_mag) && (!p.0 ==> p.1 <= pos_mag),
            None => signed_value(t@) matches Some(v) ==> !(-(neg_mag as int) <= v <= pos_mag
                as int),
        },
{
    let n = t.unicode_len();
    if n > 0 && t.get_char(0) == '-' {
        proof {
            if all_digits(t@.skip(1)) && t@.skip(1).len() > 0 {
                lemma_digits_val_nonneg(t@.skip(1));
            }
        }
        match parse_digits(t, 1, neg_mag) {
            Some(m) => Some((true, m)),
            None => None,
        }
    } else {
        match parse_unsigned_token(t, pos_mag) {
            Some(m) => Some((false, m)),
            None => None,
        }
    }
}

/// The token-level parse shared by the unsigned integer types: one token in
/// unsigned-integer format with value at most `max`.
pub open spec fn unsigned_token_read(ts: Seq<Seq<char>>, max: int) -> Result<
    (int, Seq<Seq<char>>),
    ReadFail,
> {
    if ts.len() == 0 {
        Err(ReadFail::TooShort)
    } else {
        match unsigned_value(ts[0]) {
            Some(n) => if n <= max {
                Ok((n, ts.drop_first()))
            } else {
                Err(ReadFail::ParseError)
            },
            None => Err(ReadFail::ParseError),
        }
    }
}

/// The token-level parse shared by the signed integer types: one token in
/// signed-integer format with value in `[lo, hi]`.
pub open spec fn signed_token_read(ts: Seq<Seq<char>>, lo: int, hi: int) -> Result<
    (int, Seq<Seq<char>>),
    ReadFail,
> {
    if ts.len() == 0 {
        Err(ReadFail::TooShort)
    } else {
        match signed_value(ts[0]) {
            Some(v) => if lo <= v <= hi {
                Ok((v, ts.drop_first()))
            } else {
                Err(ReadFail::ParseError)
            },
            None => Err(ReadFail::ParseError),
        }
    }
}

impl White for u32 {
    type Val = u32;

    open spec fn model(&self) -> u32 {
        *self
    }

    open spec fn spec_read(ts: Seq<Seq<char>>) -> Result<(u32, Seq<Seq<char>>), ReadFail> {
        match unsigned_token_read(ts, u32::MAX as int) {
            Ok(p) => Ok((p.0 as u32, p.1)),
            Err(e) => Err(e),
        }
    }

    proof fn lemma_no_grow(ts: Seq<Seq<char>>) {
    }

    fn read<I: StrStream>(it: &mut I) -> (r: WhiteResult<u32>) {
        let t = match it.next() {
            Err(e) => { return Err(WhiteError::IoError(e)); },
            Ok(None) => { return Err(WhiteError::TooShort); },
            Ok(Some(t)) => t,
        };
        match parse_unsigned_token(t.as_str(), u32::MAX as u64) {
            Some(v) => Ok(v as u32),
            None => Err(WhiteError::ParseError),
        }
    }
}

impl Consuming for u32 {
    proof fn lemma_consumes(ts: Seq<Seq<char>>) {
    }
}

impl White for u8 {
    type Val = u8;

    open spec fn model(&self) -> u8 {
        *self
    }

    open spec fn spec_read(ts: Seq<Seq<char>>) -> Result<(u8, Seq<Seq<char>>), ReadFail> {
        match unsigned_token_read(ts, u8::MAX as int) {
            Ok(p) => Ok((p.0 as u8, p.1)),
            Err(e) => Err(e),
        }
    }

    proof fn lemma_no_grow(ts: Seq<Seq<char>>) {
    }

    fn read<I: StrStream>(it: &mut I) -> (r: WhiteResult<u8>) {
        let t = match it.next() {
            Err(e) => { return Err(WhiteError::IoError(e)); },
            Ok(None) => { return Err(WhiteError::TooShort); },
            Ok(Some(t)) => t,
        };
        match parse_unsigned_token(t.as_str(), u8::MAX as u64) {
            Some(v) => Ok(v as u8),
            None => Err(WhiteError::ParseError),
        }
    }
}

impl Consuming for u8 {
    proof fn lemma_consumes(ts: Seq<Seq<char>>) {
    }
}

impl White for u16 {
    type Val = u16;

    open spec fn model(&self) -> u16 {
        *self
    }

    open spec fn spec_read(ts: Seq<Seq<char>>) -> Result<(u16, Seq<Seq<char>>), ReadFail> {
        match unsigned_token_read(ts, u16::MAX as int) {
            Ok(p) => Ok((p.0 as u16, p.1)),
            Err(e) => Err(e),
        }
    }

    proof fn lemma_no_grow(ts: Seq<Seq<char>>) {
    }

    fn read<I: StrStream>(it: &mut I) -> (r: WhiteResult<u16>) {
        let t = match it.next() {
            Err(e) => { return Err(WhiteError::IoError(e)); },
            Ok(None) => { return Err(WhiteError::TooShort); },
            Ok(Some(t)) => t,
        };
        match parse_unsigned_token(t.as_str(), u16::MAX as u64) {
            Some(v) => Ok(v as u16),
            None => Err(WhiteError::ParseError),
        }
    }
}

impl Consuming for u16 {
    proof fn lemma_consumes(ts: Seq<Seq<char>>) {
    }
}

impl White for u64 {
    type Val = u64;

    open spec fn model(&self) -> u64 {
        *self
    }

    open spec fn spec_read(ts: Seq<Seq<char>>) -> Result<(u64, Seq<Seq<char>>), ReadFail> {
        match unsigned_token_read(ts, u64::MAX as int) {
            Ok(p) => Ok((p.0 as u64, p.1)),
            Err(e) => Err(e),
        }
    }

    proof fn lemma_no_grow(ts: Seq<Seq<char>>) {
    }

    fn read<I: StrStream>(it: &mut I) -> (r: WhiteResult<u64>) {
        let t = match it.next() {
            Err(e) => { return Err(WhiteError::IoError(e)); },
            Ok(None) => { return Err(WhiteError::TooShort); },
            Ok(Some(t)) => t,
        };
        match parse_unsigned_token(t.as_str(), u64::MAX) {
            Some(v) => Ok(v),
            None => Err(WhiteError::ParseError),
        }
    }
}

impl Consuming for u64 {
    proof fn lemma_consumes(ts: Seq<Seq<char>>) {
    }
}

impl White for usize {
    type Val = usize;

    open spec fn model(&self) -> usize {
        *self
    }

    open spec fn spec_read(ts: Seq<Seq<char>>) -> Result<(usize, Seq<Seq<char>>), ReadFail> {
        match unsigned_token_read(ts, usize::MAX as int) {
            Ok(p) => Ok((p.0 as usize, p.1)),
            Err(e) => Err(e),
        }
    }

    proof fn lemma_no_grow(ts: Seq<Seq<char>>) {
    }

    fn read<I: StrStream>(it: &mut I) -> (r: WhiteResult<usize>) {
        let t = match it.next() {
            Err(e) => { return Err(WhiteError::IoError(e)); },
            Ok(None) => { return Err(WhiteError::TooShort); },
            Ok(Some(t)) => t,
        };
        match parse_unsigned_token(t.as_str(), usize::MAX as u64) {
            Some(v) => Ok(v as usize),
            None => Err(WhiteError::ParseError),
        }
    }
}

impl Consuming for usize {
    proof fn lemma_consumes(ts: Seq<Seq<char>>) {
    }
}

impl White for i8 {
    type Val = i8;

    open spec fn model(&self) -> i8 {
        *self
    }

    open spec fn spec_read(ts: Seq<Seq<char>>) -> Result<(i8, Seq<Seq<char>>), ReadFail> {
        match signed_token_read(ts, i8::MIN as int, i8::MAX as int) {
            Ok(p) => Ok((p.0 as i8, p.1)),
            Err(e) => Err(e),
        }
    }

    proof fn lemma_no_grow(ts: Seq<Seq<char>>) {
    }

    fn read<I: StrStream>(it: &mut I) -> (r: WhiteResult<i8>) {
        let t = match it.next() {
            Err(e) => { return Err(WhiteError::IoError(e)); },
            Ok(None) => { return Err(WhiteError::TooShort); },
            Ok(Some(t)) => t,
        };
        match parse_signed_token(t.as_str(), (i8::MAX as u64) + 1, i8::MAX as u64) {
            Some((true, m)) => Ok(
                if m == (i8::MAX as u64) + 1 {
                    i8::MIN
                } else {
                    -(m as i8)
                },
            ),
            Some((false, m)) => Ok(m as i8),
            None => Err(WhiteError::ParseError),
        }
    }
}

impl Consuming for i8 {
    proof fn lemma_consumes(ts: Seq<Seq<char>>) {
    }
}

impl White for i16 {
    type Val = i16;

    open spec fn model(&self) -> i16 {
        *self
    }

    open spec fn spec_read(ts: Seq<Seq<char>>) -> Result<(i16, Seq<Seq<char>>), ReadFail> {
        match signed_token_read(ts, i16::MIN as int, i16::MAX as int) {
            Ok(p) => Ok((p.0 as i16, p.1)),
            Err(e) => Err(e),
        }
    }

    proof fn lemma_no_grow(ts: Seq<Seq<char>>) {
    }

    fn read<I: StrStream>(it: &mut I) -> (r: WhiteResult<i16>) {
        let t = match it.next() {
            Err(e) => { return Err(WhiteError::IoError(e)); },
            Ok(None) => { return Err(WhiteError::TooShort); },
            Ok(Some(t)) => t,
        };
        match parse_signed_token(t.as_str(), (i16::MAX as u64) + 1, i16::MAX as u64) {
            Some((true, m)) => Ok(
                if m == (i16::MAX as u64) + 1 {
                    i16::MIN
                } else {
                    -(m as i16)
                },
            ),
            Some((false, m)) => Ok(m as i16),
            None => Err(WhiteError::ParseError),
        }
    }
}

impl Consuming for i16 {
    proof fn lemma_consumes(ts: Seq<Seq<char>>) {
    }
}

impl White for i32 {
    type Val = i32;

    open spec fn model(&self) -> i32 {
        *self
    }

    open spec fn spec_read(ts: Seq<Seq<char>>) -> Result<(i32, Seq<Seq<char>>), ReadFail> {
        match signed_token_read(ts, i32::MIN as int, i32::MAX as int) {
            Ok(p) => Ok((p.0 as i32, p.1)),
            Err(e) => Err(e),
        }
    }

    proof fn lemma_no_grow(ts: Seq<Seq<char>>) {
    }

    fn read<I: StrStream>(it: &mut I) -> (r: WhiteResult<i32>) {
        let t = match it.next() {
            Err(e) => { return Err(WhiteError::IoError(e)); },
            Ok(None) => { return Err(WhiteError::TooShort); },
            Ok(Some(t)) => t,
        };
        match parse_signed_token(t.as_str(), (i32::MAX as u64) + 1, i32::MAX as u64) {
            Some((true, m)) => Ok(
                if m == (i32::MAX as u64) + 1 {
                    i32::MIN
                } else {
                    -(m as i32)
                },
            ),
            Some((false, m)) => Ok(m as i32),
            None => Err(WhiteError::ParseError),
        }
    }
}

impl Consuming for i32 {
    proof fn lemma_consumes(ts: Seq<Seq<char>>) {
    }
}

impl White for i64 {
    type Val = i64;

    open spec fn model(&self) -> i64 {
        *self
    }

    open spec fn spec_read(ts: Seq<Seq<char>>) -> Result<(i64, Seq<Seq<char>>), ReadFail> {
        match signed_token_read(ts, i64::MIN as int, i64::MAX as int) {
            Ok(p) => Ok((p.0 as i64, p.1)),
            Err(e) => Err(e),
        }
    }

    proof fn lemma_no_grow(ts: Seq<Seq<char>>) {
    }

    fn read<I: StrStream>(it: &mut I) -> (r: WhiteResult<i64>) {
        let t = match it.next() {
            Err(e) => { return Err(WhiteError::IoError(e)); },
            Ok(None) => { return Err(WhiteError::TooShort); },
            Ok(Some(t)) => t,
        };
        match parse_signed_token(t.as_str(), (i64::MAX as u64) + 1, i64::MAX as u64) {
            Some((true, m)) => Ok(
                if m == (i64::MAX as u64) + 1 {
                    i64::MIN
                } else {
                    -(m as i64)
                },
            ),
            Some((false, m)) => Ok(m as i64),
            None => Err(WhiteError::ParseError),
        }
    }
}

impl Consuming for i64 {
    proof fn lemma_consumes(ts: Seq<Seq<char>>) {
    }
}

impl White for isize {
    type Val = isize;

    open spec fn model(&self) -> isize {
        *self
    }

    open spec fn spec_read(ts: Seq<Seq<char>>) -> Result<(isize, Seq<Seq<char>>), ReadFail> {
        match signed_token_read(ts, isize::MIN as int, isize::MAX as int) {
            Ok(p) => Ok((p.0 as isize, p.1)),
            Err(e) => Err(e),
        }
    }

    proof fn lemma_no_grow(ts: Seq<Seq<char>>) {
    }

    fn read<I: StrStream>(it: &mut I) -> (r: WhiteResult<isize>) {
        let t = match it.next() {
            Err(e) => { return Err(WhiteError::IoError(e)); },
            Ok(None) => { return Err(WhiteError::TooShort); },
            Ok(Some(t)) => t,
        };
        match parse_signed_token(t.as_str(), (isize::MAX as u64) + 1, isize::MAX as u64) {
            Some((true, m)) => Ok(
                if m == (isize::MAX as u64) + 1 {
                    isize::MIN
                } else {
                    -(m as isize)
                },
            ),
            Some((false, m)) => Ok(m as isize),
            None => Err(WhiteError::ParseError),
        }
    }
}

impl Consuming for isize {
    proof fn lemma_consumes(ts: Seq<Seq<char>>) {
    }
}

/// Character-by-character equality of two pieces of text.
fn token_eq(a: &str, b: &str) -> (r: bool)
    ensures
        r == (a@ == b@),
{
    let n = a.unicode_len();
    let m = b.unicode_len();
    if n != m {
        return false;
    }
    let mut i: usize = 0;
    while i < n
        invariant
            i <= n,
            n as int == a@.len(),
            a@.len() == b@.len(),
            forall|j: int| 0 <= j < i ==> a@[j] == b@[j],
        decreases n - i,
    {
        if a.get_char(i) != b.get_char(i) {
            return false;
        }
        i = i + 1;
    }
    proof {
        assert(a@ =~= b@);
    }
    true
}

/// The value denoted by a token in `bool` format: exactly `true` or
/// `false`.
pub open spec fn bool_value(t: Seq<char>) -> Option<bool> {
    if t == "true"@ {
        Some(true)
    } else if t == "false"@ {
        Some(false)
    } else {
        None
    }
}

impl White for bool {
    type Val = bool;

    open spec fn model(&self) -> bool {
        *self
    }

    open spec fn spec_read(ts: Seq<Seq<char>>) -> Result<(bool, Seq<Seq<char>>), ReadFail> {
        if ts.len() == 0 {
            Err(ReadFail::TooShort)
        } else {
            match bool_value(ts[0]) {
                Some(b) => Ok((b, ts.drop_first())),
                None => Err(ReadFail::ParseError),
            }
        }
    }

    proof fn lemma_no_grow(ts: Seq<Seq<char>>) {
    }

    fn read<I: StrStream>(it: &mut I) -> (r: WhiteResult<bool>) {
        let t = match it.next() {
            Err(e) => { return Err(WhiteError::IoError(e)); },
            Ok(None) => { return Err(WhiteError::TooShort); },
            Ok(Some(t)) => t,
        };
        if token_eq(t.as_str(), "true") {
            Ok(true)
        } else if token_eq(t.as_str(), "false") {
            Ok(false)
        } else {
            Err(WhiteError::ParseError)
        }
    }
}

impl Consuming for bool {
    proof fn lemma_consumes(ts: Seq<Seq<char>>) {
    }
}

impl White for char {
    type Val = char;

    open spec fn model(&self) -> char {
        *self
    }

    open spec fn spec_read(ts: Seq<Seq<char>>) -> Result<(char, Seq<Seq<char>>), ReadFail> {
        if ts.len() == 0 || ts[0].len() == 0 {
            Err(ReadFail::TooShort)
        } else {
            Ok((ts[0][0], ts.drop_first()))
        }
    }

    proof fn lemma_no_grow(ts: Seq<Seq<char>>) {
    }

    fn read<I: StrStream>(it: &mut I) -> (r: WhiteResult<char>) {
        let t = match it.next() {
            Err(e) => { return Err(WhiteError::IoError(e)); },
            Ok(None) => { return Err(WhiteError::TooShort); },
            Ok(Some(t)) => t,
        };
        if t.as_str().unicode_len() == 0 {
            Err(WhiteError::TooShort)
        } else {
            Ok(t.as_str().get_char(0))
        }
    }
}

impl Consuming for char {
    proof fn lemma_consumes(ts: Seq<Seq<char>>) {
    }
}

impl White for String {
    type Val = Seq<char>;

    open spec fn model(&self) -> Seq<char> {
        self@
    }

    open spec fn spec_read(ts: Seq<Seq<char>>) -> Result<(Seq<char>, Seq<Seq<char>>), ReadFail> {
        if ts.len() == 0 {
            Err(ReadFail::TooShort)
        } else {
            Ok((ts[0], ts.drop_first()))
        }
    }

    proof fn lemma_no_grow(ts: Seq<Seq<char>>) {
    }

    fn read<I: StrStream>(it: &mut I) -> (r: WhiteResult<String>) {
        match it.next() {
            Err(e) => Err(WhiteError::IoError(e)),
            Ok(None) => Err(WhiteError::TooShort),
            Ok(Some(t)) => Ok(t),
        }
    }
}

impl Consuming for String {
    proof fn lemma_consumes(ts: Seq<Seq<char>>) {
    }
}

} // verus!
