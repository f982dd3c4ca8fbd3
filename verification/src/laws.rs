//! Round-trip laws: a value rendered as decimal text and parsed back comes
//! out unchanged, and whitespace-joined tokens tokenize to themselves.

use vstd::prelude::*;
use vstd::arithmetic::div_mod::lemma_div_is_strictly_smaller;
use vstd::arithmetic::div_mod::lemma_div_pos_is_pos;
use vstd::arithmetic::div_mod::lemma_fundamental_div_mod;
use crate::errors::ReadFail;
use crate::scalars::all_digits;
use crate::scalars::digit_val;
use crate::scalars::digits_val;
use crate::scalars::is_digit;
use crate::scalars::signed_value;
use crate::shapes::pair_read;
use crate::tokens::is_space_char;
use crate::tokens::token_len;
use crate::tokens::tokens_of;
use crate::white::White;

verus! {

/// The character of a decimal digit.
pub open spec fn digit_chr(d: int) -> char {
    if d == 0 {
        '0'
    } else if d == 1 {
        '1'
    } else if d == 2 {
        '2'
    } else if d == 3 {
        '3'
    } else if d == 4 {
        '4'
    } else if d == 5 {
        '5'
    } else if d == 6 {
        '6'
    } else if d == 7 {
        '7'
    } else if d == 8 {
        '8'
    } else {
        '9'
    }
}

/// The canonical decimal rendering of a non-negative number: no sign, no
/// leading zero except for the number zero itself.
pub open spec fn dec_digits(n: int) -> Seq<char>
    decreases n,
    via dec_digits_dec
{
    if n < 10 {
        seq![digit_chr(n)]
    } else {
        dec_digits(n / 10).push(digit_chr(n % 10))
    }
}

#[via_fn]
proof fn dec_digits_dec(n: int) {
    if n >= 10 {
        lemma_div_pos_is_pos(n, 10);
        lemma_div_is_strictly_smaller(n, 10);
    }
}

/// The canonical decimal rendering consists of digits only — never
/// whitespace — and reads back as the number it renders.
pub proof fn lemma_dec_digits(n: int)
    requires
        n >= 0,
    ensures
        ({
            let s = dec_digits(n);
            s.len() > 0 && all_digits(s) && digits_val(s) == n && forall|i: int|
                0 <= i < s.len() ==> !is_space_char(s[i])
        }),
    decreases n,
{
    assert(forall|d: int| 0 <= d < 10 ==> is_digit(#[trigger] digit_chr(d)) && digit_val(
        digit_chr(d),
    ) == d && !is_space_char(digit_chr(d)));
    if n < 10 {
        let s = dec_digits(n);
        assert(s.drop_last() =~= Seq::<char>::empty());
        assert(s.last() == digit_chr(n));
        assert(digits_val(s.drop_last()) == 0);
        assert(digit_val(digit_chr(n)) == n);
        assert(digits_val(s) == 10 * digits_val(s.drop_last()) + digit_val(s.last()));
    } else {
        lemma_div_pos_is_pos(n, 10);
        lemma_div_is_strictly_smaller(n, 10);
        lemma_dec_digits(n / 10);
        lemma_fundamental_div_mod(n, 10);
        let s0 = dec_digits(n / 10);
        let s = dec_digits(n);
        assert(s.drop_last() =~= s0);
        assert(forall|i: int| 0 <= i < s.len() ==> s[i] == (if i < s0.len() {
            s0[i]
        } else {
            digit_chr(n % 10)
        }));
    }
}

/// A nonempty whitespace-free run followed by whitespace (or nothing) is
/// one whole token.
proof fn lemma_token_len_concat(x: Seq<char>, rest: Seq<char>)
    requires
        forall|i: int| 0 <= i < x.len() ==> !is_space_char(x[i]),
        rest.len() == 0 || is_space_char(rest[0]),
    ensures
        token_len(x + rest) == x.len(),
    decreases x.len(),
{
    if x.len() == 0 {
        assert(x + rest =~= rest);
    } else {
        assert((x + rest).drop_first() =~= x.drop_first() + rest);
        lemma_token_len_concat(x.drop_first(), rest);
    }
}

/// Tokenizing a nonempty whitespace-free run followed by whitespace (or
/// nothing) yields that run as the first token.
pub proof fn lemma_tokens_of_token(x: Seq<char>, rest: Seq<char>)
    requires
        x.len() > 0,
        forall|i: int| 0 <= i < x.len() ==> !is_space_char(x[i]),
        rest.len() == 0 || is_space_char(rest[0]),
    ensures
        tokens_of(x + rest) == seq![x] + tokens_of(rest),
{
    lemma_token_len_concat(x, rest);
    let u = x + rest;
    assert(u.take(x.len() as int) =~= x);
    assert(u.skip(x.len() as int) =~= rest);
}

/// Two nonempty whitespace-free runs joined by a single space tokenize to
/// exactly those two tokens.
pub proof fn lemma_tokens_of_pair(t1: Seq<char>, t2: Seq<char>)
    requires
        t1.len() > 0,
        t2.len() > 0,
        forall|i: int| 0 <= i < t1.len() ==> !is_space_char(t1[i]),
        forall|i: int| 0 <= i < t2.len() ==> !is_space_char(t2[i]),
    ensures
        tokens_of(t1 + seq![' '] + t2) == seq![t1, t2],
{
    let mid = seq![' '] + t2;
    assert(t1 + seq![' '] + t2 =~= t1 + mid);
    lemma_tokens_of_token(t1, mid);
    assert(mid.drop_first() =~= t2);
    assert(t2 + Seq::<char>::empty() =~= t2);
    lemma_tokens_of_token(t2, Seq::<char>::empty());
    assert(tokens_of(Seq::<char>::empty()) =~= Seq::<Seq<char>>::empty());
    assert(seq![t1] + (seq![t2] + Seq::<Seq<char>>::empty()) =~= seq![t1, t2]);
}

/// The canonical decimal rendering of a number of either sign: a leading
/// `-` on a negative number, then the digits of its magnitude.
pub open spec fn dec_signed(n: int) -> Seq<char> {
    if n < 0 {
        seq!['-'] + dec_digits(-n)
    } else {
        dec_digits(n)
    }
}

/// The canonical signed rendering consists of a sign and digits — never
/// whitespace — and reads back as the number it renders.
pub proof fn lemma_dec_signed(n: int)
    ensures
        ({
            let s = dec_signed(n);
            s.len() > 0 && signed_value(s) == Some(n) && forall|i: int|
                0 <= i < s.len() ==> !is_space_char(s[i])
        }),
{
    if n < 0 {
        lemma_dec_digits(-n);
        let s = dec_signed(n);
        let d = dec_digits(-n);
        assert(s[0] == '-');
        assert(s.skip(1) =~= d);
        assert(forall|i: int| 0 <= i < s.len() ==> s[i] == (if i == 0 {
            '-'
        } else {
            d[i - 1]
        }));
    } else {
        lemma_dec_digits(n);
        let s = dec_signed(n);
        assert(s[0] != '+' && s[0] != '-');
    }
}

/// Round-trip: any pair of numbers, rendered in canonical decimal joined
/// by a single space, parses back to exactly that pair with no tokens to
/// spare.  With [`parse_string`](crate::parse_string)'s contract this pins
/// the whole-string parse of the rendered text to `Ok((a, b))`.
pub proof fn lemma_round_trip_pair(a: u64, b: u64)
    ensures
        ({
            let s = dec_digits(a as int) + seq![' '] + dec_digits(b as int);
            <(u64, u64) as White>::spec_read(tokens_of(s)) == Ok::<_, ReadFail>(
                ((a, b), Seq::<Seq<char>>::empty()),
            )
        }),
{
    let da = dec_digits(a as int);
    let db = dec_digits(b as int);
    lemma_dec_digits(a as int);
    lemma_dec_digits(b as int);
    lemma_tokens_of_pair(da, db);
    let ts = tokens_of(da + seq![' '] + db);
    assert(ts[0] == da && ts[1] == db);
    assert(ts.drop_first() =~= seq![db]);
    assert(seq![db].drop_first() =~= Seq::<Seq<char>>::empty());
    assert(pair_read::<u64, u64>(ts) == Ok::<_, ReadFail>(
        ((a, b), Seq::<Seq<char>>::empty()),
    ));
}

/// Round-trip for signed scalars: any pair of numbers of either sign,
/// rendered in canonical decimal joined by a single space, parses back to
/// exactly that pair with no tokens to spare.
pub proof fn lemma_round_trip_pair_signed(a: i64, b: i64)
    ensures
        ({
            let s = dec_signed(a as int) + seq![' '] + dec_signed(b as int);
            <(i64, i64) as White>::spec_read(tokens_of(s)) == Ok::<_, ReadFail>(
                ((a, b), Seq::<Seq<char>>::empty()),
            )
        }),
{
    let da = dec_signed(a as int);
    let db = dec_signed(b as int);
    lemma_dec_signed(a as int);
    lemma_dec_signed(b as int);
    lemma_tokens_of_pair(da, db);
    let ts = tokens_of(da + seq![' '] + db);
    assert(ts.drop_first() =~= seq![db]);
    assert(seq![db].drop_first() =~= Seq::<Seq<char>>::empty());
    assert(pair_read::<i64, i64>(ts) == Ok::<_, ReadFail>(
        ((a, b), Seq::<Seq<char>>::empty()),
    ));
}

} // verus!
