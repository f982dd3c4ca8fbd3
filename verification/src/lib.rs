//! Reading whitespace-separated values.
//!
//! The crate defines a trait [`White`], which describes types that can be
//! parsed from whitespace-separated words, including integers, characters,
//! strings, tuples, plain vectors and length-prefixed vectors.
//!
//! Tokens are maximal runs of non-whitespace characters; any run of
//! whitespace (including newlines) separates tokens.  Values can be parsed
//! from a fixed string with [`parse_string`], or read incrementally from a
//! line-oriented source with [`WhiteReader`], which supports both
//! line-grained and newline-agnostic parsing.

mod errors;
mod laws;
mod reader;
mod scalars;
mod shapes;
mod stream;
mod tokens;
mod white;

pub use errors::ReadFail;
pub use errors::WhiteError;
pub use errors::WhiteResult;
pub use errors::WhiteResultExt;
pub use laws::dec_digits;
pub use laws::dec_signed;
pub use laws::digit_chr;
pub use laws::lemma_dec_digits;
pub use laws::lemma_dec_signed;
pub use laws::lemma_round_trip_pair;
pub use laws::lemma_round_trip_pair_signed;
pub use laws::lemma_tokens_of_pair;
pub use laws::lemma_tokens_of_token;
pub use reader::LineSource;
pub use reader::TextSource;
pub use reader::WhiteReader;
pub use reader::line_len;
pub use reader::lines_of;
pub use reader::lines_tokens;
pub use scalars::all_digits;
pub use scalars::digit_val;
pub use scalars::digits_val;
pub use scalars::digits_value;
pub use scalars::is_digit;
pub use scalars::signed_value;
pub use scalars::unsigned_value;
pub use shapes::Lengthed;
pub use shapes::lemma_lengthed_len;
pub use shapes::lemma_vec_read_exhausts;
pub use shapes::lemma_vec_read_no_short;
pub use shapes::lengthed_elems;
pub use shapes::pair_read;
pub use shapes::seq_models;
pub use shapes::triple_read;
pub use shapes::vec_read;
pub use stream::StrStream;
pub use tokens::Tokens;
pub use tokens::is_space_char;
pub use tokens::token_len;
pub use tokens::tokens_of;
pub use white::Consuming;
pub use white::White;
pub use white::parse_string;
