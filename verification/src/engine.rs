//! Floating-point arithmetic, done by the column engine.
//!
//! The library never computes with floating-point numbers itself. The three
//! operations it needs are carried out by polars on bit patterns; each is
//! given a name here, and the functions below are believed, not proved, to
//! return what the names stand for.
//!
//! Addition and division settle whether their result is a NaN, and every
//! bit of a result that is none. They do not settle the sign and the payload
//! of a NaN: those are the machine's. So the names of the sum and of the
//! quotient stand for the result with every NaN read as one, and of a NaN
//! that comes back no more is believed than that it is one.

use crate::binary64::Binary64;
use polars::chunked_array::cast::CastOptions;
use polars::prelude::reinterpret;
use polars::prelude::ChunkAgg;
use polars::prelude::ChunkCast;
use polars::prelude::DataType;
use polars::prelude::NewChunkedArray;
use polars::prelude::PlSmallStr;
use polars::prelude::StringChunked;
use polars::prelude::UInt64Chunked;
use vstd::prelude::*;
use vstd::utf8::encode_utf8;

verus! {

/// Rows that a column of the engine can hold: one less than the largest
/// index it can express.
pub const MAX_ROWS: usize = 0xffff_fffe;

/// Bytes that a text of the engine can hold.
pub const MAX_TEXT_BYTES: usize = 0xffff_ffff;

/// The bit pattern of the binary64 sum of the numbers with the given
/// patterns, taken in this order, as the engine accumulates it, with every
/// NaN read as one: where the sum is a NaN, this is the pattern of a NaN,
/// and no more is said of it.
pub uninterp spec fn binary64_sum(patterns: Seq<u64>) -> u64;

/// The bit pattern of the binary64 quotient of the number with the pattern
/// `dividend` by the number with the pattern `divisor`, with every NaN read
/// as one: where the quotient is a NaN, this is the pattern of a NaN, and no
/// more is said of it.
pub uninterp spec fn binary64_quotient(dividend: u64, divisor: u64) -> u64;

/// The bit pattern of the binary64 number that a text denotes, if the
/// engine reads the whole text as a number.
pub uninterp spec fn binary64_of_text(text: Seq<char>) -> Option<u64>;

/// The bit patterns of a sequence of numbers.
pub open spec fn patterns(values: Seq<Binary64>) -> Seq<u64> {
    values.map_values(|v: Binary64| v.bits)
}

/// Sums a column without missing entries with polars' `ChunkAgg::sum`, on a
/// one-chunk `Float64Chunked` made of the given patterns. The aggregate of
/// such a column is always present; a column of `u32::MAX` rows or more
/// would make polars panic, so it is left out. What comes back is a NaN
/// exactly when the named sum is one, and has the named pattern when it is
/// none; which NaN comes back is left open.
#[verifier::external_body]
pub(crate) fn float_sum(values: &Vec<Binary64>) -> (r: Option<Binary64>)
    requires
        values@.len() <= MAX_ROWS,
    ensures
        r is Some,
        r->0.is_nan() == (Binary64 { bits: binary64_sum(patterns(values@)) }).is_nan(),
        !r->0.is_nan() ==> r->0.bits == binary64_sum(patterns(values@)),
{
    let bits: Vec<u64> = values.iter().map(|v| v.bits).collect();
    let column = UInt64Chunked::from_vec(PlSmallStr::EMPTY, bits)._reinterpret_float();
    column.sum().map(|x| Binary64 { bits: x.to_bits() })
}

/// Divides one number by another with polars' element-wise `Div` on two
/// one-row `Float64Chunked` columns made of the given patterns, which is the
/// division of the machine. The one row of the result is always present.
/// What comes back is a NaN exactly when the named quotient is one, and has
/// the named pattern when it is none; which NaN comes back is left open.
#[verifier::external_body]
pub(crate) fn float_quotient(dividend: Binary64, divisor: Binary64) -> (r: Option<Binary64>)
    ensures
        r is Some,
        r->0.is_nan() == (Binary64 {
            bits: binary64_quotient(dividend.bits, divisor.bits),
        }).is_nan(),
        !r->0.is_nan() ==> r->0.bits == binary64_quotient(dividend.bits, divisor.bits),
{
    let name = PlSmallStr::EMPTY;
    let above = UInt64Chunked::from_vec(name.clone(), vec![dividend.bits])._reinterpret_float();
    let below = UInt64Chunked::from_vec(name, vec![divisor.bits])._reinterpret_float();
    (&above / &below).get(0).map(|x| Binary64 { bits: x.to_bits() })
}

/// Reads a text as a number with polars' non-strict cast of a one-row string
/// column to `Float64`, which yields a missing entry for a text that is not
/// a number. A text of more than `u32::MAX` bytes would make polars panic,
/// so it is left out.
#[verifier::external_body]
pub(crate) fn parse_text(text: &str) -> (r: Option<Binary64>)
    requires
        encode_utf8(text@).len() <= MAX_TEXT_BYTES,
    ensures
        r == match binary64_of_text(text@) {
            Some(bits) => Some(Binary64 { bits }),
            None => None,
        },
{
    let column = StringChunked::from_slice(PlSmallStr::EMPTY, &[text]);
    let cast = column.cast_with_options(&DataType::Float64, CastOptions::NonStrict).ok()?;
    let raw = reinterpret(&cast, &DataType::UInt64).ok()?;
    raw.u64().ok()?.get(0).map(|bits| Binary64 { bits })
}

} // verus!
