//! Trusted text conversions: decimal literals to single-precision bit
//! patterns, and bytes to owned strings.

use vstd::prelude::*;

use crate::fbits::FloatBits;
use crate::lex::float_end;

verus! {

pub uninterp spec fn f32_of_literal(s: Seq<u8>) -> u32;

/// Relies on micromath's `FromStr for F32`, which is the standard
/// single-precision `from_str`: the nearest single-precision value of a
/// decimal literal, a function of its text alone.  The grammar admitted by
/// `float_end` (optional sign, digits, optional point) is a subset of what
/// `from_str` documents, so the conversion cannot fail.
#[verifier::external_body]
pub fn parse_float_bits(s: &[u8], start: usize, end: usize) -> (r: FloatBits)
    requires
        start < end <= s@.len(),
        float_end(s@, start as int) == end,
    ensures
        r.0 == f32_of_literal(s@.subrange(start as int, end as int)),
{
    let t = core::str::from_utf8(&s[start..end]).unwrap_or("0");
    let v: micromath::F32 = t.parse().unwrap_or(micromath::F32::from_bits(0));
    FloatBits(v.to_bits())
}

/// Relies on `core::str::from_utf8` and `str::to_owned`: bytes below 128
/// are ASCII, which decodes to exactly one character per byte, each the
/// byte's own code point.
#[verifier::external_body]
pub fn ascii_to_string(bytes: &[u8]) -> (r: String)
    requires
        forall|k: int| 0 <= k < bytes@.len() ==> bytes@[k] < 128,
    ensures
        r@ == bytes@.map_values(|b: u8| b as char),
{
    core::str::from_utf8(bytes).unwrap_or("").to_owned()
}

pub uninterp spec fn decimal_of_f32(bits: u32) -> Seq<u8>;

/// Relies on micromath's `Display for F32`, which prints as the standard
/// single-precision `Display`: a function of the bits alone.  For a finite
/// value the text is a plain decimal — an optional `-`, digits, an
/// optional point and fraction, never an exponent — so it matches the
/// float-literal grammar in full; and the standard library documents that
/// parsing the printed text back yields the same value, which is
/// `f32_of_literal` by the contract of the literal conversion above.
#[verifier::external_body]
pub fn render_f32(b: FloatBits) -> (r: Vec<u8>)
    ensures
        r@ == decimal_of_f32(b.0),
        crate::fbits::is_finite_bits(b.0) ==> {
            &&& r@.len() > 0
            &&& float_end(r@, 0) == r@.len()
            &&& f32_of_literal(r@) == b.0
        },
{
    format!("{}", micromath::F32::from_bits(b.0)).into_bytes()
}

/// Relies on `String::push_str`: appends the slice's characters to the
/// string.
#[verifier::external_body]
pub fn append_str(s: String, t: &str) -> (r: String)
    ensures
        r@ == s@ + t@,
{
    let mut s = s;
    s.push_str(t);
    s
}

pub uninterp spec fn utf8_decode(s: Seq<u8>) -> Option<Seq<char>>;

/// Whether every byte is ASCII.
pub open spec fn all_ascii(s: Seq<u8>) -> bool {
    forall|k: int| 0 <= k < s.len() ==> s[k] < 128
}

/// Relies on `String::from_utf8`: it succeeds exactly on valid UTF-8, and
/// bytes below 128 are ASCII, always valid, decoding to one character per
/// byte, each the byte's own code point.
#[verifier::external_body]
pub fn bytes_to_string(bytes: &[u8]) -> (r: Option<String>)
    ensures
        match r {
            Some(t) => {
                &&& utf8_decode(bytes@) == Some(t@)
                &&& all_ascii(bytes@) ==> t@ == bytes@.map_values(|b: u8| b as char)
            },
            None => utf8_decode(bytes@) is None,
        },
        all_ascii(bytes@) ==> r is Some,
{
    match String::from_utf8(bytes.to_vec()) {
        Ok(t) => Some(t),
        Err(_) => None,
    }
}

} // verus!
