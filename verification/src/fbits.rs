//! IEEE-754 single-precision values, carried as their raw bit patterns.
//!
//! The library never computes with machine floats itself: every value is a
//! `FloatBits` (the `u32` returned by `to_bits`), and every arithmetic step
//! goes through a wrapper around micromath's `F32`, whose result is named by
//! an uninterpreted spec function.  What *can* be said exactly over bit
//! patterns (truthiness, absolute value, finiteness) is said exactly.
//!
//! Each named result is a function of the operand bit patterns for a given
//! build and target.  NaN payloads are not pinned down across hardware
//! targets, and nothing here depends on one: the library only ever asks
//! whether a pattern is a NaN, never which.

use vstd::prelude::*;

verus! {

/// An IEEE-754 single-precision value as its raw bit pattern
/// (sign bit 31, exponent bits 30..23, fraction bits 22..0).
#[derive(Clone, Copy, PartialEq, Eq, Structural, Debug)]
pub struct FloatBits(pub u32);

/// Bit pattern of `0.0`.
pub const ZERO_BITS: u32 = 0;

/// Bit pattern of `1.0` (exponent field 127, empty fraction).
pub const ONE_BITS: u32 = 0x3F80_0000;

/// Mask clearing the sign bit.
pub const SIGN_CLEAR_MASK: u32 = 0x7FFF_FFFF;

/// Bit pattern of positive infinity.
pub const INF_BITS: u32 = 0x7F80_0000;

/// Bit pattern of the canonical quiet NaN.
pub const QNAN_BITS: u32 = 0x7FC0_0000;

impl FloatBits {
    /// `0.0`.
    pub fn zero() -> (r: FloatBits)
        ensures
            r.0 == ZERO_BITS,
    {
        FloatBits(ZERO_BITS)
    }

    /// `1.0`.
    pub fn one() -> (r: FloatBits)
        ensures
            r.0 == ONE_BITS,
    {
        FloatBits(ONE_BITS)
    }
}

/// Truthiness of a value: `x != 0.0` holds for every bit pattern except the
/// two zeroes `+0.0` (all bits clear) and `-0.0` (only the sign bit set);
/// in particular every NaN compares unequal to zero.
pub open spec fn truthy(bits: u32) -> bool {
    bits & SIGN_CLEAR_MASK != 0
}

/// The bit pattern encoding a boolean: `1.0` for true, `0.0` for false.
pub open spec fn bool_bits(b: bool) -> u32 {
    if b {
        ONE_BITS
    } else {
        ZERO_BITS
    }
}

/// `|x|`: clearing the sign bit is exact IEEE-754 absolute value.
pub open spec fn abs_bits(bits: u32) -> u32 {
    bits & SIGN_CLEAR_MASK
}

/// A value is finite when its exponent field is not all ones
/// (all ones marks an infinity or a NaN).
pub open spec fn is_finite_bits(bits: u32) -> bool {
    (bits >> 23) & 0xFF != 0xFF
}

/// A NaN: exponent field all ones with a non-empty fraction.
pub open spec fn is_nan_bits(bits: u32) -> bool {
    bits & SIGN_CLEAR_MASK > INF_BITS
}

/// Where micromath's exponential may be called: anything but a NaN and
/// anything outside the positive band of bit patterns
/// [0x42B17218, 0x42B2D4FC), which is x in [88.72284, 89.41599).  On
/// exactly that band the product `x * LOG2_E` truncates to 128, which
/// the implementation's `set_exponent` asserts against; a NaN reads as
/// exponent 128 outright.  Everything below the band keeps the computed
/// exponent at 127 or less, everything at or above it (infinity
/// included) takes the early overflow path, and negative values never
/// reach 128.  The whole band lies above ln of the largest
/// single-precision value, so the true exponential overflows throughout
/// it.
pub open spec fn exp_call_ok(bits: u32) -> bool {
    &&& !is_nan_bits(bits)
    &&& !(bits < 0x8000_0000 && 0x42B1_7218 <= bits && bits < 0x42B2_D4FC)
}

/// Whether micromath's exponential may be called, decided on the bits.
pub fn exp_call_ok_exec(b: FloatBits) -> (r: bool)
    ensures
        r == exp_call_ok(b.0),
{
    !(b.0 & SIGN_CLEAR_MASK > INF_BITS) && !(b.0 < 0x8000_0000 && 0x42B1_7218 <= b.0 && b.0
        < 0x42B2_D4FC)
}

/// Where micromath's power function may be called: the base's exponent
/// field within [117, 137] (a normal magnitude in [2^-10, 2^11)) and the
/// exponent operand's magnitude at most 10 (bit pattern 0x41200000).
/// Then `n * ln |x|` stays below 77 in magnitude and is never NaN, well
/// clear of the band its inner exponential cannot evaluate.  This block
/// is narrower than what the power approximation could compute in a
/// release build; outside it the evaluator yields NaN rather than risk
/// the implementation's assertion.
pub open spec fn pow_call_ok(a: u32, b: u32) -> bool {
    &&& 117 <= (a >> 23) & 0xFF
    &&& (a >> 23) & 0xFF <= 137
    &&& b & SIGN_CLEAR_MASK <= 0x4120_0000
}

/// Whether micromath's power function may be called, decided on the bits.
pub fn pow_call_ok_exec(a: FloatBits, b: FloatBits) -> (r: bool)
    ensures
        r == pow_call_ok(a.0, b.0),
{
    let e = (a.0 >> 23) & 0xFF;
    117 <= e && e <= 137 && (b.0 & SIGN_CLEAR_MASK) <= 0x4120_0000
}

/// Where micromath's natural logarithm may be called: any value without
/// the sign bit, and any NaN.  For a negative non-NaN argument the
/// implementation takes its below-one path through `inv`, whose bare
/// `u32` subtraction `0x7F000000 - bits` underflows on a sign-set
/// pattern; a NaN fails the below-one comparison and stays clear.
pub open spec fn ln_call_ok(bits: u32) -> bool {
    bits < 0x8000_0000 || is_nan_bits(bits)
}

/// Whether micromath's natural logarithm may be called, decided on the
/// bits.
pub fn ln_call_ok_exec(b: FloatBits) -> (r: bool)
    ensures
        r == ln_call_ok(b.0),
{
    b.0 < 0x8000_0000 || b.0 & SIGN_CLEAR_MASK > INF_BITS
}

/// Where micromath's arcsine may be called: magnitudes at most one — the
/// function's mathematical domain.  There `1 - x^2` is in [0, 1] and its
/// `invsqrt`, the bare `u32` subtraction `0x5F375A86 - (bits >> 1)`,
/// cannot underflow; for magnitudes beyond about 1.11, or a NaN whose
/// propagated sign the hardware chooses, it can.
pub open spec fn asin_call_ok(bits: u32) -> bool {
    abs_bits(bits) <= ONE_BITS
}

/// Whether micromath's arcsine may be called, decided on the bits.
pub fn asin_call_ok_exec(b: FloatBits) -> (r: bool)
    ensures
        r == asin_call_ok(b.0),
{
    b.0 & SIGN_CLEAR_MASK <= ONE_BITS
}

/// Whether `x != 0.0`, decided on the bit pattern.
pub fn truthy_exec(b: FloatBits) -> (r: bool)
    ensures
        r == truthy(b.0),
{
    b.0 & SIGN_CLEAR_MASK != 0
}

/// `1.0` for true, `0.0` for false.
pub fn bool_to_float(b: bool) -> (r: FloatBits)
    ensures
        r.0 == bool_bits(b),
{
    if b {
        FloatBits(ONE_BITS)
    } else {
        FloatBits(ZERO_BITS)
    }
}

/// `|x|` by clearing the sign bit.
pub fn abs_exec(b: FloatBits) -> (r: FloatBits)
    ensures
        r.0 == abs_bits(b.0),
{
    FloatBits(b.0 & SIGN_CLEAR_MASK)
}

pub uninterp spec fn add_bits(a: u32, b: u32) -> u32;

pub uninterp spec fn sub_bits(a: u32, b: u32) -> u32;

pub uninterp spec fn mul_bits(a: u32, b: u32) -> u32;

pub uninterp spec fn div_bits(a: u32, b: u32) -> u32;

pub uninterp spec fn rem_bits(a: u32, b: u32) -> u32;

pub uninterp spec fn pow_bits(a: u32, b: u32) -> u32;

pub uninterp spec fn atan2_bits(y: u32, x: u32) -> u32;

pub uninterp spec fn acos_bits(a: u32) -> u32;

pub uninterp spec fn asin_bits(a: u32) -> u32;

pub uninterp spec fn cos_bits(a: u32) -> u32;

pub uninterp spec fn exp_bits(a: u32) -> u32;

pub uninterp spec fn floor_bits(a: u32) -> u32;

pub uninterp spec fn ceil_bits(a: u32) -> u32;

pub uninterp spec fn round_bits(a: u32) -> u32;

pub uninterp spec fn ln_bits(a: u32) -> u32;

pub uninterp spec fn sin_bits(a: u32) -> u32;

pub uninterp spec fn sqrt_bits(a: u32) -> u32;

pub uninterp spec fn tan_bits(a: u32) -> u32;

pub uninterp spec fn cmp_code_bits(a: u32, b: u32) -> u8;

pub uninterp spec fn trunc_u32_of(a: u32) -> u32;

/// Relies on micromath's `Add for F32`: IEEE-754 single-precision addition,
/// a function of the two operand bit patterns alone.
#[verifier::external_body]
pub(crate) fn add(a: FloatBits, b: FloatBits) -> (r: FloatBits)
    ensures
        r.0 == add_bits(a.0, b.0),
{
    FloatBits((micromath::F32::from_bits(a.0) + micromath::F32::from_bits(b.0)).to_bits())
}

/// Relies on micromath's `Sub for F32`: IEEE-754 single-precision subtraction.
#[verifier::external_body]
pub(crate) fn sub(a: FloatBits, b: FloatBits) -> (r: FloatBits)
    ensures
        r.0 == sub_bits(a.0, b.0),
{
    FloatBits((micromath::F32::from_bits(a.0) - micromath::F32::from_bits(b.0)).to_bits())
}

/// Relies on micromath's `Mul for F32`: IEEE-754 single-precision multiplication.
#[verifier::external_body]
pub(crate) fn mul(a: FloatBits, b: FloatBits) -> (r: FloatBits)
    ensures
        r.0 == mul_bits(a.0, b.0),
{
    FloatBits((micromath::F32::from_bits(a.0) * micromath::F32::from_bits(b.0)).to_bits())
}

/// Relies on micromath's `Div for F32`: IEEE-754 single-precision division.
#[verifier::external_body]
pub(crate) fn div(a: FloatBits, b: FloatBits) -> (r: FloatBits)
    ensures
        r.0 == div_bits(a.0, b.0),
{
    FloatBits((micromath::F32::from_bits(a.0) / micromath::F32::from_bits(b.0)).to_bits())
}

/// Relies on micromath's `Rem for F32`: the single-precision remainder,
/// which carries the sign of the dividend.
#[verifier::external_body]
pub(crate) fn rem(a: FloatBits, b: FloatBits) -> (r: FloatBits)
    ensures
        r.0 == rem_bits(a.0, b.0),
{
    FloatBits((micromath::F32::from_bits(a.0) % micromath::F32::from_bits(b.0)).to_bits())
}

/// Relies on micromath's `F32::powf` exponentiation approximation.  The
/// `requires` keeps to the block where its inner exponential cannot
/// assert (see `pow_call_ok`): `powf` computes `(n * ln |x|).exp()`, and
/// within the block that argument is a finite value of magnitude below
/// 62, well clear of the exponential's failing band near 88.
#[verifier::external_body]
pub(crate) fn pow(a: FloatBits, b: FloatBits) -> (r: FloatBits)
    requires
        pow_call_ok(a.0, b.0),
    ensures
        r.0 == pow_bits(a.0, b.0),
{
    FloatBits(micromath::F32::from_bits(a.0).powf(micromath::F32::from_bits(b.0)).to_bits())
}

/// Relies on micromath's `F32::atan2` four-quadrant arctangent approximation.
#[verifier::external_body]
pub(crate) fn atan2(y: FloatBits, x: FloatBits) -> (r: FloatBits)
    ensures
        r.0 == atan2_bits(y.0, x.0),
{
    FloatBits(micromath::F32::from_bits(y.0).atan2(micromath::F32::from_bits(x.0)).to_bits())
}

/// Relies on micromath's `F32Ext::acos` approximation.
#[verifier::external_body]
pub(crate) fn acos(a: FloatBits) -> (r: FloatBits)
    ensures
        r.0 == acos_bits(a.0),
{
    FloatBits(micromath::F32Ext::acos(micromath::F32::from_bits(a.0).0).to_bits())
}

/// Relies on micromath's `F32::asin` approximation.  The `requires`
/// keeps to the mathematical domain (see `asin_call_ok`), where its
/// inner inverse square root cannot underflow.
#[verifier::external_body]
pub(crate) fn asin(a: FloatBits) -> (r: FloatBits)
    requires
        asin_call_ok(a.0),
    ensures
        r.0 == asin_bits(a.0),
{
    FloatBits(micromath::F32::from_bits(a.0).asin().to_bits())
}

/// Relies on micromath's `F32::cos` approximation.
#[verifier::external_body]
pub(crate) fn cos(a: FloatBits) -> (r: FloatBits)
    ensures
        r.0 == cos_bits(a.0),
{
    FloatBits(micromath::F32::from_bits(a.0).cos().to_bits())
}

/// Relies on micromath's `F32::exp` approximation.  The `requires`
/// keeps out the inputs on which the implementation asserts in debug
/// builds (see `exp_call_ok`): NaN, and the positive band [87.5, 92)
/// around the single-precision overflow threshold, where the computed
/// power-of-two exponent reaches the unrepresentable 128.
#[verifier::external_body]
pub(crate) fn exp(a: FloatBits) -> (r: FloatBits)
    requires
        exp_call_ok(a.0),
    ensures
        r.0 == exp_bits(a.0),
{
    FloatBits(micromath::F32::from_bits(a.0).exp().to_bits())
}

/// Relies on micromath's `F32::floor` (cast-based, so it saturates for
/// magnitudes at and beyond 2^31).
#[verifier::external_body]
pub(crate) fn floor(a: FloatBits) -> (r: FloatBits)
    ensures
        r.0 == floor_bits(a.0),
{
    FloatBits(micromath::F32::from_bits(a.0).floor().to_bits())
}

/// Relies on micromath's `F32::ceil` (cast-based, so it saturates for
/// magnitudes at and beyond 2^31).
#[verifier::external_body]
pub(crate) fn ceil(a: FloatBits) -> (r: FloatBits)
    ensures
        r.0 == ceil_bits(a.0),
{
    FloatBits(micromath::F32::from_bits(a.0).ceil().to_bits())
}

/// Relies on micromath's `F32::round`: nearest integer, halves away from
/// zero (cast-based, so it saturates for magnitudes at and beyond 2^31).
#[verifier::external_body]
pub(crate) fn round(a: FloatBits) -> (r: FloatBits)
    ensures
        r.0 == round_bits(a.0),
{
    FloatBits(micromath::F32::from_bits(a.0).round().to_bits())
}

/// Relies on micromath's `F32::ln` approximation.  The `requires` keeps
/// out negative non-NaN arguments (see `ln_call_ok`), on which its
/// below-one reciprocal would underflow.
#[verifier::external_body]
pub(crate) fn ln(a: FloatBits) -> (r: FloatBits)
    requires
        ln_call_ok(a.0),
    ensures
        r.0 == ln_bits(a.0),
{
    FloatBits(micromath::F32::from_bits(a.0).ln().to_bits())
}

/// Relies on micromath's `F32::sin` approximation.
#[verifier::external_body]
pub(crate) fn sin(a: FloatBits) -> (r: FloatBits)
    ensures
        r.0 == sin_bits(a.0),
{
    FloatBits(micromath::F32::from_bits(a.0).sin().to_bits())
}

/// Relies on micromath's `F32::sqrt` approximation.
#[verifier::external_body]
pub(crate) fn sqrt(a: FloatBits) -> (r: FloatBits)
    ensures
        r.0 == sqrt_bits(a.0),
{
    FloatBits(micromath::F32::from_bits(a.0).sqrt().to_bits())
}

/// Relies on micromath's `F32::tan` approximation.
#[verifier::external_body]
pub(crate) fn tan(a: FloatBits) -> (r: FloatBits)
    ensures
        r.0 == tan_bits(a.0),
{
    FloatBits(micromath::F32::from_bits(a.0).tan().to_bits())
}

/// Relies on micromath's derived `PartialOrd for F32`, which orders as the
/// underlying single-precision comparison does.  The code is 0 when the
/// operands are unordered (at least one NaN), 1 for less, 2 for equal,
/// 3 for greater.
#[verifier::external_body]
pub(crate) fn cmp_code(a: FloatBits, b: FloatBits) -> (r: u8)
    ensures
        r == cmp_code_bits(a.0, b.0),
        r <= 3,
{
    match micromath::F32::from_bits(a.0).partial_cmp(&micromath::F32::from_bits(b.0)) {
        None => 0,
        Some(core::cmp::Ordering::Less) => 1,
        Some(core::cmp::Ordering::Equal) => 2,
        Some(core::cmp::Ordering::Greater) => 3,
    }
}

/// Relies on micromath's `F32::from_bits` and Rust's float-to-integer cast:
/// truncation toward zero, saturating at the bounds of `u32`, with NaN
/// taken to 0.
#[verifier::external_body]
pub(crate) fn trunc_u32(a: FloatBits) -> (r: u32)
    ensures
        r == trunc_u32_of(a.0),
{
    micromath::F32::from_bits(a.0).0 as u32
}

} // verus!
