//! Bfloat16 scalar arithmetic, carried as `u16` bit patterns.
//!
//! Each executable function below wraps one operation of the `half` crate's
//! bfloat16 type (or of `num_traits` as implemented for it). The result of
//! each operation is a pure function of the argument bits, so it is given a
//! name by an uninterpreted spec function; contracts elsewhere in the crate
//! are stated over those names. Only operations whose rounding IEEE 754
//! determines are named: the basic arithmetic, the square root, the min/max
//! selections and the integer conversion. Transcendental functions whose
//! precision the platform may vary get no name here.
//!
//! One assumption underlies the names: on inputs whose mathematical result
//! is a NaN (zero over zero, infinity minus infinity, the square root of a
//! negative), the produced NaN's sign and payload are the platform's choice
//! rather than a function of the arguments. This engine performs no runtime
//! numeric validation, and callers needing NaN-safety filter their inputs
//! before calling; every numeric result is fixed by IEEE 754.

use vstd::prelude::*;

verus! {

/// The bits of the bfloat16 value 1.0.
pub const ONE_BITS: u16 = 0x3F80;

pub uninterp spec fn add_bits(a: u16, b: u16) -> u16;

pub uninterp spec fn sub_bits(a: u16, b: u16) -> u16;

pub uninterp spec fn mul_bits(a: u16, b: u16) -> u16;

pub uninterp spec fn div_bits(a: u16, b: u16) -> u16;

pub uninterp spec fn sqrt_bits(a: u16) -> u16;

pub uninterp spec fn max_bits(a: u16, b: u16) -> u16;

pub uninterp spec fn min_bits(a: u16, b: u16) -> u16;

pub uninterp spec fn from_usize_bits(n: usize) -> u16;

/// Relies on `<half::bf16 as core::ops::Add>::add`: IEEE addition, a
/// function of the argument bits alone.
#[verifier::external_body]
pub(crate) fn bf_add(a: u16, b: u16) -> (r: u16)
    ensures
        r == add_bits(a, b),
{
    (half::bf16::from_bits(a) + half::bf16::from_bits(b)).to_bits()
}

/// Relies on `<half::bf16 as core::ops::Sub>::sub`: IEEE subtraction, a
/// function of the argument bits alone.
#[verifier::external_body]
pub(crate) fn bf_sub(a: u16, b: u16) -> (r: u16)
    ensures
        r == sub_bits(a, b),
{
    (half::bf16::from_bits(a) - half::bf16::from_bits(b)).to_bits()
}

/// Relies on `<half::bf16 as core::ops::Mul>::mul`: IEEE multiplication, a
/// function of the argument bits alone.
#[verifier::external_body]
pub(crate) fn bf_mul(a: u16, b: u16) -> (r: u16)
    ensures
        r == mul_bits(a, b),
{
    (half::bf16::from_bits(a) * half::bf16::from_bits(b)).to_bits()
}

/// Relies on `<half::bf16 as core::ops::Div>::div`: IEEE division, a
/// function of the argument bits alone.
#[verifier::external_body]
pub(crate) fn bf_div(a: u16, b: u16) -> (r: u16)
    ensures
        r == div_bits(a, b),
{
    (half::bf16::from_bits(a) / half::bf16::from_bits(b)).to_bits()
}

/// Relies on `<half::bf16 as num_traits::Float>::sqrt`: the square root
/// depends on the argument bits alone.
#[verifier::external_body]
pub(crate) fn bf_sqrt(a: u16) -> (r: u16)
    ensures
        r == sqrt_bits(a),
{
    num_traits::Float::sqrt(half::bf16::from_bits(a)).to_bits()
}

/// Relies on `<half::bf16 as num_traits::Float>::max`: the larger operand,
/// a function of the argument bits alone.
#[verifier::external_body]
pub(crate) fn bf_max(a: u16, b: u16) -> (r: u16)
    ensures
        r == max_bits(a, b),
{
    num_traits::Float::max(half::bf16::from_bits(a), half::bf16::from_bits(b)).to_bits()
}

/// Relies on `<half::bf16 as num_traits::Float>::min`: the smaller operand,
/// a function of the argument bits alone.
#[verifier::external_body]
pub(crate) fn bf_min(a: u16, b: u16) -> (r: u16)
    ensures
        r == min_bits(a, b),
{
    num_traits::Float::min(half::bf16::from_bits(a), half::bf16::from_bits(b)).to_bits()
}

/// Relies on `<half::bf16 as num_traits::FromPrimitive>::from_usize`: the
/// nearest representable bfloat16 value of a count, a function of the count
/// alone. The conversion goes through `from_u64`, which converts any count,
/// so the fallback arm is unreachable.
#[verifier::external_body]
pub(crate) fn bf_from_usize(n: usize) -> (r: u16)
    ensures
        r == from_usize_bits(n),
{
    match num_traits::FromPrimitive::from_usize(n) {
        Some(v) => half::bf16::to_bits(v),
        None => half::bf16::to_bits(half::bf16::NAN),
    }
}

} // verus!
