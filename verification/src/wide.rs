//! Arbitrary-precision unsigned integers, as `num_bigint` provides them.
//!
//! Nothing in this file is proved: each function states what the
//! big-integer operation it calls is documented to compute.

use num_bigint::BigUint;
use num_traits::ToPrimitive;
use num_traits::Zero;
use vstd::arithmetic::power2::pow2;
use vstd::prelude::*;

verus! {

/// `num_bigint::BigUint`, an unsigned integer of any size. Nothing of its
/// representation is known here.
#[verifier::external_type_specification]
#[verifier::external_body]
pub struct ExBigUint(num_bigint::BigUint);

/// The natural number that a `BigUint` holds.
pub uninterp spec fn wide_value(n: BigUint) -> nat;

/// `BigUint::from` on a `u128`: the big integer of the same value.
#[verifier::external_body]
pub(crate) fn wide_from_u128(n: u128) -> (r: BigUint)
    ensures
        wide_value(r) == n,
{
    BigUint::from(n)
}

/// `Zero::is_zero` on a `BigUint`: whether the value is zero.
#[verifier::external_body]
pub(crate) fn wide_is_zero(n: &BigUint) -> (r: bool)
    ensures
        r == (wide_value(*n) == 0),
{
    n.is_zero()
}

/// `Mul` on two `BigUint`s: the exact product.
#[verifier::external_body]
pub(crate) fn wide_mul(a: &BigUint, b: &BigUint) -> (r: BigUint)
    ensures
        wide_value(r) == wide_value(*a) * wide_value(*b),
{
    a * b
}

/// `Div` on two `BigUint`s: the quotient rounded down. The division panics
/// on a zero divisor, which the precondition leaves out.
#[verifier::external_body]
pub(crate) fn wide_div(a: &BigUint, b: &BigUint) -> (r: BigUint)
    requires
        wide_value(*b) != 0,
    ensures
        wide_value(r) == wide_value(*a) / wide_value(*b),
{
    a / b
}

/// `BigUint::bits`: the fewest bits that express the value, zero for zero.
#[verifier::external_body]
pub(crate) fn wide_bits(n: &BigUint) -> (r: u64)
    ensures
        wide_value(*n) < pow2(r as nat),
        r > 0 ==> wide_value(*n) >= pow2((r - 1) as nat),
{
    n.bits()
}

/// `ToPrimitive::to_u128` on a `BigUint`: the value where it fits 128 bits,
/// nothing where it does not.
#[verifier::external_body]
pub(crate) fn wide_to_u128(n: &BigUint) -> (r: Option<u128>)
    ensures
        r == (if wide_value(*n) <= u128::MAX {
            Some(wide_value(*n) as u128)
        } else {
            None
        }),
{
    n.to_u128()
}

/// `Shl` on a `BigUint` and a `u32`: the value times two to the power of
/// the shift.
#[verifier::external_body]
pub(crate) fn wide_shl(n: &BigUint, shift: u32) -> (r: BigUint)
    ensures
        wide_value(r) == wide_value(*n) * pow2(shift as nat),
{
    n << shift
}

/// `Shr` on a `BigUint` and a `u32`: the value divided by two to the power
/// of the shift, rounded down.
#[verifier::external_body]
pub(crate) fn wide_shr(n: &BigUint, shift: u32) -> (r: BigUint)
    ensures
        wide_value(r) == wide_value(*n) / pow2(shift as nat),
{
    n >> shift
}

} // verus!
