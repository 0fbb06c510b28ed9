//! Trusted surface over `num_bigint::BigInt`.
//!
//! `BigInt` is opaque to the verifier, so its mathematical value is given a
//! name, `big_value`, and each arithmetic operation the library needs is a
//! small wrapper whose contract states what `num_bigint` computes over that
//! name. Everything else in the crate is proved against these contracts.

use vstd::prelude::*;
use num_bigint::BigInt;
use num_traits::ToPrimitive;

verus! {

#[verifier::external_type_specification]
#[verifier::external_body]
pub struct ExBigInt(BigInt);

/// The integer a `BigInt` holds.
pub uninterp spec fn big_value(b: BigInt) -> int;

/// Relies on `BigInt::from(i128)`: the result holds the given integer.
#[verifier::external_body]
pub(crate) fn big_from_i128(x: i128) -> (r: BigInt)
    ensures
        big_value(r) == x as int,
{
    BigInt::from(x)
}

/// Relies on `Clone::clone` for `BigInt`: the copy holds the same integer.
#[verifier::external_body]
pub(crate) fn big_clone(a: &BigInt) -> (r: BigInt)
    ensures
        big_value(r) == big_value(*a),
{
    a.clone()
}

/// Relies on `Add<&BigInt> for &BigInt`: arbitrary-precision addition.
#[verifier::external_body]
pub(crate) fn big_add(a: &BigInt, b: &BigInt) -> (r: BigInt)
    ensures
        big_value(r) == big_value(*a) + big_value(*b),
{
    a + b
}

/// Relies on `Sub<&BigInt> for &BigInt`: arbitrary-precision subtraction.
#[verifier::external_body]
pub(crate) fn big_sub(a: &BigInt, b: &BigInt) -> (r: BigInt)
    ensures
        big_value(r) == big_value(*a) - big_value(*b),
{
    a - b
}

/// Relies on `Mul<&BigInt> for &BigInt`: arbitrary-precision multiplication.
#[verifier::external_body]
pub(crate) fn big_mul(a: &BigInt, b: &BigInt) -> (r: BigInt)
    ensures
        big_value(r) == big_value(*a) * big_value(*b),
{
    a * b
}

/// Relies on `Ord::le` for `BigInt`: comparison of the held integers.
#[verifier::external_body]
pub(crate) fn big_le(a: &BigInt, b: &BigInt) -> (r: bool)
    ensures
        r == (big_value(*a) <= big_value(*b)),
{
    a <= b
}

/// Relies on `Div<&BigInt> for &BigInt`: quotient of truncated division,
/// which for a non-negative dividend and a positive divisor agrees with
/// Euclidean division. A zero divisor would panic and is ruled out.
#[verifier::external_body]
pub(crate) fn big_div(a: &BigInt, b: &BigInt) -> (r: BigInt)
    requires
        big_value(*a) >= 0,
        big_value(*b) > 0,
    ensures
        big_value(r) == big_value(*a) / big_value(*b),
{
    a / b
}

/// Relies on `num_traits::ToPrimitive::to_usize` for `BigInt`: `Some`
/// exactly when the held integer fits in `usize`, and then that integer.
#[verifier::external_body]
pub(crate) fn big_to_usize(a: &BigInt) -> (r: Option<usize>)
    ensures
        r matches Some(v) ==> v as int == big_value(*a),
        r is Some <==> 0 <= big_value(*a) <= usize::MAX as int,
{
    a.to_usize()
}

} // verus!
