//! Trusted boundary around `num_bigint::BigUint`, which carries the recoded
//! digit stream. Each wrapper states, over the single view `big_nat`, what
//! the called operation does to the held value.

use vstd::prelude::*;

verus! {

use num_bigint::BigUint;
use num_traits::ToPrimitive;
use vstd::arithmetic::power2::pow2;

#[verifier::external_type_specification]
#[verifier::external_body]
pub struct ExBigUint(BigUint);

/// The unsigned integer that a `BigUint` holds.
pub uninterp spec fn big_nat(b: BigUint) -> nat;

/// Relies on `<BigUint as From<u64>>::from`: builds a big integer holding
/// the given value.
#[verifier::external_body]
pub fn big_from_u64(v: u64) -> (r: BigUint)
    ensures
        big_nat(r) == v,
{
    BigUint::from(v)
}

/// Relies on `num_traits::ToPrimitive::to_u64` for `BigUint`, which returns
/// the held value whenever it fits in a `u64`.
#[verifier::external_body]
pub fn big_to_u64(b: &BigUint) -> (r: u64)
    requires
        big_nat(*b) <= u64::MAX,
    ensures
        r == big_nat(*b),
{
    b.to_u64().unwrap()
}

/// Relies on `Rem<&BigUint> for &BigUint`: the remainder of Euclidean
/// division of the held values.
#[verifier::external_body]
pub fn big_mod(a: &BigUint, m: &BigUint) -> (r: BigUint)
    requires
        big_nat(*m) > 0,
    ensures
        big_nat(r) == big_nat(*a) % big_nat(*m),
{
    a % m
}

/// Relies on `Shr<u32> for &BigUint`: drops the `k` lowest bits, that is,
/// divides by two to the `k` rounding down.
#[verifier::external_body]
pub fn big_shr(a: &BigUint, k: u32) -> (r: BigUint)
    ensures
        big_nat(r) == big_nat(*a) / pow2(k as nat),
{
    a >> k
}

/// Relies on `Shl<u32> for &BigUint`: multiplies by two to the `k`.
#[verifier::external_body]
pub fn big_shl(a: &BigUint, k: u32) -> (r: BigUint)
    ensures
        big_nat(r) == big_nat(*a) * pow2(k as nat),
{
    a << k
}

/// Relies on `Add<u64> for BigUint`: adds the given value.
#[verifier::external_body]
pub fn big_add_u64(a: &BigUint, v: u64) -> (r: BigUint)
    ensures
        big_nat(r) == big_nat(*a) + v,
{
    a.clone() + v
}

/// Relies on `PartialEq for BigUint`: equality of the held values.
#[verifier::external_body]
pub fn big_eq(a: &BigUint, b: &BigUint) -> (r: bool)
    ensures
        r == (big_nat(*a) == big_nat(*b)),
{
    a == b
}

/// Relies on `num_traits::One::one` for `BigUint`: the big integer holding
/// one.
#[verifier::external_body]
pub fn big_one() -> (r: BigUint)
    ensures
        big_nat(r) == 1,
{
    num_traits::One::one()
}

} // verus!
