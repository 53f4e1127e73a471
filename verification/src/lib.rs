//! Scalar multiplication in the twist subgroup (G2) of a pairing-friendly
//! curve by the Galbraith-Lin-Scott (GLS) method: an efficiently computable
//! group automorphism splits a scalar into several short "lanes" consumed as
//! fixed-width signed digits, cutting the number of point doublings roughly
//! by the lane count.
//!
//! The subgroup itself is cyclic of odd prime order, so the library models a
//! point by its index with respect to a fixed generator; doubling, addition,
//! negation and the automorphism are verified modular arithmetic on that
//! index. The recoded digit stream is an arbitrary-precision unsigned
//! integer, held in `num_bigint::BigUint` behind trusted wrappers.

pub mod big;
pub mod digits;
pub mod gls_multiplication;
pub mod group;
pub mod laws;
pub mod phi;
pub mod recoders;

use vstd::prelude::*;

verus! {

} // verus!
