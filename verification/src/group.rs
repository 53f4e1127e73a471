//! Model of the twist subgroup and of the scalar field.
//!
//! The twist subgroup of every supported curve family is cyclic of odd
//! order, so a point is identified by its index with respect to a fixed
//! generator, and the group operations are modular arithmetic on that
//! index. The GLS automorphism acts on the subgroup as multiplication by
//! the curve parameter `u` (its eigenvalue), which is all the
//! multiplication machinery relies on.

use vstd::prelude::*;

verus! {

use vstd::arithmetic::div_mod::{
    lemma_fundamental_div_mod,
    lemma_mod_multiples_vanish,
    lemma_mul_mod_noop_left,
    lemma_mul_mod_noop_right,
    lemma_small_mod,
};
use vstd::arithmetic::mul::{lemma_mul_is_associative, lemma_mul_is_distributive_add_other_way};

/// Curve-family parameters carried by every point: the signed eigenvalue of
/// the automorphism and the order of the twist subgroup.
#[derive(Clone, Copy, PartialEq, Eq, Structural, Debug)]
pub struct CurveConsts {
    /// Curve parameter: the automorphism acts on the subgroup as
    /// multiplication by `u`; negative for some families.
    pub u: i128,
    /// Order of the twist subgroup; odd in every supported family.
    pub order: u64,
}

/// A point of the twist subgroup, identified by its index `rep` with
/// respect to a fixed generator; `rep == 0` is the neutral element.
#[derive(Clone, Copy, PartialEq, Eq, Structural, Debug)]
pub struct G2Element {
    pub rep: u64,
    pub consts: CurveConsts,
}

/// An element of the scalar field, whose order is the order of the twist
/// subgroup.
#[derive(Clone, Copy, PartialEq, Eq, Structural, Debug)]
pub struct FieldElement {
    pub value: u64,
    pub modulus: u64,
}

pub open spec fn consts_wf(c: CurveConsts) -> bool {
    &&& c.order > 1
    &&& c.u > i128::MIN
}

pub open spec fn point_wf(p: G2Element) -> bool {
    &&& consts_wf(p.consts)
    &&& p.rep < p.consts.order
}

pub open spec fn scalar_wf(s: FieldElement) -> bool {
    &&& s.modulus > 1
    &&& s.value < s.modulus
}

/// Magnitude of the automorphism eigenvalue.
pub open spec fn abs_u(u: i128) -> int {
    if u >= 0 {
        u as int
    } else {
        -(u as int)
    }
}

/// Negating before reducing is reducing and then flipping within the ring.
pub proof fn lemma_neg_mod(x: int, n: int)
    requires
        n > 0,
    ensures
        (-x) % n == (n - (x % n)) % n,
{
    let q = x / n;
    let t = x % n;
    lemma_fundamental_div_mod(x, n);
    assert(n * (-q - 1) + (n - t) == -(n * q) - t) by (nonlinear_arith);
    lemma_mod_multiples_vanish(-q - 1, n - t, n);
}

/// Reducing an operand of a negation does not change the residue.
pub proof fn lemma_neg_of_mod(x: int, n: int)
    requires
        n > 0,
    ensures
        (-(x % n)) % n == (-x) % n,
{
    let q = x / n;
    lemma_fundamental_div_mod(x, n);
    assert(n * q + (-x) == -(x % n)) by (nonlinear_arith)
        requires
            x == n * q + x % n,
    ;
    lemma_mod_multiples_vanish(q, -x, n);
}

/// Reducing the left summand does not change the residue of a sum.
pub proof fn lemma_mod_add_left(x: int, y: int, n: int)
    requires
        n > 0,
    ensures
        ((x % n) + y) % n == (x + y) % n,
{
    lemma_fundamental_div_mod(x, n);
    assert(n * (-(x / n)) + (x + y) == (x % n) + y) by (nonlinear_arith)
        requires
            x == n * (x / n) + x % n,
    ;
    lemma_mod_multiples_vanish(-(x / n), x + y, n);
}

/// Scaling an already-reduced multiple: `(s * ((e * p) % n)) % n` is the
/// residue of the full product.
pub proof fn lemma_mul_mod_assoc(s: int, e: int, p: int, n: int)
    requires
        n > 0,
    ensures
        (s * ((e * p) % n)) % n == ((s * e) * p) % n,
{
    lemma_mul_mod_noop_right(s, e * p, n);
    lemma_mul_is_associative(s, e, p);
}

/// Adding two reduced multiples of `p` gives the reduced combined multiple.
pub proof fn lemma_mul_mod_add(a: int, b: int, p: int, n: int)
    requires
        n > 0,
    ensures
        ((a * p) % n + (b * p) % n) % n == ((a + b) * p) % n,
{
    vstd::arithmetic::div_mod::lemma_add_mod_noop(a * p, b * p, n);
    lemma_mul_is_distributive_add_other_way(p, a, b);
}

/// Product of two residues, reduced; fits because the factors are below a
/// 64-bit modulus.
pub(crate) fn mul_mod_u64(a: u64, b: u64, n: u64) -> (r: u64)
    requires
        n > 0,
    ensures
        r == (a as int * b as int) % (n as int),
        r < n,
{
    proof {
        assert((a as int) * (b as int) <= 0xffff_ffff_ffff_ffff * 0xffff_ffff_ffff_ffff)
            by (nonlinear_arith)
            requires
                a <= 0xffff_ffff_ffff_ffffu64,
                b <= 0xffff_ffff_ffff_ffffu64,
        ;
    }
    let wide: u128 = ((a as u128) * (b as u128)) % (n as u128);
    wide as u64
}

impl G2Element {
    /// Point doubling.
    pub fn double(&self) -> (r: G2Element)
        requires
            point_wf(*self),
        ensures
            r.consts == self.consts,
            point_wf(r),
            r.rep == (2 * self.rep as int) % (self.consts.order as int),
    {
        G2Element { rep: mul_mod_u64(2, self.rep, self.consts.order), consts: self.consts }
    }

    /// Point addition; both points must lie on the same curve.
    pub fn addto(&self, other: &G2Element) -> (r: G2Element)
        requires
            point_wf(*self),
            point_wf(*other),
            self.consts == other.consts,
        ensures
            r.consts == self.consts,
            point_wf(r),
            r.rep == (self.rep + other.rep) % (self.consts.order as int),
    {
        let n = self.consts.order;
        let wide: u128 = ((self.rep as u128) + (other.rep as u128)) % (n as u128);
        G2Element { rep: wide as u64, consts: self.consts }
    }

    /// Point negation.
    pub fn negate(&self) -> (r: G2Element)
        requires
            point_wf(*self),
        ensures
            r.consts == self.consts,
            point_wf(r),
            r.rep == (-(self.rep as int)) % (self.consts.order as int),
    {
        let n = self.consts.order;
        let rep = if self.rep == 0 {
            0
        } else {
            n - self.rep
        };
        proof {
            lemma_neg_mod(self.rep as int, n as int);
            lemma_small_mod(self.rep as nat, n as nat);
            if self.rep == 0 {
                lemma_small_mod(0, n as nat);
                assert((n - 0) % (n as int) == 0) by {
                    lemma_mod_multiples_vanish(1, 0, n as int);
                }
            } else {
                lemma_small_mod((n - self.rep) as nat, n as nat);
            }
        }
        G2Element { rep, consts: self.consts }
    }

    /// One application of the GLS automorphism: multiplication by the
    /// eigenvalue `u` on the cyclic subgroup.
    pub fn phi(&self) -> (r: G2Element)
        requires
            point_wf(*self),
        ensures
            r.consts == self.consts,
            point_wf(r),
            r.rep == (self.consts.u * self.rep) % (self.consts.order as int),
    {
        let n = self.consts.order;
        let u = self.consts.u;
        let ua: u128 = if u >= 0 {
            u as u128
        } else {
            (-u) as u128
        };
        let ur: u64 = (ua % (n as u128)) as u64;
        let m = mul_mod_u64(ur, self.rep, n);
        proof {
            lemma_mul_mod_noop_left(abs_u(u), self.rep as int, n as int);
            assert(m == (abs_u(u) * self.rep) % (n as int));
        }
        if u >= 0 {
            G2Element { rep: m, consts: self.consts }
        } else {
            let rep = if m == 0 {
                0
            } else {
                n - m
            };
            proof {
                let x = abs_u(u) * self.rep;
                lemma_neg_mod(x, n as int);
                assert(-x == u * self.rep) by (nonlinear_arith)
                    requires
                        abs_u(u) == -(u as int),
                        x == abs_u(u) * self.rep,
                ;
                if m == 0 {
                    lemma_mod_multiples_vanish(1, 0, n as int);
                } else {
                    lemma_small_mod((n - m) as nat, n as nat);
                }
            }
            G2Element { rep, consts: self.consts }
        }
    }
}

impl FieldElement {
    /// The scalar as an unsigned big integer.
    pub fn to_big_uint(&self) -> (r: num_bigint::BigUint)
        ensures
            crate::big::big_nat(r) == self.value,
    {
        crate::big::big_from_u64(self.value)
    }

    /// Field negation of the scalar.
    pub fn negate(&self) -> (r: FieldElement)
        requires
            scalar_wf(*self),
        ensures
            r.modulus == self.modulus,
            scalar_wf(r),
            r.value == (-(self.value as int)) % (self.modulus as int),
    {
        let n = self.modulus;
        let value = if self.value == 0 {
            0
        } else {
            n - self.value
        };
        proof {
            lemma_neg_mod(self.value as int, n as int);
            lemma_small_mod(self.value as nat, n as nat);
            if self.value == 0 {
                lemma_small_mod(0, n as nat);
                lemma_mod_multiples_vanish(1, 0, n as int);
            } else {
                lemma_small_mod((n - self.value) as nat, n as nat);
            }
        }
        FieldElement { value, modulus: n }
    }
}

} // verus!
