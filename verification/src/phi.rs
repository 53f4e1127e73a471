//! Repeated application of the GLS automorphism. On the cyclic twist
//! subgroup the automorphism of every supported family acts as
//! multiplication by the curve parameter `u`, so applying it `count` times
//! multiplies a point's index by `u` to the `count`.

use vstd::prelude::*;

verus! {

use crate::group::{lemma_mul_mod_assoc, point_wf, G2Element};
use vstd::arithmetic::div_mod::lemma_small_mod;
use vstd::arithmetic::power::{lemma_pow0, pow};

/// `count` applications of the automorphism of the embedding-degree-24
/// family.
pub fn phi_bls24(p: &G2Element, count: u32) -> (r: G2Element)
    requires
        point_wf(*p),
    ensures
        r.consts == p.consts,
        point_wf(r),
        r.rep == (pow(p.consts.u as int, count as nat) * p.rep) % (p.consts.order as int),
{
    phi_repeated(p, count)
}

/// `count` applications of the automorphism of the embedding-degree-48
/// family.
pub fn phi_bls48(p: &G2Element, count: u32) -> (r: G2Element)
    requires
        point_wf(*p),
    ensures
        r.consts == p.consts,
        point_wf(r),
        r.rep == (pow(p.consts.u as int, count as nat) * p.rep) % (p.consts.order as int),
{
    phi_repeated(p, count)
}

fn phi_repeated(p: &G2Element, count: u32) -> (r: G2Element)
    requires
        point_wf(*p),
    ensures
        r.consts == p.consts,
        point_wf(r),
        r.rep == (pow(p.consts.u as int, count as nat) * p.rep) % (p.consts.order as int),
{
    let mut res = *p;
    let mut i: u32 = 0;
    proof {
        lemma_pow0(p.consts.u as int);
        lemma_small_mod(p.rep as nat, p.consts.order as nat);
    }
    while i < count
        invariant
            i <= count,
            point_wf(*p),
            point_wf(res),
            res.consts == p.consts,
            res.rep == (pow(p.consts.u as int, i as nat) * p.rep) % (p.consts.order as int),
        decreases count - i,
    {
        res = res.phi();
        proof {
            let u = p.consts.u as int;
            let n = p.consts.order as int;
            lemma_mul_mod_assoc(u, pow(u, i as nat), p.rep as int, n);
            vstd::arithmetic::power::lemma_pow_adds(u, 1, i as nat);
            vstd::arithmetic::power::lemma_pow1(u);
            assert(pow(u, (i + 1) as nat) == u * pow(u, i as nat));
        }
        i = i + 1;
    }
    res
}

} // verus!
