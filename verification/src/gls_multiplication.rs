//! The GLS multiplication machinery: lane-table construction, signed table
//! selection and the three double-and-accumulate drivers, one per curve
//! family (4-way, 8-way and 16-way fan-out).

use vstd::prelude::*;

verus! {

use crate::big::{big_from_u64, big_mod, big_nat, big_one, big_shr, big_to_u64, big_eq};
use crate::digits::{
    code_val4,
    code_val8,
    code_val16,
    entry_factor,
    lemma_step4,
    lemma_step8,
    lemma_step16,
    lemma_window8,
    lemma_window16,
    nib_index,
    nib_sign,
    nib_val,
    round_val8,
    round_val16,
    rounds4,
    rounds8,
    rounds16,
    wf_code4,
    wf_code8,
    wf_code16,
};
use crate::group::{
    abs_u,
    lemma_mul_mod_add,
    lemma_mul_mod_assoc,
    lemma_neg_of_mod,
    point_wf,
    scalar_wf,
    CurveConsts,
    FieldElement,
    G2Element,
};
use crate::phi::{phi_bls24, phi_bls48};
use crate::recoders::{recod_scalar_gls4, recod_scalar_gls8, recod_scalar_gls16};
use vstd::arithmetic::div_mod::{
    lemma_fundamental_div_mod,
    lemma_fundamental_div_mod_converse,
    lemma_mod_multiples_vanish,
    lemma_small_mod,
};
use vstd::arithmetic::power::pow;
use vstd::arithmetic::power2::{lemma2_to64, pow2};

/// Every entry of a lane table lies on the curve of `c`.
pub open spec fn table_wf(t: [G2Element; 8], c: CurveConsts) -> bool {
    forall|j: int| 0 <= j < 8 ==> point_wf(#[trigger] t[j]) && t[j].consts == c
}

/// What the degree-1 lane table holds: entry `j` is the multiple of the
/// input point given by `entry_factor` of `j` at the eigenvalue magnitude.
pub open spec fn lookup1_post(input: G2Element, t: [G2Element; 8]) -> bool {
    forall|j: int|
        0 <= j < 8 ==> (#[trigger] t[j]).rep == (entry_factor(j as nat, abs_u(input.consts.u))
            * input.rep) % (input.consts.order as int)
}

/// Builds the additive identity for the point's curve: in the index model
/// of the cyclic subgroup the neutral element is index zero (in projective
/// coordinates it would be built from coordinates one, one, zero).
pub fn create_infinit(input: &G2Element) -> (r: G2Element)
    requires
        point_wf(*input),
    ensures
        r.consts == input.consts,
        point_wf(r),
        r.rep == 0,
{
    G2Element { rep: 0, consts: input.consts }
}

/// Signed table selection: the entry at `idx`, or its negation when the
/// sign flag is minus one.
pub fn compute_res(sign: i8, lookup: &[G2Element; 8], idx: usize) -> (r: G2Element)
    requires
        sign == 1i8 || sign == -1i8,
        idx < 8,
        point_wf(lookup[idx as int]),
    ensures
        r.consts == lookup[idx as int].consts,
        point_wf(r),
        r.rep == ((sign as int) * lookup[idx as int].rep) % (lookup[idx as int].consts.order
            as int),
{
    proof {
        lemma_small_mod(lookup[idx as int].rep as nat, lookup[idx as int].consts.order as nat);
    }
    if sign == 1 {
        let r = lookup[idx];
        proof {
            assert(r == lookup[idx as int]);
            assert((sign as int) * r.rep == r.rep as int);
        }
        r
    } else {
        let r = lookup[idx].negate();
        proof {
            assert((sign as int) * lookup[idx as int].rep == -(lookup[idx as int].rep as int));
        }
        r
    }
}

/// Builds the degree-1 lane table: entry 0 is the point itself; the three
/// index bits add the first, second and third automorphism images, with
/// the odd images negated when the eigenvalue is negative, so that every
/// image contributes the eigenvalue magnitude to that power.
pub fn populate_lookup1(input: &G2Element, lookup1: &mut [G2Element; 8])
    requires
        point_wf(*input),
    ensures
        table_wf(*final(lookup1), input.consts),
        lookup1_post(*input, *final(lookup1)),
        (*final(lookup1))[0] == *input,
{
    let ghost n = input.consts.order as int;
    let ghost p = input.rep as int;
    let ghost u = input.consts.u as int;
    let ghost lam = abs_u(input.consts.u);

    let mut p1 = input.phi();
    let p2 = p1.phi();
    let mut p3 = p2.phi();

    proof {
        lemma_mul_mod_assoc(u, u, p, n);
        lemma_mul_mod_assoc(u, u * u, p, n);
    }

    if input.consts.u < 0 {
        p1 = p1.negate();
        p3 = p3.negate();
        proof {
            lemma_neg_of_mod(u * p, n);
            lemma_neg_of_mod((u * u) * p, n);
            lemma_neg_of_mod(((u * (u * u))) * p, n);
            assert(-(u * p) == lam * p && (u * u) * p == (lam * lam) * p && -((u * (u * u)) * p)
                == (lam * (lam * lam)) * p) by (nonlinear_arith)
                requires
                    u == -lam,
            ;
        }
    } else {
        proof {
            assert(u * p == lam * p && (u * u) * p == (lam * lam) * p && (u * (u * u)) * p == (lam
                * (lam * lam)) * p) by (nonlinear_arith)
                requires
                    u == lam,
            ;
        }
    }
    proof {
        assert(u * (u * u) == (u * u) * u);
        assert(p1.rep == (lam * p) % n);
        assert(p2.rep == ((lam * lam) * p) % n);
        assert(p3.rep == ((lam * (lam * lam))) * p % n);
        lemma_small_mod(input.rep as nat, input.consts.order as nat);
    }

    let e0 = *input;
    let e1 = p1.addto(&e0);
    let e2 = p2.addto(&e0);
    let e3 = p2.addto(&e1);
    let e4 = p3.addto(&e0);
    let e5 = p3.addto(&e1);
    let e6 = p3.addto(&e2);
    let e7 = p3.addto(&e3);
    proof {
        let l2 = lam * lam;
        let l3 = lam * (lam * lam);
        lemma_mul_mod_add(lam, 1, p, n);
        lemma_mul_mod_add(l2, 1, p, n);
        lemma_mul_mod_add(l2, 1 + lam, p, n);
        lemma_mul_mod_add(l3, 1, p, n);
        lemma_mul_mod_add(l3, 1 + lam, p, n);
        lemma_mul_mod_add(l3, 1 + l2, p, n);
        lemma_mul_mod_add(l3, 1 + lam + l2, p, n);
        assert((1int) * p == p) by (nonlinear_arith);
    }
    *lookup1 = [e0, e1, e2, e3, e4, e5, e6, e7];
}

/// Maps an existing lane table through the fourth power of the
/// degree-24 or degree-48 automorphism, preserving index correspondence.
/// Any other degree tag is a programming-contract violation and is ruled
/// out by the precondition.
pub fn create_lookup(infinit: G2Element, lookup1: &[G2Element; 8], degree: u8) -> (r: [G2Element; 8])
    requires
        degree == 24 || degree == 48,
        point_wf(infinit),
        table_wf(*lookup1, infinit.consts),
    ensures
        table_wf(r, infinit.consts),
        forall|j: int|
            0 <= j < 8 ==> (#[trigger] r[j]).rep == (pow(abs_u(infinit.consts.u), 4)
                * lookup1[j].rep) % (infinit.consts.order as int),
{
    proof {
        lemma_pow_abs4(infinit.consts.u as int);
    }
    match degree {
        24 => [
            phi_bls24(&lookup1[0], 4),
            phi_bls24(&lookup1[1], 4),
            phi_bls24(&lookup1[2], 4),
            phi_bls24(&lookup1[3], 4),
            phi_bls24(&lookup1[4], 4),
            phi_bls24(&lookup1[5], 4),
            phi_bls24(&lookup1[6], 4),
            phi_bls24(&lookup1[7], 4),
        ],
        48 => [
            phi_bls48(&lookup1[0], 4),
            phi_bls48(&lookup1[1], 4),
            phi_bls48(&lookup1[2], 4),
            phi_bls48(&lookup1[3], 4),
            phi_bls48(&lookup1[4], 4),
            phi_bls48(&lookup1[5], 4),
            phi_bls48(&lookup1[6], 4),
            phi_bls48(&lookup1[7], 4),
        ],
        _ => {
            proof {
                assert(false);
            }
            [infinit, infinit, infinit, infinit, infinit, infinit, infinit, infinit]
        },
    }
}

/// Scalar multiplication on G2 for the BLS12 family (4-way fan-out):
/// recode the scalar, build one lane table, then double and accumulate one
/// signed 4-bit digit per round until the stream's terminator, and apply
/// the overall output sign.
#[verifier::loop_isolation(false)]
pub fn gls4_multiply_bls12(input: &G2Element, scalar: &FieldElement) -> (r: G2Element)
    requires
        point_wf(*input),
        scalar_wf(*scalar),
        scalar.modulus == input.consts.order,
        input.consts.order % 2 == 1,
    ensures
        r.consts == input.consts,
        point_wf(r),
        r.rep == (scalar.value * input.rep) % (input.consts.order as int),
{
    let ghost n = input.consts.order as int;
    let ghost p = input.rep as int;
    let ghost lam = abs_u(input.consts.u);
    let ghost kk = scalar.value as int;

    if scalar.value == 0 {
        proof {
            lemma_small_mod(0, input.consts.order as nat);
        }
        return create_infinit(input);
    }
    let u = input.consts.u;
    let ua: u128 = if u >= 0 {
        u as u128
    } else {
        (-u) as u128
    };
    let kb = scalar.to_big_uint();
    let sneg = scalar.negate();
    let knegb = sneg.to_big_uint();
    proof {
        lemma_mod_multiples_vanish(1, -kk, n);
        lemma_small_mod((n - kk) as nat, n as nat);
        assert(sneg.value == n - kk);
        if kk % 2 == 0 {
            lemma_fundamental_div_mod(n, 2);
            lemma_fundamental_div_mod(kk, 2);
            lemma_fundamental_div_mod_converse(n - kk, 2, n / 2 - kk / 2, 1);
        }
    }
    let mut code = recod_scalar_gls4(&kb, &knegb, ua);
    let ghost cfull = big_nat(code);

    let infinit = create_infinit(input);
    let mut lookup = [infinit; 8];
    populate_lookup1(input, &mut lookup);

    let ff = big_from_u64(256);
    let one = big_one();
    let limb0: u64 = big_to_u64(&big_mod(&code, &ff));
    let out_sig: i8 = if limb0 % 2 == 0 {
        1i8
    } else {
        -1i8
    };
    proof {
        lemma_window8(cfull);
    }
    code = big_shr(&code, 1);
    let ghost c0 = big_nat(code);
    proof {
        lemma2_to64();
        assert(c0 == cfull / 2);
        assert(rounds4(c0) == 64);
        let ghost target = code_val4(c0, lam);
        assert(cfull % 2 == 0 ==> target == kk);
        assert(cfull % 2 == 1 ==> target == n - kk);
    }

    let limb: u64 = big_to_u64(&big_mod(&code, &ff));
    let nib: u64 = limb % 16;
    let sign: i8 = if nib % 2 == 1 {
        1i8
    } else {
        -1i8
    };
    let idx: usize = (nib / 2) as usize;
    let mut result = compute_res(sign, &lookup, idx);
    let ghost mut v: int = nib_val(c0 % 16, lam);
    proof {
        lemma_window8(c0);
        lemma_small_mod(c0 % 16, 16);
        assert(idx as nat == nib_index(c0 % 16));
        assert(sign as int == nib_sign(c0 % 16));
        lemma_mul_mod_assoc(sign as int, entry_factor(idx as nat, lam), p, n);
        assert(result.rep == (v * p) % n);
        assert(c0 != 1);
        lemma_step4(c0, lam);
    }
    code = big_shr(&code, 4);
    proof {
        assert(big_nat(code) == c0 / 16);
        assert(code_val4(c0, lam) == v * pow2(rounds4(big_nat(code))) + code_val4(
            big_nat(code),
            lam,
        ));
    }
    while !big_eq(&code, &one)
        invariant
            point_wf(result),
            result.consts == input.consts,
            wf_code4(big_nat(code)),
            big_nat(code) >= 1,
            result.rep == (v * p) % n,
            code_val4(c0, lam) == v * pow2(rounds4(big_nat(code))) + code_val4(
                big_nat(code),
                lam,
            ),
        decreases big_nat(code),
    {
        let ghost cc = big_nat(code);
        let ghost vold = v;
        result = result.double();
        let limb: u64 = big_to_u64(&big_mod(&code, &ff));
        let nib: u64 = limb % 16;
        let sign: i8 = if nib % 2 == 1 {
            1i8
        } else {
            -1i8
        };
        let idx: usize = (nib / 2) as usize;
        let t = compute_res(sign, &lookup, idx);
        proof {
            lemma_window8(cc);
            lemma_small_mod(cc % 16, 16);
            assert(idx as nat == nib_index(cc % 16));
            assert(sign as int == nib_sign(cc % 16));
            lemma_mul_mod_assoc(2, vold, p, n);
            lemma_mul_mod_assoc(sign as int, entry_factor(idx as nat, lam), p, n);
            lemma_mul_mod_add(2 * vold, nib_val(cc % 16, lam), p, n);
        }
        result = result.addto(&t);
        code = big_shr(&code, 4);
        proof {
            let rv = nib_val(cc % 16, lam);
            v = 2 * vold + rv;
            lemma_step4(cc, lam);
            assert(big_nat(code) == cc / 16);
            assert(result.rep == (v * p) % n);
            let pp = pow2(rounds4(cc / 16)) as int;
            assert(vold * (2 * pp) + (rv * pp + code_val4(cc / 16, lam)) == (2 * vold + rv) * pp
                + code_val4(cc / 16, lam)) by (nonlinear_arith);
        }
    }
    proof {
        lemma2_to64();
        assert(big_nat(code) == 1);
        assert(rounds4(1) == 0);
        assert(code_val4(1, lam) == 0);
        assert(pow2(0) == 1);
        assert(code_val4(c0, lam) == v * pow2(rounds4(big_nat(code))) + code_val4(
            big_nat(code),
            lam,
        ));
        assert(v * pow2(rounds4(big_nat(code))) == v * 1);
        assert(code_val4(c0, lam) == v);
        assert(result.rep == (code_val4(c0, lam) * p) % n);
    }
    if out_sig == 1 {
        proof {
            assert(cfull % 2 == 0);
            assert(result.rep == (kk * p) % n);
        }
        result
    } else {
        let rneg = result.negate();
        proof {
            assert(cfull % 2 == 1);
            lemma_neg_of_mod((n - kk) * p, n);
            assert(-((n - kk) * p) == n * (-p) + kk * p) by (nonlinear_arith);
            lemma_mod_multiples_vanish(-p, kk * p, n);
        }
        rneg
    }
}

/// Scalar multiplication on G2 for the BLS24 family (8-way fan-out): two
/// lane tables, the second mapped through the fourth power of the
/// degree-24 automorphism, consuming one 8-bit window — two signed 4-bit
/// digits — per round.
#[verifier::loop_isolation(false)]
pub fn gls8_multiply_bls24(input: &G2Element, scalar: &FieldElement) -> (r: G2Element)
    requires
        point_wf(*input),
        scalar_wf(*scalar),
        scalar.modulus == input.consts.order,
        input.consts.order % 2 == 1,
    ensures
        r.consts == input.consts,
        point_wf(r),
        r.rep == (scalar.value * input.rep) % (input.consts.order as int),
{
    let ghost n = input.consts.order as int;
    let ghost p = input.rep as int;
    let ghost lam = abs_u(input.consts.u);
    let ghost x = pow(lam, 4);
    let ghost kk = scalar.value as int;

    let u = input.consts.u;
    let ua: u128 = if u >= 0 {
        u as u128
    } else {
        (-u) as u128
    };
    let kb = scalar.to_big_uint();
    let nb = big_from_u64(input.consts.order);
    let mut code = recod_scalar_gls8(&kb, ua, &nb);
    let ghost cfull = big_nat(code);

    let infinit = create_infinit(input);
    let mut lookup1 = [infinit; 8];
    populate_lookup1(input, &mut lookup1);
    let lookup2 = create_lookup(infinit, &lookup1, 24);

    let ff = big_from_u64(256);
    let one = big_one();
    let limb0: u64 = big_to_u64(&big_mod(&code, &ff));
    let out_sig: i8 = if limb0 % 2 == 0 {
        1i8
    } else {
        -1i8
    };
    proof {
        lemma_window8(cfull);
    }
    code = big_shr(&code, 1);
    let ghost c0 = big_nat(code);
    proof {
        lemma2_to64();
        assert(c0 == cfull / 2);
        assert(rounds8(c0) == 65);
        assert(code_val8(c0, lam) % n == kk);
    }

    let limb: u64 = big_to_u64(&big_mod(&code, &ff));
    let n1: u64 = limb % 16;
    let n2: u64 = limb / 16;
    let sign1: i8 = if n1 % 2 == 1 {
        1i8
    } else {
        -1i8
    };
    let sign2: i8 = if n2 % 2 == 1 {
        1i8
    } else {
        -1i8
    };
    let t1 = compute_res(sign1, &lookup1, (n1 / 2) as usize);
    let t2 = compute_res(sign2, &lookup2, (n2 / 2) as usize);
    let ghost mut v: int = round_val8(c0, lam);
    proof {
        lemma_gls8_round(c0, lam, p, n, lookup1, lookup2, *input, n1, n2);
        assert(t1.rep == (nib_val(c0 % 16, lam) * p) % n);
        assert(t2.rep == ((x * nib_val((c0 / 16) % 16, lam)) * p) % n);
        lemma_mul_mod_add(nib_val(c0 % 16, lam), x * nib_val((c0 / 16) % 16, lam), p, n);
        assert(c0 != 1);
        lemma_step8(c0, lam);
    }
    let mut result = t1.addto(&t2);
    code = big_shr(&code, 8);
    proof {
        assert(big_nat(code) == c0 / 256);
        assert(result.rep == (v * p) % n);
        assert(code_val8(c0, lam) == v * pow2(rounds8(big_nat(code))) + code_val8(
            big_nat(code),
            lam,
        ));
    }
    while !big_eq(&code, &one)
        invariant
            point_wf(result),
            result.consts == input.consts,
            wf_code8(big_nat(code)),
            big_nat(code) >= 1,
            result.rep == (v * p) % n,
            code_val8(c0, lam) == v * pow2(rounds8(big_nat(code))) + code_val8(
                big_nat(code),
                lam,
            ),
        decreases big_nat(code),
    {
        let ghost cc = big_nat(code);
        let ghost vold = v;
        result = result.double();
        let limb: u64 = big_to_u64(&big_mod(&code, &ff));
        let n1: u64 = limb % 16;
        let n2: u64 = limb / 16;
        let sign1: i8 = if n1 % 2 == 1 {
            1i8
        } else {
            -1i8
        };
        let sign2: i8 = if n2 % 2 == 1 {
            1i8
        } else {
            -1i8
        };
        let t1 = compute_res(sign1, &lookup1, (n1 / 2) as usize);
        let t2 = compute_res(sign2, &lookup2, (n2 / 2) as usize);
        proof {
            lemma_gls8_round(cc, lam, p, n, lookup1, lookup2, *input, n1, n2);
            lemma_mul_mod_assoc(2, vold, p, n);
            lemma_mul_mod_add(2 * vold, nib_val(cc % 16, lam), p, n);
            lemma_mul_mod_add(
                2 * vold + nib_val(cc % 16, lam),
                x * nib_val((cc / 16) % 16, lam),
                p,
                n,
            );
        }
        result = result.addto(&t1).addto(&t2);
        code = big_shr(&code, 8);
        proof {
            let rv = round_val8(cc, lam);
            v = 2 * vold + rv;
            lemma_step8(cc, lam);
            assert(big_nat(code) == cc / 256);
            assert(result.rep == (v * p) % n);
            let pp = pow2(rounds8(cc / 256)) as int;
            assert(vold * (2 * pp) + (rv * pp + code_val8(cc / 256, lam)) == (2 * vold + rv) * pp
                + code_val8(cc / 256, lam)) by (nonlinear_arith);
        }
    }
    proof {
        lemma2_to64();
        assert(big_nat(code) == 1);
        assert(rounds8(1) == 0);
        assert(code_val8(1, lam) == 0);
        assert(pow2(0) == 1);
        assert(code_val8(c0, lam) == v * pow2(rounds8(big_nat(code))) + code_val8(
            big_nat(code),
            lam,
        ));
        assert(v * pow2(rounds8(big_nat(code))) == v * 1);
        assert(code_val8(c0, lam) == v);
        vstd::arithmetic::div_mod::lemma_mul_mod_noop_left(v, p, n);
        assert(result.rep == (kk * p) % n);
    }
    if out_sig == 1 {
        result
    } else {
        proof {
            assert(false);
        }
        result.negate()
    }
}

/// One 8-bit window read against the two lane tables: what the two signed
/// selections contribute, in terms of the window's digit groups.
proof fn lemma_gls8_round(
    cc: nat,
    lam: int,
    p: int,
    n: int,
    lookup1: [G2Element; 8],
    lookup2: [G2Element; 8],
    input: G2Element,
    n1: u64,
    n2: u64,
)
    requires
        n > 1,
        p == input.rep,
        lam == abs_u(input.consts.u),
        n == input.consts.order,
        point_wf(input),
        table_wf(lookup1, input.consts),
        table_wf(lookup2, input.consts),
        lookup1_post(input, lookup1),
        forall|j: int|
            0 <= j < 8 ==> (#[trigger] lookup2[j]).rep == (pow(lam, 4) * lookup1[j].rep) % n,
        n1 == (cc % 256) % 16,
        n2 == (cc % 256) / 16,
    ensures
        n1 == cc % 16,
        n2 == (cc / 16) % 16,
        (nib_sign(n1 as nat) * lookup1[(n1 / 2) as int].rep) % n == (nib_val(cc % 16, lam) * p)
            % n,
        (nib_sign(n2 as nat) * lookup2[(n2 / 2) as int].rep) % n == ((pow(lam, 4) * nib_val(
            (cc / 16) % 16,
            lam,
        )) * p) % n,
{
    let x = pow(lam, 4);
    lemma_window8(cc);
    lemma_small_mod(cc % 16, 16);
    lemma_small_mod((cc / 16) % 16, 16);
    let i1 = (n1 / 2) as int;
    let i2 = (n2 / 2) as int;
    assert(i1 as nat == nib_index(cc % 16));
    assert(i2 as nat == nib_index((cc / 16) % 16));
    lemma_mul_mod_assoc(nib_sign(n1 as nat), entry_factor(i1 as nat, lam), p, n);
    lemma_mul_mod_assoc(x, entry_factor(i2 as nat, lam), p, n);
    lemma_mul_mod_assoc(nib_sign(n2 as nat), x * entry_factor(i2 as nat, lam), p, n);
    lemma_mul_mod_assoc(x * nib_val((cc / 16) % 16, lam), 1, p, n);
    assert(nib_sign(n2 as nat) * (x * entry_factor(i2 as nat, lam)) == x * (nib_sign(n2 as nat)
        * entry_factor(i2 as nat, lam))) by (nonlinear_arith);
}

/// Scalar multiplication on G2 for the BLS48 family (16-way fan-out): four
/// lane tables chained through the fourth power of the degree-48
/// automorphism, consuming one 16-bit window — four signed 4-bit digits —
/// per round.
#[verifier::loop_isolation(false)]
#[verifier::rlimit(60)]
pub fn gls16_multiply_bls48(input: &G2Element, scalar: &FieldElement) -> (r: G2Element)
    requires
        point_wf(*input),
        scalar_wf(*scalar),
        scalar.modulus == input.consts.order,
        input.consts.order % 2 == 1,
        abs_u(input.consts.u) <= u64::MAX,
    ensures
        r.consts == input.consts,
        point_wf(r),
        r.rep == (scalar.value * input.rep) % (input.consts.order as int),
{
    let ghost n = input.consts.order as int;
    let ghost p = input.rep as int;
    let ghost lam = abs_u(input.consts.u);
    let ghost kk = scalar.value as int;

    let u = input.consts.u;
    let ua: u64 = if u >= 0 {
        u as u64
    } else {
        ((-u) as u128) as u64
    };
    let kb = scalar.to_big_uint();
    let nb = big_from_u64(input.consts.order);
    let mut code = recod_scalar_gls16(&kb, ua, &nb);
    let ghost cfull = big_nat(code);

    let infinit = create_infinit(input);
    let mut lookup1 = [infinit; 8];
    populate_lookup1(input, &mut lookup1);
    let lookup2 = create_lookup(infinit, &lookup1, 48);
    let lookup3 = create_lookup(infinit, &lookup2, 48);
    let lookup4 = create_lookup(infinit, &lookup3, 48);

    let ffff = big_from_u64(65536);
    let one = big_one();
    let limb0: u64 = big_to_u64(&big_mod(&code, &ffff));
    let out_sig: i8 = if limb0 % 2 == 0 {
        1i8
    } else {
        -1i8
    };
    proof {
        lemma_window16(cfull);
    }
    code = big_shr(&code, 1);
    let ghost c0 = big_nat(code);
    proof {
        lemma2_to64();
        assert(c0 == cfull / 2);
        assert(rounds16(c0) == 65);
        assert(code_val16(c0, lam) % n == kk);
    }

    let limb: u64 = big_to_u64(&big_mod(&code, &ffff));
    let c1: usize = (limb % 16) as usize;
    let c2: usize = ((limb / 16) % 16) as usize;
    let c3: usize = ((limb / 256) % 16) as usize;
    let c4: usize = ((limb / 4096) % 16) as usize;
    let (sign1, sign2, sign3, sign4) = get_sign_tuple(&c1, &c2, &c3, &c4);
    proof {
        lemma_gls16_round(
            c0,
            lam,
            p,
            n,
            lookup1,
            lookup2,
            lookup3,
            lookup4,
            *input,
            c1 as nat,
            c2 as nat,
            c3 as nat,
            c4 as nat,
        );
    }
    let r1 = compute_res(sign1, &lookup1, c1 / 2);
    let r2 = compute_res(sign2, &lookup2, c2 / 2);
    let r3 = compute_res(sign3, &lookup3, c3 / 2);
    let r4 = compute_res(sign4, &lookup4, c4 / 2);
    let result1 = r1.addto(&r2);
    let result2 = r3.addto(&r4);
    let ghost x4 = pow(lam, 4);
    let ghost x8 = pow(lam, 8);
    let ghost x12 = pow(lam, 12);
    let ghost mut v: int = round_val16(c0, lam);
    proof {
        lemma_mul_mod_add(nib_val(c0 % 16, lam), x4 * nib_val((c0 / 16) % 16, lam), p, n);
        lemma_mul_mod_add(
            x8 * nib_val((c0 / 256) % 16, lam),
            x12 * nib_val((c0 / 4096) % 16, lam),
            p,
            n,
        );
        lemma_mul_mod_add(
            nib_val(c0 % 16, lam) + x4 * nib_val((c0 / 16) % 16, lam),
            x8 * nib_val((c0 / 256) % 16, lam) + x12 * nib_val((c0 / 4096) % 16, lam),
            p,
            n,
        );
        assert(c0 != 1);
        lemma_step16(c0, lam);
    }
    let mut result = result1.addto(&result2);
    code = big_shr(&code, 16);
    proof {
        assert(big_nat(code) == c0 / 65536);
        assert(result.rep == (v * p) % n);
        assert(code_val16(c0, lam) == v * pow2(rounds16(big_nat(code))) + code_val16(
            big_nat(code),
            lam,
        ));
    }
    while !big_eq(&code, &one)
        invariant
            point_wf(result),
            result.consts == input.consts,
            wf_code16(big_nat(code)),
            big_nat(code) >= 1,
            result.rep == (v * p) % n,
            code_val16(c0, lam) == v * pow2(rounds16(big_nat(code))) + code_val16(
                big_nat(code),
                lam,
            ),
        decreases big_nat(code),
    {
        let ghost cc = big_nat(code);
        let ghost vold = v;
        result = result.double();
        let limb: u64 = big_to_u64(&big_mod(&code, &ffff));
        let c1: usize = (limb % 16) as usize;
        let c2: usize = ((limb / 16) % 16) as usize;
        let c3: usize = ((limb / 256) % 16) as usize;
        let c4: usize = ((limb / 4096) % 16) as usize;
        let (sign1, sign2, sign3, sign4) = get_sign_tuple(&c1, &c2, &c3, &c4);
        proof {
            lemma_gls16_round(
                cc,
                lam,
                p,
                n,
                lookup1,
                lookup2,
                lookup3,
                lookup4,
                *input,
                c1 as nat,
                c2 as nat,
                c3 as nat,
                c4 as nat,
            );
        }
        let r1 = compute_res(sign1, &lookup1, c1 / 2);
        let r2 = compute_res(sign2, &lookup2, c2 / 2);
        let r3 = compute_res(sign3, &lookup3, c3 / 2);
        let r4 = compute_res(sign4, &lookup4, c4 / 2);
        let result1 = r1.addto(&r2);
        let result2 = r3.addto(&r4);
        proof {
            lemma_mul_mod_add(nib_val(cc % 16, lam), x4 * nib_val((cc / 16) % 16, lam), p, n);
            lemma_mul_mod_add(
                x8 * nib_val((cc / 256) % 16, lam),
                x12 * nib_val((cc / 4096) % 16, lam),
                p,
                n,
            );
            lemma_mul_mod_add(
                nib_val(cc % 16, lam) + x4 * nib_val((cc / 16) % 16, lam),
                x8 * nib_val((cc / 256) % 16, lam) + x12 * nib_val((cc / 4096) % 16, lam),
                p,
                n,
            );
            lemma_mul_mod_assoc(2, vold, p, n);
            lemma_mul_mod_add(2 * vold, round_val16(cc, lam), p, n);
        }
        result = result.addto(&result1.addto(&result2));
        code = big_shr(&code, 16);
        proof {
            let rv = round_val16(cc, lam);
            v = 2 * vold + rv;
            lemma_step16(cc, lam);
            assert(big_nat(code) == cc / 65536);
            assert(result.rep == (v * p) % n);
            let pp = pow2(rounds16(cc / 65536)) as int;
            assert(vold * (2 * pp) + (rv * pp + code_val16(cc / 65536, lam)) == (2 * vold + rv)
                * pp + code_val16(cc / 65536, lam)) by (nonlinear_arith);
        }
    }
    proof {
        lemma2_to64();
        assert(big_nat(code) == 1);
        assert(rounds16(1) == 0);
        assert(code_val16(1, lam) == 0);
        assert(pow2(0) == 1);
        assert(code_val16(c0, lam) == v * pow2(rounds16(big_nat(code))) + code_val16(
            big_nat(code),
            lam,
        ));
        assert(v * pow2(rounds16(big_nat(code))) == v * 1);
        assert(code_val16(c0, lam) == v);
        vstd::arithmetic::div_mod::lemma_mul_mod_noop_left(v, p, n);
        assert(result.rep == (kk * p) % n);
    }
    if out_sig == 1 {
        result
    } else {
        proof {
            assert(false);
        }
        result.negate()
    }
}

/// One 16-bit window read against the four lane tables: what the four
/// signed selections contribute, in terms of the window's digit groups.
proof fn lemma_gls16_round(
    cc: nat,
    lam: int,
    p: int,
    n: int,
    lookup1: [G2Element; 8],
    lookup2: [G2Element; 8],
    lookup3: [G2Element; 8],
    lookup4: [G2Element; 8],
    input: G2Element,
    n1: nat,
    n2: nat,
    n3: nat,
    n4: nat,
)
    requires
        n > 1,
        p == input.rep,
        lam == abs_u(input.consts.u),
        n == input.consts.order,
        point_wf(input),
        table_wf(lookup1, input.consts),
        table_wf(lookup2, input.consts),
        table_wf(lookup3, input.consts),
        table_wf(lookup4, input.consts),
        lookup1_post(input, lookup1),
        forall|j: int|
            0 <= j < 8 ==> (#[trigger] lookup2[j]).rep == (pow(lam, 4) * lookup1[j].rep) % n,
        forall|j: int|
            0 <= j < 8 ==> (#[trigger] lookup3[j]).rep == (pow(lam, 4) * lookup2[j].rep) % n,
        forall|j: int|
            0 <= j < 8 ==> (#[trigger] lookup4[j]).rep == (pow(lam, 4) * lookup3[j].rep) % n,
        n1 == (cc % 65536) % 16,
        n2 == ((cc % 65536) / 16) % 16,
        n3 == ((cc % 65536) / 256) % 16,
        n4 == ((cc % 65536) / 4096) % 16,
    ensures
        n1 == cc % 16,
        n2 == (cc / 16) % 16,
        n3 == (cc / 256) % 16,
        n4 == (cc / 4096) % 16,
        (nib_sign(n1) * lookup1[(n1 / 2) as int].rep) % n == (nib_val(cc % 16, lam) * p) % n,
        (nib_sign(n2) * lookup2[(n2 / 2) as int].rep) % n == ((pow(lam, 4) * nib_val(
            (cc / 16) % 16,
            lam,
        )) * p) % n,
        (nib_sign(n3) * lookup3[(n3 / 2) as int].rep) % n == ((pow(lam, 8) * nib_val(
            (cc / 256) % 16,
            lam,
        )) * p) % n,
        (nib_sign(n4) * lookup4[(n4 / 2) as int].rep) % n == ((pow(lam, 12) * nib_val(
            (cc / 4096) % 16,
            lam,
        )) * p) % n,
{
    let x4 = pow(lam, 4);
    let x8 = pow(lam, 8);
    let x12 = pow(lam, 12);
    lemma_window16(cc);
    lemma_small_mod(cc % 16, 16);
    lemma_small_mod((cc / 16) % 16, 16);
    lemma_small_mod((cc / 256) % 16, 16);
    lemma_small_mod((cc / 4096) % 16, 16);
    vstd::arithmetic::power::lemma_pow_adds(lam, 4, 4);
    vstd::arithmetic::power::lemma_pow_adds(lam, 8, 4);
    let i1 = (n1 / 2) as int;
    let i2 = (n2 / 2) as int;
    let i3 = (n3 / 2) as int;
    let i4 = (n4 / 2) as int;
    assert(i1 as nat == nib_index(cc % 16));
    assert(i2 as nat == nib_index((cc / 16) % 16));
    assert(i3 as nat == nib_index((cc / 256) % 16));
    assert(i4 as nat == nib_index((cc / 4096) % 16));
    let e1 = entry_factor(i1 as nat, lam);
    let e2 = entry_factor(i2 as nat, lam);
    let e3 = entry_factor(i3 as nat, lam);
    let e4 = entry_factor(i4 as nat, lam);
    // lane 1
    lemma_mul_mod_assoc(nib_sign(n1), e1, p, n);
    // lane 2: flatten the chained table, then scale by the sign
    lemma_mul_mod_assoc(x4, e2, p, n);
    lemma_mul_mod_assoc(nib_sign(n2), x4 * e2, p, n);
    assert(nib_sign(n2) * (x4 * e2) == x4 * (nib_sign(n2) * e2)) by (nonlinear_arith);
    // lane 3
    lemma_mul_mod_assoc(x4, e3, p, n);
    lemma_mul_mod_assoc(x4, x4 * e3, p, n);
    assert(x4 * (x4 * e3) == x8 * e3) by (nonlinear_arith)
        requires
            x8 == x4 * x4,
    ;
    lemma_mul_mod_assoc(nib_sign(n3), x8 * e3, p, n);
    assert(nib_sign(n3) * (x8 * e3) == x8 * (nib_sign(n3) * e3)) by (nonlinear_arith);
    // lane 4
    lemma_mul_mod_assoc(x4, e4, p, n);
    lemma_mul_mod_assoc(x4, x4 * e4, p, n);
    lemma_mul_mod_assoc(x4, (x4 * (x4 * e4)), p, n);
    assert(x4 * (x4 * (x4 * e4)) == x12 * e4 && x4 * (x4 * e4) == x8 * e4) by (nonlinear_arith)
        requires
            x8 == x4 * x4,
            x12 == x8 * x4,
    ;
    lemma_mul_mod_assoc(nib_sign(n4), x12 * e4, p, n);
    assert(nib_sign(n4) * (x12 * e4) == x12 * (nib_sign(n4) * e4)) by (nonlinear_arith);
}

/// The fourth power of the eigenvalue equals the fourth power of its
/// magnitude.
pub proof fn lemma_pow_abs4(u: int)
    ensures
        pow(u, 4) == pow(
            if u >= 0 {
                u
            } else {
                -u
            },
            4,
        ),
{
    let a = if u >= 0 {
        u
    } else {
        -u
    };
    reveal_with_fuel(pow, 5);
    assert((-a) * ((-a) * ((-a) * ((-a) * 1))) == a * (a * (a * (a * 1)))) by (nonlinear_arith);
}

/// The per-digit sign flags of the four 4-bit groups of one 16-bit window:
/// plus one where the group's low bit is set, else minus one.
pub fn get_sign_tuple(c1: &usize, c2: &usize, c3: &usize, c4: &usize) -> (r: (i8, i8, i8, i8))
    ensures
        r.0 as int == crate::digits::nib_sign(*c1 as nat),
        r.1 as int == crate::digits::nib_sign(*c2 as nat),
        r.2 as int == crate::digits::nib_sign(*c3 as nat),
        r.3 as int == crate::digits::nib_sign(*c4 as nat),
{
    (
        if *c1 % 2 == 1 {
            1i8
        } else {
            -1i8
        },
        if *c2 % 2 == 1 {
            1i8
        } else {
            -1i8
        },
        if *c3 % 2 == 1 {
            1i8
        } else {
            -1i8
        },
        if *c4 % 2 == 1 {
            1i8
        } else {
            -1i8
        },
    )
}

} // verus!
