//! End-to-end tests of the three GLS drivers against naive repeated
//! addition on the cyclic-subgroup model, plus tests of the table
//! builders, the selector and the recoded stream's shape.

use gls_multiplication::gls_multiplication::{
    compute_res, create_infinit, create_lookup, get_sign_tuple, gls16_multiply_bls48,
    gls4_multiply_bls12, gls8_multiply_bls24, populate_lookup1,
};
use gls_multiplication::group::{CurveConsts, FieldElement, G2Element};
use gls_multiplication::phi::{phi_bls24, phi_bls48};
use gls_multiplication::recoders::{recod_scalar_gls16, recod_scalar_gls4, recod_scalar_gls8};
use num_bigint::BigUint;
use num_traits::ToPrimitive;

fn pt(rep: u64, u: i128, order: u64) -> G2Element {
    G2Element {
        rep,
        consts: CurveConsts { u, order },
    }
}

fn sc(value: u64, modulus: u64) -> FieldElement {
    FieldElement { value, modulus }
}

/// Reference semantics: `p` added to the neutral element `k` times.
fn naive_mul(p: &G2Element, k: u64) -> G2Element {
    let mut acc = create_infinit(p);
    for _ in 0..k {
        acc = acc.addto(p);
    }
    acc
}

fn mulmod(a: u64, b: u64, n: u64) -> u64 {
    ((a as u128 * b as u128) % n as u128) as u64
}

// one small parameter set per curve family: odd prime order, signed
// eigenvalue
const N12: u64 = 10007;
const U12: i128 = -15;
const N24: u64 = 4999;
const U24: i128 = 7;
const N48: u64 = 65537;
const U48: i128 = -3;

#[test]
fn scenario_k5_bls12() {
    let p = pt(123, U12, N12);
    let expected = naive_mul(&p, 5);
    assert_eq!(gls4_multiply_bls12(&p, &sc(5, N12)), expected);
}

#[test]
fn scenario_k5_bls24() {
    let p = pt(321, U24, N24);
    let expected = naive_mul(&p, 5);
    assert_eq!(gls8_multiply_bls24(&p, &sc(5, N24)), expected);
}

#[test]
fn scenario_k5_bls48() {
    let p = pt(777, U48, N48);
    let expected = naive_mul(&p, 5);
    assert_eq!(gls16_multiply_bls48(&p, &sc(5, N48)), expected);
}

#[test]
fn correctness_sweep_all_drivers() {
    let p12 = pt(2024, U12, N12);
    let p24 = pt(1001, U24, N24);
    let p48 = pt(4095, U48, N48);
    for k in 0..=40u64 {
        let expected12 = naive_mul(&p12, k);
        let expected24 = naive_mul(&p24, k);
        let expected48 = naive_mul(&p48, k);
        assert_eq!(gls4_multiply_bls12(&p12, &sc(k, N12)), expected12);
        assert_eq!(gls8_multiply_bls24(&p24, &sc(k, N24)), expected24);
        assert_eq!(gls16_multiply_bls48(&p48, &sc(k, N48)), expected48);
    }
}

#[test]
fn identity_scalar_zero_gives_neutral() {
    let p12 = pt(55, U12, N12);
    let p24 = pt(66, U24, N24);
    let p48 = pt(77, U48, N48);
    assert_eq!(gls4_multiply_bls12(&p12, &sc(0, N12)), create_infinit(&p12));
    assert_eq!(gls8_multiply_bls24(&p24, &sc(0, N24)), create_infinit(&p24));
    assert_eq!(gls16_multiply_bls48(&p48, &sc(0, N48)), create_infinit(&p48));
}

#[test]
fn identity_scalar_one_gives_point() {
    let p12 = pt(55, U12, N12);
    let p24 = pt(66, U24, N24);
    let p48 = pt(77, U48, N48);
    assert_eq!(gls4_multiply_bls12(&p12, &sc(1, N12)), p12);
    assert_eq!(gls8_multiply_bls24(&p24, &sc(1, N24)), p24);
    assert_eq!(gls16_multiply_bls48(&p48, &sc(1, N48)), p48);
}

#[test]
fn negation_consistency() {
    let p12 = pt(909, U12, N12);
    let p24 = pt(808, U24, N24);
    let p48 = pt(707, U48, N48);
    for k in [1u64, 2, 3, 17, 100, 4998] {
        let s12 = sc(k % N12, N12);
        let s24 = sc(k % N24, N24);
        let s48 = sc(k % N48, N48);
        assert_eq!(
            gls4_multiply_bls12(&p12, &s12.negate()),
            gls4_multiply_bls12(&p12, &s12).negate()
        );
        assert_eq!(
            gls8_multiply_bls24(&p24, &s24.negate()),
            gls8_multiply_bls24(&p24, &s24).negate()
        );
        assert_eq!(
            gls16_multiply_bls48(&p48, &s48.negate()),
            gls16_multiply_bls48(&p48, &s48).negate()
        );
    }
}

#[test]
fn additivity() {
    let p = pt(1234, U12, N12);
    for (a, b) in [(3u64, 4u64), (100, 9906), (5000, 5008), (0, 7), (9999, 9999)] {
        let lhs = gls4_multiply_bls12(&p, &sc(a, N12)).addto(&gls4_multiply_bls12(&p, &sc(b, N12)));
        let rhs = gls4_multiply_bls12(&p, &sc((a + b) % N12, N12));
        assert_eq!(lhs, rhs);
    }
}

#[test]
fn additivity_wider_drivers() {
    let p24 = pt(2718, U24, N24);
    let p48 = pt(314, U48, N48);
    for (a, b) in [(3u64, 4u64), (4000, 999), (0, 12), (4998, 4998)] {
        let lhs24 =
            gls8_multiply_bls24(&p24, &sc(a % N24, N24)).addto(&gls8_multiply_bls24(&p24, &sc(b % N24, N24)));
        assert_eq!(lhs24, gls8_multiply_bls24(&p24, &sc((a + b) % N24, N24)));
        let lhs48 =
            gls16_multiply_bls48(&p48, &sc(a % N48, N48)).addto(&gls16_multiply_bls48(&p48, &sc(b % N48, N48)));
        assert_eq!(lhs48, gls16_multiply_bls48(&p48, &sc((a + b) % N48, N48)));
    }
}

#[test]
fn large_order_matches_direct_formula() {
    // Mersenne prime order, 61 bits, with a large negative eigenvalue
    let n: u64 = 2305843009213693951;
    let u: i128 = -0xd201000000010000;
    let p = pt(987654321987654321 % n, u, n);
    for k in [0u64, 1, 2, 5, 1 << 40, n - 1, n - 2] {
        let expected = pt(mulmod(k, p.rep, n), u, n);
        assert_eq!(gls4_multiply_bls12(&p, &sc(k, n)), expected);
        assert_eq!(gls8_multiply_bls24(&p, &sc(k, n)), expected);
        assert_eq!(gls16_multiply_bls48(&p, &sc(k, n)), expected);
    }
}

#[test]
fn table_determinism_and_entry0() {
    let p = pt(4321, U12, N12);
    let inf = create_infinit(&p);
    let mut t1 = [inf; 8];
    let mut t2 = [inf; 8];
    populate_lookup1(&p, &mut t1);
    populate_lookup1(&p, &mut t2);
    assert_eq!(t1, t2);
    assert_eq!(t1[0], p);
    // every entry matches the closed combination formula
    let lam = 15u64;  // |U12|
    let l1 = lam % N12;
    let l2 = mulmod(l1, l1, N12);
    let l3 = mulmod(l2, l1, N12);
    for j in 0..8usize {
        let mut factor = 1u64;
        if j & 1 != 0 {
            factor = (factor + l1) % N12;
        }
        if j & 2 != 0 {
            factor = (factor + l2) % N12;
        }
        if j & 4 != 0 {
            factor = (factor + l3) % N12;
        }
        assert_eq!(t1[j].rep, mulmod(factor, p.rep, N12));
        assert_eq!(t1[j].consts, p.consts);
    }
}

#[test]
fn signed_selector() {
    let p = pt(271, U24, N24);
    let inf = create_infinit(&p);
    let mut t = [inf; 8];
    populate_lookup1(&p, &mut t);
    for idx in 0..8usize {
        assert_eq!(compute_res(1, &t, idx), t[idx]);
        assert_eq!(compute_res(-1, &t, idx), t[idx].negate());
    }
}

#[test]
fn sign_tuple_from_window() {
    let (s1, s2, s3, s4) = get_sign_tuple(&3, &4, &15, &0);
    assert_eq!((s1, s2, s3, s4), (1, -1, 1, -1));
}

#[test]
fn automorphism_powers() {
    let p = pt(100, U48, N48);
    // phi applied four times multiplies the index by u to the fourth
    let u4 = mulmod(mulmod(3, 3, N48), mulmod(3, 3, N48), N48);
    let expected = pt(mulmod(u4, p.rep, N48), U48, N48);
    assert_eq!(phi_bls48(&p, 4), expected);
    assert_eq!(phi_bls24(&p, 4), expected);
    // a single application by a negative eigenvalue lands on the negation
    let q = pt(1, U48, N48);
    assert_eq!(q.phi(), pt(N48 - 3, U48, N48));
}

#[test]
fn chained_lookup_tables() {
    let p = pt(31, U48, N48);
    let inf = create_infinit(&p);
    let mut t1 = [inf; 8];
    populate_lookup1(&p, &mut t1);
    let t2 = create_lookup(inf, &t1, 48);
    let t3 = create_lookup(inf, &t2, 24);
    let u4 = mulmod(mulmod(3, 3, N48), mulmod(3, 3, N48), N48);
    for j in 0..8usize {
        assert_eq!(t2[j].rep, mulmod(u4, t1[j].rep, N48));
        assert_eq!(t3[j].rep, mulmod(u4, t2[j].rep, N48));
    }
}

#[test]
fn terminator_reached_exactly() {
    // the 4-way stream for an odd scalar: one sign bit, then 64 four-bit
    // windows, then the terminator one; shifting window by window lands
    // exactly on one and never skips past it
    let k = BigUint::from(5u64);
    let kneg = BigUint::from(N12 - 5);
    let mut code = recod_scalar_gls4(&k, &kneg, 15);
    code = &code >> 1u32;
    let one = BigUint::from(1u64);
    let sixteen = BigUint::from(16u64);
    let mut rounds = 0u32;
    while code != one {
        assert!(code >= sixteen);
        code = &code >> 4u32;
        rounds += 1;
    }
    assert_eq!(rounds, 64);
}

#[test]
fn terminator_wider_streams() {
    let k = BigUint::from(12345u64);
    let n = BigUint::from(N48);
    let code8 = recod_scalar_gls8(&k, 3, &n);
    let code16 = recod_scalar_gls16(&k, 3, &n);
    let one = BigUint::from(1u64);
    let mut c = &code8 >> 1u32;
    let mut rounds = 0u32;
    while c != one {
        assert!(c >= BigUint::from(256u64));
        c = &c >> 8u32;
        rounds += 1;
    }
    assert_eq!(rounds, 65);
    let mut c = &code16 >> 1u32;
    rounds = 0;
    while c != one {
        assert!(c >= BigUint::from(65536u64));
        c = &c >> 16u32;
        rounds += 1;
    }
    assert_eq!(rounds, 65);
}

#[test]
fn recoded_stream_value_round_trip() {
    // decode the 4-way stream by hand and check it stands for the scalar:
    // first-consumed window is the most significant signed digit
    for k in [5u64, 9999, 2, 10006] {
        let kb = BigUint::from(k);
        let kneg = BigUint::from((N12 - k) % N12);
        let code = recod_scalar_gls4(&kb, &kneg, 15);
        let sign_bit = (&code % BigUint::from(2u64)) == BigUint::from(1u64);
        let mut c = &code >> 1u32;
        let one = BigUint::from(1u64);
        let mut value: i128 = 0;
        while c != one {
            let nib = (&c % BigUint::from(16u64)).to_u64().unwrap();
            let digit = if nib % 2 == 1 { 1i128 } else { -1i128 };
            assert_eq!(nib / 2, 0, "lane-table index bits are zero");
            value = 2 * value + digit;
            c = &c >> 4u32;
        }
        let encoded = if sign_bit { -value } else { value };
        let expected = if k % 2 == 1 { k as i128 } else { -((N12 - k) as i128) };
        assert_eq!(encoded, expected);
    }
}

#[test]
fn scalar_field_negate() {
    let s = sc(3, N12);
    assert_eq!(s.negate(), sc(N12 - 3, N12));
    assert_eq!(sc(0, N12).negate(), sc(0, N12));
    assert_eq!(s.negate().negate(), s);
}

#[test]
fn group_model_basics() {
    let p = pt(6000, U12, N12);
    assert_eq!(p.double(), p.addto(&p));
    assert_eq!(p.addto(&p.negate()), create_infinit(&p));
    assert_eq!(create_infinit(&p).rep, 0);
}
