//! Scalar recoders: they turn a scalar into the signed-digit stream that
//! the drivers consume.
//!
//! Every supported stream shape is produced with all lane-table indices
//! zero: the sign lane of each table then carries one signed-binary digit
//! per round, with all digits nonzero (their magnitude is always at least
//! one, because every table entry contains the table's base point). An odd
//! operand `a` below two to the `m` has the exact all-nonzero signed
//! representation whose digit at position `t` is plus one when bit `t + 1`
//! of `a` is set and minus one otherwise, with a forced leading plus one.
//! The 4-way recoder encodes the scalar or its negation, whichever is odd,
//! and records the choice in the stream's sign bit; the 8-way and 16-way
//! recoders subtract the forced constant contribution of the higher lanes
//! from the scalar modulo the subgroup order and pick an odd
//! representative of the difference.

use vstd::prelude::*;

verus! {

use crate::big::{big_add_u64, big_nat, big_one, big_shl, big_to_u64};
use crate::digits::{
    code_val4,
    code_val8,
    code_val16,
    entry_factor,
    lemma_push4,
    lemma_push8,
    lemma_push16,
    nib_val,
    rounds4,
    rounds8,
    rounds16,
    wf_code4,
    wf_code8,
    wf_code16,
};
use crate::group::{lemma_mod_add_left, mul_mod_u64};
use num_bigint::BigUint;
use vstd::arithmetic::div_mod::{
    lemma_div_denominator,
    lemma_fundamental_div_mod,
    lemma_fundamental_div_mod_converse,
    lemma_mod_breakdown,
    lemma_mod_multiples_vanish,
    lemma_mul_mod_noop_general,
    lemma_small_mod,
};
use vstd::arithmetic::power::pow;
use vstd::arithmetic::power2::{lemma_pow2_adds, lemma_pow2_pos, lemma2_to64, pow2};

/// The sum of an even and an odd nonnegative number is odd.
proof fn lemma_odd_sum(a: int, n: int)
    requires
        a >= 0,
        n >= 0,
        a % 2 == 0,
        n % 2 == 1,
    ensures
        (a + n) % 2 == 1,
{
    lemma_fundamental_div_mod(a, 2);
    lemma_fundamental_div_mod(n, 2);
    lemma_fundamental_div_mod_converse(a + n, 2, a / 2 + n / 2, 1);
}

/// The fourth power of the eigenvalue magnitude, reduced: what the chained
/// squarings compute.
proof fn lemma_l4(li: int, ni: int, lm: int, l2: int, l4: int)
    requires
        ni > 1,
        li >= 0,
        lm == li % ni,
        l2 == (lm * lm) % ni,
        l4 == (l2 * l2) % ni,
    ensures
        l4 == pow(li, 4) % ni,
{
    lemma_mul_mod_noop_general(li, li, ni);
    lemma_mul_mod_noop_general(li * li, li * li, ni);
    reveal_with_fuel(pow, 5);
    assert((li * li) * (li * li) == li * (li * (li * (li * 1)))) by (nonlinear_arith);
}

/// Recodes a scalar for the 4-way driver. The caller passes the scalar,
/// its field negation and the eigenvalue magnitude; one of the two
/// operands is odd and is encoded, and bit 0 of the stream records whether
/// it was the negation.
pub fn recod_scalar_gls4(k: &BigUint, kneg: &BigUint, lam: u128) -> (code: BigUint)
    requires
        big_nat(*k) <= u64::MAX,
        big_nat(*kneg) <= u64::MAX,
        big_nat(*k) % 2 == 1 || big_nat(*kneg) % 2 == 1,
    ensures
        wf_code4(big_nat(code) / 2),
        rounds4(big_nat(code) / 2) == 64,
        big_nat(code) / 2 >= 16,
        big_nat(code) % 2 == 0 ==> code_val4(big_nat(code) / 2, lam as int) == big_nat(*k),
        big_nat(code) % 2 == 1 ==> code_val4(big_nat(code) / 2, lam as int) == big_nat(*kneg),
{
    let kv: u64 = big_to_u64(k);
    let nv: u64 = big_to_u64(kneg);
    let a: u64 = if kv % 2 == 1 {
        kv
    } else {
        nv
    };
    let gbit: u64 = if kv % 2 == 1 {
        0
    } else {
        1
    };
    proof {
        lemma2_to64();
    }
    let mut rem: u64 = a / 2;
    let mut c: BigUint = big_one();
    let mut i: u32 = 0;
    while i < 64
        invariant
            i <= 64,
            a % 2 == 1,
            rem == a as nat / pow2((i + 1) as nat),
            big_nat(c) >= 1,
            wf_code4(big_nat(c)),
            rounds4(big_nat(c)) == i as nat,
            i < 64 ==> code_val4(big_nat(c), lam as int) == (a as int) % (pow2((i + 1) as nat)
                as int) - pow2(i as nat),
            i == 64 ==> code_val4(big_nat(c), lam as int) == a,
        decreases 64 - i,
    {
        let ghost cn = big_nat(c);
        let ghost cv = code_val4(cn, lam as int);
        let s: u64 = if i == 63 {
            1
        } else {
            rem % 2
        };
        c = big_add_u64(&big_shl(&c, 4), s);
        proof {
            lemma2_to64();
            let l = lam as int;
            assert(entry_factor(0, l) == 1);
            lemma_push4(cn, s as nat, l);
            assert(big_nat(c) == 16 * cn + s);
            assert(nib_val(s as nat, l) == if s == 1 { 1int } else { -1int });
            let p1 = pow2((i + 1) as nat) as int;
            let pi = pow2(i as nat) as int;
            lemma_pow2_pos((i + 1) as nat);
            lemma_pow2_pos(i as nat);
            lemma_pow2_adds(i as nat, 1);
            assert(p1 == 2 * pi);
            if i < 63 {
                let b = (a as int / p1) % 2;
                lemma_mod_breakdown(a as int, p1, 2);
                lemma_pow2_adds((i + 1) as nat, 1);
                assert(a as int % (pow2((i + 2) as nat) as int) == p1 * b + a as int % p1);
                assert(nib_val(s as nat, l) == 2 * b - 1);
                assert((2 * b - 1) * pi == b * (2 * pi) - pi) by (nonlinear_arith);
            } else {
                assert(a as nat % pow2(64) == a as nat) by {
                    lemma_small_mod(a as nat, pow2(64));
                }
                assert(nib_val(s as nat, l) == 1);
            }
            lemma_div_denominator(a as int, p1, 2);
            lemma_pow2_adds((i + 1) as nat, 1);
        }
        rem = rem / 2;
        i = i + 1;
    }
    let code = big_add_u64(&big_shl(&c, 1), gbit);
    proof {
        lemma2_to64();
        lemma_fundamental_div_mod_converse(
            big_nat(code) as int,
            2,
            big_nat(c) as int,
            gbit as int,
        );
    }
    code
}

/// Recodes a scalar for the 8-way driver, reducing modulo the subgroup
/// order passed as `modulus`. The high lane of every round carries a fixed
/// all-nonzero representation of one, so its constant contribution — the
/// fourth power of the eigenvalue magnitude — is subtracted from the
/// scalar up front, and an odd representative of the difference is
/// encoded in the low lane.
pub fn recod_scalar_gls8(k: &BigUint, lam: u128, modulus: &BigUint) -> (code: BigUint)
    requires
        big_nat(*modulus) > 1,
        big_nat(*modulus) % 2 == 1,
        big_nat(*modulus) <= u64::MAX,
        big_nat(*k) < big_nat(*modulus),
    ensures
        wf_code8(big_nat(code) / 2),
        rounds8(big_nat(code) / 2) == 65,
        big_nat(code) / 2 >= 256,
        big_nat(code) % 2 == 0,
        code_val8(big_nat(code) / 2, lam as int) % (big_nat(*modulus) as int) == big_nat(*k),
{
    let ghost li = lam as int;
    let n: u64 = big_to_u64(modulus);
    let ghost ni = n as int;
    let kv: u64 = big_to_u64(k);
    let lm: u64 = (lam % (n as u128)) as u64;
    let l2: u64 = mul_mod_u64(lm, lm, n);
    let l4: u64 = mul_mod_u64(l2, l2, n);
    proof {
        lemma_l4(li, ni, lm as int, l2 as int, l4 as int);
    }
    let a0: u64 = (((kv as u128) + (n as u128) - (l4 as u128)) % (n as u128)) as u64;
    let a: u128 = if a0 % 2 == 1 {
        a0 as u128
    } else {
        proof {
            lemma_odd_sum(a0 as int, ni);
        }
        (a0 as u128) + (n as u128)
    };
    proof {
        lemma2_to64();
        lemma_pow2_adds(64, 1);
        assert(a < pow2(65));
    }
    let mut rem: u128 = a / 2;
    let mut c: BigUint = big_one();
    let mut i: u32 = 0;
    while i < 65
        invariant
            i <= 65,
            a % 2 == 1,
            a < pow2(65),
            rem == a as nat / pow2((i + 1) as nat),
            big_nat(c) >= 1,
            wf_code8(big_nat(c)),
            rounds8(big_nat(c)) == i as nat,
            i < 65 ==> code_val8(big_nat(c), li) == (a as int) % (pow2((i + 1) as nat) as int)
                - pow2(i as nat) + pow(li, 4) * (1 - pow2(i as nat)),
            i == 65 ==> code_val8(big_nat(c), li) == a + pow(li, 4),
        decreases 65 - i,
    {
        let ghost cn = big_nat(c);
        let ghost cv = code_val8(cn, li);
        let s: u64 = if i == 64 {
            1
        } else {
            (rem % 2) as u64
        };
        let s2: u64 = if i == 64 {
            1
        } else {
            0
        };
        let limb: u64 = s + 16 * s2;
        c = big_add_u64(&big_shl(&c, 8), limb);
        proof {
            lemma2_to64();
            assert(entry_factor(0, li) == 1);
            lemma_push8(cn, s as nat, s2 as nat, li);
            assert(big_nat(c) == 256 * cn + (s + 16 * s2));
            let x = pow(li, 4);
            let pi = pow2(i as nat) as int;
            let pi1 = pow2((i + 1) as nat) as int;
            lemma_pow2_pos(i as nat);
            lemma_pow2_pos((i + 1) as nat);
            lemma_pow2_adds(i as nat, 1);
            assert(pi1 == 2 * pi);
            if i < 64 {
                let b = (a as int / pi1) % 2;
                lemma_mod_breakdown(a as int, pi1, 2);
                lemma_pow2_adds((i + 1) as nat, 1);
                assert(a as int % (pow2((i + 2) as nat) as int) == pi1 * b + a as int % pi1);
                assert(nib_val(s as nat, li) == 2 * b - 1);
                assert(nib_val(s2 as nat, li) == -1);
                assert((2 * b - 1) * pi == b * (2 * pi) - pi) by (nonlinear_arith);
                assert(x * (1 - pi) + (-1 * x) * pi == x * (1 - 2 * pi)) by (nonlinear_arith);
                assert((nib_val(s as nat, li) + x * nib_val(s2 as nat, li)) * pi == (2 * b - 1) * pi
                    + (-1 * x) * pi) by (nonlinear_arith)
                    requires
                        nib_val(s as nat, li) == 2 * b - 1,
                        nib_val(s2 as nat, li) == -1,
                ;
            } else {
                lemma_small_mod(a as nat, pow2(65));
                assert(nib_val(s as nat, li) == 1);
                assert(nib_val(s2 as nat, li) == 1);
                assert((1 + x * 1) * pi + (a as int - pi + x * (1 - pi)) == a + x)
                    by (nonlinear_arith);
            }
            lemma_div_denominator(a as int, pi1, 2);
            lemma_pow2_adds((i + 1) as nat, 1);
        }
        rem = rem / 2;
        i = i + 1;
    }
    let code = big_shl(&c, 1);
    proof {
        lemma2_to64();
        lemma_fundamental_div_mod_converse(big_nat(code) as int, 2, big_nat(c) as int, 0);
        let x = pow(li, 4);
        // the encoded value is congruent to the scalar
        assert(a + x == (a0 + x) + if a == a0 { 0int } else { ni });
        lemma_mod_multiples_vanish(if a == a0 { 0int } else { 1int }, a0 + x, ni);
        lemma_mod_add_left(kv + ni - l4, x, ni);
        lemma_mod_multiples_vanish(1, kv + x - l4, ni);
        lemma_fundamental_div_mod(x, ni);
        lemma_mod_multiples_vanish(x / ni, kv as int, ni);
        lemma_small_mod(kv as nat, n as nat);
        assert((a + x) % ni == kv);
    }
    code
}

/// Recodes a scalar for the 16-way driver, reducing modulo the subgroup
/// order passed as `modulus`. The three high lanes of every round carry a
/// fixed all-nonzero representation of one each, so their constant
/// contribution — the fourth, eighth and twelfth powers of the eigenvalue
/// magnitude — is subtracted from the scalar up front, and an odd
/// representative of the difference is encoded in the low lane.
#[verifier::rlimit(60)]
pub fn recod_scalar_gls16(k: &BigUint, lam: u64, modulus: &BigUint) -> (code: BigUint)
    requires
        big_nat(*modulus) > 1,
        big_nat(*modulus) % 2 == 1,
        big_nat(*modulus) <= u64::MAX,
        big_nat(*k) < big_nat(*modulus),
    ensures
        wf_code16(big_nat(code) / 2),
        rounds16(big_nat(code) / 2) == 65,
        big_nat(code) / 2 >= 65536,
        big_nat(code) % 2 == 0,
        code_val16(big_nat(code) / 2, lam as int) % (big_nat(*modulus) as int) == big_nat(*k),
{
    let ghost li = lam as int;
    let n: u64 = big_to_u64(modulus);
    let ghost ni = n as int;
    let kv: u64 = big_to_u64(k);
    let lm: u64 = lam % n;
    let l2: u64 = mul_mod_u64(lm, lm, n);
    let l4: u64 = mul_mod_u64(l2, l2, n);
    let l8: u64 = mul_mod_u64(l4, l4, n);
    let l12: u64 = mul_mod_u64(l8, l4, n);
    let ghost y = pow(li, 4) + pow(li, 8) + pow(li, 12);
    proof {
        lemma_l4(li, ni, lm as int, l2 as int, l4 as int);
        lemma_mul_mod_noop_general(pow(li, 4), pow(li, 4), ni);
        vstd::arithmetic::power::lemma_pow_adds(li, 4, 4);
        lemma_mul_mod_noop_general(pow(li, 8), pow(li, 4), ni);
        vstd::arithmetic::power::lemma_pow_adds(li, 8, 4);
        assert(l8 == pow(li, 8) % ni);
        assert(l12 == pow(li, 12) % ni);
    }
    let a0: u64 = (((kv as u128) + 3 * (n as u128) - (l4 as u128) - (l8 as u128) - (l12 as u128))
        % (n as u128)) as u64;
    let a: u128 = if a0 % 2 == 1 {
        a0 as u128
    } else {
        proof {
            lemma_odd_sum(a0 as int, ni);
        }
        (a0 as u128) + (n as u128)
    };
    proof {
        lemma2_to64();
        lemma_pow2_adds(64, 1);
        assert(a < pow2(65));
    }
    let mut rem: u128 = a / 2;
    let mut c: BigUint = big_one();
    let mut i: u32 = 0;
    while i < 65
        invariant
            i <= 65,
            a % 2 == 1,
            a < pow2(65),
            rem == a as nat / pow2((i + 1) as nat),
            big_nat(c) >= 1,
            wf_code16(big_nat(c)),
            rounds16(big_nat(c)) == i as nat,
            y == pow(li, 4) + pow(li, 8) + pow(li, 12),
            i < 65 ==> code_val16(big_nat(c), li) == (a as int) % (pow2((i + 1) as nat) as int)
                - pow2(i as nat) + y * (1 - pow2(i as nat)),
            i == 65 ==> code_val16(big_nat(c), li) == a + y,
        decreases 65 - i,
    {
        let ghost cn = big_nat(c);
        let ghost cv = code_val16(cn, li);
        let s: u64 = if i == 64 {
            1
        } else {
            (rem % 2) as u64
        };
        let s2: u64 = if i == 64 {
            1
        } else {
            0
        };
        let limb: u64 = s + 16 * s2 + 256 * s2 + 4096 * s2;
        c = big_add_u64(&big_shl(&c, 16), limb);
        proof {
            lemma2_to64();
            assert(entry_factor(0, li) == 1);
            lemma_push16(cn, s as nat, s2 as nat, s2 as nat, s2 as nat, li);
            assert(big_nat(c) == 65536 * cn + (s + 16 * s2 + 256 * s2 + 4096 * s2));
            let x4 = pow(li, 4);
            let x8 = pow(li, 8);
            let x12 = pow(li, 12);
            let nv2 = nib_val(s2 as nat, li);
            let pi = pow2(i as nat) as int;
            let pi1 = pow2((i + 1) as nat) as int;
            lemma_pow2_pos(i as nat);
            lemma_pow2_pos((i + 1) as nat);
            lemma_pow2_adds(i as nat, 1);
            assert(pi1 == 2 * pi);
            assert(x4 * nv2 + x8 * nv2 + x12 * nv2 == y * nv2) by (nonlinear_arith)
                requires
                    y == x4 + x8 + x12,
            ;
            if i < 64 {
                let b = (a as int / pi1) % 2;
                lemma_mod_breakdown(a as int, pi1, 2);
                lemma_pow2_adds((i + 1) as nat, 1);
                let pi2 = pow2((i + 2) as nat) as int;
                assert(a as int % pi2 == pi1 * b + a as int % pi1);
                assert(nib_val(s as nat, li) == 2 * b - 1);
                assert(nv2 == -1);
                let cvnew = code_val16(big_nat(c), li);
                assert(cvnew == ((2 * b - 1) + y * (-1)) * pi + cv);
                assert(cvnew == a as int % pi2 - pi1 + y * (1 - pi1)) by (nonlinear_arith)
                    requires
                        cvnew == ((2 * b - 1) + y * (-1)) * pi + cv,
                        cv == a as int % pi1 - pi + y * (1 - pi),
                        a as int % pi2 == pi1 * b + a as int % pi1,
                        pi1 == 2 * pi,
                ;
            } else {
                lemma_small_mod(a as nat, pow2(65));
                assert(nib_val(s as nat, li) == 1);
                assert(nv2 == 1);
                assert((1 + y * 1) * pi + (a as int - pi + y * (1 - pi)) == a + y)
                    by (nonlinear_arith);
            }
            lemma_div_denominator(a as int, pi1, 2);
            lemma_pow2_adds((i + 1) as nat, 1);
        }
        rem = rem / 2;
        i = i + 1;
    }
    let code = big_shl(&c, 1);
    proof {
        lemma2_to64();
        lemma_fundamental_div_mod_converse(big_nat(code) as int, 2, big_nat(c) as int, 0);
        assert(a + y == (a0 + y) + if a == a0 { 0int } else { ni });
        lemma_mod_multiples_vanish(if a == a0 { 0int } else { 1int }, a0 + y, ni);
        lemma_mod_add_left(kv + 3 * ni - l4 - l8 - l12, y, ni);
        lemma_mod_multiples_vanish(3, kv + y - l4 - l8 - l12, ni);
        lemma_fundamental_div_mod(pow(li, 4), ni);
        lemma_fundamental_div_mod(pow(li, 8), ni);
        lemma_fundamental_div_mod(pow(li, 12), ni);
        lemma_mod_multiples_vanish(
            pow(li, 4) / ni + pow(li, 8) / ni + pow(li, 12) / ni,
            kv as int,
            ni,
        );
        assert(ni * (pow(li, 4) / ni + pow(li, 8) / ni + pow(li, 12) / ni) + kv == kv + y - l4 - l8
            - l12) by (nonlinear_arith)
            requires
                y == pow(li, 4) + pow(li, 8) + pow(li, 12),
                pow(li, 4) == ni * (pow(li, 4) / ni) + l4,
                pow(li, 8) == ni * (pow(li, 8) / ni) + l8,
                pow(li, 12) == ni * (pow(li, 12) / ni) + l12,
        ;
        lemma_small_mod(kv as nat, n as nat);
        assert((a + y) % ni == kv);
    }
    code
}

} // verus!
