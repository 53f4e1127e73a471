//! Laws that the multiplication machinery obeys, stated against the
//! drivers' contracts and proved once and for all.

use vstd::prelude::*;

verus! {

use crate::digits::{rounds4, rounds8, rounds16, wf_code4, wf_code8, wf_code16};
use crate::gls_multiplication::{lookup1_post, table_wf};
use crate::group::{
    lemma_mod_add_left,
    lemma_mul_mod_add,
    lemma_neg_of_mod,
    point_wf,
    G2Element,
};
use vstd::arithmetic::div_mod::{lemma_mul_mod_noop_left, lemma_small_mod};

/// The index reached by naive repeated addition: `p` added to the neutral
/// element `k` times, the reference semantics of scalar multiplication.
pub open spec fn repeated_add_rep(p: G2Element, k: nat) -> int
    decreases k,
{
    if k == 0 {
        0
    } else {
        (repeated_add_rep(p, (k - 1) as nat) + p.rep) % (p.consts.order as int)
    }
}

/// Correctness: the index that every driver's contract returns — the
/// scalar times the point's index, reduced — is exactly the index of the
/// naive `k`-fold sum of `p`.
pub proof fn lemma_gls_equals_repeated_add(p: G2Element, k: nat)
    requires
        point_wf(p),
    ensures
        repeated_add_rep(p, k) == (k * p.rep) % (p.consts.order as int),
    decreases k,
{
    let n = p.consts.order as int;
    if k == 0 {
        lemma_small_mod(0, p.consts.order as nat);
    } else {
        lemma_gls_equals_repeated_add(p, (k - 1) as nat);
        lemma_mod_add_left((k - 1) * p.rep, p.rep as int, n);
        assert((k - 1) * p.rep + p.rep == k * p.rep) by (nonlinear_arith);
    }
}

/// Identity scalars: the zero multiple is the neutral index and the one
/// multiple is the point itself, so the drivers return the neutral
/// element for scalar zero and the input point for scalar one.
pub proof fn lemma_identity_scalar(p: G2Element)
    requires
        point_wf(p),
    ensures
        (0 * p.rep) % (p.consts.order as int) == 0,
        (1 * p.rep) % (p.consts.order as int) == p.rep,
{
    lemma_small_mod(p.rep as nat, p.consts.order as nat);
    lemma_small_mod(0, p.consts.order as nat);
}

/// Negation consistency: multiplying by the field negation of a scalar
/// yields the negation of the multiple, so `gls_multiply(P, -k)` equals
/// `negate(gls_multiply(P, k))` by the drivers' and `negate`'s contracts.
pub proof fn lemma_negation_consistency(k: int, prep: int, n: int)
    requires
        n > 1,
        0 <= prep < n,
        0 <= k < n,
    ensures
        (((-k) % n) * prep) % n == (-((k * prep) % n)) % n,
{
    lemma_mul_mod_noop_left(-k, prep, n);
    lemma_neg_of_mod(k * prep, n);
    assert((-k) * prep == -(k * prep)) by (nonlinear_arith);
}

/// Additivity: the sum of the `a`-multiple and the `b`-multiple is the
/// multiple by the field sum of the two scalars.
pub proof fn lemma_additivity(a: int, b: int, prep: int, n: int)
    requires
        n > 1,
        0 <= prep < n,
        0 <= a,
        0 <= b,
    ensures
        ((a * prep) % n + (b * prep) % n) % n == (((a + b) % n) * prep) % n,
{
    lemma_mul_mod_add(a, b, prep, n);
    lemma_mul_mod_noop_left(a + b, prep, n);
}

/// Lane-table determinism: the degree-1 table builder's contract pins
/// every entry — its index and its curve constants — so two tables built
/// from the same input point are identical, entry for entry.
pub proof fn lemma_table_determinism(input: G2Element, t1: [G2Element; 8], t2: [G2Element; 8])
    requires
        point_wf(input),
        table_wf(t1, input.consts),
        table_wf(t2, input.consts),
        lookup1_post(input, t1),
        lookup1_post(input, t2),
    ensures
        forall|j: int| 0 <= j < 8 ==> t1[j] == t2[j],
{
}

/// Stream position after `k` shifts by the 4-bit lane window.
pub open spec fn shifted4(c: nat, k: nat) -> nat
    decreases k,
{
    if k == 0 {
        c
    } else {
        shifted4(c / 16, (k - 1) as nat)
    }
}

pub open spec fn shifted8(c: nat, k: nat) -> nat
    decreases k,
{
    if k == 0 {
        c
    } else {
        shifted8(c / 256, (k - 1) as nat)
    }
}

pub open spec fn shifted16(c: nat, k: nat) -> nat
    decreases k,
{
    if k == 0 {
        c
    } else {
        shifted16(c / 65536, (k - 1) as nat)
    }
}

/// Terminator invariant, 4-way: a well-formed stream, shifted right window
/// by window, reaches exactly the value one after its round count — which
/// the recoder fixes to the scalar bit length — and every earlier position
/// still holds a full window, so the loop can never step past the
/// terminator to a smaller nonzero remainder.
pub proof fn lemma_terminator4(c: nat)
    requires
        wf_code4(c),
    ensures
        shifted4(c, rounds4(c)) == 1,
        forall|j: nat| j < rounds4(c) ==> #[trigger] shifted4(c, j) >= 16,
    decreases c,
{
    if c != 1 {
        lemma_terminator4(c / 16);
        assert forall|j: nat| j < rounds4(c) implies #[trigger] shifted4(c, j) >= 16 by {
            if j != 0 {
                assert(shifted4(c, j) == shifted4(c / 16, (j - 1) as nat));
            }
        }
    }
}

/// Terminator invariant, 8-way.
pub proof fn lemma_terminator8(c: nat)
    requires
        wf_code8(c),
    ensures
        shifted8(c, rounds8(c)) == 1,
        forall|j: nat| j < rounds8(c) ==> #[trigger] shifted8(c, j) >= 256,
    decreases c,
{
    if c != 1 {
        lemma_terminator8(c / 256);
        assert forall|j: nat| j < rounds8(c) implies #[trigger] shifted8(c, j) >= 256 by {
            if j != 0 {
                assert(shifted8(c, j) == shifted8(c / 256, (j - 1) as nat));
            }
        }
    }
}

/// Terminator invariant, 16-way.
pub proof fn lemma_terminator16(c: nat)
    requires
        wf_code16(c),
    ensures
        shifted16(c, rounds16(c)) == 1,
        forall|j: nat| j < rounds16(c) ==> #[trigger] shifted16(c, j) >= 65536,
    decreases c,
{
    if c != 1 {
        lemma_terminator16(c / 65536);
        assert forall|j: nat| j < rounds16(c) implies #[trigger] shifted16(c, j) >= 65536 by {
            if j != 0 {
                assert(shifted16(c, j) == shifted16(c / 65536, (j - 1) as nat));
            }
        }
    }
}

} // verus!
