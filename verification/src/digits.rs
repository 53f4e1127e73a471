//! The recoded digit stream and its meaning.
//!
//! A stream is an unsigned integer. Its lowest bit is the overall output
//! sign; above it sit fixed-width windows, one per round, consumed lowest
//! window first; the residual value one terminates the stream. Every 4-bit
//! group inside a window encodes a sign (bit 0, set meaning plus) and a
//! 3-bit lane-table index (bits 1 to 3). The first consumed window is the
//! most significant round, so the value a stream stands for doubles with
//! every remaining round.

use vstd::prelude::*;

verus! {

use vstd::arithmetic::div_mod::{
    lemma_fundamental_div_mod_converse,
    lemma_mod_breakdown,
    lemma_mod_mod,
    lemma_mod_multiples_vanish,
    lemma_small_mod,
};
use vstd::arithmetic::power::pow;
use vstd::arithmetic::power2::{lemma_pow2_adds, lemma2_to64, pow2};

/// Sign encoded in bit 0 of a 4-bit digit group: set means plus one.
pub open spec fn nib_sign(nib: nat) -> int {
    if nib % 2 == 1 {
        1
    } else {
        -1
    }
}

/// Lane-table index encoded in bits 1 to 3 of a 4-bit digit group.
pub open spec fn nib_index(nib: nat) -> nat {
    (nib % 16) / 2
}

/// The multiple of the base point held by lane-table entry `j`: the point
/// itself, plus the automorphism images selected by the three index bits,
/// for eigenvalue magnitude `lam`.
pub open spec fn entry_factor(j: nat, lam: int) -> int {
    1 + (if j % 2 == 1 {
        lam
    } else {
        0
    }) + (if (j / 2) % 2 == 1 {
        lam * lam
    } else {
        0
    }) + (if (j / 4) % 2 == 1 {
        lam * lam * lam
    } else {
        0
    })
}

/// The signed multiple of the base point contributed by one 4-bit digit
/// group read against the first lane table.
pub open spec fn nib_val(nib: nat, lam: int) -> int {
    nib_sign(nib) * entry_factor(nib_index(nib), lam)
}

/// Contribution of the lowest 4-bit window of stream `c` (4-way fan-out).
pub open spec fn round_val4(c: nat, lam: int) -> int {
    nib_val(c % 16, lam)
}

/// Contribution of the lowest 8-bit window (8-way fan-out): low group
/// against the first lane table, high group against its fourth-power
/// automorphism image.
pub open spec fn round_val8(c: nat, lam: int) -> int {
    nib_val(c % 16, lam) + pow(lam, 4) * nib_val((c / 16) % 16, lam)
}

/// Contribution of the lowest 16-bit window (16-way fan-out): four groups
/// against the four chained lane tables.
pub open spec fn round_val16(c: nat, lam: int) -> int {
    nib_val(c % 16, lam) + pow(lam, 4) * nib_val((c / 16) % 16, lam) + pow(lam, 8) * nib_val(
        (c / 256) % 16,
        lam,
    ) + pow(lam, 12) * nib_val((c / 4096) % 16, lam)
}

/// Rounds left in a 4-way stream until the terminator.
pub open spec fn rounds4(c: nat) -> nat
    decreases c,
{
    if c <= 1 {
        0
    } else {
        1 + rounds4(c / 16)
    }
}

pub open spec fn rounds8(c: nat) -> nat
    decreases c,
{
    if c <= 1 {
        0
    } else {
        1 + rounds8(c / 256)
    }
}

pub open spec fn rounds16(c: nat) -> nat
    decreases c,
{
    if c <= 1 {
        0
    } else {
        1 + rounds16(c / 65536)
    }
}

/// A well-formed 4-way stream: shifting window by window lands exactly on
/// the terminator one, never on a smaller remainder.
pub open spec fn wf_code4(c: nat) -> bool
    decreases c,
{
    if c == 1 {
        true
    } else if c < 16 {
        false
    } else {
        wf_code4(c / 16)
    }
}

pub open spec fn wf_code8(c: nat) -> bool
    decreases c,
{
    if c == 1 {
        true
    } else if c < 256 {
        false
    } else {
        wf_code8(c / 256)
    }
}

pub open spec fn wf_code16(c: nat) -> bool
    decreases c,
{
    if c == 1 {
        true
    } else if c < 65536 {
        false
    } else {
        wf_code16(c / 65536)
    }
}

/// The signed multiple of the base point that a whole 4-way stream stands
/// for: each consumed window is doubled once per remaining round.
pub open spec fn code_val4(c: nat, lam: int) -> int
    decreases c,
{
    if c <= 1 {
        0
    } else {
        round_val4(c, lam) * pow2(rounds4(c / 16)) + code_val4(c / 16, lam)
    }
}

pub open spec fn code_val8(c: nat, lam: int) -> int
    decreases c,
{
    if c <= 1 {
        0
    } else {
        round_val8(c, lam) * pow2(rounds8(c / 256)) + code_val8(c / 256, lam)
    }
}

pub open spec fn code_val16(c: nat, lam: int) -> int
    decreases c,
{
    if c <= 1 {
        0
    } else {
        round_val16(c, lam) * pow2(rounds16(c / 65536)) + code_val16(c / 65536, lam)
    }
}

/// One consuming step of a 4-way stream: what shifting one window off does
/// to the round count, well-formedness and value.
pub proof fn lemma_step4(c: nat, lam: int)
    requires
        wf_code4(c),
        c != 1,
    ensures
        c >= 16,
        wf_code4(c / 16),
        c / 16 >= 1,
        rounds4(c) == 1 + rounds4(c / 16),
        code_val4(c, lam) == round_val4(c, lam) * pow2(rounds4(c / 16)) + code_val4(c / 16, lam),
        pow2(rounds4(c)) == 2 * pow2(rounds4(c / 16)),
{
    lemma_pow2_adds(1, rounds4(c / 16));
    lemma2_to64();
}

pub proof fn lemma_step8(c: nat, lam: int)
    requires
        wf_code8(c),
        c != 1,
    ensures
        c >= 256,
        wf_code8(c / 256),
        c / 256 >= 1,
        rounds8(c) == 1 + rounds8(c / 256),
        code_val8(c, lam) == round_val8(c, lam) * pow2(rounds8(c / 256)) + code_val8(c / 256, lam),
        pow2(rounds8(c)) == 2 * pow2(rounds8(c / 256)),
{
    lemma_pow2_adds(1, rounds8(c / 256));
    lemma2_to64();
}

pub proof fn lemma_step16(c: nat, lam: int)
    requires
        wf_code16(c),
        c != 1,
    ensures
        c >= 65536,
        wf_code16(c / 65536),
        c / 65536 >= 1,
        rounds16(c) == 1 + rounds16(c / 65536),
        code_val16(c, lam) == round_val16(c, lam) * pow2(rounds16(c / 65536)) + code_val16(
            c / 65536,
            lam,
        ),
        pow2(rounds16(c)) == 2 * pow2(rounds16(c / 65536)),
{
    lemma_pow2_adds(1, rounds16(c / 65536));
    lemma2_to64();
}

/// Reading the lowest 8-bit window first does not change which bits the
/// sign and the low digit group see.
pub proof fn lemma_window8(c: nat)
    ensures
        (c % 256) % 2 == c % 2,
        (c % 256) % 16 == c % 16,
        ((c % 256) / 16) % 16 == (c / 16) % 16,
{
    lemma_mod_mod(c as int, 2, 128);
    lemma_mod_mod(c as int, 16, 16);
    lemma_mod_breakdown(c as int, 16, 16);
    lemma_fundamental_div_mod_converse(
        (c % 256) as int,
        16,
        ((c as int / 16) % 16),
        (c % 16) as int,
    );
    lemma_small_mod(((c / 16) % 16), 16);
}

/// Likewise for the lowest 16-bit window and its four digit groups.
pub proof fn lemma_window16(c: nat)
    ensures
        (c % 65536) % 2 == c % 2,
        (c % 65536) % 16 == c % 16,
        ((c % 65536) / 16) % 16 == (c / 16) % 16,
        ((c % 65536) / 256) % 16 == (c / 256) % 16,
        ((c % 65536) / 4096) % 16 == (c / 4096) % 16,
{
    lemma_mod_mod(c as int, 2, 32768);
    lemma_mod_mod(c as int, 16, 4096);
    lemma_mod_breakdown(c as int, 16, 4096);
    lemma_fundamental_div_mod_converse(
        (c % 65536) as int,
        16,
        ((c as int / 16) % 4096),
        (c % 16) as int,
    );
    lemma_mod_mod(c as int / 16, 16, 256);
    lemma_mod_breakdown(c as int, 256, 256);
    lemma_fundamental_div_mod_converse(
        (c % 65536) as int,
        256,
        ((c as int / 256) % 256),
        (c % 256) as int,
    );
    lemma_mod_mod(c as int, 256, 256);
    lemma_mod_mod(c as int / 256, 16, 16);
    lemma_mod_breakdown(c as int, 4096, 16);
    lemma_fundamental_div_mod_converse(
        (c % 65536) as int,
        4096,
        ((c as int / 4096) % 16),
        (c % 4096) as int,
    );
    lemma_mod_mod(c as int, 4096, 16);
    lemma_small_mod(((c / 4096) % 16), 16);
}

/// Appending one 4-bit digit group below an existing 4-way stream.
pub proof fn lemma_push4(c: nat, nib: nat, lam: int)
    requires
        nib < 16,
        c >= 1,
    ensures
        16 * c + nib >= 16,
        rounds4(16 * c + nib) == 1 + rounds4(c),
        wf_code4(c) ==> wf_code4(16 * c + nib),
        code_val4(16 * c + nib, lam) == nib_val(nib, lam) * pow2(rounds4(c)) + code_val4(c, lam),
{
    let cc = 16 * c + nib;
    lemma_fundamental_div_mod_converse(cc as int, 16, c as int, nib as int);
    lemma_small_mod(nib, 16);
}

/// Appending one 8-bit window, given as its two digit groups.
pub proof fn lemma_push8(c: nat, n1: nat, n2: nat, lam: int)
    requires
        n1 < 16,
        n2 < 16,
        c >= 1,
    ensures
        256 * c + (n1 + 16 * n2) >= 256,
        rounds8(256 * c + (n1 + 16 * n2)) == 1 + rounds8(c),
        wf_code8(c) ==> wf_code8(256 * c + (n1 + 16 * n2)),
        code_val8(256 * c + (n1 + 16 * n2), lam) == (nib_val(n1, lam) + pow(lam, 4) * nib_val(
            n2,
            lam,
        )) * pow2(rounds8(c)) + code_val8(c, lam),
{
    let limb = n1 + 16 * n2;
    let cc = 256 * c + limb;
    lemma_fundamental_div_mod_converse(cc as int, 256, c as int, limb as int);
    lemma_fundamental_div_mod_converse(cc as int, 16, (16 * c + n2) as int, n1 as int);
    lemma_mod_multiples_vanish(c as int, n2 as int, 16);
    lemma_small_mod(n1, 16);
    lemma_small_mod(n2, 16);
    assert(round_val8(cc, lam) == nib_val(n1, lam) + pow(lam, 4) * nib_val(n2, lam));
}

/// Appending one 16-bit window, given as its four digit groups.
pub proof fn lemma_push16(c: nat, n1: nat, n2: nat, n3: nat, n4: nat, lam: int)
    requires
        n1 < 16,
        n2 < 16,
        n3 < 16,
        n4 < 16,
        c >= 1,
    ensures
        65536 * c + (n1 + 16 * n2 + 256 * n3 + 4096 * n4) >= 65536,
        rounds16(65536 * c + (n1 + 16 * n2 + 256 * n3 + 4096 * n4)) == 1 + rounds16(c),
        wf_code16(c) ==> wf_code16(65536 * c + (n1 + 16 * n2 + 256 * n3 + 4096 * n4)),
        code_val16(65536 * c + (n1 + 16 * n2 + 256 * n3 + 4096 * n4), lam) == (nib_val(n1, lam)
            + pow(lam, 4) * nib_val(n2, lam) + pow(lam, 8) * nib_val(n3, lam) + pow(lam, 12)
            * nib_val(n4, lam)) * pow2(rounds16(c)) + code_val16(c, lam),
{
    let limb = n1 + 16 * n2 + 256 * n3 + 4096 * n4;
    let cc = 65536 * c + limb;
    lemma_fundamental_div_mod_converse(cc as int, 65536, c as int, limb as int);
    lemma_fundamental_div_mod_converse(
        cc as int,
        16,
        (4096 * c + n2 + 16 * n3 + 256 * n4) as int,
        n1 as int,
    );
    lemma_fundamental_div_mod_converse(
        cc as int,
        256,
        (256 * c + n3 + 16 * n4) as int,
        (n1 + 16 * n2) as int,
    );
    lemma_fundamental_div_mod_converse(
        cc as int,
        4096,
        (16 * c + n4) as int,
        (n1 + 16 * n2 + 256 * n3) as int,
    );
    lemma_mod_multiples_vanish(256 * c as int, (n2 + 16 * n3 + 256 * n4) as int, 16);
    lemma_fundamental_div_mod_converse(
        (n2 + 16 * n3 + 256 * n4) as int,
        16,
        (n3 + 16 * n4) as int,
        n2 as int,
    );
    lemma_mod_multiples_vanish(16 * c as int, (n3 + 16 * n4) as int, 16);
    lemma_fundamental_div_mod_converse((n3 + 16 * n4) as int, 16, n4 as int, n3 as int);
    lemma_mod_multiples_vanish(c as int, n4 as int, 16);
    lemma_small_mod(n1, 16);
    lemma_small_mod(n2, 16);
    lemma_small_mod(n3, 16);
    lemma_small_mod(n4, 16);
    assert(round_val16(cc, lam) == nib_val(n1, lam) + pow(lam, 4) * nib_val(n2, lam) + pow(lam, 8)
        * nib_val(n3, lam) + pow(lam, 12) * nib_val(n4, lam));
}

} // verus!
