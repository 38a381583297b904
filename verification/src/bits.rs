//! Facts about the leading bits of a 64-bit word.

use vstd::arithmetic::div_mod::{lemma_fundamental_div_mod, lemma_small_mod};
use vstd::arithmetic::power2::{lemma2_to64, lemma2_to64_rest, lemma_pow2_pos, pow2};
use vstd::bits::{lemma_u64_pow2_no_overflow, lemma_u64_shl_is_mul, lemma_u64_shr_is_div};
use vstd::prelude::*;

verus! {

/// The 64-bit word whose `n` leading bits are set and whose other bits are
/// clear, as a number; `n` is at most 64.
pub open spec fn leading_ones(n: nat) -> nat {
    (pow2(64) - pow2((64 - n) as nat)) as nat
}

/// Shifting one to the left by `k` gives two to the power `k`.
proof fn lemma_one_shifted(k: u64)
    requires
        k < 64,
    ensures
        (1u64 << k) == pow2(k as nat),
{
    lemma_u64_pow2_no_overflow(k as nat);
    lemma_u64_shl_is_mul(1, k);
}

/// Shifting the word of all ones to the left by `k` leaves its `64 - k`
/// leading bits set.
pub proof fn lemma_shifted_ones(k: u64)
    requires
        k < 64,
    ensures
        (!0u64 << k) == leading_ones((64 - k) as nat),
{
    lemma_one_shifted(k);
    lemma2_to64_rest();
    assert((!0u64 << k) + (1u64 << k) == 0x1_0000_0000_0000_0000) by (bit_vector)
        requires
            k < 64,
    ;
}

/// Under a mask of `n` leading ones, a word keeps its leading bits and
/// loses the rest: it falls to the next multiple of two to the power `64 - n`.
pub proof fn lemma_and_leading_ones(w: u64, m: u64, n: nat)
    requires
        n <= 64,
        m == leading_ones(n),
    ensures
        (w & m) == w - (w as int) % (pow2((64 - n) as nat) as int),
{
    lemma2_to64();
    lemma2_to64_rest();
    if n == 0 {
        assert(w & 0 == 0) by (bit_vector);
        lemma_small_mod(w as nat, 0x1_0000_0000_0000_0000);
    } else if n == 64 {
        assert(w & 0xffff_ffff_ffff_ffff == w) by (bit_vector);
    } else {
        let k = (64 - n) as u64;
        let p = pow2(k as nat) as int;
        let q = w >> k;
        lemma_shifted_ones(k);
        lemma_u64_shr_is_div(w, k);
        lemma_pow2_pos(k as nat);
        lemma_fundamental_div_mod(w as int, p);
        assert(q * p <= w) by (nonlinear_arith)
            requires
                w == p * q + (w as int) % p,
                0 <= (w as int) % p,
        ;
        lemma_u64_shl_is_mul(q, k);
        assert(w & (!0u64 << k) == (w >> k) << k) by (bit_vector)
            requires
                k < 64,
        ;
        assert(q * p == p * q) by (nonlinear_arith);
    }
}

/// Setting every bit outside a mask of `n` leading ones, in a word that has
/// none of them set, adds two to the power `64 - n`, less one.
pub proof fn lemma_or_trailing_ones(w: u64, m: u64, n: nat)
    requires
        n <= 64,
        m == leading_ones(n),
    ensures
        ((w & m) | !m) == (w & m) + pow2((64 - n) as nat) - 1,
{
    lemma2_to64();
    lemma2_to64_rest();
    if n == 0 {
        assert((w & 0) | !0u64 == 0xffff_ffff_ffff_ffff) by (bit_vector);
        assert(w & 0 == 0) by (bit_vector);
    } else if n == 64 {
        assert((w & 0xffff_ffff_ffff_ffff) | !0xffff_ffff_ffff_ffffu64 == w
            & 0xffff_ffff_ffff_ffff) by (bit_vector);
    } else {
        let k = (64 - n) as u64;
        lemma_shifted_ones(k);
        lemma_one_shifted(k);
        assert((w & (!0u64 << k)) | !(!0u64 << k) == (w & (!0u64 << k)) + (1u64 << k) - 1)
            by (bit_vector)
            requires
                k < 64,
        ;
    }
}

} // verus!
