//! Laws of the sketch: registers only grow, repeated and reordered insertions
//! cannot be told apart, a fresh sketch reports zero, the estimate always
//! denotes a finite non-negative value, and the small-range switch is
//! inclusive at its boundary.

use crate::model::{
    denom_of, folded, folded_seq, lemma_bucket_in_range, lemma_denom_bounds,
    lemma_reg_count_bounds, lemma_zeros_bounds, max_rank, reg_count, small_range, valid_bits,
    zeros_of,
};
use crate::sketch::{estimate_of, Estimate};
use vstd::arithmetic::power2::{lemma2_to64, pow2};
use vstd::prelude::*;
use vstd::seq_lib::group_to_multiset_ensures;

verus! {

/// Monotonicity: folding one hash in never lowers any register, and never
/// changes the register count.
pub proof fn lemma_fold_monotonic(regs: Seq<u8>, bits: usize, h: u64)
    requires
        valid_bits(bits),
        regs.len() == reg_count(bits),
    ensures
        folded(regs, bits, h).len() == regs.len(),
        forall|i: int| 0 <= i < regs.len() ==> regs[i] <= #[trigger] folded(regs, bits, h)[i],
{
    lemma_bucket_in_range(h, bits);
}

/// Monotonicity over a whole run of insertions: after any sequence of folds,
/// every register is at least what it was before.
pub proof fn lemma_fold_seq_monotonic(regs: Seq<u8>, bits: usize, hs: Seq<u64>)
    requires
        valid_bits(bits),
        regs.len() == reg_count(bits),
    ensures
        folded_seq(regs, bits, hs).len() == regs.len(),
        forall|i: int| 0 <= i < regs.len() ==> regs[i] <= #[trigger] folded_seq(regs, bits, hs)[i],
    decreases hs.len(),
{
    if hs.len() > 0 {
        lemma_fold_monotonic(regs, bits, hs[0]);
        lemma_fold_seq_monotonic(folded(regs, bits, hs[0]), bits, hs.drop_first());
    }
}

/// Idempotence: folding the same hash in twice leaves the register array
/// exactly as one fold does, so re-adding an item is a no-op.
pub proof fn lemma_fold_idempotent(regs: Seq<u8>, bits: usize, h: u64)
    requires
        valid_bits(bits),
        regs.len() == reg_count(bits),
    ensures
        folded(folded(regs, bits, h), bits, h) == folded(regs, bits, h),
{
    lemma_bucket_in_range(h, bits);
    assert(folded(folded(regs, bits, h), bits, h) =~= folded(regs, bits, h));
}

/// Two folds commute: which of two hashes is folded in first cannot be seen
/// in the resulting register array.
proof fn lemma_fold_comm(regs: Seq<u8>, bits: usize, h1: u64, h2: u64)
    requires
        valid_bits(bits),
        regs.len() == reg_count(bits),
    ensures
        folded(folded(regs, bits, h1), bits, h2) == folded(folded(regs, bits, h2), bits, h1),
{
    lemma_bucket_in_range(h1, bits);
    lemma_bucket_in_range(h2, bits);
    assert(folded(folded(regs, bits, h1), bits, h2) =~= folded(folded(regs, bits, h2), bits, h1));
}

/// Any one element of an insertion sequence may be folded in first instead,
/// with the rest following in their order.
proof fn lemma_fold_seq_pull(regs: Seq<u8>, bits: usize, hs: Seq<u64>, j: int)
    requires
        valid_bits(bits),
        regs.len() == reg_count(bits),
        0 <= j < hs.len(),
    ensures
        folded_seq(regs, bits, hs) == folded_seq(folded(regs, bits, hs[j]), bits, hs.remove(j)),
    decreases j,
{
    if j == 0 {
        assert(hs.remove(0) =~= hs.drop_first());
    } else {
        let h0 = hs[0];
        let rest = hs.drop_first();
        lemma_fold_monotonic(regs, bits, h0);
        lemma_fold_seq_pull(folded(regs, bits, h0), bits, rest, j - 1);
        lemma_fold_comm(regs, bits, h0, hs[j]);
        assert(rest[j - 1] == hs[j]);
        assert(hs.remove(j).drop_first() =~= rest.remove(j - 1));
        assert(hs.remove(j)[0] == h0);
        assert(folded_seq(folded(regs, bits, hs[j]), bits, hs.remove(j)) == folded_seq(
            folded(folded(regs, bits, hs[j]), bits, h0),
            bits,
            rest.remove(j - 1),
        ));
    }
}

/// Order independence: two insertion sequences holding the same multiset of
/// hashes fold to identical register arrays, so every permutation of the same
/// insertions yields the same registers and the same estimate.
pub proof fn lemma_fold_order_independent(regs: Seq<u8>, bits: usize, hs1: Seq<u64>, hs2: Seq<u64>)
    requires
        valid_bits(bits),
        regs.len() == reg_count(bits),
        hs1.to_multiset() == hs2.to_multiset(),
    ensures
        folded_seq(regs, bits, hs1) == folded_seq(regs, bits, hs2),
    decreases hs1.len(),
{
    broadcast use group_to_multiset_ensures;

    if hs1.len() == 0 {
        assert(hs2.to_multiset().len() == 0);
    } else {
        let h = hs1[0];
        assert(hs1.to_multiset().count(h) > 0);
        assert(hs2.to_multiset().count(h) > 0);
        let j = choose|j: int| 0 <= j < hs2.len() && hs2[j] == h;
        lemma_fold_seq_pull(regs, bits, hs2, j);
        assert(hs1.drop_first() =~= hs1.remove(0));
        assert(hs1.remove(0).to_multiset() == hs1.to_multiset().remove(h));
        assert(hs2.remove(j).to_multiset() == hs2.to_multiset().remove(h));
        lemma_fold_monotonic(regs, bits, h);
        lemma_fold_order_independent(
            folded(regs, bits, h),
            bits,
            hs1.drop_first(),
            hs2.remove(j),
        );
    }
}

/// The zero-register count of an all-zero array is its length.
proof fn lemma_zeros_all_zero(regs: Seq<u8>)
    requires
        forall|i: int| 0 <= i < regs.len() ==> regs[i] == 0,
    ensures
        zeros_of(regs) == regs.len(),
    decreases regs.len(),
{
    if regs.len() > 0 {
        lemma_zeros_all_zero(regs.drop_last());
    }
}

/// The scaled harmonic denominator of an all-zero array is `len * 2^64`.
proof fn lemma_denom_all_zero(regs: Seq<u8>)
    requires
        forall|i: int| 0 <= i < regs.len() ==> regs[i] == 0,
    ensures
        denom_of(regs) == regs.len() * pow2(64),
    decreases regs.len(),
{
    if regs.len() > 0 {
        lemma_denom_all_zero(regs.drop_last());
        assert((regs.len() - 1) * pow2(64) + pow2(64) == regs.len() * pow2(64))
            by (nonlinear_arith);
    }
}

/// Empty-sketch behaviour: with every register still at zero the estimator
/// takes the linear-counting branch with `zeros == m`, so the denoted value is
/// `m * ln(m / m) = 0`.
pub proof fn lemma_empty_estimate(regs: Seq<u8>, bits: usize)
    requires
        valid_bits(bits),
        regs.len() == reg_count(bits),
        forall|i: int| 0 <= i < regs.len() ==> regs[i] == 0,
    ensures
        estimate_of(regs, bits) == (Estimate::LinearCounting {
            register_count: reg_count(bits) as u64,
            zero_count: reg_count(bits) as u64,
        }),
{
    let m = reg_count(bits) as int;
    let p = pow2(64) as int;
    lemma_denom_all_zero(regs);
    lemma_zeros_all_zero(regs);
    lemma_reg_count_bounds(bits);
    lemma2_to64();
    assert(14426 * m * m * p <= 5 * (10000 * m + 10790) * (m * p)) by (nonlinear_arith)
        requires
            1 <= m,
            0 < p,
    ;
}

/// Non-negativity and finiteness: whichever variant the estimator reports,
/// its fields keep the denoted value finite and non-negative. The
/// linear-counting variant has `1 <= zeros <= m`, so `ln(m / zeros)` is a
/// finite value at least zero; the raw variant has
/// `m <= denominator <= m * 2^64`, so the division is by a positive number
/// and the denoted value `alpha_m * m^2 * 2^64 / d` is finite and positive.
pub proof fn lemma_estimate_bounds(regs: Seq<u8>, bits: usize)
    requires
        valid_bits(bits),
        regs.len() == reg_count(bits),
        forall|i: int| 0 <= i < regs.len() ==> #[trigger] regs[i] <= max_rank(bits),
    ensures
        match estimate_of(regs, bits) {
            Estimate::LinearCounting { register_count, zero_count } => 2 <= register_count
                <= 0x10000 && 1 <= zero_count <= register_count,
            Estimate::Raw { register_count, denom } => 2 <= register_count <= 0x10000
                && register_count <= denom <= register_count * pow2(64),
        },
{
    lemma_reg_count_bounds(bits);
    lemma_denom_bounds(regs);
    lemma_zeros_bounds(regs);
    lemma2_to64();
    assert(regs.len() * pow2(64) <= 0x10000 * pow2(64)) by (nonlinear_arith)
        requires
            regs.len() <= 0x10000,
    ;
}

/// The small-range switch is inclusive: when the raw estimate stands exactly
/// on the `2.5 * m` boundary and a zero register exists, the linear-counting
/// branch is the one selected.
pub proof fn lemma_boundary_inclusive(regs: Seq<u8>, bits: usize)
    requires
        valid_bits(bits),
        regs.len() == reg_count(bits),
        14426 * (reg_count(bits) as int) * (reg_count(bits) as int) * pow2(64) == 5 * (10000
            * (reg_count(bits) as int) + 10790) * denom_of(regs),
        zeros_of(regs) > 0,
    ensures
        estimate_of(regs, bits) is LinearCounting,
{
    assert(small_range(reg_count(bits) as int, denom_of(regs)));
}

} // verus!
