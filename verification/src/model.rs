//! The mathematical model of the sketch: how a hash picks a register and a
//! rank, how an insertion folds into the register array, and the integer
//! quantities the estimator is built from.

use vstd::arithmetic::div_mod::{lemma_div_pos_is_pos, lemma_multiply_divide_lt};
use vstd::arithmetic::power2::{
    lemma2_to64, lemma_pow2_adds, lemma_pow2_pos, lemma_pow2_strictly_increases, pow2,
};
use vstd::prelude::*;
use vstd::std_specs::bits::u64_leading_zeros;

verus! {

/// Smallest accepted precision: at least one hash bit must be left over for
/// the rank after the index bits are removed.
pub const MIN_BITS: usize = 1;

/// Largest accepted precision: `2^16` registers. Beyond that the memory cost
/// grows without a matching gain in accuracy.
pub const MAX_BITS: usize = 16;

/// Whether `bits` is a precision the sketch accepts.
pub open spec fn valid_bits(bits: usize) -> bool {
    MIN_BITS <= bits <= MAX_BITS
}

/// Number of registers for a given precision: `2^bits`.
pub open spec fn reg_count(bits: usize) -> nat {
    pow2(bits as nat)
}

/// Largest rank a register can hold for a given precision: all `64 - bits`
/// remaining hash bits are zero, giving `(64 - bits) + 1`.
pub open spec fn max_rank(bits: usize) -> int {
    65 - bits
}

/// The register an item's hash is routed to: the value of the top `bits` bits
/// of the hash.
pub open spec fn bucket_of(h: u64, bits: usize) -> int {
    h as int / pow2((64 - bits) as nat) as int
}

/// The rank of a hash: one plus the number of leading zeros among the
/// `64 - bits` hash bits that remain once the index bits are discarded. If all
/// remaining bits are zero the rank saturates at `(64 - bits) + 1`.
pub open spec fn rank_of(h: u64, bits: usize) -> u8 {
    let lz = u64_leading_zeros(h << (bits as u64)) as int;
    let w = 64 - bits;
    (if lz > w {
        w + 1
    } else {
        lz + 1
    }) as u8
}

/// One insertion folded into the register array: the routed register rises to
/// the rank if the rank is larger, and nothing else moves.
pub open spec fn folded(regs: Seq<u8>, bits: usize, h: u64) -> Seq<u8> {
    let i = bucket_of(h, bits);
    let r = rank_of(h, bits);
    regs.update(
        i,
        if regs[i] < r {
            r
        } else {
            regs[i]
        },
    )
}

/// A whole sequence of insertions folded in, first element first.
pub open spec fn folded_seq(regs: Seq<u8>, bits: usize, hs: Seq<u64>) -> Seq<u8>
    decreases hs.len(),
{
    if hs.len() == 0 {
        regs
    } else {
        folded_seq(folded(regs, bits, hs[0]), bits, hs.drop_first())
    }
}

/// The harmonic denominator scaled by `2^64`: the sum over all registers of
/// `2^(64 - register)`. The raw estimate is `alpha_m * m^2 * 2^64` divided by
/// this quantity.
pub open spec fn denom_of(regs: Seq<u8>) -> int
    decreases regs.len(),
{
    if regs.len() == 0 {
        0
    } else {
        denom_of(regs.drop_last()) + pow2((64 - regs.last()) as nat) as int
    }
}

/// How many registers are still at zero.
pub open spec fn zeros_of(regs: Seq<u8>) -> int
    decreases regs.len(),
{
    if regs.len() == 0 {
        0int
    } else {
        zeros_of(regs.drop_last()) + if regs.last() == 0 {
            1int
        } else {
            0int
        }
    }
}

/// The small-range test `E <= (5/2) * m`, written exactly. With
/// `alpha_m = 0.7213 / (1 + 1.079/m) = 7213*m / (10000*m + 10790)` and the raw
/// estimate `E = alpha_m * m^2 * 2^64 / d`, clearing all denominators turns
/// `E <= (5/2) * m` into the integer inequality below. The boundary itself
/// (equality) selects the small-range branch.
pub open spec fn small_range(m: int, d: int) -> bool {
    14426 * m * m * pow2(64) <= 5 * (10000 * m + 10790) * d
}

/// A hash's bucket is a valid register index.
pub proof fn lemma_bucket_in_range(h: u64, bits: usize)
    requires
        valid_bits(bits),
    ensures
        0 <= bucket_of(h, bits) < reg_count(bits),
{
    let s = (64 - bits) as nat;
    lemma_pow2_pos(s);
    lemma_div_pos_is_pos(h as int, pow2(s) as int);
    lemma_pow2_adds(s, bits as nat);
    lemma2_to64();
    assert(h < pow2(s) * pow2(bits as nat)) by {
        assert(pow2(s) * pow2(bits as nat) == pow2(64));
    }
    lemma_multiply_divide_lt(h as int, pow2(s) as int, pow2(bits as nat) as int);
}

/// A rank is at least one and saturates at `max_rank`.
pub proof fn lemma_rank_in_range(h: u64, bits: usize)
    requires
        valid_bits(bits),
    ensures
        1 <= rank_of(h, bits) <= max_rank(bits),
{
}

/// Register count bounds: between 2 and 65536 for the accepted precisions.
pub proof fn lemma_reg_count_bounds(bits: usize)
    requires
        valid_bits(bits),
    ensures
        2 <= reg_count(bits) <= 0x10000,
{
    lemma2_to64();
    if (bits as nat) < 16 {
        lemma_pow2_strictly_increases(bits as nat, 16);
    }
    if 1 < (bits as nat) {
        lemma_pow2_strictly_increases(1, bits as nat);
    }
}

/// The scaled harmonic denominator of an array of well-bounded registers lies
/// between `len` (every register at its largest, each term at least 1) and
/// `len * 2^64` (every register at zero).
pub proof fn lemma_denom_bounds(regs: Seq<u8>)
    requires
        forall|i: int| 0 <= i < regs.len() ==> #[trigger] regs[i] <= 64,
    ensures
        regs.len() <= denom_of(regs) <= regs.len() * pow2(64),
    decreases regs.len(),
{
    lemma2_to64();
    if regs.len() > 0 {
        lemma_denom_bounds(regs.drop_last());
        let e = (64 - regs.last()) as nat;
        lemma_pow2_pos(e);
        if e < 64 {
            lemma_pow2_strictly_increases(e, 64);
        }
    }
}

/// The zero-register count never exceeds the register count.
pub proof fn lemma_zeros_bounds(regs: Seq<u8>)
    ensures
        0 <= zeros_of(regs) <= regs.len(),
    decreases regs.len(),
{
    if regs.len() > 0 {
        lemma_zeros_bounds(regs.drop_last());
    }
}

} // verus!
