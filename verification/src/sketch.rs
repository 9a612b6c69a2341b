//! The HyperLogLog sketch itself: construction, insertion, and the exact
//! integer form of the cardinality estimate.

use crate::hashing::xxh3_of;
use crate::model::{
    denom_of, folded, max_rank, rank_of, reg_count, small_range, valid_bits, zeros_of, MAX_BITS,
    MIN_BITS,
};
use vstd::arithmetic::power2::{lemma2_to64, lemma_pow2_strictly_increases, lemma_pow2_unfold, pow2};
use vstd::pervasive::VecAdditionalExecFns;
use vstd::prelude::*;

verus! {

/// Why construction can fail.
#[derive(Clone, Copy, Debug, PartialEq, Eq, Structural)]
pub enum Error {
    /// The precision was zero or larger than [`MAX_BITS`].
    InvalidPrecision,
}

/// The cardinality estimate in exact integer form.
///
/// The floating-point value of the estimate is a pure function of the fields:
/// * `LinearCounting { register_count: m, zero_count: z }` stands for the
///   linear-counting value `m * ln(m / z)`;
/// * `Raw { register_count: m, denom: d }` stands for the harmonic-mean value
///   `alpha_m * m^2 * 2^64 / d`, with `alpha_m = 0.7213 / (1 + 1.079/m)`.
///
/// The library keeps the estimate in this form so that everything up to the
/// final transcendental evaluation is exact; a caller evaluates the formula in
/// whatever floating-point width it wants.
#[derive(Clone, Copy, Debug, PartialEq, Eq, Structural)]
pub enum Estimate {
    LinearCounting { register_count: u64, zero_count: u64 },
    Raw { register_count: u64, denom: u128 },
}

/// What `estimate` returns for a given register array: the raw harmonic
/// estimate, except that in the small-range regime (raw estimate at most
/// `2.5 * m`, boundary included) with at least one zero register the
/// linear-counting correction is used instead.
pub open spec fn estimate_of(regs: Seq<u8>, bits: usize) -> Estimate {
    let m = reg_count(bits) as int;
    let d = denom_of(regs);
    let z = zeros_of(regs);
    if small_range(m, d) && z > 0 {
        Estimate::LinearCounting { register_count: m as u64, zero_count: z as u64 }
    } else {
        Estimate::Raw { register_count: m as u64, denom: d as u128 }
    }
}

/// A HyperLogLog sketch: `2^bits` one-byte registers, each holding the largest
/// rank seen among the items routed to it.
pub struct HyperLogLog {
    bits: usize,
    registers: Vec<u8>,
}

impl View for HyperLogLog {
    type V = Seq<u8>;

    closed spec fn view(&self) -> Seq<u8> {
        self.registers@
    }
}

impl HyperLogLog {
    /// The precision this sketch was built with.
    pub closed spec fn precision(&self) -> usize {
        self.bits
    }

    /// Well-formedness: an accepted precision, exactly `2^bits` registers, and
    /// every register within the rank range insertions can produce.
    pub open spec fn wf(&self) -> bool {
        &&& valid_bits(self.precision())
        &&& self@.len() == reg_count(self.precision())
        &&& forall|i: int|
            0 <= i < self@.len() ==> #[trigger] self@[i] <= max_rank(self.precision())
    }

    /// Builds a sketch with `2^bits` zeroed registers. Fails exactly when the
    /// precision is outside the accepted range.
    pub fn new(bits: usize) -> (r: Result<HyperLogLog, Error>)
        ensures
            r is Ok <==> valid_bits(bits),
            !valid_bits(bits) ==> r == Result::<HyperLogLog, Error>::Err(Error::InvalidPrecision),
            r is Ok ==> r->Ok_0.wf() && r->Ok_0.precision() == bits,
            r is Ok ==> r->Ok_0@ == Seq::new(reg_count(bits), |i: int| 0u8),
    {
        if bits < MIN_BITS || bits > MAX_BITS {
            return Err(Error::InvalidPrecision);
        }
        let m = pow2_usize(bits);
        let mut registers: Vec<u8> = Vec::new();
        let mut i: usize = 0;
        while i < m
            invariant
                i <= m,
                registers@.len() == i,
                forall|j: int| 0 <= j < i ==> registers@[j] == 0u8,
            decreases m - i,
        {
            registers.push(0u8);
            i = i + 1;
        }
        let sketch = HyperLogLog { bits, registers };
        proof {
            assert(sketch@ =~= Seq::new(reg_count(bits), |i: int| 0u8));
        }
        Ok(sketch)
    }

    /// Folds one item into the sketch: hashes it, routes the hash to a
    /// register, and raises that register to the hash's rank if the rank is
    /// larger. Every byte sequence, the empty one included, is absorbed; no
    /// register ever decreases.
    pub fn add(&mut self, item: &[u8])
        requires
            old(self).wf(),
        ensures
            final(self).wf(),
            final(self).precision() == old(self).precision(),
            final(self)@ == folded(old(self)@, old(self).precision(), xxh3_of(item@)),
            forall|i: int|
                0 <= i < final(self)@.len() ==> old(self)@[i] <= #[trigger] final(self)@[i],
    {
        let h = xxhash_rust::xxh3::xxh3_64(item);
        let shift: u64 = (64 - self.bits) as u64;
        proof {
            crate::model::lemma_bucket_in_range(h, self.bits);
            vstd::bits::lemma_u64_shr_is_div(h, shift);
        }
        let index = (h >> shift) as usize;
        let rank = Self::count_leading_zeros(h, self.bits);
        proof {
            crate::model::lemma_rank_in_range(h, self.bits);
        }
        let cur = self.registers[index];
        let v = if cur < rank {
            rank
        } else {
            cur
        };
        self.registers.set(index, v);
        proof {
            assert(self@ =~= folded(old(self)@, old(self).precision(), xxh3_of(item@)));
        }
    }

    /// How many registers the sketch holds: `2^bits`.
    pub fn register_count(&self) -> (n: usize)
        requires
            self.wf(),
        ensures
            n == self@.len(),
    {
        self.registers.len()
    }

    /// The current value of one register.
    pub fn register(&self, i: usize) -> (v: u8)
        requires
            self.wf(),
            i < self@.len(),
        ensures
            v == self@[i as int],
    {
        self.registers[i]
    }

    /// How many registers are still at zero.
    pub fn zero_count(&self) -> (z: usize)
        requires
            self.wf(),
        ensures
            z == zeros_of(self@),
    {
        let n = self.registers.len();
        let mut z: usize = 0;
        let mut i: usize = 0;
        while i < n
            invariant
                i <= n == self@.len(),
                z <= i,
                z == zeros_of(self@.subrange(0, i as int)),
            decreases n - i,
        {
            proof {
                let pre = self@.subrange(0, i as int);
                let post = self@.subrange(0, i + 1);
                assert(post.drop_last() =~= pre);
                assert(post.last() == self@[i as int]);
            }
            if self.registers[i] == 0 {
                z = z + 1;
            }
            i = i + 1;
        }
        proof {
            assert(self@.subrange(0, n as int) =~= self@);
        }
        z
    }

    /// The harmonic denominator scaled by `2^64`: the exact integer
    /// `sum over registers of 2^(64 - register)`, which is `Z * 2^64` for the
    /// harmonic sum `Z` of the estimator.
    pub fn harmonic_denominator(&self) -> (d: u128)
        requires
            self.wf(),
        ensures
            d == denom_of(self@),
    {
        let n = self.registers.len();
        let mut d: u128 = 0;
        let mut i: usize = 0;
        proof {
            crate::model::lemma_reg_count_bounds(self.precision());
            lemma2_to64();
        }
        while i < n
            invariant
                self.wf(),
                i <= n == self@.len(),
                n <= 0x10000,
                d == denom_of(self@.subrange(0, i as int)),
                d <= i * 0x10000000000000000,
                pow2(64) == 0x10000000000000000,
            decreases n - i,
        {
            proof {
                let pre = self@.subrange(0, i as int);
                let post = self@.subrange(0, i + 1);
                assert(post.drop_last() =~= pre);
                assert(post.last() == self@[i as int]);
                let e = (64 - self@[i as int]) as nat;
                vstd::arithmetic::power2::lemma_pow2_pos(e);
                if e < 64 {
                    lemma_pow2_strictly_increases(e, 64);
                }
            }
            let reg = self.registers[i];
            let term = pow2_u128((64 - reg) as usize);
            d = d + term;
            i = i + 1;
        }
        proof {
            assert(self@.subrange(0, n as int) =~= self@);
        }
        d
    }

    /// The current cardinality estimate, in exact integer form.
    ///
    /// The raw estimate is `alpha_m * m^2 / Z`. When it is at most `2.5 * m`
    /// (boundary included) and some register is still zero, the
    /// linear-counting value `m * ln(m / zeros)` is reported instead; in every
    /// other case the raw value stands. Both variants carry quantities that
    /// make the denoted value finite and non-negative, and repeated calls with
    /// no insertion in between return the same value.
    pub fn estimate(&self) -> (r: Estimate)
        requires
            self.wf(),
        ensures
            r == estimate_of(self@, self.precision()),
    {
        proof {
            crate::model::lemma_reg_count_bounds(self.precision());
            crate::model::lemma_denom_bounds(self@);
            crate::model::lemma_zeros_bounds(self@);
            lemma2_to64();
        }
        let m = self.registers.len();
        let d = self.harmonic_denominator();
        let z = self.zero_count();
        let m128 = m as u128;
        proof {
            assert(m128 * m128 <= 0x100000000) by (nonlinear_arith)
                requires
                    m128 <= 0x10000,
            ;
        }
        let lhs_hi: u128 = 14426u128 * (m128 * m128);
        let lhs: u128 = lhs_hi * 0x10000000000000000u128;
        let rhs_hi: u128 = 5u128 * (10000u128 * m128 + 10790u128);
        proof {
            assert(rhs_hi * d <= 0xC350D2BE * 0x100000000000000000000) by (nonlinear_arith)
                requires
                    rhs_hi <= 0xC350D2BE,
                    d <= 0x100000000000000000000,
            ;
        }
        let rhs: u128 = rhs_hi * d;
        proof {
            let mi = m128 as int;
            assert(14426 * (mi * mi) * pow2(64) == 14426 * mi * mi * pow2(64)
                && 5 * (10000 * mi + 10790) * d == 5 * (10000 * mi + 10790) * (d as int))
                by (nonlinear_arith);
        }
        if lhs <= rhs && z > 0 {
            Estimate::LinearCounting { register_count: m as u64, zero_count: z as u64 }
        } else {
            Estimate::Raw { register_count: m as u64, denom: d }
        }
    }

    /// The rank of a hash for a given precision: one plus the number of
    /// leading zeros of the hash bits left after the `bits` index bits are
    /// shifted out, saturating at `(64 - bits) + 1` when they are all zero.
    pub fn count_leading_zeros(hash: u64, bits: usize) -> (r: u8)
        requires
            valid_bits(bits),
        ensures
            r == rank_of(hash, bits),
    {
        let shifted: u64 = hash << (bits as u64);
        let lz: u32 = shifted.leading_zeros();
        let w: u32 = (64 - bits) as u32;
        let capped: u32 = if lz > w {
            w
        } else {
            lz
        };
        (capped + 1) as u8
    }
}

/// `2^e` as a `u128`, for the per-register terms of the harmonic denominator.
fn pow2_u128(e: usize) -> (r: u128)
    requires
        e <= 64,
    ensures
        r == pow2(e as nat),
{
    let mut r: u128 = 1;
    let mut i: usize = 0;
    proof {
        lemma2_to64();
    }
    while i < e
        invariant
            i <= e <= 64,
            r == pow2(i as nat),
            pow2(64) == 0x10000000000000000,
        decreases e - i,
    {
        proof {
            lemma_pow2_unfold((i + 1) as nat);
            if i + 1 < 64 {
                lemma_pow2_strictly_increases((i + 1) as nat, 64);
            }
        }
        r = r * 2;
        i = i + 1;
    }
    r
}

/// `2^e` as a `usize`, for the register-count range.
fn pow2_usize(e: usize) -> (r: usize)
    requires
        e <= 16,
    ensures
        r == pow2(e as nat),
{
    let mut r: usize = 1;
    let mut i: usize = 0;
    proof {
        lemma2_to64();
    }
    while i < e
        invariant
            i <= e <= 16,
            r == pow2(i as nat),
            pow2(16) == 0x10000,
        decreases e - i,
    {
        proof {
            lemma_pow2_unfold((i + 1) as nat);
            if i + 1 < 16 {
                lemma_pow2_strictly_increases((i + 1) as nat, 16);
            }
        }
        r = r * 2;
        i = i + 1;
    }
    r
}

} // verus!
