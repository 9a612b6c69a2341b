//! A HyperLogLog sketch for estimating the number of distinct elements in a
//! stream of byte strings.
//!
//! The sketch keeps `2^bits` one-byte registers. Each inserted item is hashed
//! to 64 bits; the top `bits` bits of the hash pick a register, and the
//! register keeps the largest "rank" (one plus the number of leading zeros of
//! the remaining hash bits) seen so far. The estimator combines the registers
//! into a harmonic mean, with a linear-counting correction in the small-range
//! regime.
//!
//! The library itself stays in exact integer arithmetic: `estimate` returns an
//! [`sketch::Estimate`], a symbolic value holding the exact integer quantities
//! (register count, zero-register count, scaled harmonic denominator) from
//! which a caller evaluates the usual floating-point formulas.

pub mod hashing;
pub mod laws;
pub mod model;
pub mod sketch;
