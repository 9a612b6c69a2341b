//! The external hash collaborator: a deterministic 64-bit hash over bytes.

use vstd::prelude::*;

verus! {

/// The 64-bit digest that `xxhash_rust::xxh3::xxh3_64` computes for a byte
/// sequence. The digest is determined by the bytes alone (the function uses a
/// fixed default secret and a zero seed), so it is given a name here; nothing
/// further is assumed about its distribution.
pub uninterp spec fn xxh3_of(bytes: Seq<u8>) -> u64;

/// Relies on `xxhash_rust::xxh3::xxh3_64`: a 64-bit hash that is a pure
/// function of the input bytes.
pub assume_specification[ xxhash_rust::xxh3::xxh3_64 ](input: &[u8]) -> (r: u64)
    ensures
        r == xxh3_of(input@),
;

} // verus!
