//! A fast non-cryptographic hash (xxHash, seed 0) that turns byte strings such
//! as shingles into integer features.
use vstd::prelude::*;
use std::hash::Hasher;
use twox_hash::{XxHash32, XxHash64};

verus! {

/// The 32-bit xxHash digest of `data` with seed 0.
pub uninterp spec fn xxh32_digest(data: Seq<u8>) -> u32;

/// The 64-bit xxHash digest of `data` with seed 0.
pub uninterp spec fn xxh64_digest(data: Seq<u8>) -> u64;

/// Relies on twox_hash's `XxHash32`: seeded with 0, fed `data` through
/// `Hasher::write`, its `Hasher::finish` is the 32-bit digest widened to 64
/// bits, which depends on the bytes alone.
#[verifier::external_body]
fn xxh32_seed0(data: &[u8]) -> (r: u32)
    ensures
        r == xxh32_digest(data@),
{
    let mut hasher = XxHash32::with_seed(0);
    hasher.write(data);
    hasher.finish() as u32
}

/// Relies on twox_hash's `XxHash64`: seeded with 0, fed `data` through
/// `Hasher::write`, its `Hasher::finish` is the digest, which depends on the
/// bytes alone.
#[verifier::external_body]
fn xxh64_seed0(data: &[u8]) -> (r: u64)
    ensures
        r == xxh64_digest(data@),
{
    let mut hasher = XxHash64::with_seed(0);
    hasher.write(data);
    hasher.finish()
}

/// The 32-bit xxHash of `data` with seed 0: the same bytes always give the
/// same digest, the empty input included.
pub fn xxhash32(data: &[u8]) -> (r: u32)
    ensures
        r == xxh32_digest(data@),
{
    xxh32_seed0(data)
}

/// The 64-bit xxHash of `data` with seed 0: the same bytes always give the
/// same digest, the empty input included.
pub fn xxhash64(data: &[u8]) -> (r: u64)
    ensures
        r == xxh64_digest(data@),
{
    xxh64_seed0(data)
}

/// The digests are functions of the bytes: equal inputs give equal digests.
pub proof fn lemma_digests_deterministic(d1: Seq<u8>, d2: Seq<u8>)
    requires
        d1 == d2,
    ensures
        xxh32_digest(d1) == xxh32_digest(d2),
        xxh64_digest(d1) == xxh64_digest(d2),
{
}

} // verus!
