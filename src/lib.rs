//! Similarity-preserving fingerprints over sets of features: MinHash sketches,
//! SimHash digests, character shingling and a fast non-cryptographic hash.

pub mod fasthash;
pub mod minhash;
pub mod shingle;
pub mod simhash;
