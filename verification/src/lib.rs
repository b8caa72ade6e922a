//! A Merkle-tree commitment layer for an ordered sequence of content-identifier
//! strings: bottom-up tree construction with an odd-node carry-over policy,
//! inclusion-proof generation, and proof verification, together with the
//! chunk-size partition used by the surrounding upload pipeline.

pub mod chunking;
pub mod errors;
pub mod hashing;
pub mod laws;
pub mod merkle;
pub mod merkle_proof;
pub mod model;
