//! Proofs, as far as they are read before they are handed to the prover.

use vstd::prelude::*;

verus! {

/// A proof of the prover, of which only the kind is known here.
#[derive(Debug, Clone)]
pub struct ZkProof<P> {
    /// Whether the proof is of the compressed kind, the only one that can be aggregated.
    pub compressed: bool,
    pub inner: P,
}

/// A verifying key together with its digest.
#[derive(Debug)]
pub struct VerifyingKey<K> {
    pub hash: [u32; 8],
    pub inner: K,
}

/// A proof together with what it commits to.
#[derive(Debug, Clone)]
pub struct ProofWithPublicValues<P> {
    pub proof: ZkProof<P>,
    pub public_values: Vec<u8>,
}

/// An input to the aggregation program: the proof of a block, or of all blocks
/// up to one, with the key that verifies it.
#[derive(Debug)]
pub struct Proof<P, K> {
    pub block_number: u64,
    pub proof: ZkProof<P>,
    pub public_values: Vec<u8>,
    pub vk: VerifyingKey<K>,
}

} // verus!
