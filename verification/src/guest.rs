//! What the guest program reports of the block that it executed.

use vstd::prelude::*;

use crate::hash::{keccak256_digest, B256};
use crate::header::Header;

verus! {

/// The hash that is reported: the one of the executed block, or zero where the
/// block could not be executed.
pub fn reported_hash<E>(block_hash: Result<B256, E>) -> (r: B256)
    ensures
        match block_hash {
            Ok(hash) => r == hash,
            Err(_) => r@ == Seq::new(32, |i: int| 0u8),
        },
        block_hash is Err ==> forall|i: int| 0 <= i < 32 ==> #[trigger] r.0@[i] == 0,
{
    match block_hash {
        Ok(hash) => hash,
        Err(_) => B256::zero(),
    }
}

/// Turns the outcome of executing a block into the hash that is reported: the
/// hash of the header that came out, or zero where none did.
pub fn verify_block_hash<E>(executed: Result<Header, E>) -> (r: B256)
    ensures
        match executed {
            Ok(header) => r@ == header@.hash(),
            Err(_) => r@ == Seq::new(32, |i: int| 0u8),
        },
        match executed {
            Ok(header) => r.0@ == keccak256_digest(header.rlp@),
            Err(_) => forall|i: int| 0 <= i < 32 ==> #[trigger] r.0@[i] == 0,
        },
{
    match executed {
        Ok(header) => reported_hash::<E>(Ok(header.hash_slow())),
        Err(error) => reported_hash(Err(error)),
    }
}

} // verus!
