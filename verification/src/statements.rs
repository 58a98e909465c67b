//! What a node states about the chunks that it executed.
use std::sync::Arc;
use vstd::prelude::*;
use crate::block::ChunkExtra;
use crate::hash::{ChunkHash, CryptoHash};

verus! {

/// What executing a chunk came to.
pub struct ExecutionResult {
    pub block_hash: CryptoHash,
    pub chunk_hash: ChunkHash,
    pub shard_id: u64,
    pub chunk_extra: Arc<ChunkExtra>,
    pub outgoing_receipts_root: CryptoHash,
}

/// Calls `clone` of `std::sync::Arc`, which gives another pointer to the same
/// value.
#[verifier::external_body]
pub(crate) fn share(extra: &Arc<ChunkExtra>) -> (r: Arc<ChunkExtra>)
    ensures
        r == *extra,
{
    Arc::clone(extra)
}

/// The word of a validator that it found the execution of a chunk to be right.
pub enum ChunkEndorsement {
    /// Without a word on what the execution came to.
    V1,
    /// Without a word on what the execution came to.
    V2,
    /// With what the execution came to.
    V3(ExecutionResult),
}

} // verus!
