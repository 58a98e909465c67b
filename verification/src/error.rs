//! Why an operation stopped.
use vstd::prelude::*;
use crate::hash::{ChunkHash, CryptoHash};

verus! {

/// What is wrong with a state witness.
#[derive(Clone, Copy, PartialEq, Eq, Structural, Debug)]
pub enum WitnessFault {
    /// A witness for genesis carries receipt proofs.
    GenesisProofsNotEmpty { count: usize },
    /// The number of receipt proofs is not the number of previous executions.
    ProofCount { executed: usize, count: usize },
    /// No receipt proof for a chunk of the previous block.
    MissingProof { chunk_hash: ChunkHash },
    /// The proof for a chunk comes from another shard than the chunk.
    WrongFromShard { chunk_hash: ChunkHash, found: u64, expected: u64 },
    /// The proof for a chunk goes to another shard than the one executed.
    WrongToShard { chunk_hash: ChunkHash, found: u64, expected: u64 },
    /// The proof for a chunk does not lead to the outgoing receipts root of the chunk.
    InvalidMerklePath { chunk_hash: ChunkHash },
    /// The receipts do not have the digest that the witness claims.
    ReceiptsHash { computed: CryptoHash, claimed: CryptoHash },
    /// The transactions do not have the root that the chunk header holds.
    TransactionRoot { computed: CryptoHash, claimed: CryptoHash },
}

/// Why an operation failed.
///
/// A failure outside of this crate is known by the number under which the
/// caller keeps it.
#[derive(Clone, Copy, PartialEq, Eq, Structural, Debug)]
pub enum Error {
    /// The store or the epoch manager does not have what was asked for.
    NotFound(u64),
    /// Any other failure outside of this crate.
    Outside(u64),
    /// The results of executing the previous block, of which a witness has need, are not all
    /// known yet.
    MissingPreviousExecutionResults(CryptoHash),
    /// No result of executing this block is on record.
    NoExecutionResults(CryptoHash),
    /// An endorsement was found to be invalid.
    InvalidEndorsement,
    /// An endorsement carries no execution result.
    NonSpiceEndorsement,
    /// A state witness is not acceptable.
    InvalidChunkStateWitness(WitnessFault),
    /// The chunk header has a version that the protocol version does not allow.
    HeaderVersion { chunk_hash: ChunkHash, protocol_version: u32 },
    /// No shard has this identifier.
    InvalidShardId(u64),
    /// No shard has this index.
    InvalidShardIndex(u64),
    /// The store holds no state roots of genesis.
    NoGenesisStateRoots,
    /// The state roots of genesis do not reach to this shard.
    NoGenesisStateRoot { shard_id: u64, shard_index: u64 },
    /// The state transition of an executed chunk was not stored.
    NoStateTransition { block_hash: CryptoHash, shard_id: u64 },
}

impl Error {
    /// Whether a witness on which this failure comes is kept: what it builds on
    /// is not there yet.
    pub open spec fn spec_is_not_found(self) -> bool {
        self is NotFound || self is MissingPreviousExecutionResults
    }

    /// Whether a witness on which this failure comes is kept: what it builds on
    /// is not there yet.
    #[verifier::when_used_as_spec(spec_is_not_found)]
    pub fn is_not_found(self) -> (r: bool)
        ensures
            r == self.is_not_found(),
    {
        match self {
            Error::NotFound(_) => true,
            Error::MissingPreviousExecutionResults(_) => true,
            _ => false,
        }
    }
}

} // verus!
