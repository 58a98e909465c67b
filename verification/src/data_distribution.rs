//! Data that nodes hand to each other in parts.
use vstd::prelude::*;
use crate::block::AccountId;
use crate::hash::CryptoHash;
use crate::receipts::MerklePathItem;

verus! {

/// A node of the network, by the borsh encoding of its public key.
#[derive(Debug)]
pub struct PeerId(pub Vec<u8>);

/// Which data is meant.
#[derive(Clone, Copy, PartialEq, Eq, Structural, Debug, Hash)]
pub enum SpiceDataIdentifier {
    /// The receipts that the chunk of one shard in a block sends to another.
    ReceiptProof { block_hash: CryptoHash, from_shard_id: u64, to_shard_id: u64 },
    /// The witness of the chunk of a shard in a block.
    Witness { block_hash: CryptoHash, shard_id: u64 },
}

impl SpiceDataIdentifier {
    /// The block that the data belongs to.
    pub open spec fn of_block(self) -> CryptoHash {
        match self {
            SpiceDataIdentifier::ReceiptProof { block_hash, .. } => block_hash,
            SpiceDataIdentifier::Witness { block_hash, .. } => block_hash,
        }
    }

    /// The block that the data belongs to.
    pub fn block_hash(&self) -> (r: &CryptoHash)
        ensures
            *r == self.of_block(),
    {
        match self {
            SpiceDataIdentifier::ReceiptProof { block_hash, from_shard_id: _, to_shard_id: _ } => {
                block_hash
            },
            SpiceDataIdentifier::Witness { block_hash, shard_id: _ } => block_hash,
        }
    }
}

/// What the parts of data have to add up to.
#[derive(Clone, Copy, PartialEq, Eq, Structural, Debug, Hash)]
pub struct SpiceDataCommitment {
    pub hash: CryptoHash,
    /// The merkle root of the parts.
    pub root: CryptoHash,
    pub encoded_length: u64,
}

/// A part of data.
#[derive(Debug)]
pub struct SpiceDataPart {
    pub part_ord: u64,
    pub part: Vec<u8>,
    /// The path from the part to the root of the commitment.
    pub merkle_proof: Vec<MerklePathItem>,
}

/// Some parts of data.
#[derive(Debug)]
pub struct SpicePartialData {
    pub id: SpiceDataIdentifier,
    pub commitment: SpiceDataCommitment,
    pub parts: Vec<SpiceDataPart>,
    pub sender: AccountId,
}

/// Parts of data that came in.
#[derive(Debug)]
pub struct SpiceIncomingPartialData {
    pub data: SpicePartialData,
    pub sender: PeerId,
}

/// A request for data.
#[derive(Debug)]
pub struct RequestSpiceData {
    pub data_id: SpiceDataIdentifier,
    pub requester: AccountId,
}

} // verus!
