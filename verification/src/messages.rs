//! What the parts of a node tell each other about execution.
use vstd::prelude::*;
use crate::block::{AccountId, ShardChunkHeader};
use crate::hash::{ChunkHash, CryptoHash, EpochId};
use crate::receipts::ReceiptProof;
use crate::statements::ExecutionResult;

verus! {

/// Receipts that the chunks of a block sent out.
pub struct ExecutorIncomingReceipt {
    pub block_hash: CryptoHash,
    pub receipt_proofs: Vec<ReceiptProof>,
}

/// A block was processed and can be executed.
#[derive(Clone, Copy, PartialEq, Eq, Structural, Debug)]
pub struct ExecutorBlock {
    pub block_hash: CryptoHash,
}

/// A result of executing a chunk of a block became known.
#[derive(Clone, Copy, PartialEq, Eq, Structural, Debug)]
pub struct ExecutorAllExecutionResultsAvailable {
    pub block_hash: CryptoHash,
}

/// An endorsement to be signed and sent to validators.
pub struct EndorsementRequest<'a> {
    pub epoch_id: EpochId,
    pub chunk_header: &'a ShardChunkHeader,
    pub execution_result: ExecutionResult,
    pub recipients: Vec<&'a AccountId>,
}

/// [`EndorsementRequest`] as it stands in specifications.
pub struct EndorsementRequestView<'a> {
    pub epoch_id: EpochId,
    pub chunk_header: &'a ShardChunkHeader,
    pub execution_result: ExecutionResult,
    pub recipients: Seq<AccountId>,
}

impl<'a> View for EndorsementRequest<'a> {
    type V = EndorsementRequestView<'a>;

    open spec fn view(&self) -> EndorsementRequestView<'a> {
        EndorsementRequestView {
            epoch_id: self.epoch_id,
            chunk_header: self.chunk_header,
            execution_result: self.execution_result,
            recipients: self.recipients@.unref(),
        }
    }
}

} // verus!
