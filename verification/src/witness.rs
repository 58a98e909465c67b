//! State witnesses, and what has to be executed to check one.
//!
//! A witness borrows its parts, from the message that brought it or from the
//! [`ChainView`](crate::view::ChainView) that it was made from.
use std::sync::Arc;
use vstd::prelude::*;
use crate::block::{AccountId, ChunkExtra, CongestionInfo, ShardChunkHeader};
use crate::by_hash::ByHash;
use crate::hash::{CryptoHash, EpochId};
use crate::receipts::{Receipt, ReceiptProof, SignedTransaction};

verus! {

/// The state before an execution, as far as it was touched, and the root after it.
pub struct ChunkStateTransition<'a> {
    /// The block whose chunk was executed.
    pub block_hash: CryptoHash,
    /// The nodes of the state that the execution touched.
    pub base_state: Vec<&'a Vec<u8>>,
    pub post_state_root: CryptoHash,
}

/// [`ChunkStateTransition`] as it stands in specifications.
pub struct ChunkStateTransitionView {
    pub block_hash: CryptoHash,
    pub base_state: Seq<Vec<u8>>,
    pub post_state_root: CryptoHash,
}

impl<'a> View for ChunkStateTransition<'a> {
    type V = ChunkStateTransitionView;

    open spec fn view(&self) -> ChunkStateTransitionView {
        ChunkStateTransitionView {
            block_hash: self.block_hash,
            base_state: self.base_state@.unref(),
            post_state_root: self.post_state_root,
        }
    }
}

/// All that is needed to execute a chunk without having the state.
pub struct ChunkStateWitness<'a> {
    /// The node that made the witness.
    pub chunk_producer: &'a AccountId,
    pub epoch_id: EpochId,
    /// The header of the chunk whose execution is witnessed.
    pub chunk_header: &'a ShardChunkHeader,
    pub main_state_transition: ChunkStateTransition<'a>,
    /// The receipts to apply, by the chunk of the previous block that sent them.
    pub source_receipt_proofs: ByHash<&'a ReceiptProof>,
    /// The digest of the receipts, in the order in which they were applied.
    pub applied_receipts_hash: CryptoHash,
    pub transactions: &'a Vec<SignedTransaction>,
    pub implicit_transitions: Vec<ChunkStateTransition<'a>>,
}

/// [`ChunkStateWitness`] as it stands in specifications.
pub struct ChunkStateWitnessView<'a> {
    pub chunk_producer: &'a AccountId,
    pub epoch_id: EpochId,
    pub chunk_header: &'a ShardChunkHeader,
    pub main_state_transition: ChunkStateTransitionView,
    pub source_receipt_proofs: Map<CryptoHash, &'a ReceiptProof>,
    pub applied_receipts_hash: CryptoHash,
    pub transactions: &'a Vec<SignedTransaction>,
    pub implicit_transitions: Seq<ChunkStateTransitionView>,
}

impl<'a> View for ChunkStateWitness<'a> {
    type V = ChunkStateWitnessView<'a>;

    open spec fn view(&self) -> ChunkStateWitnessView<'a> {
        ChunkStateWitnessView {
            chunk_producer: self.chunk_producer,
            epoch_id: self.epoch_id,
            chunk_header: self.chunk_header,
            main_state_transition: self.main_state_transition@,
            source_receipt_proofs: self.source_receipt_proofs@,
            applied_receipts_hash: self.applied_receipts_hash,
            transactions: self.transactions,
            implicit_transitions: self.implicit_transitions@.map_values(
                |transition: ChunkStateTransition<'a>| transition@,
            ),
        }
    }
}

/// The contracts that an execution called, by their digests, each once, and those
/// that it deployed.
pub struct ContractUpdates<'a> {
    pub contract_accesses: Vec<CryptoHash>,
    pub contract_deploys: Vec<&'a Vec<u8>>,
}

/// [`ContractUpdates`] as it stands in specifications.
pub struct ContractUpdatesView {
    pub contract_accesses: Set<CryptoHash>,
    pub contract_deploys: Seq<Vec<u8>>,
}

impl<'a> View for ContractUpdates<'a> {
    type V = ContractUpdatesView;

    open spec fn view(&self) -> ContractUpdatesView {
        ContractUpdatesView {
            contract_accesses: self.contract_accesses@.to_set(),
            contract_deploys: self.contract_deploys@.unref(),
        }
    }
}

/// The chunk extra that genesis leaves behind, by what it is made of.
#[derive(Clone, Copy, PartialEq, Eq, Structural, Debug)]
pub struct GenesisChunkExtra {
    pub state_root: CryptoHash,
    pub gas_limit: u64,
    pub protocol_version: u32,
    pub congestion_info: Option<CongestionInfo>,
}

/// What an execution left behind for the next chunk of its shard.
#[derive(Clone, Copy)]
pub enum PrevChunkExtra<'a> {
    Executed(&'a Arc<ChunkExtra>),
    Genesis(GenesisChunkExtra),
}

/// The header of a chunk, completed by what the previous execution left behind.
#[derive(Clone, Copy)]
pub struct SpiceChunkHeader<'a> {
    pub chunk_header: &'a ShardChunkHeader,
    pub prev_chunk_extra: PrevChunkExtra<'a>,
    pub prev_outgoing_receipts_root: CryptoHash,
}

/// Where the state to execute on comes from.
#[derive(Clone, Copy)]
pub enum StorageDataSource<'a> {
    /// The store of the node.
    Db,
    /// These nodes alone.
    Recorded(&'a Vec<&'a Vec<u8>>),
}

/// What is needed to execute a new chunk.
pub struct NewChunkData<'a> {
    pub chunk_header: SpiceChunkHeader<'a>,
    pub transactions: &'a Vec<SignedTransaction>,
    /// For each transaction, whether it can still be included.
    pub transaction_validity_check_results: Vec<bool>,
    pub receipts: Vec<&'a Receipt>,
    /// The number under which the caller keeps the block context.
    pub block: u64,
    pub storage_data_source: StorageDataSource<'a>,
}

/// [`NewChunkData`] as it stands in specifications.
pub struct NewChunkDataView<'a> {
    pub chunk_header: SpiceChunkHeader<'a>,
    pub transactions: &'a Vec<SignedTransaction>,
    pub transaction_validity_check_results: Seq<bool>,
    pub receipts: Seq<Receipt>,
    pub block: u64,
    pub storage_data_source: StorageDataSource<'a>,
}

impl<'a> View for NewChunkData<'a> {
    type V = NewChunkDataView<'a>;

    open spec fn view(&self) -> NewChunkDataView<'a> {
        NewChunkDataView {
            chunk_header: self.chunk_header,
            transactions: self.transactions,
            transaction_validity_check_results: self.transaction_validity_check_results@,
            receipts: self.receipts@.unref(),
            block: self.block,
            storage_data_source: self.storage_data_source,
        }
    }
}

/// The execution that a witness is about.
pub enum MainTransition<'a> {
    Genesis { chunk_extra: GenesisChunkExtra, block_hash: CryptoHash, shard_id: u64 },
    NewChunk(NewChunkData<'a>),
}

/// [`MainTransition`] as it stands in specifications.
pub enum MainTransitionView<'a> {
    Genesis { chunk_extra: GenesisChunkExtra, block_hash: CryptoHash, shard_id: u64 },
    NewChunk(NewChunkDataView<'a>),
}

impl<'a> View for MainTransition<'a> {
    type V = MainTransitionView<'a>;

    open spec fn view(&self) -> MainTransitionView<'a> {
        match *self {
            MainTransition::Genesis { chunk_extra, block_hash, shard_id } => {
                MainTransitionView::Genesis { chunk_extra, block_hash, shard_id }
            },
            MainTransition::NewChunk(data) => MainTransitionView::NewChunk(data@),
        }
    }
}

/// What has to be executed to check a witness.
pub struct PreValidationOutput<'a> {
    pub main_transition_params: MainTransition<'a>,
    /// The resharding that follows the execution, if one does, by the number under which the
    /// caller keeps it.
    pub implicit_transition_params: Option<u64>,
}

/// [`PreValidationOutput`] as it stands in specifications.
pub struct PreValidationOutputView<'a> {
    pub main_transition_params: MainTransitionView<'a>,
    pub implicit_transition_params: Option<u64>,
}

impl<'a> View for PreValidationOutput<'a> {
    type V = PreValidationOutputView<'a>;

    open spec fn view(&self) -> PreValidationOutputView<'a> {
        PreValidationOutputView {
            main_transition_params: self.main_transition_params@,
            implicit_transition_params: self.implicit_transition_params,
        }
    }
}

} // verus!
