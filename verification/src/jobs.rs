//! The work of executing the chunks of a block.
use std::sync::Arc;
use vstd::prelude::*;
use crate::block::{Block, ChunkExtra, ShardChunkHeader, ShardLayout, ShardUId};
use crate::hash::{CryptoHash, EpochId};
use crate::receipts::{
    collect_receipts, digests_root, each_of, merklize_digests, receipts_of, Receipt, ReceiptProof,
    SignedTransaction,
};
use crate::view::{or_fail, seen, Assumption, ChainView, Query, Stop};
use crate::witness::{
    NewChunkData, NewChunkDataView, PrevChunkExtra, SpiceChunkHeader, StorageDataSource,
};

verus! {

/// A shard, and whether the node executes its chunk.
#[derive(Clone, Copy, PartialEq, Eq, Structural, Debug)]
pub struct ShardContext {
    pub shard_uid: ShardUId,
    pub should_apply_chunk: bool,
}

/// What is needed to carry a shard over a block that brings no new chunk of it.
#[derive(Clone, Copy)]
pub struct OldChunkData<'a> {
    /// The number under which the caller keeps the block context.
    pub block: u64,
    pub prev_chunk_extra: &'a Arc<ChunkExtra>,
    pub storage_data_source: StorageDataSource<'a>,
}

/// What there is to do for a shard.
pub enum ShardUpdateReason<'a> {
    NewChunk(NewChunkData<'a>),
    OldChunk(OldChunkData<'a>),
}

/// [`ShardUpdateReason`] as it stands in specifications.
pub enum ShardUpdateReasonView<'a> {
    NewChunk(NewChunkDataView<'a>),
    OldChunk(OldChunkData<'a>),
}

impl<'a> View for ShardUpdateReason<'a> {
    type V = ShardUpdateReasonView<'a>;

    open spec fn view(&self) -> ShardUpdateReasonView<'a> {
        match *self {
            ShardUpdateReason::NewChunk(data) => ShardUpdateReasonView::NewChunk(data@),
            ShardUpdateReason::OldChunk(data) => ShardUpdateReasonView::OldChunk(data),
        }
    }
}

/// The work for one shard.
pub struct UpdateShardJob<'a> {
    pub shard_id: u64,
    /// The number under which the caller keeps the key of the cached execution.
    pub cached_shard_update_key: u64,
    pub shard_update_reason: ShardUpdateReason<'a>,
    pub shard_context: ShardContext,
    /// Whether the state patch of the block is applied with this chunk.
    pub takes_state_patch: bool,
}

/// [`UpdateShardJob`] as it stands in specifications.
pub struct UpdateShardJobView<'a> {
    pub shard_id: u64,
    pub cached_shard_update_key: u64,
    pub shard_update_reason: ShardUpdateReasonView<'a>,
    pub shard_context: ShardContext,
    pub takes_state_patch: bool,
}

impl<'a> View for UpdateShardJob<'a> {
    type V = UpdateShardJobView<'a>;

    open spec fn view(&self) -> UpdateShardJobView<'a> {
        UpdateShardJobView {
            shard_id: self.shard_id,
            cached_shard_update_key: self.cached_shard_update_key,
            shard_update_reason: self.shard_update_reason@,
            shard_context: self.shard_context,
            takes_state_patch: self.takes_state_patch,
        }
    }
}

/// What [`get_shard_context`] returns.
pub open spec fn shard_context(
    prev_block_hash: CryptoHash,
    epoch_id: EpochId,
    shard_id: u64,
    view: &ChainView,
) -> Result<ShardContext, Stop> {
    match view.flag(Query::CaresThisEpoch { prev_block_hash, shard_id }) {
        Err(stop) => Err(stop),
        Ok(cares_this) => match view.flag(Query::CaresNextEpoch { prev_block_hash, shard_id }) {
            Err(stop) => Err(stop),
            Ok(cares_next) => match view.flag(Query::CaredPrevEpoch { prev_block_hash, shard_id }) {
                Err(stop) => Err(stop),
                Ok(cared_prev) => match view.flag(
                    Query::ShouldApplyChunk { cares_this, cares_next, cared_prev },
                ) {
                    Err(stop) => Err(stop),
                    Ok(should_apply_chunk) => match view.uid(
                        Query::ShardUid { shard_id, epoch_id },
                    ) {
                        Err(stop) => Err(stop),
                        Ok(shard_uid) => Ok(ShardContext { shard_uid, should_apply_chunk }),
                    },
                },
            },
        },
    }
}

/// A shard of the block after another, and whether the node executes its chunk.
pub fn get_shard_context(
    prev_block_hash: CryptoHash,
    epoch_id: EpochId,
    shard_id: u64,
    view: &ChainView,
) -> (r: Result<ShardContext, Stop>)
    ensures
        r == shard_context(prev_block_hash, epoch_id, shard_id, view),
{
    let cares_this: bool = view.flag(Query::CaresThisEpoch { prev_block_hash, shard_id })?;
    let cares_next: bool = view.flag(Query::CaresNextEpoch { prev_block_hash, shard_id })?;
    let cared_prev: bool = view.flag(Query::CaredPrevEpoch { prev_block_hash, shard_id })?;
    let should_apply_chunk: bool = view.flag(
        Query::ShouldApplyChunk { cares_this, cares_next, cared_prev },
    )?;
    let shard_uid: ShardUId = view.uid(Query::ShardUid { shard_id, epoch_id })?;
    Ok(ShardContext { shard_uid, should_apply_chunk })
}

/// What [`calculate_receipts_root`] returns.
pub open spec fn receipts_root(receipts: u64, epoch_id: EpochId, view: &ChainView) -> Result<
    CryptoHash,
    Stop,
> {
    match view.hashes(Query::ReceiptsHashes { receipts, epoch_id }) {
        Err(stop) => Err(stop),
        Ok(hashes) => Ok(digests_root(hashes@)),
    }
}

/// The merkle root of outgoing receipts, over one digest per shard of an epoch.
pub fn calculate_receipts_root(receipts: u64, epoch_id: EpochId, view: &ChainView) -> (r: Result<
    CryptoHash,
    Stop,
>)
    ensures
        r == receipts_root(receipts, epoch_id, view),
{
    let hashes: &Vec<CryptoHash> = view.hashes(Query::ReceiptsHashes { receipts, epoch_id })?;
    Ok(merklize_digests(hashes))
}

/// The receipts that the previous execution of a shard sent out, by the number
/// under which the caller keeps them.
pub open spec fn prev_outgoing_receipts(
    prev_block: &Block,
    shard_id: u64,
    view: &ChainView,
) -> Result<u64, Stop> {
    let prev_block_hash = prev_block.header.hash;
    match view.number(Query::PrevChunkHeightIncluded { prev_block_hash, shard_id }) {
        Err(Stop::Fail(e)) => Err(Stop::Broken(Assumption::PreviousChunk(e))),
        Err(stop) => Err(stop),
        Ok(last_height_included) => view.number(
            Query::OutgoingReceipts { block_hash: prev_block_hash, shard_id, last_height_included },
        ),
    }
}

/// The receipts that the previous execution of a shard sent out.
pub(crate) fn get_prev_outgoing_receipts(prev_block: &Block, shard_id: u64, view: &ChainView) -> (r:
    Result<u64, Stop>)
    ensures
        r == prev_outgoing_receipts(prev_block, shard_id, view),
{
    let prev_block_hash: CryptoHash = prev_block.header.hash;
    let last_height_included: u64 = match view.number(
        Query::PrevChunkHeightIncluded { prev_block_hash, shard_id },
    ) {
        Ok(height) => height,
        Err(Stop::Fail(e)) => {
            return Err(Stop::Broken(Assumption::PreviousChunk(e)));
        },
        Err(stop) => {
            return Err(stop);
        },
    };
    view.number(
        Query::OutgoingReceipts { block_hash: prev_block_hash, shard_id, last_height_included },
    )
}

/// What is needed to execute a new chunk.
pub open spec fn new_chunk_data<'a>(
    chunk_header: &'a ShardChunkHeader,
    shard_uid: ShardUId,
    shard_id: u64,
    epoch_id: EpochId,
    context: u64,
    prev_block: &Block,
    incoming_receipts: &'a Vec<ReceiptProof>,
    view: &'a ChainView,
) -> Result<NewChunkDataView<'a>, Stop> {
    let prev_block_hash = prev_block.header.hash;
    let chunk_hash = chunk_header.chunk_hash;
    match view.transactions(Query::ChunkTransactions(chunk_hash)) {
        Err(stop) => Err(stop),
        Ok(transactions) => match view.flags(
            Query::ChunkTransactionsValid { prev_block_hash, chunk_hash },
        ) {
            Err(stop) => Err(stop),
            Ok(flags) => match view.extra(
                Query::ChunkExtra { block_hash: prev_block_hash, shard_uid },
            ) {
                Err(stop) => Err(stop),
                Ok(extra) => match prev_outgoing_receipts(prev_block, shard_id, view) {
                    Err(stop) => Err(stop),
                    Ok(outgoing) => match receipts_root(outgoing, epoch_id, view) {
                        Err(stop) => Err(stop),
                        Ok(prev_outgoing_receipts_root) => Ok(
                            NewChunkDataView {
                                chunk_header: SpiceChunkHeader {
                                    chunk_header,
                                    prev_chunk_extra: PrevChunkExtra::Executed(extra),
                                    prev_outgoing_receipts_root,
                                },
                                transactions,
                                transaction_validity_check_results: flags@,
                                receipts: receipts_of(incoming_receipts@),
                                block: context,
                                storage_data_source: StorageDataSource::Db,
                            },
                        ),
                    },
                },
            },
        },
    }
}

/// A copy of a list of flags.
fn copy_flags(flags: &Vec<bool>) -> (r: Vec<bool>)
    ensures
        r@ == flags@,
{
    let mut r: Vec<bool> = Vec::new();
    let mut i: usize = 0;
    while i < flags.len()
        invariant
            i <= flags.len(),
            r@ == flags@.take(i as int),
        decreases flags.len() - i,
    {
        r.push(flags[i]);
        assert(flags@.take(i + 1) =~= flags@.take(i as int).push(flags@[i as int]));
        i = i + 1;
    }
    assert(flags@.take(i as int) =~= flags@);
    r
}

/// What is needed to execute a new chunk.
fn get_new_chunk_data<'a>(
    chunk_header: &'a ShardChunkHeader,
    shard_uid: ShardUId,
    shard_id: u64,
    epoch_id: EpochId,
    context: u64,
    prev_block: &Block,
    incoming_receipts: &'a Vec<ReceiptProof>,
    view: &'a ChainView,
) -> (r: Result<NewChunkData<'a>, Stop>)
    ensures
        seen(r) == new_chunk_data(
            chunk_header,
            shard_uid,
            shard_id,
            epoch_id,
            context,
            prev_block,
            incoming_receipts,
            view,
        ),
{
    let prev_block_hash: CryptoHash = prev_block.header.hash;
    let chunk_hash = chunk_header.chunk_hash;
    let transactions: &'a Vec<SignedTransaction> = view.transactions(
        Query::ChunkTransactions(chunk_hash),
    )?;
    let flags: &Vec<bool> = view.flags(
        Query::ChunkTransactionsValid { prev_block_hash, chunk_hash },
    )?;
    let receipts: Vec<&'a Receipt> = collect_receipts(&each_of(incoming_receipts));
    let extra: &'a Arc<ChunkExtra> = view.extra(
        Query::ChunkExtra { block_hash: prev_block_hash, shard_uid },
    )?;
    let outgoing: u64 = get_prev_outgoing_receipts(prev_block, shard_id, view)?;
    let prev_outgoing_receipts_root: CryptoHash = calculate_receipts_root(
        outgoing,
        epoch_id,
        view,
    )?;
    Ok(
        NewChunkData {
            chunk_header: SpiceChunkHeader {
                chunk_header,
                prev_chunk_extra: PrevChunkExtra::Executed(extra),
                prev_outgoing_receipts_root,
            },
            transactions,
            transaction_validity_check_results: copy_flags(flags),
            receipts,
            block: context,
            storage_data_source: StorageDataSource::Db,
        },
    )
}

/// What there is to do for a shard whose chunk the node executes.
pub open spec fn update_reason<'a>(
    block: &'a Block,
    shard_index: u64,
    shard_id: u64,
    shard_uid: ShardUId,
    epoch_id: EpochId,
    context: u64,
    prev_block: &Block,
    incoming_receipts: &'a Vec<ReceiptProof>,
    view: &'a ChainView,
) -> Result<ShardUpdateReasonView<'a>, Stop> {
    match block.chunk_of(shard_index, shard_id) {
        Err(e) => Err(Stop::Fail(e)),
        Ok(chunk_header) => if chunk_header.is_new_chunk(block.header.height) {
            match new_chunk_data(
                &chunk_header,
                shard_uid,
                shard_id,
                epoch_id,
                context,
                prev_block,
                incoming_receipts,
                view,
            ) {
                Err(stop) => Err(stop),
                Ok(data) => Ok(ShardUpdateReasonView::NewChunk(data)),
            }
        } else {
            match view.extra(
                Query::ChunkExtra { block_hash: prev_block.header.hash, shard_uid },
            ) {
                Err(stop) => Err(stop),
                Ok(prev_chunk_extra) => Ok(
                    ShardUpdateReasonView::OldChunk(
                        OldChunkData {
                            block: context,
                            prev_chunk_extra,
                            storage_data_source: StorageDataSource::Db,
                        },
                    ),
                ),
            }
        },
    }
}

/// What there is to do for a shard whose chunk the node executes.
fn get_update_reason<'a>(
    block: &'a Block,
    shard_index: u64,
    shard_id: u64,
    shard_uid: ShardUId,
    epoch_id: EpochId,
    context: u64,
    prev_block: &Block,
    incoming_receipts: &'a Vec<ReceiptProof>,
    view: &'a ChainView,
) -> (r: Result<ShardUpdateReason<'a>, Stop>)
    ensures
        seen(r) == update_reason(
            block,
            shard_index,
            shard_id,
            shard_uid,
            epoch_id,
            context,
            prev_block,
            incoming_receipts,
            view,
        ),
{
    let chunk_header: &'a ShardChunkHeader = or_fail(block.chunk(shard_index, shard_id))?;
    if chunk_header.is_new_chunk(block.header.height) {
        let data: NewChunkData<'a> = get_new_chunk_data(
            chunk_header,
            shard_uid,
            shard_id,
            epoch_id,
            context,
            prev_block,
            incoming_receipts,
            view,
        )?;
        Ok(ShardUpdateReason::NewChunk(data))
    } else {
        let prev_chunk_extra: &'a Arc<ChunkExtra> = view.extra(
            Query::ChunkExtra { block_hash: prev_block.header.hash, shard_uid },
        )?;
        Ok(
            ShardUpdateReason::OldChunk(
                OldChunkData {
                    block: context,
                    prev_chunk_extra,
                    storage_data_source: StorageDataSource::Db,
                },
            ),
        )
    }
}

/// What [`get_update_shard_job`] returns.
pub open spec fn update_shard_job<'a>(
    cached_shard_update_key: u64,
    context: u64,
    block: &'a Block,
    shard_index: u64,
    prev_block: &Block,
    incoming_receipts: &'a Vec<ReceiptProof>,
    takes_state_patch: bool,
    view: &'a ChainView,
) -> Result<Option<UpdateShardJobView<'a>>, Stop> {
    let prev_block_hash = prev_block.header.hash;
    match view.digest(Query::EpochIdFromPrevBlock(prev_block_hash)) {
        Err(stop) => Err(stop),
        Ok(epoch_hash) => {
            let epoch_id = EpochId(epoch_hash);
            match view.layout(Query::ShardLayout(epoch_id)) {
                Err(stop) => Err(stop),
                Ok(layout) => match layout.shard_id_at(shard_index) {
                    Err(e) => Err(Stop::Fail(e)),
                    Ok(shard_id) => match shard_context(prev_block_hash, epoch_id, shard_id, view) {
                        Err(stop) => Err(stop),
                        Ok(shard_context) => if !shard_context.should_apply_chunk {
                            Ok(None)
                        } else {
                            match update_reason(
                                block,
                                shard_index,
                                shard_id,
                                shard_context.shard_uid,
                                epoch_id,
                                context,
                                prev_block,
                                incoming_receipts,
                                view,
                            ) {
                                Err(stop) => Err(stop),
                                Ok(shard_update_reason) => Ok(
                                    Some(
                                        UpdateShardJobView {
                                            shard_id,
                                            cached_shard_update_key,
                                            shard_update_reason,
                                            shard_context,
                                            takes_state_patch,
                                        },
                                    ),
                                ),
                            }
                        },
                    },
                },
            }
        },
    }
}

/// The outcome of looking for work, as it stands in specifications.
pub open spec fn seen_job<'a>(outcome: Result<Option<UpdateShardJob<'a>>, Stop>) -> Result<
    Option<UpdateShardJobView<'a>>,
    Stop,
> {
    match outcome {
        Ok(Some(job)) => Ok(Some(job@)),
        Ok(None) => Ok(None),
        Err(stop) => Err(stop),
    }
}

/// The work for the shard at an index of a block, unless the node does not
/// execute its chunk.
pub fn get_update_shard_job<'a>(
    cached_shard_update_key: u64,
    context: u64,
    block: &'a Block,
    shard_index: u64,
    prev_block: &Block,
    incoming_receipts: &'a Vec<ReceiptProof>,
    takes_state_patch: bool,
    view: &'a ChainView,
) -> (r: Result<Option<UpdateShardJob<'a>>, Stop>)
    ensures
        seen_job(r) == update_shard_job(
            cached_shard_update_key,
            context,
            block,
            shard_index,
            prev_block,
            incoming_receipts,
            takes_state_patch,
            view,
        ),
{
    let prev_block_hash: CryptoHash = prev_block.header.hash;
    let epoch_id: EpochId = EpochId(view.digest(Query::EpochIdFromPrevBlock(prev_block_hash))?);
    let layout: &ShardLayout = view.layout(Query::ShardLayout(epoch_id))?;
    let shard_id: u64 = or_fail(layout.get_shard_id(shard_index))?;
    let shard_context: ShardContext = get_shard_context(prev_block_hash, epoch_id, shard_id, view)?;
    if !shard_context.should_apply_chunk {
        return Ok(None);
    }
    let shard_update_reason: ShardUpdateReason<'a> = get_update_reason(
        block,
        shard_index,
        shard_id,
        shard_context.shard_uid,
        epoch_id,
        context,
        prev_block,
        incoming_receipts,
        view,
    )?;
    Ok(
        Some(
            UpdateShardJob {
                shard_id,
                cached_shard_update_key,
                shard_update_reason,
                shard_context,
                takes_state_patch,
            },
        ),
    )
}

/// The work for the shard at an index of a block, unless the node does not care
/// about it. Work that cannot be laid out halts the node.
pub open spec fn job_at<'a>(
    block: &'a Block,
    prev_block: &Block,
    layout: &ShardLayout,
    shard_index: u64,
    view: &'a ChainView,
) -> Result<Option<UpdateShardJobView<'a>>, Stop> {
    let block_hash = block.header.hash;
    let prev_block_hash = block.header.prev_hash;
    match layout.shard_id_at(shard_index) {
        Err(e) => Err(Stop::Fail(e)),
        Ok(shard_id) => match block.chunk_of(shard_index, shard_id) {
            Err(e) => Err(Stop::Fail(e)),
            Ok(chunk_header) => match view.number(
                Query::BlockContext {
                    block_hash,
                    prev_block_hash: prev_block.header.hash,
                    is_new_chunk: chunk_header.is_new_chunk(block.header.height),
                },
            ) {
                Err(stop) => Err(stop),
                Ok(context) => match view.flag(
                    Query::CaresThisOrNextEpoch { block_hash, shard_id },
                ) {
                    Err(stop) => Err(stop),
                    Ok(false) => Ok(None),
                    Ok(true) => match view.proofs(
                        Query::IncomingReceipts { block_hash: prev_block_hash, shard_id },
                    ) {
                        Err(stop) => Err(stop),
                        Ok(incoming_receipts) => match view.number(
                            Query::CachedUpdateKey { context, block_hash, shard_id },
                        ) {
                            Err(stop) => Err(stop),
                            Ok(cached_shard_update_key) => match update_shard_job(
                                cached_shard_update_key,
                                context,
                                block,
                                shard_index,
                                prev_block,
                                incoming_receipts,
                                shard_index == 0,
                                view,
                            ) {
                                Err(Stop::Fail(e)) => Err(Stop::Broken(Assumption::ShardJob(e))),
                                outcome => outcome,
                            },
                        },
                    },
                },
            },
        },
    }
}

/// The work for the shard at an index of a block.
fn get_job_at<'a>(
    block: &'a Block,
    prev_block: &Block,
    layout: &ShardLayout,
    shard_index: u64,
    view: &'a ChainView,
) -> (r: Result<Option<UpdateShardJob<'a>>, Stop>)
    ensures
        seen_job(r) == job_at(block, prev_block, layout, shard_index, view),
{
    let block_hash: CryptoHash = block.header.hash;
    let prev_block_hash: CryptoHash = block.header.prev_hash;
    let shard_id: u64 = or_fail(layout.get_shard_id(shard_index))?;
    let chunk_header: &'a ShardChunkHeader = or_fail(block.chunk(shard_index, shard_id))?;
    let is_new_chunk: bool = chunk_header.is_new_chunk(block.header.height);
    let context: u64 = view.number(
        Query::BlockContext { block_hash, prev_block_hash: prev_block.header.hash, is_new_chunk },
    )?;
    if !view.flag(Query::CaresThisOrNextEpoch { block_hash, shard_id })? {
        return Ok(None);
    }
    let incoming_receipts: &'a Vec<ReceiptProof> = view.proofs(
        Query::IncomingReceipts { block_hash: prev_block_hash, shard_id },
    )?;
    let cached_shard_update_key: u64 = view.number(
        Query::CachedUpdateKey { context, block_hash, shard_id },
    )?;
    match get_update_shard_job(
        cached_shard_update_key,
        context,
        block,
        shard_index,
        prev_block,
        incoming_receipts,
        shard_index == 0,
        view,
    ) {
        Ok(job) => Ok(job),
        Err(Stop::Fail(e)) => Err(Stop::Broken(Assumption::ShardJob(e))),
        Err(stop) => Err(stop),
    }
}

/// The work for the first shards of a block.
pub open spec fn jobs_below<'a>(
    block: &'a Block,
    prev_block: &Block,
    layout: &ShardLayout,
    count: nat,
    view: &'a ChainView,
) -> Result<Seq<UpdateShardJobView<'a>>, Stop>
    decreases count,
{
    if count == 0 {
        Ok(Seq::empty())
    } else {
        match jobs_below(block, prev_block, layout, (count - 1) as nat, view) {
            Err(stop) => Err(stop),
            Ok(jobs) => match job_at(block, prev_block, layout, (count - 1) as u64, view) {
                Err(stop) => Err(stop),
                Ok(None) => Ok(jobs),
                Ok(Some(job)) => Ok(jobs.push(job)),
            },
        }
    }
}

proof fn lemma_jobs_below_prefix<'a>(
    block: &'a Block,
    prev_block: &Block,
    layout: &ShardLayout,
    n: nat,
    count: nat,
    view: &'a ChainView,
)
    requires
        n <= count,
        jobs_below(block, prev_block, layout, n, view) is Err,
    ensures
        jobs_below(block, prev_block, layout, count, view) == jobs_below(
            block,
            prev_block,
            layout,
            n,
            view,
        ),
    decreases count,
{
    if n < count {
        lemma_jobs_below_prefix(block, prev_block, layout, n, (count - 1) as nat, view);
    }
}

/// A list of jobs as it stands in specifications.
pub open spec fn jobs_view<'a>(jobs: Seq<UpdateShardJob<'a>>) -> Seq<UpdateShardJobView<'a>> {
    jobs.map_values(|job: UpdateShardJob<'a>| job@)
}

/// What [`apply_chunks`] returns.
pub open spec fn chunk_jobs<'a>(block: &'a Block, view: &'a ChainView) -> Result<
    Seq<UpdateShardJobView<'a>>,
    Stop,
> {
    match view.block(Query::Block(block.header.prev_hash)) {
        Err(stop) => Err(stop),
        Ok(prev_block) => match view.number(Query::PrevChunkCount(prev_block.header.hash)) {
            Err(stop) => Err(stop),
            Ok(count) => match view.layout(Query::ShardLayout(block.header.epoch_id)) {
                Err(stop) => Err(stop),
                Ok(layout) => jobs_below(block, prev_block, layout, count as nat, view),
            },
        },
    }
}

/// The work of executing the chunks of a block that the node cares about.
pub fn apply_chunks<'a>(block: &'a Block, view: &'a ChainView) -> (r: Result<
    Vec<UpdateShardJob<'a>>,
    Stop,
>)
    ensures
        match r {
            Ok(jobs) => chunk_jobs(block, view) == Ok::<Seq<UpdateShardJobView<'a>>, Stop>(
                jobs_view(jobs@),
            ),
            Err(stop) => chunk_jobs(block, view) == Err::<Seq<UpdateShardJobView<'a>>, Stop>(stop),
        },
{
    let prev_block: &Block = view.block(Query::Block(block.header.prev_hash))?;
    let count: u64 = view.number(Query::PrevChunkCount(prev_block.header.hash))?;
    let layout: &ShardLayout = view.layout(Query::ShardLayout(block.header.epoch_id))?;
    let mut jobs: Vec<UpdateShardJob<'a>> = Vec::new();
    let mut i: u64 = 0;
    assert(jobs_view(jobs@) =~= Seq::<UpdateShardJobView<'a>>::empty());
    while i < count
        invariant
            i <= count,
            chunk_jobs(block, view) == jobs_below(block, prev_block, layout, count as nat, view),
            jobs_below(block, prev_block, layout, i as nat, view) == Ok::<
                Seq<UpdateShardJobView<'a>>,
                Stop,
            >(jobs_view(jobs@)),
        decreases count - i,
    {
        match get_job_at(block, prev_block, layout, i, view) {
            Ok(Some(job)) => {
                let ghost before = jobs@;
                jobs.push(job);
                assert(jobs_view(jobs@) =~= jobs_view(before).push(job@));
            },
            Ok(None) => {},
            Err(stop) => {
                proof {
                    lemma_jobs_below_prefix(
                        block,
                        prev_block,
                        layout,
                        (i + 1) as nat,
                        count as nat,
                        view,
                    );
                }
                return Err(stop);
            },
        }
        i = i + 1;
    }
    Ok(jobs)
}

} // verus!
