//! What the work for a block is made of, and when it can be laid out.
use vstd::prelude::*;
use crate::block::{Block, ShardChunkHeader, ShardLayout, ShardUId};
use crate::error::Error;
use crate::execution_laws::chain_places;
use crate::executor::{receipts_saved, ChunkExecutorActor};
use crate::hash::{CryptoHash, EpochId};
use crate::jobs::{
    chunk_jobs, job_at, jobs_below, new_chunk_data, prev_outgoing_receipts, receipts_root,
    shard_context, update_reason, update_shard_job, ShardContext, ShardUpdateReasonView,
    UpdateShardJobView,
};
use crate::receipts::{digests_root, receipts_of, ReceiptProof};
use crate::view::{Assumption, ChainView, Query, Stop};
use crate::witness::{NewChunkDataView, PrevChunkExtra};

verus! {

/// Whether a node executes the chunk of a shard after a block, as the chain says
/// from whether the node cares about the shard in this epoch and the next, and
/// cared in the one before.
pub open spec fn execution_of(
    prev_block_hash: CryptoHash,
    shard_id: u64,
    view: &ChainView,
) -> Result<bool, Stop> {
    match (
        view.flag(Query::CaresThisEpoch { prev_block_hash, shard_id }),
        view.flag(Query::CaresNextEpoch { prev_block_hash, shard_id }),
        view.flag(Query::CaredPrevEpoch { prev_block_hash, shard_id }),
    ) {
        (Ok(cares_this), Ok(cares_next), Ok(cared_prev)) => view.flag(
            Query::ShouldApplyChunk { cares_this, cares_next, cared_prev },
        ),
        (Err(stop), _, _) => Err(stop),
        (_, Err(stop), _) => Err(stop),
        (_, _, Err(stop)) => Err(stop),
    }
}

/// The context of a shard holds what the chain says: which shard of the epoch it is,
/// and whether its chunk is executed. It is known once both are.
pub proof fn context_is_what_the_chain_says(
    prev_block_hash: CryptoHash,
    epoch_id: EpochId,
    shard_id: u64,
    view: &ChainView,
)
    ensures
        match (
            execution_of(prev_block_hash, shard_id, view),
            view.uid(Query::ShardUid { shard_id, epoch_id }),
        ) {
            (Err(stop), _) => shard_context(prev_block_hash, epoch_id, shard_id, view) == Err::<
                ShardContext,
                Stop,
            >(stop),
            (Ok(_), Err(stop)) => shard_context(prev_block_hash, epoch_id, shard_id, view) == Err::<
                ShardContext,
                Stop,
            >(stop),
            (Ok(executes), Ok(uid)) => shard_context(prev_block_hash, epoch_id, shard_id, view)
                matches Ok(context) && context.should_apply_chunk == executes && context.shard_uid
                == uid,
        },
{
}

/// The root of outgoing receipts is the merkle root over the digests that the chain
/// gives for them, one for each shard of the epoch.
pub proof fn root_is_over_the_digests(receipts: u64, epoch_id: EpochId, view: &ChainView)
    ensures
        match view.hashes(Query::ReceiptsHashes { receipts, epoch_id }) {
            Ok(hashes) => receipts_root(receipts, epoch_id, view) == Ok::<CryptoHash, Stop>(
                digests_root(hashes@),
            ),
            Err(stop) => receipts_root(receipts, epoch_id, view) == Err::<CryptoHash, Stop>(stop),
        },
{
}

/// The merkle root, over the digests in an epoch, of the receipts that a shard sent
/// out up to a block, from where its chunk before was last included.
pub open spec fn is_root_of_sent(
    root: CryptoHash,
    prev_block_hash: CryptoHash,
    shard_id: u64,
    epoch_id: EpochId,
    view: &ChainView,
) -> bool {
    &&& view.number(
        Query::PrevChunkHeightIncluded { prev_block_hash, shard_id },
    ) matches Ok(last_height_included)
    &&& view.number(
        Query::OutgoingReceipts { block_hash: prev_block_hash, shard_id, last_height_included },
    ) matches Ok(receipts)
    &&& view.hashes(Query::ReceiptsHashes { receipts, epoch_id }) matches Ok(hashes)
    &&& root == digests_root(hashes@)
}

/// The receipts that a shard sent out are looked up from where its chunk before was
/// last included. That this is not known halts the node.
pub proof fn sent_receipts_are_looked_up(prev_block: &Block, shard_id: u64, view: &ChainView)
    ensures
        ({
            let prev_block_hash = prev_block.header.hash;
            let outcome = prev_outgoing_receipts(prev_block, shard_id, view);
            match view.number(Query::PrevChunkHeightIncluded { prev_block_hash, shard_id }) {
                Ok(last_height_included) => outcome == view.number(
                    Query::OutgoingReceipts {
                        block_hash: prev_block_hash,
                        shard_id,
                        last_height_included,
                    },
                ),
                Err(Stop::Fail(e)) => outcome == Err::<u64, Stop>(
                    Stop::Broken(Assumption::PreviousChunk(e)),
                ),
                Err(stop) => outcome == Err::<u64, Stop>(stop),
            }
        }),
{
}

/// What is executed for a chunk that is new in a block: the chunk, with the
/// transactions that the chain has of it and what the chain says of their validity
/// after the previous block, on the state of the node, with the receipts that were
/// stored; on top of what the previous execution of the shard left behind and sent
/// out.
pub open spec fn is_new_chunk_work(
    data: NewChunkDataView,
    chunk_header: ShardChunkHeader,
    shard_uid: ShardUId,
    shard_id: u64,
    epoch_id: EpochId,
    context: u64,
    prev_block_hash: CryptoHash,
    stored: Seq<ReceiptProof>,
    view: &ChainView,
) -> bool {
    let chunk_hash = chunk_header.chunk_hash;
    &&& *data.chunk_header.chunk_header == chunk_header
    &&& view.transactions(Query::ChunkTransactions(chunk_hash)) == Ok::<_, Stop>(data.transactions)
    &&& view.flags(
        Query::ChunkTransactionsValid { prev_block_hash, chunk_hash },
    ) matches Ok(flags)
    &&& data.transaction_validity_check_results == flags@
    &&& data.receipts == receipts_of(stored)
    &&& data.block == context
    &&& data.storage_data_source is Db
    &&& view.extra(
        Query::ChunkExtra { block_hash: prev_block_hash, shard_uid },
    ) matches Ok(extra)
    &&& data.chunk_header.prev_chunk_extra == PrevChunkExtra::Executed(extra)
    &&& is_root_of_sent(
        data.chunk_header.prev_outgoing_receipts_root,
        prev_block_hash,
        shard_id,
        epoch_id,
        view,
    )
}

/// All is known that it takes to execute a chunk.
pub open spec fn new_chunk_is_known(
    chunk_header: ShardChunkHeader,
    shard_uid: ShardUId,
    shard_id: u64,
    epoch_id: EpochId,
    prev_block_hash: CryptoHash,
    view: &ChainView,
) -> bool {
    let chunk_hash = chunk_header.chunk_hash;
    &&& view.transactions(Query::ChunkTransactions(chunk_hash)) is Ok
    &&& view.flags(Query::ChunkTransactionsValid { prev_block_hash, chunk_hash }) is Ok
    &&& view.extra(Query::ChunkExtra { block_hash: prev_block_hash, shard_uid }) is Ok
    &&& exists|root: CryptoHash| #[trigger]
        is_root_of_sent(root, prev_block_hash, shard_id, epoch_id, view)
}

/// What is laid out for a new chunk is what has to be executed, and it is laid out
/// once all is known that this takes.
pub proof fn new_chunk_is_laid_out<'a>(
    chunk_header: &'a ShardChunkHeader,
    shard_uid: ShardUId,
    shard_id: u64,
    epoch_id: EpochId,
    context: u64,
    prev_block: &Block,
    stored: &'a Vec<ReceiptProof>,
    view: &'a ChainView,
)
    ensures
        ({
            let outcome = new_chunk_data(
                chunk_header,
                shard_uid,
                shard_id,
                epoch_id,
                context,
                prev_block,
                stored,
                view,
            );
            &&& outcome matches Ok(data) ==> is_new_chunk_work(
                data,
                *chunk_header,
                shard_uid,
                shard_id,
                epoch_id,
                context,
                prev_block.header.hash,
                stored@,
                view,
            )
            &&& outcome is Ok <==> new_chunk_is_known(
                *chunk_header,
                shard_uid,
                shard_id,
                epoch_id,
                prev_block.header.hash,
                view,
            )
        }),
{
    if let Ok(data) = new_chunk_data(
        chunk_header,
        shard_uid,
        shard_id,
        epoch_id,
        context,
        prev_block,
        stored,
        view,
    ) {
        assert(is_root_of_sent(
            data.chunk_header.prev_outgoing_receipts_root,
            prev_block.header.hash,
            shard_id,
            epoch_id,
            view,
        ));
    }
    if new_chunk_is_known(
        *chunk_header,
        shard_uid,
        shard_id,
        epoch_id,
        prev_block.header.hash,
        view,
    ) {
        let root = choose|root: CryptoHash| #[trigger]
            is_root_of_sent(root, prev_block.header.hash, shard_id, epoch_id, view);
        assert(is_root_of_sent(root, prev_block.header.hash, shard_id, epoch_id, view));
    }
}

/// What there is to do for a shard: its chunk is executed if the chunk was included
/// at the height of the block; otherwise the shard is carried over with what its
/// previous execution left behind.
pub open spec fn is_reason(
    reason: ShardUpdateReasonView,
    block: &Block,
    index: u64,
    shard_uid: ShardUId,
    shard_id: u64,
    epoch_id: EpochId,
    context: u64,
    prev_block_hash: CryptoHash,
    stored: Seq<ReceiptProof>,
    view: &ChainView,
) -> bool {
    &&& index < block.chunks@.len()
    &&& match reason {
        ShardUpdateReasonView::NewChunk(data) => {
            &&& block.chunks@[index as int].height_included == block.header.height
            &&& is_new_chunk_work(
                data,
                block.chunks@[index as int],
                shard_uid,
                shard_id,
                epoch_id,
                context,
                prev_block_hash,
                stored,
                view,
            )
        },
        ShardUpdateReasonView::OldChunk(data) => {
            &&& block.chunks@[index as int].height_included != block.header.height
            &&& data.block == context
            &&& data.storage_data_source is Db
            &&& view.extra(
                Query::ChunkExtra { block_hash: prev_block_hash, shard_uid },
            ) == Ok::<_, Stop>(data.prev_chunk_extra)
        },
    }
}

/// All is known that it takes to tell what there is to do for a shard.
pub open spec fn reason_is_known(
    block: &Block,
    index: u64,
    shard_uid: ShardUId,
    shard_id: u64,
    epoch_id: EpochId,
    prev_block_hash: CryptoHash,
    view: &ChainView,
) -> bool {
    &&& index < block.chunks@.len()
    &&& if block.chunks@[index as int].height_included == block.header.height {
        new_chunk_is_known(
            block.chunks@[index as int],
            shard_uid,
            shard_id,
            epoch_id,
            prev_block_hash,
            view,
        )
    } else {
        view.extra(Query::ChunkExtra { block_hash: prev_block_hash, shard_uid }) is Ok
    }
}

/// What is to be done for a shard is told once all is known that this takes.
pub proof fn reason_is_told<'a>(
    block: &'a Block,
    index: u64,
    shard_id: u64,
    shard_uid: ShardUId,
    epoch_id: EpochId,
    context: u64,
    prev_block: &Block,
    stored: &'a Vec<ReceiptProof>,
    view: &'a ChainView,
)
    ensures
        ({
            let outcome = update_reason(
                block,
                index,
                shard_id,
                shard_uid,
                epoch_id,
                context,
                prev_block,
                stored,
                view,
            );
            &&& outcome matches Ok(reason) ==> is_reason(
                reason,
                block,
                index,
                shard_uid,
                shard_id,
                epoch_id,
                context,
                prev_block.header.hash,
                stored@,
                view,
            )
            &&& outcome is Ok <==> reason_is_known(
                block,
                index,
                shard_uid,
                shard_id,
                epoch_id,
                prev_block.header.hash,
                view,
            )
        }),
{
    if index < block.chunks@.len() {
        new_chunk_is_laid_out(
            &block.chunks@[index as int],
            shard_uid,
            shard_id,
            epoch_id,
            context,
            prev_block,
            stored,
            view,
        );
    }
}

/// The work for the shard at an index, under the layout of the epoch after the
/// previous block: there is none if its chunk is not executed; otherwise it is what
/// there is to do for the shard, under the given key, context and patch.
pub proof fn job_is_for_the_shard_at_the_index<'a>(
    key: u64,
    context: u64,
    block: &'a Block,
    index: u64,
    prev_block: &Block,
    epoch_hash: CryptoHash,
    layout: &ShardLayout,
    shard_id: u64,
    stored: &'a Vec<ReceiptProof>,
    patch: bool,
    view: &'a ChainView,
)
    requires
        view.digest(Query::EpochIdFromPrevBlock(prev_block.header.hash)) == Ok::<CryptoHash, Stop>(
            epoch_hash,
        ),
        view.layout(Query::ShardLayout(EpochId(epoch_hash))) == Ok::<&ShardLayout, Stop>(layout),
        layout.shard_id_at(index) == Ok::<u64, Error>(shard_id),
    ensures
        ({
            let epoch_id = EpochId(epoch_hash);
            let prev_hash = prev_block.header.hash;
            let outcome = update_shard_job(
                key,
                context,
                block,
                index,
                prev_block,
                stored,
                patch,
                view,
            );
            match (
                execution_of(prev_hash, shard_id, view),
                view.uid(Query::ShardUid { shard_id, epoch_id }),
            ) {
                (Ok(false), Ok(_)) => outcome == Ok::<Option<UpdateShardJobView<'a>>, Stop>(None),
                (Ok(true), Ok(uid)) => {
                    &&& outcome matches Ok(found) ==> (found matches Some(job) && job.shard_id
                        == shard_id && job.cached_shard_update_key == key
                        && job.takes_state_patch == patch && job.shard_context.shard_uid == uid
                        && job.shard_context.should_apply_chunk && is_reason(
                        job.shard_update_reason,
                        block,
                        index,
                        uid,
                        shard_id,
                        epoch_id,
                        context,
                        prev_hash,
                        stored@,
                        view,
                    ))
                    &&& outcome is Ok <==> reason_is_known(
                        block,
                        index,
                        uid,
                        shard_id,
                        epoch_id,
                        prev_hash,
                        view,
                    )
                },
                (Err(stop), _) => outcome == Err::<Option<UpdateShardJobView<'a>>, Stop>(stop),
                (_, Err(stop)) => outcome == Err::<Option<UpdateShardJobView<'a>>, Stop>(stop),
            }
        }),
{
    let epoch_id = EpochId(epoch_hash);
    context_is_what_the_chain_says(prev_block.header.hash, epoch_id, shard_id, view);
    if let Ok(uid) = view.uid(Query::ShardUid { shard_id, epoch_id }) {
        reason_is_told(block, index, shard_id, uid, epoch_id, context, prev_block, stored, view);
    }
}

/// The node executes the chunk of the shard at an index of a block: it cares about
/// the shard at the block, and the chain says that the chunk is executed.
pub open spec fn is_chosen(
    block: &Block,
    layout: &ShardLayout,
    index: u64,
    view: &ChainView,
) -> bool {
    &&& layout.shard_id_at(index) matches Ok(shard_id)
    &&& view.flag(
        Query::CaresThisOrNextEpoch { block_hash: block.header.hash, shard_id },
    ) == Ok::<bool, Stop>(true)
    &&& execution_of(block.header.prev_hash, shard_id, view) == Ok::<bool, Stop>(true)
}

/// A job is the work for the shard at an index of a block, down to all that is
/// executed.
pub open spec fn is_work_at(
    job: UpdateShardJobView,
    block: &Block,
    layout: &ShardLayout,
    index: u64,
    view: &ChainView,
) -> bool {
    let block_hash = block.header.hash;
    let prev_block_hash = block.header.prev_hash;
    let shard_id = job.shard_id;
    let epoch_id = block.header.epoch_id;
    let is_new_chunk = block.chunks@[index as int].height_included == block.header.height;
    &&& layout.shard_id_at(index) == Ok::<u64, Error>(shard_id)
    &&& job.takes_state_patch <==> index == 0
    &&& job.shard_context.should_apply_chunk
    &&& view.uid(Query::ShardUid { shard_id, epoch_id }) == Ok::<ShardUId, Stop>(
        job.shard_context.shard_uid,
    )
    &&& view.number(
        Query::BlockContext { block_hash, prev_block_hash, is_new_chunk },
    ) matches Ok(context)
    &&& view.number(Query::CachedUpdateKey { context, block_hash, shard_id }) == Ok::<u64, Stop>(
        job.cached_shard_update_key,
    )
    &&& view.proofs(
        Query::IncomingReceipts { block_hash: prev_block_hash, shard_id },
    ) matches Ok(stored)
    &&& is_reason(
        job.shard_update_reason,
        block,
        index,
        job.shard_context.shard_uid,
        shard_id,
        epoch_id,
        context,
        prev_block_hash,
        stored@,
        view,
    )
}

/// All is known that it takes to lay out the work for the shard at an index, where
/// the node cares about the shard.
pub open spec fn cared_work_is_known(
    block: &Block,
    index: u64,
    shard_id: u64,
    context: u64,
    view: &ChainView,
) -> bool {
    let block_hash = block.header.hash;
    let prev_block_hash = block.header.prev_hash;
    let epoch_id = block.header.epoch_id;
    &&& view.proofs(Query::IncomingReceipts { block_hash: prev_block_hash, shard_id }) is Ok
    &&& view.number(Query::CachedUpdateKey { context, block_hash, shard_id }) is Ok
    &&& execution_of(prev_block_hash, shard_id, view) matches Ok(executes)
    &&& view.uid(Query::ShardUid { shard_id, epoch_id }) matches Ok(shard_uid)
    &&& executes ==> reason_is_known(
        block,
        index,
        shard_uid,
        shard_id,
        epoch_id,
        prev_block_hash,
        view,
    )
}

/// All is known that it takes to lay out the work for the shard at an index.
pub open spec fn work_is_known(
    block: &Block,
    layout: &ShardLayout,
    index: u64,
    view: &ChainView,
) -> bool {
    let block_hash = block.header.hash;
    let prev_block_hash = block.header.prev_hash;
    let is_new_chunk = block.chunks@[index as int].height_included == block.header.height;
    &&& index < block.chunks@.len()
    &&& layout.shard_id_at(index) matches Ok(shard_id)
    &&& view.number(
        Query::BlockContext { block_hash, prev_block_hash, is_new_chunk },
    ) matches Ok(context)
    &&& view.flag(Query::CaresThisOrNextEpoch { block_hash, shard_id }) matches Ok(cares)
    &&& cares ==> cared_work_is_known(block, index, shard_id, context, view)
}

proof fn lemma_work_at<'a>(
    block: &'a Block,
    prev_block: &Block,
    count: u64,
    layout: &ShardLayout,
    index: u64,
    view: &'a ChainView,
)
    requires
        chain_places(block, prev_block, count, layout, view),
    ensures
        ({
            let outcome = job_at(block, prev_block, layout, index, view);
            &&& outcome is Ok <==> work_is_known(block, layout, index, view)
            &&& outcome matches Ok(Some(job)) ==> is_chosen(block, layout, index, view)
                && is_work_at(job, block, layout, index, view)
            &&& outcome matches Ok(None) ==> !is_chosen(block, layout, index, view)
        }),
{
    let epoch_hash = block.header.epoch_id.0;
    assert(EpochId(epoch_hash) == block.header.epoch_id);
    if let Ok(shard_id) = layout.shard_id_at(index) {
        let block_hash = block.header.hash;
        let prev_block_hash = block.header.prev_hash;
        let is_new_chunk = block.chunks@[index as int].height_included == block.header.height;
        if let Ok(context) = view.number(
            Query::BlockContext { block_hash, prev_block_hash, is_new_chunk },
        ) {
            if let Ok(stored) = view.proofs(
                Query::IncomingReceipts { block_hash: prev_block_hash, shard_id },
            ) {
                if let Ok(key) = view.number(
                    Query::CachedUpdateKey { context, block_hash, shard_id },
                ) {
                    job_is_for_the_shard_at_the_index(
                        key,
                        context,
                        block,
                        index,
                        prev_block,
                        epoch_hash,
                        layout,
                        shard_id,
                        stored,
                        index == 0,
                        view,
                    );
                }
            }
        }
    }
}

/// A list names the shards whose chunks are executed below an index, in order and
/// each once.
pub open spec fn are_chosen(
    indices: Seq<u64>,
    block: &Block,
    layout: &ShardLayout,
    n: nat,
    view: &ChainView,
) -> bool {
    &&& forall|j: int, k: int|
        0 <= j < k < indices.len() ==> #[trigger] indices[j] < #[trigger] indices[k]
    &&& forall|j: int|
        0 <= j < indices.len() ==> (#[trigger] indices[j]) < n && is_chosen(
            block,
            layout,
            indices[j],
            view,
        )
    &&& forall|index: u64|
        index < n && #[trigger] is_chosen(block, layout, index, view) ==> indices.contains(index)
}

/// Each of the jobs is the work for the shard at the index that stands at its place.
pub open spec fn are_work_at(
    jobs: Seq<UpdateShardJobView>,
    indices: Seq<u64>,
    block: &Block,
    layout: &ShardLayout,
    view: &ChainView,
) -> bool {
    &&& jobs.len() == indices.len()
    &&& forall|j: int|
        0 <= j < jobs.len() ==> is_work_at(#[trigger] jobs[j], block, layout, indices[j], view)
}

proof fn lemma_indices<'a>(
    block: &'a Block,
    prev_block: &Block,
    count: u64,
    layout: &ShardLayout,
    n: nat,
    view: &'a ChainView,
) -> (indices: Seq<u64>)
    requires
        chain_places(block, prev_block, count, layout, view),
        n <= count,
        jobs_below(block, prev_block, layout, n, view) is Ok,
    ensures
        are_chosen(indices, block, layout, n, view),
        are_work_at(
            jobs_below(block, prev_block, layout, n, view)->Ok_0,
            indices,
            block,
            layout,
            view,
        ),
    decreases n,
{
    if n == 0 {
        Seq::empty()
    } else {
        let m = (n - 1) as nat;
        let before = lemma_indices(block, prev_block, count, layout, m, view);
        lemma_work_at(block, prev_block, count, layout, m as u64, view);
        let earlier = jobs_below(block, prev_block, layout, m, view)->Ok_0;
        let jobs = jobs_below(block, prev_block, layout, n, view)->Ok_0;
        match job_at(block, prev_block, layout, m as u64, view)->Ok_0 {
            None => {
                assert forall|index: u64|
                    index < n && #[trigger] is_chosen(
                        block,
                        layout,
                        index,
                        view,
                    ) implies before.contains(index) by {
                    assert(index != m);
                }
                before
            },
            Some(job) => {
                let indices = before.push(m as u64);
                assert forall|j: int| 0 <= j < jobs.len() implies is_work_at(
                    #[trigger] jobs[j],
                    block,
                    layout,
                    indices[j],
                    view,
                ) by {
                    if j < earlier.len() {
                        assert(jobs[j] == earlier[j]);
                        assert(indices[j] == before[j]);
                    }
                }
                assert forall|index: u64|
                    index < n && #[trigger] is_chosen(
                        block,
                        layout,
                        index,
                        view,
                    ) implies indices.contains(index) by {
                    if index < m {
                        let k = choose|k: int| 0 <= k < before.len() && before[k] == index;
                        assert(indices[k] == index);
                    } else {
                        assert(indices[before.len() as int] == index);
                    }
                }
                indices
            },
        }
    }
}

/// The work for a block is, in the order of the shards and once for each, the work
/// for the shards whose chunks the node executes, down to all that is executed: the
/// transactions of a new chunk and what the chain says of their validity, the
/// receipts that were stored, and what the previous execution left behind.
pub proof fn work_is_laid_out_shard_by_shard<'a>(
    block: &'a Block,
    prev_block: &Block,
    count: u64,
    layout: &ShardLayout,
    jobs: Seq<UpdateShardJobView<'a>>,
    view: &'a ChainView,
)
    requires
        chain_places(block, prev_block, count, layout, view),
        chunk_jobs(block, view) == Ok::<Seq<UpdateShardJobView<'a>>, Stop>(jobs),
    ensures
        exists|indices: Seq<u64>| #[trigger]
            are_chosen(indices, block, layout, count as nat, view) && are_work_at(
                jobs,
                indices,
                block,
                layout,
                view,
            ),
{
    let indices = lemma_indices(block, prev_block, count, layout, count as nat, view);
    assert(are_chosen(indices, block, layout, count as nat, view));
}

proof fn lemma_all_known<'a>(
    block: &'a Block,
    prev_block: &Block,
    count: u64,
    layout: &ShardLayout,
    n: nat,
    view: &'a ChainView,
)
    requires
        chain_places(block, prev_block, count, layout, view),
        n <= count,
    ensures
        jobs_below(block, prev_block, layout, n, view) is Ok <==> forall|index: u64|
            index < n ==> #[trigger] work_is_known(block, layout, index, view),
    decreases n,
{
    if n > 0 {
        let m = (n - 1) as nat;
        lemma_all_known(block, prev_block, count, layout, m, view);
        lemma_work_at(block, prev_block, count, layout, m as u64, view);
        if jobs_below(block, prev_block, layout, n, view) is Ok {
            assert forall|index: u64| index < n implies #[trigger] work_is_known(
                block,
                layout,
                index,
                view,
            ) by {
                if index < m {
                } else {
                    assert(index == m as u64);
                }
            }
        }
        if forall|index: u64| index < n ==> #[trigger] work_is_known(block, layout, index, view) {
            assert(work_is_known(block, layout, m as u64, view));
        }
    }
}

/// The work for a block is laid out if and only if all is known that it takes to lay
/// it out for each of the shards.
pub proof fn known_work_is_laid_out<'a>(
    block: &'a Block,
    prev_block: &Block,
    count: u64,
    layout: &ShardLayout,
    view: &'a ChainView,
)
    requires
        chain_places(block, prev_block, count, layout, view),
    ensures
        chunk_jobs(block, view) is Ok <==> forall|index: u64|
            index < count ==> #[trigger] work_is_known(block, layout, index, view),
{
    lemma_all_known(block, prev_block, count, layout, count as nat, view);
}

/// Where work for a shard that the node cares about fails to be laid out, the node
/// halts with why.
pub proof fn failed_work_halts<'a>(
    block: &'a Block,
    prev_block: &Block,
    layout: &ShardLayout,
    index: u64,
    shard_id: u64,
    context: u64,
    key: u64,
    stored: &'a Vec<ReceiptProof>,
    e: Error,
    view: &'a ChainView,
)
    requires
        index < block.chunks@.len(),
        layout.shard_id_at(index) == Ok::<u64, Error>(shard_id),
        view.number(
            Query::BlockContext {
                block_hash: block.header.hash,
                prev_block_hash: prev_block.header.hash,
                is_new_chunk: block.chunks@[index as int].height_included == block.header.height,
            },
        ) == Ok::<u64, Stop>(context),
        view.flag(
            Query::CaresThisOrNextEpoch { block_hash: block.header.hash, shard_id },
        ) == Ok::<bool, Stop>(true),
        view.proofs(
            Query::IncomingReceipts { block_hash: block.header.prev_hash, shard_id },
        ) == Ok::<&'a Vec<ReceiptProof>, Stop>(stored),
        view.number(
            Query::CachedUpdateKey { context, block_hash: block.header.hash, shard_id },
        ) == Ok::<u64, Stop>(key),
    ensures
        job_at(block, prev_block, layout, index, view) == Err::<
            Option<UpdateShardJobView<'a>>,
            Stop,
        >(Stop::Broken(Assumption::ShardJob(e))) <== update_shard_job(
            key,
            context,
            block,
            index,
            prev_block,
            stored,
            index == 0,
            view,
        ) == Err::<Option<UpdateShardJobView<'a>>, Stop>(Stop::Fail(e)),
        !(job_at(block, prev_block, layout, index, view) matches Err(Stop::Fail(_))),
{
}

/// The first shard whose work cannot be laid out decides what comes of the whole.
pub proof fn first_failure_is_handed_on<'a>(
    block: &'a Block,
    prev_block: &Block,
    layout: &ShardLayout,
    count: nat,
    index: u64,
    stop: Stop,
    view: &'a ChainView,
)
    requires
        index < count,
        jobs_below(block, prev_block, layout, index as nat, view) is Ok,
        job_at(block, prev_block, layout, index, view) == Err::<
            Option<UpdateShardJobView<'a>>,
            Stop,
        >(stop),
    ensures
        jobs_below(block, prev_block, layout, count, view) == Err::<
            Seq<UpdateShardJobView<'a>>,
            Stop,
        >(stop),
    decreases count,
{
    if count > index + 1 {
        first_failure_is_handed_on(
            block,
            prev_block,
            layout,
            (count - 1) as nat,
            index,
            stop,
            view,
        );
    }
}

/// For a shard the receipts of the previous block were saved, if the node cares
/// about the shard at a block.
pub open spec fn receipts_are_there(
    block_hash: CryptoHash,
    prev_block_hash: CryptoHash,
    shard_id: u64,
    view: &ChainView,
) -> bool {
    &&& view.flag(Query::CaresThisOrNextEpoch { block_hash, shard_id }) matches Ok(cares)
    &&& cares ==> view.flag(
        Query::IncomingReceiptsExist { block_hash: prev_block_hash, shard_id },
    ) == Ok::<bool, Stop>(true)
}

/// The node cares about a shard at a block, and the receipts of the previous block
/// were not saved for it.
pub open spec fn receipts_are_missing(
    block_hash: CryptoHash,
    prev_block_hash: CryptoHash,
    shard_id: u64,
    view: &ChainView,
) -> bool {
    &&& view.flag(
        Query::CaresThisOrNextEpoch { block_hash, shard_id },
    ) == Ok::<bool, Stop>(true)
    &&& view.flag(
        Query::IncomingReceiptsExist { block_hash: prev_block_hash, shard_id },
    ) == Ok::<bool, Stop>(false)
}

proof fn lemma_receipts_saved(
    shard_ids: Seq<u64>,
    i: int,
    block_hash: CryptoHash,
    prev_block_hash: CryptoHash,
    view: &ChainView,
)
    requires
        0 <= i,
    ensures
        receipts_saved(shard_ids, i, block_hash, prev_block_hash, view) == Ok::<bool, Stop>(true)
            <==> forall|k: int|
            i <= k < shard_ids.len() ==> receipts_are_there(
                block_hash,
                prev_block_hash,
                #[trigger] shard_ids[k],
                view,
            ),
        receipts_saved(shard_ids, i, block_hash, prev_block_hash, view) == Ok::<bool, Stop>(false)
            <==> exists|k: int|
            i <= k < shard_ids.len() && receipts_are_missing(
                block_hash,
                prev_block_hash,
                #[trigger] shard_ids[k],
                view,
            ) && forall|j: int|
                i <= j < k ==> receipts_are_there(
                    block_hash,
                    prev_block_hash,
                    #[trigger] shard_ids[j],
                    view,
                ),
    decreases shard_ids.len() - i,
{
    if i < shard_ids.len() {
        lemma_receipts_saved(shard_ids, i + 1, block_hash, prev_block_hash, view);
        let outcome = receipts_saved(shard_ids, i, block_hash, prev_block_hash, view);
        let rest = receipts_saved(shard_ids, i + 1, block_hash, prev_block_hash, view);
        let there = receipts_are_there(block_hash, prev_block_hash, shard_ids[i], view);
        if outcome == Ok::<bool, Stop>(true) {
            assert forall|k: int| i <= k < shard_ids.len() implies receipts_are_there(
                block_hash,
                prev_block_hash,
                #[trigger] shard_ids[k],
                view,
            ) by {
                if k > i {
                    assert(rest == Ok::<bool, Stop>(true));
                }
            }
        }
        if outcome == Ok::<bool, Stop>(false) {
            if there {
                assert(rest == Ok::<bool, Stop>(false));
                let k = choose|k: int|
                    i + 1 <= k < shard_ids.len() && receipts_are_missing(
                        block_hash,
                        prev_block_hash,
                        #[trigger] shard_ids[k],
                        view,
                    ) && forall|j: int|
                        i + 1 <= j < k ==> receipts_are_there(
                            block_hash,
                            prev_block_hash,
                            #[trigger] shard_ids[j],
                            view,
                        );
                assert(receipts_are_missing(block_hash, prev_block_hash, shard_ids[k], view));
            } else {
                assert(receipts_are_missing(block_hash, prev_block_hash, shard_ids[i], view));
            }
        }
        if exists|k: int|
            i <= k < shard_ids.len() && receipts_are_missing(
                block_hash,
                prev_block_hash,
                #[trigger] shard_ids[k],
                view,
            ) && forall|j: int|
                i <= j < k ==> receipts_are_there(
                    block_hash,
                    prev_block_hash,
                    #[trigger] shard_ids[j],
                    view,
                ) {
            let k = choose|k: int|
                i <= k < shard_ids.len() && receipts_are_missing(
                    block_hash,
                    prev_block_hash,
                    #[trigger] shard_ids[k],
                    view,
                ) && forall|j: int|
                    i <= j < k ==> receipts_are_there(
                        block_hash,
                        prev_block_hash,
                        #[trigger] shard_ids[j],
                        view,
                    );
            if k > i {
                assert(receipts_are_there(block_hash, prev_block_hash, shard_ids[i], view));
                assert(receipts_are_missing(block_hash, prev_block_hash, shard_ids[k], view));
                assert(rest == Ok::<bool, Stop>(false));
            }
        }
    }
}

/// A block is executed once the receipts of the previous block were saved for each
/// shard of its epoch that the node cares about, and the previous block was
/// executed; and then it is the work for that block that is laid out. As long as
/// either is missing, nothing is.
pub proof fn block_waits_for_receipts_and_results<'a>(
    executor: &'a ChunkExecutorActor,
    block_hash: CryptoHash,
    epoch_hash: CryptoHash,
    block: &'a Block,
    shard_ids: &'a Vec<u64>,
    view: &'a ChainView,
)
    requires
        view.digest(Query::EpochId(block_hash)) == Ok::<CryptoHash, Stop>(epoch_hash),
        view.block(Query::Block(block_hash)) == Ok::<&'a Block, Stop>(block),
        view.shard_ids(Query::ShardIds(EpochId(epoch_hash))) == Ok::<&'a Vec<u64>, Stop>(shard_ids),
    ensures
        ({
            let prev_hash = block.header.prev_hash;
            let outcome = executor.applying(block_hash, view);
            let all_there = forall|i: int|
                0 <= i < shard_ids@.len() ==> receipts_are_there(
                    block_hash,
                    prev_hash,
                    #[trigger] shard_ids@[i],
                    view,
                );
            let some_missing = exists|i: int|
                0 <= i < shard_ids@.len() && receipts_are_missing(
                    block_hash,
                    prev_hash,
                    #[trigger] shard_ids@[i],
                    view,
                ) && forall|j: int|
                    0 <= j < i ==> receipts_are_there(
                        block_hash,
                        prev_hash,
                        #[trigger] shard_ids@[j],
                        view,
                    );
            let executed = executor.processor().results_exist(prev_hash, view);
            &&& outcome matches Ok(Some(jobs)) ==> all_there && executed == Ok::<bool, Stop>(true)
                && chunk_jobs(block, view) == Ok::<Seq<UpdateShardJobView<'a>>, Stop>(jobs)
            &&& outcome == Ok::<Option<Seq<UpdateShardJobView<'a>>>, Stop>(None) <==> some_missing
                || all_there && executed == Ok::<bool, Stop>(false)
            &&& all_there && executed == Ok::<bool, Stop>(true) ==> match chunk_jobs(block, view) {
                Ok(jobs) => outcome == Ok::<Option<Seq<UpdateShardJobView<'a>>>, Stop>(Some(jobs)),
                Err(stop) => outcome == Err::<Option<Seq<UpdateShardJobView<'a>>>, Stop>(stop),
            }
            &&& all_there ==> (executed matches Err(stop) ==> outcome == Err::<
                Option<Seq<UpdateShardJobView<'a>>>,
                Stop,
            >(stop))
        }),
{
    lemma_receipts_saved(shard_ids@, 0, block_hash, block.header.prev_hash, view);
}

/// Nothing is executed of a block that the chain does not know, or whose epoch or
/// the shards of it it does not know.
pub proof fn unknown_block_is_not_executed(
    executor: &ChunkExecutorActor,
    block_hash: CryptoHash,
    view: &ChainView,
)
    ensures
        executor.applying(block_hash, view) is Ok ==> view.block(Query::Block(block_hash)) is Ok
            && (view.digest(Query::EpochId(block_hash)) matches Ok(epoch_hash) && view.shard_ids(
            Query::ShardIds(EpochId(epoch_hash)),
        ) is Ok),
{
}

} // verus!
