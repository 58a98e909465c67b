//! What holds of the work that is laid out for a block, and of what is made of
//! the executions.
use vstd::prelude::*;
use crate::block::{AccountId, Block, ShardChunkHeader, ShardLayout};
use crate::error::Error;
use crate::hash::CryptoHash;
use crate::jobs::{
    chunk_jobs, job_at, jobs_below, shard_context, ShardUpdateReasonView, UpdateShardJobView,
};
use crate::outcome::{
    by_source, header_of, outcome_of, source_of, state_witness, ChunkOutcome,
    DistributeStateWitnessRequestView, ShardUpdateResult,
};
use crate::receipts::{digests_root, receipts_of, ReceiptProof};
use crate::view::{ChainView, Query, Stop};
use crate::witness::StorageDataSource;

verus! {

/// The chain knows the block before a block, and how many chunks come after it,
/// and names the same epoch for the block as the block itself, with this layout.
pub open spec fn chain_places(
    block: &Block,
    prev_block: &Block,
    count: u64,
    layout: &ShardLayout,
    view: &ChainView,
) -> bool {
    let epoch_hash = block.header.epoch_id.0;
    &&& view.block(Query::Block(block.header.prev_hash)) == Ok::<&Block, Stop>(prev_block)
    &&& prev_block.header.hash == block.header.prev_hash
    &&& view.number(Query::PrevChunkCount(prev_block.header.hash)) == Ok::<u64, Stop>(count)
    &&& view.layout(Query::ShardLayout(block.header.epoch_id)) == Ok::<&ShardLayout, Stop>(layout)
    &&& view.digest(Query::EpochIdFromPrevBlock(prev_block.header.hash)) == Ok::<CryptoHash, Stop>(
        epoch_hash,
    )
}

/// The node is to execute the chunk of the shard at an index of a block.
pub open spec fn is_to_execute(
    block: &Block,
    layout: &ShardLayout,
    index: u64,
    view: &ChainView,
) -> bool {
    &&& layout.shard_id_at(index) matches Ok(shard_id)
    &&& view.flag(
        Query::CaresThisOrNextEpoch { block_hash: block.header.hash, shard_id },
    ) == Ok::<bool, Stop>(true)
    &&& shard_context(
        block.header.prev_hash,
        block.header.epoch_id,
        shard_id,
        view,
    ) matches Ok(context)
    &&& context.should_apply_chunk
}

/// A job is the work for the shard at an index of a block. A chunk that is new in
/// the block is executed on the state of the node with the receipts that were
/// stored for the shard, in the order in which they were stored; for one that is
/// not, the shard is carried over. The first shard takes the state patch.
pub open spec fn is_job_for(
    job: UpdateShardJobView,
    block: &Block,
    layout: &ShardLayout,
    index: u64,
    view: &ChainView,
) -> bool {
    let prev_block_hash = block.header.prev_hash;
    &&& index < block.chunks@.len()
    &&& layout.shard_id_at(index) == Ok::<u64, Error>(job.shard_id)
    &&& job.takes_state_patch == (index == 0)
    &&& match job.shard_update_reason {
        ShardUpdateReasonView::NewChunk(data) => {
            let about_receipts = Query::IncomingReceipts {
                block_hash: prev_block_hash,
                shard_id: job.shard_id,
            };
            &&& block.chunks@[index as int].is_new_chunk(block.header.height)
            &&& *data.chunk_header.chunk_header == block.chunks@[index as int]
            &&& view.proofs(about_receipts) matches Ok(stored)
            &&& data.receipts == receipts_of(stored@)
            &&& data.storage_data_source is Db
        },
        ShardUpdateReasonView::OldChunk(data) => {
            let about_extra = Query::ChunkExtra {
                block_hash: prev_block_hash,
                shard_uid: job.shard_context.shard_uid,
            };
            &&& !block.chunks@[index as int].is_new_chunk(block.header.height)
            &&& view.extra(about_extra) == Ok::<_, Stop>(data.prev_chunk_extra)
            &&& data.storage_data_source is Db
        },
    }
}

/// One of the jobs is the work for the shard at an index of a block.
pub open spec fn has_job_for(
    jobs: Seq<UpdateShardJobView>,
    block: &Block,
    layout: &ShardLayout,
    index: u64,
    view: &ChainView,
) -> bool {
    exists|j: int| 0 <= j < jobs.len() && is_job_for(#[trigger] jobs[j], block, layout, index, view)
}

/// A job is the work for a shard that the node is to execute, below an index.
pub open spec fn is_job_below(
    job: UpdateShardJobView,
    block: &Block,
    layout: &ShardLayout,
    count: nat,
    view: &ChainView,
) -> bool {
    exists|index: u64|
        index < count && is_to_execute(block, layout, index, view) && #[trigger] is_job_for(
            job,
            block,
            layout,
            index,
            view,
        )
}

proof fn lemma_job_at<'a>(
    block: &'a Block,
    prev_block: &Block,
    count: u64,
    layout: &ShardLayout,
    index: u64,
    view: &'a ChainView,
)
    requires
        chain_places(block, prev_block, count, layout, view),
        job_at(block, prev_block, layout, index, view) is Ok,
    ensures
        match job_at(block, prev_block, layout, index, view)->Ok_0 {
            Some(job) => is_to_execute(block, layout, index, view) && is_job_for(
                job,
                block,
                layout,
                index,
                view,
            ),
            None => !is_to_execute(block, layout, index, view),
        },
{
}

proof fn lemma_jobs_below<'a>(
    block: &'a Block,
    prev_block: &Block,
    count: u64,
    layout: &ShardLayout,
    n: nat,
    view: &'a ChainView,
)
    requires
        chain_places(block, prev_block, count, layout, view),
        n <= count,
        jobs_below(block, prev_block, layout, n, view) is Ok,
    ensures
        ({
            let jobs = jobs_below(block, prev_block, layout, n, view)->Ok_0;
            &&& jobs.len() <= n
            &&& forall|j: int|
                0 <= j < jobs.len() ==> is_job_below(#[trigger] jobs[j], block, layout, n, view)
            &&& forall|index: u64|
                index < n && #[trigger] is_to_execute(block, layout, index, view) ==> has_job_for(
                    jobs,
                    block,
                    layout,
                    index,
                    view,
                )
        }),
    decreases n,
{
    if n > 0 {
        let m = (n - 1) as nat;
        lemma_jobs_below(block, prev_block, count, layout, m, view);
        lemma_job_at(block, prev_block, count, layout, m as u64, view);
        let before = jobs_below(block, prev_block, layout, m, view)->Ok_0;
        let jobs = jobs_below(block, prev_block, layout, n, view)->Ok_0;
        assert forall|j: int| 0 <= j < jobs.len() implies is_job_below(
            #[trigger] jobs[j],
            block,
            layout,
            n,
            view,
        ) by {
            if j < before.len() {
                assert(jobs[j] == before[j]);
                let index = choose|index: u64|
                    index < m && is_to_execute(block, layout, index, view)
                        && #[trigger] is_job_for(before[j], block, layout, index, view);
                assert(is_job_for(jobs[j], block, layout, index, view));
            } else {
                assert(is_job_for(jobs[j], block, layout, m as u64, view));
            }
        }
        assert forall|index: u64|
            index < n && #[trigger] is_to_execute(block, layout, index, view) implies has_job_for(
            jobs,
            block,
            layout,
            index,
            view,
        ) by {
            if index < m {
                let j = choose|j: int|
                    0 <= j < before.len() && is_job_for(
                        #[trigger] before[j],
                        block,
                        layout,
                        index,
                        view,
                    );
                assert(jobs[j] == before[j]);
            } else {
                assert(jobs[jobs.len() - 1] == job_at(
                    block,
                    prev_block,
                    layout,
                    m as u64,
                    view,
                )->Ok_0->0);
            }
        }
    }
}

/// The work for a block is that of executing the chunks of the shards that the
/// node is to execute: there is a job for each of them, and none besides.
pub proof fn work_is_for_the_shards_cared_about<'a>(
    block: &'a Block,
    prev_block: &Block,
    count: u64,
    layout: &ShardLayout,
    view: &'a ChainView,
)
    requires
        chain_places(block, prev_block, count, layout, view),
        chunk_jobs(block, view) is Ok,
    ensures
        ({
            let jobs = chunk_jobs(block, view)->Ok_0;
            &&& forall|j: int|
                0 <= j < jobs.len() ==> is_job_below(
                    #[trigger] jobs[j],
                    block,
                    layout,
                    count as nat,
                    view,
                )
            &&& forall|index: u64|
                index < count && #[trigger] is_to_execute(block, layout, index, view)
                    ==> has_job_for(jobs, block, layout, index, view)
        }),
{
    lemma_jobs_below(block, prev_block, count, layout, count as nat, view);
}

/// A header stands in a block for a shard.
pub open spec fn stands_in(
    chunk_header: ShardChunkHeader,
    block: &Block,
    shard_id: u64,
    view: &ChainView,
) -> bool {
    &&& view.layout(Query::ShardLayout(block.header.epoch_id)) matches Ok(layout)
    &&& layout.shard_index_of(shard_id) matches Ok(index)
    &&& index < block.chunks@.len()
    &&& chunk_header == block.chunks@[index as int]
}

/// What is recorded of an execution names the block, the chunk that the block
/// holds for the shard, and the shard; it holds what the execution left behind,
/// and the merkle root over the digests of the receipts that it sent out.
pub proof fn recorded_is_what_was_executed<'a>(
    block: &Block,
    result: ShardUpdateResult,
    outcome: ChunkOutcome<'a>,
    view: &'a ChainView,
)
    requires
        outcome_of(block, result, view) == Ok::<ChunkOutcome<'a>, Stop>(outcome),
    ensures
        ({
            let (shard_uid, apply_result) = result.parts();
            let recorded = outcome.execution_result;
            let about_extra = Query::ChunkExtra { block_hash: block.header.hash, shard_uid };
            let about_receipts = Query::ReceiptsHashes {
                receipts: apply_result.outgoing_receipts,
                epoch_id: block.header.epoch_id,
            };
            &&& recorded.block_hash == block.header.hash
            &&& recorded.shard_id == shard_uid.shard_id
            &&& header_of(block, recorded.shard_id, view) matches Ok(chunk_header)
            &&& stands_in(chunk_header, block, recorded.shard_id, view)
            &&& recorded.chunk_hash == chunk_header.chunk_hash
            &&& view.extra(about_extra) == Ok::<_, Stop>(&recorded.chunk_extra)
            &&& view.hashes(about_receipts) matches Ok(hashes)
            &&& recorded.outgoing_receipts_root == digests_root(hashes@)
        }),
{
}

/// The proofs of a table are among those of a list, each under the chunk that sent
/// its receipts.
pub open spec fn filed_from<'a>(
    table: Map<CryptoHash, &'a ReceiptProof>,
    proofs: &'a Vec<ReceiptProof>,
    n: int,
    layout: &ShardLayout,
    prev_block: &Block,
) -> bool {
    &&& forall|chunk_hash: CryptoHash| #[trigger]
        table.contains_key(chunk_hash) ==> is_source(
            *table[chunk_hash],
            chunk_hash,
            proofs@.take(n),
            layout,
            prev_block,
        )
    &&& forall|i: int|
        0 <= i < n ==> (source_of(#[trigger] &proofs@[i], layout, prev_block) matches Ok(chunk_hash)
            && table.contains_key(chunk_hash))
}

/// A proof is one of a list, and a chunk sent its receipts.
pub open spec fn is_source(
    receipt_proof: ReceiptProof,
    chunk_hash: CryptoHash,
    proofs: Seq<ReceiptProof>,
    layout: &ShardLayout,
    prev_block: &Block,
) -> bool {
    &&& proofs.contains(receipt_proof)
    &&& source_of(&receipt_proof, layout, prev_block) == Ok::<CryptoHash, Error>(chunk_hash)
}

proof fn lemma_filed_from<'a>(
    proofs: &'a Vec<ReceiptProof>,
    n: int,
    layout: &ShardLayout,
    prev_block: &Block,
)
    requires
        0 <= n <= proofs@.len(),
        by_source(proofs, n, layout, prev_block) is Ok,
    ensures
        filed_from(
            by_source(proofs, n, layout, prev_block)->Ok_0,
            proofs,
            n,
            layout,
            prev_block,
        ),
    decreases n,
{
    if n > 0 {
        lemma_filed_from(proofs, n - 1, layout, prev_block);
        let before = by_source(proofs, n - 1, layout, prev_block)->Ok_0;
        let table = by_source(proofs, n, layout, prev_block)->Ok_0;
        let last = source_of(&proofs@[n - 1], layout, prev_block)->Ok_0;
        assert forall|chunk_hash: CryptoHash| #[trigger]
            table.contains_key(chunk_hash) implies is_source(
            *table[chunk_hash],
            chunk_hash,
            proofs@.take(n),
            layout,
            prev_block,
        ) by {
            if chunk_hash == last {
                assert(proofs@.take(n)[n - 1] == proofs@[n - 1]);
            } else {
                assert(before.contains_key(chunk_hash));
                let shorter = proofs@.take(n - 1);
                let i = choose|i: int|
                    0 <= i < shorter.len() && shorter[i] == *before[chunk_hash];
                assert(proofs@.take(n)[i] == shorter[i]);
            }
        }
    }
}

/// The witness of an execution is about the chunk that the block holds for the
/// shard: it names the node as its maker and the epoch of the block, brings the
/// transactions of the chunk, and of the receipts that were stored for the shard
/// it brings the proofs, each under the chunk of the previous block that sent
/// them.
pub proof fn witness_is_of_the_execution<'a>(
    me: Option<&'a AccountId>,
    block: &'a Block,
    result: ShardUpdateResult,
    request: DistributeStateWitnessRequestView<'a>,
    view: &'a ChainView,
)
    requires
        state_witness(me, block, result, view) == Ok::<
            DistributeStateWitnessRequestView<'a>,
            Stop,
        >(request),
    ensures
        ({
            let witness = request.state_witness;
            let shard_id = result.parts().0.shard_id as u64;
            let about_receipts = Query::IncomingReceipts {
                block_hash: block.header.prev_hash,
                shard_id,
            };
            let about_transactions = Query::ChunkTransactions(witness.chunk_header.chunk_hash);
            &&& me == Some(witness.chunk_producer)
            &&& witness.epoch_id == block.header.epoch_id
            &&& stands_in(*witness.chunk_header, block, shard_id, view)
            &&& witness.main_state_transition.block_hash == block.header.hash
            &&& witness.implicit_transitions.len() == 0
            &&& request.main_transition_shard_id == shard_id
            &&& view.transactions(about_transactions) == Ok::<_, Stop>(witness.transactions)
            &&& view.block(Query::Block(block.header.prev_hash)) matches Ok(prev_block)
            &&& view.layout(Query::ShardLayout(prev_block.header.epoch_id)) matches Ok(layout)
            &&& view.proofs(about_receipts) matches Ok(stored)
            &&& filed_from(
                witness.source_receipt_proofs,
                stored,
                stored@.len() as int,
                layout,
                prev_block,
            )
        }),
{
    let shard_id = result.parts().0.shard_id as u64;
    let prev_block = view.block(Query::Block(block.header.prev_hash))->Ok_0;
    let layout = view.layout(Query::ShardLayout(prev_block.header.epoch_id))->Ok_0;
    let stored = view.proofs(
        Query::IncomingReceipts { block_hash: block.header.prev_hash, shard_id },
    )->Ok_0;
    lemma_filed_from(stored, stored@.len() as int, layout, prev_block);
}

} // verus!
