//! A witness that a node makes is one that it accepts.
use vstd::prelude::*;
use crate::block::{AccountId, Block, ShardChunkHeader, ShardLayout, ShardUId};
use crate::by_hash::{distinct_keys, ByHash};
use crate::core_statements::CoreStatementsProcessor;
use crate::error::Error;
use crate::executor::saving;
use crate::hash::{CryptoHash, EpochId};
use crate::jobs::new_chunk_data;
use crate::order_laws::{distinct_shards, has_result};
use crate::outcome::{by_source, header_of, source_proofs, state_witness, ShardUpdateResult};
use crate::receipt_laws::{own_receipts_are_accepted, received_is_proven, results_of_block};
use crate::receipts::{receipts_digest, receipts_of, root_of_transactions, Receipt, ReceiptProof};
use crate::statements::ExecutionResult;
use crate::validation::{
    block_match, checked_contents, main_transition, result_of_shard, results_of, source_receipts,
    spice_header, transaction_validity,
};
use crate::view::{ChainView, Query, Stop};
use crate::witness::{ChunkStateWitness, NewChunkDataView};

verus! {

/// The chain answers for a block and for the chunk of a witness: it knows the
/// block and the one before it, neither being genesis, in the epoch that the
/// block names, and all that is read to lay out the execution of the chunk.
pub open spec fn chain_answers_for(
    witness: &ChunkStateWitness,
    block: &Block,
    prev_block: &Block,
    view: &ChainView,
) -> bool {
    let block_hash = block.header.hash;
    let prev_block_hash = block.header.prev_hash;
    let epoch_id = block.header.epoch_id;
    let shard_id = witness.chunk_header.shard_id;
    &&& !block.header.is_genesis()
    &&& !prev_block.header.is_genesis()
    &&& prev_block.header.hash == prev_block_hash
    &&& view.block(Query::Block(block_hash)) == Ok::<&Block, Stop>(block)
    &&& view.block(Query::Block(prev_block_hash)) == Ok::<&Block, Stop>(prev_block)
    &&& view.header(Query::BlockHeader(prev_block_hash)) == Ok::<_, Stop>(prev_block.header)
    &&& view.digest(Query::EpochId(block_hash)) == Ok::<CryptoHash, Stop>(epoch_id.0)
    &&& view.version(Query::EpochInfoVersion(epoch_id)) matches Ok(protocol_version)
    &&& witness.chunk_header.version_check(protocol_version) is Ok
    &&& view.uid(Query::ShardUid { shard_id, epoch_id }) matches Ok(shard_uid)
    &&& view.transition(Query::ReshardingTransition { block_hash, shard_uid }) is Ok
    &&& transaction_validity(witness.transactions@, prev_block_hash, view) is Ok
    &&& view.number(Query::WitnessBlockContext { block_hash, prev_block_hash }) is Ok
}

/// What was executed of the previous block, and what was received of its
/// receipts, fit together: the results are those of the chunks of the block, one
/// for each shard, all are there, and the receipts are proven by them.
pub open spec fn executed_and_received(
    processor: &CoreStatementsProcessor,
    results: &ByHash<ExecutionResult>,
    received: Seq<ReceiptProof>,
    prev_block: &Block,
    layout: &ShardLayout,
    shard_id: u64,
    view: &ChainView,
) -> bool {
    &&& processor.statements().results(prev_block.header.hash) == Some(results)
    &&& processor.results_exist(prev_block.header.hash, view) == Ok::<bool, Stop>(true)
    &&& distinct_keys(results.entries())
    &&& distinct_shards(results.entries())
    &&& results.entries().len() <= usize::MAX
    &&& results_of_block(results.entries(), layout, prev_block)
    &&& received.len() <= usize::MAX
    &&& received_is_proven(received, results.entries(), shard_id)
}

/// Of what was received of a block, these proofs were saved for a shard.
pub open spec fn was_saved(
    received: Seq<ReceiptProof>,
    block_hash: CryptoHash,
    view: &ChainView,
    g: int,
    shard_id: u64,
    saved: Seq<ReceiptProof>,
) -> bool {
    saving(Some(received), block_hash, view) matches Ok(Some(groups)) && 0 <= g < groups.len()
        && groups[g] == (shard_id, saved)
}

proof fn lemma_has_result_of_shard(results: Seq<(CryptoHash, ExecutionResult)>, shard_id: u64)
    requires
        has_result(results, shard_id),
    ensures
        result_of_shard(results, shard_id) is Some,
    decreases results.len(),
{
    let i = choose|i: int| 0 <= i < results.len() && (#[trigger] results[i]).1.shard_id == shard_id;
    if results[0].1.shard_id != shard_id {
        assert(results.skip(1)[i - 1] == results[i]);
        assert(has_result(results.skip(1), shard_id));
        lemma_has_result_of_shard(results.skip(1), shard_id);
    }
}

/// The node accepts, for execution, the witness that it makes itself.
///
/// Where it saved the receipts of the previous block, and made the witness of
/// the execution of a chunk from what it saved, the witness passes all checks
/// that come before it is executed again: given that the chain answers for the
/// block, that the receipts that were applied were those saved, that the
/// transactions have the root of the chunk, and that the shard that the chunk
/// stems from was executed.
pub proof fn own_witness_is_accepted<'a>(
    processor: &'a CoreStatementsProcessor,
    results: &'a ByHash<ExecutionResult>,
    received: Seq<ReceiptProof>,
    g: int,
    me: Option<&'a AccountId>,
    block: &'a Block,
    prev_block: &'a Block,
    result: ShardUpdateResult,
    witness: &'a ChunkStateWitness<'a>,
    view: &'a ChainView,
)
    requires
        view.consistent(),
        state_witness(me, block, result, view) matches Ok(request) && witness@
            == request.state_witness,
        witness.chunk_header.shard_id == result.parts().0.shard_id,
        chain_answers_for(witness, block, prev_block, view),
        view.layout(Query::ShardLayout(prev_block.header.epoch_id)) matches Ok(layout)
            && executed_and_received(
            processor,
            results,
            received,
            prev_block,
            layout,
            witness.chunk_header.shard_id,
            view,
        ),
        view.proofs(
            Query::IncomingReceipts {
                block_hash: block.header.prev_hash,
                shard_id: witness.chunk_header.shard_id,
            },
        ) matches Ok(saved) && saved@.len() <= usize::MAX && receipts_of(saved@).len() <= u32::MAX
            && witness.applied_receipts_hash == receipts_digest(receipts_of(saved@))
            && was_saved(
            received,
            prev_block.header.hash,
            view,
            g,
            witness.chunk_header.shard_id,
            saved@,
        ),
        witness.chunk_header.tx_root == root_of_transactions(witness.transactions@),
        view.number(
            Query::PrevShardId {
                prev_block_hash: prev_block.header.hash,
                shard_id: witness.chunk_header.shard_id,
            },
        ) matches Ok(prev_shard_id) && has_result(results.entries(), prev_shard_id),
    ensures
        processor.prepared(witness, view) is Ok,
{
    let shard_id = witness.chunk_header.shard_id;
    let layout = view.layout(Query::ShardLayout(prev_block.header.epoch_id))->Ok_0;
    let saved = view.proofs(
        Query::IncomingReceipts { block_hash: block.header.prev_hash, shard_id },
    )->Ok_0;
    assert(source_proofs(block, prev_block, shard_id, view) is Ok);
    own_receipts_are_accepted(
        received,
        saved,
        prev_block,
        layout,
        *block,
        results,
        view,
        g,
    );
    let table = by_source(saved, saved@.len() as int, layout, prev_block)->Ok_0;
    assert(witness.source_receipt_proofs@ == table);
    lemma_chunk_in_block(block, shard_id, view);
    let header = header_of(block, shard_id, view)->Ok_0;
    assert(witness.chunk_header == header);
    assert(block_match(witness, block, view) is Ok);
    let contents = checked_contents(witness, block, prev_block.header, Some(results), view);
    assert(contents is Ok);
    let prev_shard_id = view.number(
        Query::PrevShardId { prev_block_hash: prev_block.header.hash, shard_id },
    )->Ok_0;
    lemma_has_result_of_shard(results.entries(), prev_shard_id);
    assert(results_of(Some(results)) == results.entries());
    assert(spice_header(witness, prev_block.header, Some(results), view) is Ok);
    let (receipts, flags) = contents->Ok_0;
    assert(main_transition(
        witness,
        block,
        prev_block.header,
        Some(results),
        receipts,
        flags,
        view,
    ) is Ok);
    assert(processor.results_before(block.header.prev_hash, prev_block.header) == Ok::<
        Option<&ByHash<ExecutionResult>>,
        Error,
    >(Some(results)));
}

/// The header of the chunk of a shard in a block stands in the block.
proof fn lemma_chunk_in_block(block: &Block, shard_id: u64, view: &ChainView)
    requires
        header_of(block, shard_id, view) is Ok,
    ensures
        block.contains(&header_of(block, shard_id, view)->Ok_0),
{
    let layout = view.layout(Query::ShardLayout(block.header.epoch_id))->Ok_0;
    let shard_index = layout.shard_index_of(shard_id)->Ok_0;
    assert(block.chunks@[shard_index as int].same(&header_of(block, shard_id, view)->Ok_0));
}

/// The executor and whoever checks its witness apply the same receipts in the
/// same order: those of the proofs that were saved.
pub proof fn executor_applies_what_is_checked<'a>(
    data: NewChunkDataView<'a>,
    saved: &'a Vec<ReceiptProof>,
    shard_uid: ShardUId,
    epoch_id: EpochId,
    context: u64,
    received: Seq<ReceiptProof>,
    prev_block: &'a Block,
    layout: &'a ShardLayout,
    block: &'a Block,
    chunk_header: &'a ShardChunkHeader,
    results: &'a ByHash<ExecutionResult>,
    processor: &'a CoreStatementsProcessor,
    view: &'a ChainView,
    g: int,
)
    requires
        view.consistent(),
        !block.header.is_genesis(),
        executed_and_received(
            processor,
            results,
            received,
            prev_block,
            layout,
            chunk_header.shard_id,
            view,
        ),
        saved@.len() <= usize::MAX,
        was_saved(received, prev_block.header.hash, view, g, chunk_header.shard_id, saved@),
        by_source(saved, saved@.len() as int, layout, prev_block) is Ok,
        new_chunk_data(
            chunk_header,
            shard_uid,
            chunk_header.shard_id,
            epoch_id,
            context,
            prev_block,
            saved,
            view,
        ) == Ok::<NewChunkDataView<'a>, Stop>(data),
    ensures
        source_receipts(
            by_source(saved, saved@.len() as int, layout, prev_block)->Ok_0,
            Some(results),
            chunk_header.shard_id,
            prev_block.header.hash,
            *block,
            view,
        ) == Ok::<Seq<Receipt>, Stop>(data.receipts),
{
    own_receipts_are_accepted(
        received,
        saved,
        prev_block,
        layout,
        *block,
        results,
        view,
        g,
    );
}

} // verus!
