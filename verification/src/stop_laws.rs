//! What stops an operation: the first look at the chain that does not succeed, and
//! as it is.
use vstd::prelude::*;
use crate::block::{AccountId, Block, BlockHeader, ShardChunkHeader, ShardLayout, ShardUId};
use crate::by_hash::ByHash;
use crate::check_laws::{all_brought, found_result_is_of_the_shard, lemma_brought, walked};
use crate::core_statements::CoreStatementsProcessor;
use crate::error::Error;
use crate::executor::{receipts_saved, saving, ChunkExecutorActor};
use crate::hash::{CryptoHash, EpochId};
use crate::incoming::{arranged, complete, complete_from, for_shard, targets};
use crate::job_laws::receipts_are_there;
use crate::jobs::{
    chunk_jobs, job_at, new_chunk_data, prev_outgoing_receipts, receipts_root, shard_context,
    update_reason, update_shard_job,
};
use crate::order::{first_of_each, placed, Placed};
use crate::outcome::{
    by_source, header_of, outcome_of, outgoing_proofs, source_proofs, state_witness,
    witnessed_transition, ApplyResult, ShardUpdateResult,
};
use crate::receipts::{Receipt, ReceiptProof, SignedTransaction};
use crate::statements::ExecutionResult;
use crate::validation::{
    block_match, checked_contents, gathered, genesis_chunk_extra, lemma_gathered,
    main_transition, pre_validation, results_of, source_receipts, transaction_validity,
};
use crate::view::{Assumption, ChainView, Query, Stop};
use crate::witness::ChunkStateWitness;

verus! {

/// An operation stops with this.
pub open spec fn stops<T>(outcome: Result<T, Stop>, stop: Stop) -> bool {
    outcome matches Err(found) && found == stop
}

/// What stops the search for what genesis left behind.
pub proof fn genesis_extra_stops_where_a_look_does(
    genesis: BlockHeader,
    shard_id: u64,
    stop: Stop,
    view: &ChainView,
)
    ensures
        ({
            let outcome = genesis_chunk_extra(genesis, shard_id, view);
            let layout = view.layout(Query::ShardLayout(genesis.epoch_id));
            let block = view.block(Query::Block(genesis.hash));
            let version = view.version(Query::ProtocolVersion(genesis.epoch_id));
            &&& stops(layout, stop) ==> stops(outcome, stop)
            &&& layout is Ok && stops(block, stop) ==> stops(outcome, stop)
            &&& layout is Ok && block is Ok && stops(version, stop) ==> stops(outcome, stop)
            &&& layout is Ok && block is Ok && version is Ok && layout->Ok_0.shard_index_of(
                shard_id,
            ) is Ok && stops(view.roots(Query::GenesisStateRoots), stop) ==> stops(outcome, stop)
        }),
{
}

/// What stops the layout of the execution of a witness. Where no result of the shard
/// is on record from which the shard stems, the node halts.
pub proof fn layout_of_execution_stops_where_a_look_does<'a>(
    witness: &'a ChunkStateWitness<'a>,
    block: &Block,
    prev: BlockHeader,
    results: Option<&'a ByHash<ExecutionResult>>,
    receipts: Seq<Receipt>,
    flags: Seq<bool>,
    stop: Stop,
    view: &ChainView,
)
    ensures
        ({
            let outcome = main_transition(witness, block, prev, results, receipts, flags, view);
            let shard_id = witness.chunk_header.shard_id;
            let extra = genesis_chunk_extra(prev, shard_id, view);
            let prev_shard = view.number(
                Query::PrevShardId { prev_block_hash: prev.hash, shard_id },
            );
            let context = view.number(
                Query::WitnessBlockContext {
                    block_hash: block.header.hash,
                    prev_block_hash: prev.hash,
                },
            );
            &&& (block.header.is_genesis() || prev.is_genesis()) && stops(extra, stop)
                ==> stops(outcome, stop)
            &&& !block.header.is_genesis() && prev.is_genesis() && extra is Ok
                && stops(context, stop)
                ==> stops(outcome, stop)
            &&& !block.header.is_genesis() && !prev.is_genesis() && stops(prev_shard, stop)
                ==> stops(outcome, stop)
            &&& !block.header.is_genesis() && !prev.is_genesis() ==> (prev_shard matches Ok(id)
                ==> (forall|i: int|
                0 <= i < walked(results).len() ==> (
                #[trigger] walked(results)[i]).1.shard_id != id)
                ==> stops(outcome, Stop::Broken(Assumption::PreviousShardResult)))
            &&& !block.header.is_genesis() && !prev.is_genesis() ==> (prev_shard matches Ok(id)
                ==> (exists|i: int|
                0 <= i < walked(results).len() && (
                #[trigger] walked(results)[i]).1.shard_id == id) && stops(context, stop)
                ==> stops(outcome, stop))
        }),
{
    let shard_id = witness.chunk_header.shard_id;
    if let Ok(id) = view.number(Query::PrevShardId { prev_block_hash: prev.hash, shard_id }) {
        found_result_is_of_the_shard(walked(results), id);
        assert(results_of(results) == walked(results));
    }
}

/// Whether a witness matches a block: it names the epoch of the block and is about
/// one of its chunks, with a version that is allowed. The first of these that cannot
/// be told, or does not hold, stops it.
pub proof fn match_stops_where_a_look_does<'a>(
    witness: &'a ChunkStateWitness<'a>,
    block: &Block,
    stop: Stop,
    view: &ChainView,
)
    ensures
        ({
            let outcome = block_match(witness, block, view);
            let epoch = view.digest(Query::EpochId(block.header.hash));
            let version = view.version(Query::EpochInfoVersion(witness.epoch_id));
            let right_epoch = epoch == Ok::<CryptoHash, Stop>(witness.epoch_id.0);
            &&& stops(epoch, stop) ==> stops(outcome, stop)
            &&& epoch is Ok && !right_epoch
                ==> stops(outcome, Stop::Broken(Assumption::WitnessEpoch))
            &&& right_epoch && !block.contains(witness.chunk_header)
                ==> stops(outcome, Stop::Broken(Assumption::WitnessChunkInBlock))
            &&& right_epoch && block.contains(witness.chunk_header) && stops(version, stop)
                ==> stops(outcome, stop)
            &&& right_epoch && block.contains(witness.chunk_header) ==> (version matches Ok(v)
                ==> match witness.chunk_header.version_check(v) {
                Ok(_) => outcome == Ok::<EpochId, Stop>(witness.epoch_id),
                Err(e) => stops(outcome, Stop::Fail(e)),
            })
        }),
{
    assert(EpochId(witness.epoch_id.0) == witness.epoch_id);
}

/// What stops the checks of a witness for a block.
pub proof fn checks_stop_where_a_look_does<'a>(
    witness: &'a ChunkStateWitness<'a>,
    block: &Block,
    results: Option<&'a ByHash<ExecutionResult>>,
    prev: BlockHeader,
    uid: ShardUId,
    stop: Stop,
    view: &ChainView,
)
    ensures
        ({
            let outcome = pre_validation(witness, block, results, view);
            let matched = block_match(witness, block, view);
            let header = view.header(Query::BlockHeader(block.header.prev_hash));
            let shard = view.uid(
                Query::ShardUid {
                    shard_id: witness.chunk_header.shard_id,
                    epoch_id: witness.epoch_id,
                },
            );
            let resharding = view.transition(
                Query::ReshardingTransition { block_hash: block.header.hash, shard_uid: uid },
            );
            let contents = checked_contents(witness, block, prev, results, view);
            let right = matched == Ok::<EpochId, Stop>(witness.epoch_id);
            let known = header == Ok::<BlockHeader, Stop>(prev);
            let found = shard == Ok::<ShardUId, Stop>(uid);
            &&& stops(matched, stop) ==> stops(outcome, stop)
            &&& right && stops(header, stop) ==> stops(outcome, stop)
            &&& right && known && stops(shard, stop) ==> stops(outcome, stop)
            &&& right && known && found && stops(resharding, stop) ==> stops(outcome, stop)
            &&& right && known && found && resharding is Ok && stops(contents, stop)
                ==> stops(outcome, stop)
            &&& right && known && found && resharding is Ok ==> (contents matches Ok((
                receipts,
                flags,
            )) ==> (stops(main_transition(
                witness,
                block,
                prev,
                results,
                receipts,
                flags,
                view,
            ), stop) ==> stops(outcome, stop)))
        }),
{
}

/// What stops the check of what a witness brings, besides that it is not what is
/// claimed.
pub proof fn contents_stop_where_a_look_does<'a>(
    witness: &'a ChunkStateWitness<'a>,
    block: &Block,
    prev: BlockHeader,
    results: Option<&'a ByHash<ExecutionResult>>,
    stop: Stop,
    view: &ChainView,
)
    ensures
        stops(source_receipts(
            witness.source_receipt_proofs@,
            results,
            witness.chunk_header.shard_id,
            prev.hash,
            *block,
            view,
        ), stop) ==> stops(checked_contents(
            witness,
            block,
            prev,
            results,
            view,
        ), stop),
        checked_contents(witness, block, prev, results, view) matches Ok((receipts, flags))
            ==> source_receipts(
            witness.source_receipt_proofs@,
            results,
            witness.chunk_header.shard_id,
            prev.hash,
            *block,
            view,
        ) == Ok::<Seq<Receipt>, Stop>(receipts) && transaction_validity(
            witness.transactions@,
            prev.hash,
            view,
        ) == Ok::<Seq<bool>, Stop>(flags),
{
}

/// What stops the check of a witness before its block is looked into.
pub proof fn witness_stops_where_a_look_does<'a>(
    processor: &'a CoreStatementsProcessor,
    witness: &'a ChunkStateWitness<'a>,
    block: &Block,
    stop: Stop,
    view: &ChainView,
)
    ensures
        ({
            let outcome = processor.prepared(witness, view);
            let found = view.block(Query::Block(witness.main_state_transition.block_hash));
            let header = view.header(Query::BlockHeader(block.header.prev_hash));
            &&& stops(found, stop) ==> stops(outcome, stop)
            &&& found == Ok::<&Block, Stop>(block) && stops(header, stop)
                ==> stops(outcome, stop)
        }),
{
}

/// What stops the layout of the execution of a new chunk.
pub proof fn new_chunk_stops_where_a_look_does<'a>(
    header: &'a ShardChunkHeader,
    shard_uid: ShardUId,
    shard_id: u64,
    epoch_id: EpochId,
    context: u64,
    prev_block: &Block,
    stored: &'a Vec<ReceiptProof>,
    receipts: u64,
    stop: Stop,
    view: &'a ChainView,
)
    ensures
        ({
            let outcome = new_chunk_data(
                header,
                shard_uid,
                shard_id,
                epoch_id,
                context,
                prev_block,
                stored,
                view,
            );
            let prev_block_hash = prev_block.header.hash;
            let chunk_hash = header.chunk_hash;
            let transactions = view.transactions(Query::ChunkTransactions(chunk_hash));
            let flags = view.flags(Query::ChunkTransactionsValid { prev_block_hash, chunk_hash });
            let extra = view.extra(Query::ChunkExtra { block_hash: prev_block_hash, shard_uid });
            let sent = prev_outgoing_receipts(prev_block, shard_id, view);
            let root = receipts_root(receipts, epoch_id, view);
            &&& stops(transactions, stop) ==> stops(outcome, stop)
            &&& transactions is Ok && stops(flags, stop) ==> stops(outcome, stop)
            &&& transactions is Ok && flags is Ok && stops(extra, stop) ==> stops(outcome, stop)
            &&& transactions is Ok && flags is Ok && extra is Ok && stops(sent, stop)
                ==> stops(outcome, stop)
            &&& transactions is Ok && flags is Ok && extra is Ok && sent == Ok::<u64, Stop>(
                receipts,
            ) && stops(root, stop) ==> stops(outcome, stop)
        }),
{
}

/// What stops the search for what there is to do for a shard: that the block has no
/// such chunk, or what stops the layout of its execution.
pub proof fn reason_stops_where_a_look_does<'a>(
    block: &'a Block,
    index: u64,
    shard_id: u64,
    shard_uid: ShardUId,
    epoch_id: EpochId,
    context: u64,
    prev_block: &Block,
    stored: &'a Vec<ReceiptProof>,
    stop: Stop,
    view: &'a ChainView,
)
    ensures
        ({
            let outcome = update_reason(
                block,
                index,
                shard_id,
                shard_uid,
                epoch_id,
                context,
                prev_block,
                stored,
                view,
            );
            let chunk = block.chunks@[index as int];
            &&& index >= block.chunks@.len()
                ==> stops(outcome, Stop::Fail(Error::InvalidShardId(shard_id)))
            &&& index < block.chunks@.len() && chunk.height_included == block.header.height
                && stops(new_chunk_data(
                &chunk,
                shard_uid,
                shard_id,
                epoch_id,
                context,
                prev_block,
                stored,
                view,
            ), stop) ==> stops(outcome, stop)
            &&& index < block.chunks@.len() && chunk.height_included != block.header.height
                && stops(view.extra(
                Query::ChunkExtra { block_hash: prev_block.header.hash, shard_uid },
            ), stop) ==> stops(outcome, stop)
        }),
{
}

/// What stops the layout of the work for a shard that is executed.
pub proof fn update_stops_where_a_look_does<'a>(
    key: u64,
    context: u64,
    block: &'a Block,
    index: u64,
    prev_block: &Block,
    stored: &'a Vec<ReceiptProof>,
    patch: bool,
    epoch_hash: CryptoHash,
    layout: &ShardLayout,
    shard_id: u64,
    stop: Stop,
    view: &'a ChainView,
)
    ensures
        ({
            let outcome = update_shard_job(
                key,
                context,
                block,
                index,
                prev_block,
                stored,
                patch,
                view,
            );
            let prev_hash = prev_block.header.hash;
            let epoch_id = EpochId(epoch_hash);
            let epoch = view.digest(Query::EpochIdFromPrevBlock(prev_hash));
            let shards = view.layout(Query::ShardLayout(epoch_id));
            let known = epoch == Ok::<CryptoHash, Stop>(epoch_hash);
            let laid_out = shards == Ok::<&ShardLayout, Stop>(layout);
            let placed = layout.shard_id_at(index) == Ok::<u64, Error>(shard_id);
            &&& stops(epoch, stop) ==> stops(outcome, stop)
            &&& known && stops(shards, stop) ==> stops(outcome, stop)
            &&& known && laid_out ==> (layout.shard_id_at(index) matches Err(e)
                ==> stops(outcome, Stop::Fail(e)))
            &&& known && laid_out && placed
                && stops(shard_context(prev_hash, epoch_id, shard_id, view), stop)
                ==> stops(outcome, stop)
            &&& known && laid_out && placed ==> (shard_context(prev_hash, epoch_id, shard_id, view)
                matches Ok(found) ==> found.should_apply_chunk && stops(update_reason(
                block,
                index,
                shard_id,
                found.shard_uid,
                epoch_id,
                context,
                prev_block,
                stored,
                view,
            ), stop) ==> stops(outcome, stop))
        }),
{
}

/// What stops the layout of the work for the shard at an index before the work
/// itself is laid out.
pub proof fn job_stops_where_a_look_does<'a>(
    block: &'a Block,
    prev_block: &Block,
    layout: &ShardLayout,
    index: u64,
    shard_id: u64,
    context: u64,
    stop: Stop,
    view: &'a ChainView,
)
    ensures
        ({
            let outcome = job_at(block, prev_block, layout, index, view);
            let block_hash = block.header.hash;
            let is_new_chunk = block.chunks@[index as int].height_included == block.header.height;
            let about = view.number(
                Query::BlockContext {
                    block_hash,
                    prev_block_hash: prev_block.header.hash,
                    is_new_chunk,
                },
            );
            let cares = view.flag(Query::CaresThisOrNextEpoch { block_hash, shard_id });
            let receipts = view.proofs(
                Query::IncomingReceipts { block_hash: block.header.prev_hash, shard_id },
            );
            let key = view.number(Query::CachedUpdateKey { context, block_hash, shard_id });
            let placed = layout.shard_id_at(index) == Ok::<u64, Error>(shard_id) && index
                < block.chunks@.len();
            let known = about == Ok::<u64, Stop>(context);
            let cared = cares == Ok::<bool, Stop>(true);
            &&& layout.shard_id_at(index) matches Err(e) ==> stops(outcome, Stop::Fail(e))
            &&& layout.shard_id_at(index) == Ok::<u64, Error>(shard_id) && index
                >= block.chunks@.len()
                ==> stops(outcome, Stop::Fail(Error::InvalidShardId(shard_id)))
            &&& placed && stops(about, stop) ==> stops(outcome, stop)
            &&& placed && known && stops(cares, stop) ==> stops(outcome, stop)
            &&& placed && known && cared && stops(receipts, stop) ==> stops(outcome, stop)
            &&& placed && known && cared && receipts is Ok && stops(key, stop)
                ==> stops(outcome, stop)
            &&& placed && known && cared ==> (receipts matches Ok(stored) ==> (key matches Ok(k)
                ==> (!(stop is Fail) && stops(update_shard_job(
                k,
                context,
                block,
                index,
                prev_block,
                stored,
                index == 0,
                view,
            ), stop) ==> stops(outcome, stop))))
        }),
{
}

/// What stops the layout of the work for a block before any shard is looked at.
pub proof fn work_stops_where_a_look_does<'a>(
    block: &'a Block,
    prev_block: &'a Block,
    stop: Stop,
    view: &'a ChainView,
)
    ensures
        ({
            let outcome = chunk_jobs(block, view);
            let prev = view.block(Query::Block(block.header.prev_hash));
            let count = view.number(Query::PrevChunkCount(prev_block.header.hash));
            let layout = view.layout(Query::ShardLayout(block.header.epoch_id));
            let known = prev == Ok::<&Block, Stop>(prev_block);
            &&& stops(prev, stop) ==> stops(outcome, stop)
            &&& known && stops(count, stop) ==> stops(outcome, stop)
            &&& known && count is Ok && stops(layout, stop) ==> stops(outcome, stop)
        }),
{
}

/// What stops the execution of a block before its shards are looked at, and what stops
/// it at the first shard of which it cannot be told whether its receipts are there.
pub proof fn execution_stops_where_a_look_does<'a>(
    executor: &'a ChunkExecutorActor,
    block_hash: CryptoHash,
    epoch_hash: CryptoHash,
    block: &'a Block,
    shard_ids: &'a Vec<u64>,
    i: int,
    stop: Stop,
    view: &'a ChainView,
)
    ensures
        ({
            let outcome = executor.applying(block_hash, view);
            let epoch = view.digest(Query::EpochId(block_hash));
            let found = view.block(Query::Block(block_hash));
            let shards = view.shard_ids(Query::ShardIds(EpochId(epoch_hash)));
            let known = epoch == Ok::<CryptoHash, Stop>(epoch_hash);
            let there = found == Ok::<&Block, Stop>(block);
            let prev_hash = block.header.prev_hash;
            &&& stops(epoch, stop) ==> stops(outcome, stop)
            &&& known && stops(found, stop) ==> stops(outcome, stop)
            &&& known && there && stops(shards, stop) ==> stops(outcome, stop)
            &&& known && there && shards == Ok::<&Vec<u64>, Stop>(shard_ids) && 0 <= i
                < shard_ids@.len() && (forall|j: int|
                0 <= j < i ==> receipts_are_there(
                    block_hash,
                    prev_hash,
                    #[trigger] shard_ids@[j],
                    view,
                )) && is_untold(block_hash, prev_hash, shard_ids@[i], stop, view)
                ==> stops(outcome, stop)
        }),
{
    if 0 <= i < shard_ids@.len() && (forall|j: int|
        0 <= j < i ==> receipts_are_there(
            block_hash,
            block.header.prev_hash,
            #[trigger] shard_ids@[j],
            view,
        )) && is_untold(block_hash, block.header.prev_hash, shard_ids@[i], stop, view) {
        lemma_untold(shard_ids@, 0, i, block_hash, block.header.prev_hash, stop, view);
    }
}

/// It cannot be told whether the receipts of a shard are there that the node may care
/// about.
pub open spec fn is_untold(
    block_hash: CryptoHash,
    prev_block_hash: CryptoHash,
    shard_id: u64,
    stop: Stop,
    view: &ChainView,
) -> bool {
    let cares = view.flag(Query::CaresThisOrNextEpoch { block_hash, shard_id });
    stops(cares, stop) || cares == Ok::<bool, Stop>(true) && stops(view.flag(
        Query::IncomingReceiptsExist { block_hash: prev_block_hash, shard_id },
    ), stop)
}

proof fn lemma_untold(
    shard_ids: Seq<u64>,
    from: int,
    i: int,
    block_hash: CryptoHash,
    prev_block_hash: CryptoHash,
    stop: Stop,
    view: &ChainView,
)
    requires
        0 <= from <= i < shard_ids.len(),
        forall|j: int|
            from <= j < i ==> receipts_are_there(
                block_hash,
                prev_block_hash,
                #[trigger] shard_ids[j],
                view,
            ),
        is_untold(block_hash, prev_block_hash, shard_ids[i], stop, view),
    ensures
        stops(receipts_saved(shard_ids, from, block_hash, prev_block_hash, view), stop),
    decreases i - from,
{
    if from < i {
        assert(receipts_are_there(
            block_hash,
            prev_block_hash,
            shard_ids[from],
            view,
        ));
        lemma_untold(shard_ids, from + 1, i, block_hash, prev_block_hash, stop, view);
    }
}

/// What stops the search for the header of a chunk.
pub proof fn header_stops_where_a_look_does(
    block: &Block,
    shard_id: u64,
    layout: &ShardLayout,
    stop: Stop,
    view: &ChainView,
)
    ensures
        ({
            let outcome = header_of(block, shard_id, view);
            let shards = view.layout(Query::ShardLayout(block.header.epoch_id));
            let known = shards == Ok::<&ShardLayout, Stop>(layout);
            &&& stops(shards, stop) ==> stops(outcome, stop)
            &&& known ==> (layout.shard_index_of(shard_id) matches Err(e)
                ==> stops(outcome, Stop::Fail(e)))
            &&& known ==> (layout.shard_index_of(shard_id) matches Ok(index) ==> index
                >= block.chunks@.len()
                ==> stops(outcome, Stop::Fail(Error::InvalidShardId(shard_id))))
        }),
{
}

/// What stops the search for the proofs that are sent out.
pub proof fn proofs_stop_where_a_look_does<'a>(
    block: &Block,
    prev_block: &Block,
    header: &ShardChunkHeader,
    shard_uid: ShardUId,
    receipts: u64,
    sent_before: u64,
    stop: Stop,
    view: &'a ChainView,
)
    ensures
        ({
            let outcome = outgoing_proofs(block, prev_block, header, shard_uid, receipts, view);
            let sent = prev_outgoing_receipts(prev_block, shard_uid.shard_id as u64, view);
            let extra = view.extra(
                Query::ChunkExtra { block_hash: prev_block.header.hash, shard_uid },
            );
            let root = receipts_root(sent_before, block.header.epoch_id, view);
            let known = sent == Ok::<u64, Stop>(sent_before);
            &&& stops(sent, stop) ==> stops(outcome, stop)
            &&& known && stops(extra, stop) ==> stops(outcome, stop)
            &&& known && extra is Ok && stops(root, stop) ==> stops(outcome, stop)
            &&& known && extra is Ok ==> (root matches Ok(found) ==> outcome == view.proofs(
                Query::OutgoingReceiptProofs {
                    block_hash: block.header.hash,
                    chunk_hash: header.chunk_hash,
                    prev_block_hash: prev_block.header.hash,
                    shard_uid,
                    prev_outgoing_receipts_root: found,
                    receipts,
                },
            ))
        }),
{
}

/// What stops the search for the outcome of an execution.
pub proof fn outcome_stops_where_a_look_does<'a>(
    block: &Block,
    prev_block: &Block,
    result: ShardUpdateResult,
    header: ShardChunkHeader,
    stop: Stop,
    view: &'a ChainView,
)
    ensures
        ({
            let outcome = outcome_of(block, result, view);
            let (shard_uid, applied) = result.parts();
            let prev = view.block(Query::Block(block.header.prev_hash));
            let found = header_of(block, shard_uid.shard_id as u64, view);
            let proofs = outgoing_proofs(
                block,
                prev_block,
                &header,
                shard_uid,
                applied.outgoing_receipts,
                view,
            );
            let extra = view.extra(Query::ChunkExtra { block_hash: block.header.hash, shard_uid });
            let root = receipts_root(applied.outgoing_receipts, block.header.epoch_id, view);
            let known = prev == Ok::<&Block, Stop>(prev_block);
            let placed = found == Ok::<ShardChunkHeader, Stop>(header);
            &&& stops(prev, stop) ==> stops(outcome, stop)
            &&& known && stops(found, stop) ==> stops(outcome, stop)
            &&& known && placed && stops(proofs, stop) ==> stops(outcome, stop)
            &&& known && placed && proofs is Ok && stops(extra, stop) ==> stops(outcome, stop)
            &&& known && placed && proofs is Ok && extra is Ok && stops(root, stop)
                ==> stops(outcome, stop)
        }),
{
}

/// What stops the making of a witness.
pub proof fn making_stops_where_a_look_does<'a>(
    me: Option<&'a AccountId>,
    block: &'a Block,
    prev_block: &'a Block,
    result: ShardUpdateResult,
    header: ShardChunkHeader,
    stop: Stop,
    view: &'a ChainView,
)
    ensures
        ({
            let outcome = state_witness(me, block, result, view);
            let (shard_uid, applied) = result.parts();
            let shard_id = shard_uid.shard_id as u64;
            let prev = view.block(Query::Block(block.header.prev_hash));
            let found = header_of(block, shard_id, view);
            let transition = witnessed_transition(
                block.header.hash,
                &header,
                shard_uid,
                applied,
                view,
            );
            let proofs = source_proofs(block, prev_block, shard_id, view);
            let transactions = view.transactions(Query::ChunkTransactions(header.chunk_hash));
            let known = prev == Ok::<&Block, Stop>(prev_block);
            let placed = found == Ok::<ShardChunkHeader, Stop>(header);
            &&& stops(prev, stop) ==> stops(outcome, stop)
            &&& known && stops(found, stop) ==> stops(outcome, stop)
            &&& known && placed && stops(transition, stop) ==> stops(outcome, stop)
            &&& known && placed && transition is Ok && stops(proofs, stop) ==> stops(outcome, stop)
            &&& known && placed && transition is Ok && proofs is Ok && stops(transactions, stop)
                ==> stops(outcome, stop)
        }),
{
}

/// What stops the search for what was stored of an execution, and for the proofs of
/// the receipts that it applied.
pub proof fn stored_parts_stop_where_a_look_does<'a>(
    block: &Block,
    prev_block: &Block,
    header: &ShardChunkHeader,
    shard_uid: ShardUId,
    applied: ApplyResult,
    stored: &'a Vec<ReceiptProof>,
    layout: &ShardLayout,
    stop: Stop,
    view: &'a ChainView,
)
    ensures
        ({
            let block_hash = block.header.hash;
            let shard_id = shard_uid.shard_id as u64;
            let transition = witnessed_transition(block_hash, header, shard_uid, applied, view);
            let kept = view.stored_transition(Query::StateTransition { block_hash, shard_id });
            let extra = view.extra(Query::ChunkExtra { block_hash, shard_uid });
            &&& !header.is_genesis() && stops(kept, stop) ==> stops(transition, stop)
            &&& !header.is_genesis() && (kept matches Ok(Some(_))) && stops(extra, stop)
                ==> stops(transition, stop)
        }),
        ({
            let shard_id = shard_uid.shard_id as u64;
            let proofs = source_proofs(block, prev_block, shard_id, view);
            let received = view.proofs(
                Query::IncomingReceipts { block_hash: block.header.prev_hash, shard_id },
            );
            let shards = view.layout(Query::ShardLayout(prev_block.header.epoch_id));
            &&& stops(received, stop) ==> stops(proofs, stop)
            &&& received is Ok && stops(shards, stop) ==> stops(proofs, stop)
            &&& received == Ok::<_, Stop>(stored) && shards == Ok::<_, Stop>(layout) ==> (by_source(
                stored,
                stored@.len() as int,
                layout,
                prev_block,
            ) matches Err(e) ==> stops(proofs, Stop::Fail(e)))
        }),
{
}

/// It stops the look whether the node cares about some shard at a block.
pub open spec fn caring_stops(block_hash: CryptoHash, stop: Stop, view: &ChainView) -> bool {
    exists|shard_id: u64|
        stops(
            #[trigger] view.flag(Query::CaresThisOrNextEpoch { block_hash, shard_id }),
            stop,
        )
}

/// It stops the look how some list is shuffled under the hash of a block.
pub open spec fn shuffling_stops(block_hash: CryptoHash, stop: Stop, view: &ChainView) -> bool {
    exists|len: usize| stops(#[trigger] view.shuffle(block_hash, len), stop)
}

proof fn lemma_complete_from_stops(
    received: Seq<ReceiptProof>,
    shard_ids: Seq<u64>,
    i: int,
    block_hash: CryptoHash,
    view: &ChainView,
)
    ensures
        complete_from(received, shard_ids, i, block_hash, view) matches Err(stop) ==> caring_stops(
            block_hash,
            stop,
            view,
        ),
    decreases shard_ids.len() - i,
{
    if 0 <= i < shard_ids.len() {
        lemma_complete_from_stops(received, shard_ids, i + 1, block_hash, view);
        if let Err(stop) = view.flag(
            Query::CaresThisOrNextEpoch { block_hash, shard_id: shard_ids[i] },
        ) {
            assert(stops(
                view.flag(Query::CaresThisOrNextEpoch { block_hash, shard_id: shard_ids[i] }),
                stop,
            ));
        }
    }
}

proof fn lemma_targets_stop(items: Seq<Placed>, block_hash: CryptoHash, view: &ChainView)
    ensures
        targets(items, block_hash, view) matches Err(stop) ==> caring_stops(block_hash, stop, view),
    decreases items.len(),
{
    if items.len() > 0 {
        lemma_targets_stop(items.drop_last(), block_hash, view);
        let shard_id = items.last().to_shard_id;
        if let Err(stop) = view.flag(Query::CaresThisOrNextEpoch { block_hash, shard_id }) {
            assert(stops(view.flag(Query::CaresThisOrNextEpoch { block_hash, shard_id }), stop));
        }
    }
}

proof fn lemma_arranged_stops(
    items: Seq<Placed>,
    shard_ids: Seq<u64>,
    block_hash: CryptoHash,
    view: &ChainView,
)
    ensures
        arranged(items, shard_ids, block_hash, view) matches Err(stop) ==> shuffling_stops(
            block_hash,
            stop,
            view,
        ),
    decreases shard_ids.len(),
{
    if shard_ids.len() > 0 {
        lemma_arranged_stops(items, shard_ids.drop_last(), block_hash, view);
        let len = for_shard(items, shard_ids.last()).len() as usize;
        if let Err(stop) = view.shuffle(block_hash, len) {
            assert(stops(view.shuffle(block_hash, len), stop));
        }
    }
}

/// What stops the saving of what was received: the look for the epoch of the block or
/// for its shards, or, once these are known, one whether the node cares about a
/// shard or how a list is shuffled; and it is handed on as it is.
pub proof fn saving_stops_where_a_look_does(
    received: Seq<ReceiptProof>,
    block_hash: CryptoHash,
    epoch_hash: CryptoHash,
    stop: Stop,
    view: &ChainView,
)
    ensures
        ({
            let outcome = saving(Some(received), block_hash, view);
            let completeness = complete(Some(received), block_hash, view);
            let epoch = view.digest(Query::EpochId(block_hash));
            let shards = view.shard_ids(Query::ShardIds(EpochId(epoch_hash)));
            let known = epoch == Ok::<CryptoHash, Stop>(epoch_hash);
            &&& stops(epoch, stop) ==> stops(completeness, stop)
            &&& known && stops(shards, stop) ==> stops(completeness, stop)
            &&& known && shards is Ok && stops(completeness, stop) ==> caring_stops(
                block_hash,
                stop,
                view,
            )
            &&& stops(completeness, stop) ==> stops(outcome, stop)
            &&& completeness is Ok && stops(outcome, stop) ==> caring_stops(block_hash, stop, view)
                || shuffling_stops(block_hash, stop, view)
        }),
{
    if let Ok(shard_ids) = view.shard_ids(Query::ShardIds(EpochId(epoch_hash))) {
        lemma_complete_from_stops(received, shard_ids@, 0, block_hash, view);
    }
    let items = first_of_each(placed(received));
    lemma_targets_stop(items, block_hash, view);
    if let Ok(shard_ids) = targets(items, block_hash, view) {
        lemma_arranged_stops(items, shard_ids, block_hash, view);
    }
}

/// What stops the check of the receipts that a witness brings, besides that their
/// number is wrong.
pub proof fn receipts_stop_where_a_look_does(
    proofs: Map<CryptoHash, &ReceiptProof>,
    results: Option<&ByHash<ExecutionResult>>,
    shard_id: u64,
    prev_block_hash: CryptoHash,
    block: Block,
    stop: Stop,
    view: &ChainView,
)
    requires
        !block.header.is_genesis(),
        walked(results).len() <= usize::MAX,
        proofs.dom().len() == walked(results).len(),
    ensures
        ({
            let outcome = source_receipts(proofs, results, shard_id, prev_block_hash, block, view);
            let found = gathered(walked(results), proofs, shard_id);
            let order = view.shuffle(prev_block_hash, walked(results).len() as usize);
            &&& stops(found, stop) ==> stops(outcome, stop)
            &&& found is Ok && stops(order, stop) ==> stops(outcome, stop)
        }),
{
    assert(results_of(results) == walked(results));
    if gathered(walked(results), proofs, shard_id) is Ok {
        lemma_gathered(walked(results), proofs, shard_id);
    }
}

/// A proof that names the right shards and has more receipts than can be counted
/// halts the node, where all before it do.
pub proof fn uncounted_receipts_halt(
    results: Seq<(CryptoHash, ExecutionResult)>,
    proofs: Map<CryptoHash, &ReceiptProof>,
    shard_id: u64,
    k: int,
)
    requires
        0 <= k < results.len(),
        all_brought(results.take(k), proofs, shard_id),
        proofs.contains_key(results[k].0),
        proofs[results[k].0].shard_proof.from_shard_id == results[k].1.shard_id,
        proofs[results[k].0].shard_proof.to_shard_id == shard_id,
        proofs[results[k].0].receipts@.len() > u32::MAX,
    ensures
        stops(gathered(results, proofs, shard_id), Stop::Broken(Assumption::ReceiptCount)),
    decreases results.len(),
{
    let n = results.len() - 1;
    if k < n {
        assert(results.drop_last().take(k) =~= results.take(k));
        assert(results.drop_last()[k] == results[k]);
        uncounted_receipts_halt(results.drop_last(), proofs, shard_id, k);
    } else {
        assert(results.drop_last() =~= results.take(k));
        assert(results.last() == results[k]);
        lemma_brought(results.drop_last(), proofs, shard_id);
    }
}

/// The check of transactions stops only where the look at one of them does, and not
/// with a failure.
pub proof fn transactions_stop_where_a_look_does(
    transactions: Seq<SignedTransaction>,
    prev_block_hash: CryptoHash,
    stop: Stop,
    view: &ChainView,
)
    requires
        stops(transaction_validity(transactions, prev_block_hash, view), stop),
    ensures
        !(stop is Fail),
        exists|i: int|
            0 <= i < transactions.len() && stops(
                view.flag(
                    Query::TransactionValid {
                        prev_block_hash,
                        base_block_hash: (#[trigger] transactions[i]).base(),
                    },
                ),
                stop,
            ),
    decreases transactions.len(),
{
    let init = transactions.drop_last();
    if transaction_validity(init, prev_block_hash, view) is Err {
        transactions_stop_where_a_look_does(init, prev_block_hash, stop, view);
        let i = choose|i: int|
            0 <= i < init.len() && stops(
                view.flag(
                    Query::TransactionValid {
                        prev_block_hash,
                        base_block_hash: (#[trigger] init[i]).base(),
                    },
                ),
                stop,
            );
        assert(transactions[i] == init[i]);
    } else {
        assert(transactions[transactions.len() - 1] == transactions.last());
    }
}

} // verus!
