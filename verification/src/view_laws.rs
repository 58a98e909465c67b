//! An operation that stopped for want of an answer can be started again.
//!
//! Each operation is a function of what it knows. What it came to stands,
//! however much is learned afterwards, unless an answer was missing; and where
//! one was missing, the question was not asked before. So each start either
//! comes to the end or brings a new question.
use vstd::prelude::*;
use crate::block::{AccountId, Block, BlockHeader, ShardChunkHeader, ShardLayout, ShardUId};
use crate::by_hash::ByHash;
use crate::core_statements::{
    endorsement_request, AppliedWitness, CoreStatementsProcessor, ValidationView,
};
use crate::error::Error;
use crate::executor::{receipts_saved, saving, ChunkExecutorActor};
use crate::hash::{CryptoHash, EpochId};
use crate::incoming::{arranged, complete_from, targets};
use crate::jobs::{
    chunk_jobs, job_at, jobs_below, new_chunk_data, shard_context, update_reason,
    update_shard_job,
};
use crate::order::{first_of_each, placed, Placed};
use crate::outcome::{
    header_of, outcome_of, outgoing_proofs, source_proofs, state_witness, witnessed_transition,
    ApplyResult, ShardUpdateResult,
};
use crate::receipts::{Receipt, ReceiptProof, SignedTransaction};
use crate::statements::ExecutionResult;
use crate::validation::{
    block_match, checked_contents, genesis_chunk_extra, lemma_gathered_needs_nothing,
    main_transition, pre_validation, results_of, source_receipts, spice_header,
    transaction_validity,
};
use crate::view::{ChainView, Query, Stop};
use crate::witness::ChunkStateWitness;

verus! {

/// No answer was missing.
pub open spec fn settled<T>(outcome: Result<T, Stop>) -> bool {
    !(outcome matches Err(Stop::Need(_)))
}

/// What an operation came to with one view stands with another that knows more,
/// unless an answer was missing; and where one was missing, the question is new
/// to the view.
pub open spec fn stable<T>(
    outcome: Result<T, Stop>,
    knowing_more: Result<T, Stop>,
    view: &ChainView,
) -> bool {
    &&& settled(outcome) ==> knowing_more == outcome
    &&& view.consistent() ==> (outcome matches Err(Stop::Need(q)) ==> view.answer(q) is None)
}

proof fn stable_transaction_validity<'a>(
    transactions: Seq<SignedTransaction>,
    prev_block_hash: CryptoHash,
    view: &'a ChainView,
    other: &'a ChainView,
)
    requires
        view.extends_to(other),
    ensures
        stable(
            transaction_validity(transactions, prev_block_hash, view),
            transaction_validity(transactions, prev_block_hash, other),
            view,
        ),
    decreases transactions.len(),
{
    if transactions.len() > 0 {
        stable_transaction_validity(transactions.drop_last(), prev_block_hash, view, other);
    }
}

proof fn stable_genesis_chunk_extra<'a>(
    prev_block_header: BlockHeader,
    shard_id: u64,
    view: &'a ChainView,
    other: &'a ChainView,
)
    requires
        view.extends_to(other),
    ensures
        stable(
            genesis_chunk_extra(prev_block_header, shard_id, view),
            genesis_chunk_extra(prev_block_header, shard_id, other),
            view,
        ),
{
}

proof fn stable_spice_header<'a>(
    witness: &'a ChunkStateWitness<'a>,
    prev_block_header: BlockHeader,
    results: Option<&'a ByHash<ExecutionResult>>,
    view: &'a ChainView,
    other: &'a ChainView,
)
    requires
        view.extends_to(other),
    ensures
        stable(
            spice_header(witness, prev_block_header, results, view),
            spice_header(witness, prev_block_header, results, other),
            view,
        ),
{
    stable_genesis_chunk_extra(prev_block_header, witness.chunk_header.shard_id, view, other);
}

proof fn stable_main_transition<'a>(
    witness: &'a ChunkStateWitness<'a>,
    block: &'a Block,
    prev_block_header: BlockHeader,
    results: Option<&'a ByHash<ExecutionResult>>,
    receipts: Seq<Receipt>,
    flags: Seq<bool>,
    view: &'a ChainView,
    other: &'a ChainView,
)
    requires
        view.extends_to(other),
    ensures
        stable(
            main_transition(witness, block, prev_block_header, results, receipts, flags, view),
            main_transition(witness, block, prev_block_header, results, receipts, flags, other),
            view,
        ),
{
    stable_genesis_chunk_extra(prev_block_header, witness.chunk_header.shard_id, view, other);
    stable_spice_header(witness, prev_block_header, results, view, other);
}

proof fn stable_source_receipts<'a>(
    proofs: Map<CryptoHash, &'a ReceiptProof>,
    results: Option<&'a ByHash<ExecutionResult>>,
    shard_id: u64,
    prev_block_hash: CryptoHash,
    block: Block,
    view: &'a ChainView,
    other: &'a ChainView,
)
    requires
        view.extends_to(other),
    ensures
        stable(
            source_receipts(proofs, results, shard_id, prev_block_hash, block, view),
            source_receipts(proofs, results, shard_id, prev_block_hash, block, other),
            view,
        ),
{
    lemma_gathered_needs_nothing(results_of(results), proofs, shard_id);
}

proof fn stable_checked_contents<'a>(
    witness: &'a ChunkStateWitness<'a>,
    block: &'a Block,
    prev_block_header: BlockHeader,
    results: Option<&'a ByHash<ExecutionResult>>,
    view: &'a ChainView,
    other: &'a ChainView,
)
    requires
        view.extends_to(other),
    ensures
        stable(
            checked_contents(witness, block, prev_block_header, results, view),
            checked_contents(witness, block, prev_block_header, results, other),
            view,
        ),
{
    stable_source_receipts(
        witness.source_receipt_proofs@,
        results,
        witness.chunk_header.shard_id,
        prev_block_header.hash,
        *block,
        view,
        other,
    );
    stable_transaction_validity(witness.transactions@, prev_block_header.hash, view, other);
}

proof fn stable_block_match<'a>(
    witness: &'a ChunkStateWitness<'a>,
    block: &'a Block,
    view: &'a ChainView,
    other: &'a ChainView,
)
    requires
        view.extends_to(other),
    ensures
        stable(
            block_match(witness, block, view),
            block_match(witness, block, other),
            view,
        ),
{
}

proof fn stable_pre_validation<'a>(
    witness: &'a ChunkStateWitness<'a>,
    block: &'a Block,
    results: Option<&'a ByHash<ExecutionResult>>,
    view: &'a ChainView,
    other: &'a ChainView,
)
    requires
        view.extends_to(other),
    ensures
        stable(
            pre_validation(witness, block, results, view),
            pre_validation(witness, block, results, other),
            view,
        ),
{
    stable_block_match(witness, block, view, other);
    if let Ok(prev_block_header) = view.header(Query::BlockHeader(block.header.prev_hash)) {
        stable_checked_contents(witness, block, prev_block_header, results, view, other);
        if let Ok((receipts, flags)) = checked_contents(
            witness,
            block,
            prev_block_header,
            results,
            view,
        ) {
            stable_main_transition(
                witness,
                block,
                prev_block_header,
                results,
                receipts,
                flags,
                view,
                other,
            );
        }
    }
}

proof fn stable_results_exist<'a>(
    processor: &'a CoreStatementsProcessor,
    block_hash: CryptoHash,
    view: &'a ChainView,
    other: &'a ChainView,
)
    requires
        view.extends_to(other),
    ensures
        stable(
            processor.results_exist(block_hash, view),
            processor.results_exist(block_hash, other),
            view,
        ),
{
}

proof fn stable_prepared<'a>(
    processor: &'a CoreStatementsProcessor,
    witness: &'a ChunkStateWitness<'a>,
    view: &'a ChainView,
    other: &'a ChainView,
)
    requires
        view.extends_to(other),
    ensures
        stable(
            processor.prepared(witness, view),
            processor.prepared(witness, other),
            view,
        ),
{
    if let Ok(block) = view.block(Query::Block(witness.main_state_transition.block_hash)) {
        let prev_hash = block.header.prev_hash;
        stable_results_exist(processor, prev_hash, view, other);
        if let Ok(prev_block_header) = view.header(Query::BlockHeader(prev_hash)) {
            if let Ok(results) = processor.results_before(prev_hash, prev_block_header) {
                stable_pre_validation(witness, block, results, view, other);
            }
        }
    }
}

proof fn stable_endorsement_request<'a>(
    chunk_header: &'a ShardChunkHeader,
    execution_result: ExecutionResult,
    validator_id: &'a AccountId,
    view: &'a ChainView,
    other: &'a ChainView,
)
    requires
        view.extends_to(other),
    ensures
        stable(
            endorsement_request(chunk_header, execution_result, validator_id, view),
            endorsement_request(chunk_header, execution_result, validator_id, other),
            view,
        ),
{
}

/// What comes of validating and endorsing a witness does not change when more
/// is learned, unless an answer was missing; and no question is asked whose
/// answer is known.
pub proof fn endorsing_is_stable<'a>(
    processor: &'a CoreStatementsProcessor,
    witness: &'a ChunkStateWitness<'a>,
    applied: Option<Result<AppliedWitness, Error>>,
    validator_id: &'a AccountId,
    view: &'a ChainView,
    other: &'a ChainView,
)
    requires
        view.extends_to(other),
    ensures
        stable(
            processor.endorsing(witness, view, applied, validator_id),
            processor.endorsing(witness, other, applied, validator_id),
            view,
        ),
{
    stable_prepared(processor, witness, view, other);
    if let Ok(ValidationView::Valid(validated)) = processor.validation(witness, view, applied) {
        stable_endorsement_request(
            validated.chunk_header,
            ExecutionResult {
                block_hash: witness.main_state_transition.block_hash,
                chunk_hash: validated.chunk_header.chunk_hash,
                shard_id: validated.chunk_header.shard_id,
                chunk_extra: validated.chunk_extra,
                outgoing_receipts_root: validated.outgoing_receipts_root,
            },
            validator_id,
            view,
            other,
        );
    }
}

/// What is done about a witness does not change when more is learned, unless an
/// answer was missing; and no question is asked whose answer is known.
pub proof fn witness_processing_is_stable<'a>(
    executor: &'a ChunkExecutorActor,
    witness: &'a ChunkStateWitness<'a>,
    raw_witness_size: usize,
    applied: Option<Result<AppliedWitness, Error>>,
    validator_id: &'a AccountId,
    view: &'a ChainView,
    other: &'a ChainView,
)
    requires
        view.extends_to(other),
    ensures
        stable(
            executor.witness_processing(witness, raw_witness_size, validator_id, view, applied),
            executor.witness_processing(witness, raw_witness_size, validator_id, other, applied),
            view,
        ),
{
    endorsing_is_stable(&executor.processor(), witness, applied, validator_id, view, other);
}

/// What is done about a witness that was kept does not change when more is
/// learned, unless an answer was missing; and no question is asked whose answer
/// is known.
pub proof fn orphan_processing_is_stable<'a>(
    executor: &'a ChunkExecutorActor,
    witness: &'a ChunkStateWitness<'a>,
    new_block: &'a Block,
    applied: Option<Result<AppliedWitness, Error>>,
    validator_id: &'a AccountId,
    view: &'a ChainView,
    other: &'a ChainView,
)
    requires
        view.extends_to(other),
    ensures
        stable(
            executor.orphan_processing(witness, new_block, validator_id, view, applied),
            executor.orphan_processing(witness, new_block, validator_id, other, applied),
            view,
        ),
{
    stable_results_exist(&executor.processor(), new_block.header.prev_hash, view, other);
    endorsing_is_stable(&executor.processor(), witness, applied, validator_id, view, other);
}

proof fn stable_complete_from<'a>(
    proofs: Seq<ReceiptProof>,
    shard_ids: Seq<u64>,
    i: int,
    block_hash: CryptoHash,
    view: &'a ChainView,
    other: &'a ChainView,
)
    requires
        view.extends_to(other),
    ensures
        stable(
            complete_from(proofs, shard_ids, i, block_hash, view),
            complete_from(proofs, shard_ids, i, block_hash, other),
            view,
        ),
    decreases shard_ids.len() - i,
{
    if 0 <= i < shard_ids.len() {
        stable_complete_from(proofs, shard_ids, i + 1, block_hash, view, other);
    }
}

proof fn stable_targets<'a>(
    items: Seq<Placed>,
    block_hash: CryptoHash,
    view: &'a ChainView,
    other: &'a ChainView,
)
    requires
        view.extends_to(other),
    ensures
        stable(
            targets(items, block_hash, view),
            targets(items, block_hash, other),
            view,
        ),
    decreases items.len(),
{
    if items.len() > 0 {
        stable_targets(items.drop_last(), block_hash, view, other);
    }
}

proof fn stable_arranged<'a>(
    items: Seq<Placed>,
    shard_ids: Seq<u64>,
    block_hash: CryptoHash,
    view: &'a ChainView,
    other: &'a ChainView,
)
    requires
        view.extends_to(other),
    ensures
        stable(
            arranged(items, shard_ids, block_hash, view),
            arranged(items, shard_ids, block_hash, other),
            view,
        ),
    decreases shard_ids.len(),
{
    if shard_ids.len() > 0 {
        stable_arranged(items, shard_ids.drop_last(), block_hash, view, other);
    }
}

/// Which receipts are saved does not change when more is learned, unless an
/// answer was missing; and no question is asked whose answer is known.
pub proof fn saving_is_stable<'a>(
    held: Option<Seq<ReceiptProof>>,
    block_hash: CryptoHash,
    view: &'a ChainView,
    other: &'a ChainView,
)
    requires
        view.extends_to(other),
    ensures
        stable(
            saving(held, block_hash, view),
            saving(held, block_hash, other),
            view,
        ),
{
    if let Some(proofs) = held {
        if let Ok(epoch_hash) = view.digest(Query::EpochId(block_hash)) {
            if let Ok(shard_ids) = view.shard_ids(Query::ShardIds(EpochId(epoch_hash))) {
                stable_complete_from(proofs, shard_ids@, 0, block_hash, view, other);
            }
        }
        let items = first_of_each(placed(proofs));
        stable_targets(items, block_hash, view, other);
        if let Ok(shard_ids) = targets(items, block_hash, view) {
            stable_arranged(items, shard_ids, block_hash, view, other);
        }
    }
}

proof fn stable_shard_context<'a>(
    prev_block_hash: CryptoHash,
    epoch_id: EpochId,
    shard_id: u64,
    view: &'a ChainView,
    other: &'a ChainView,
)
    requires
        view.extends_to(other),
    ensures
        stable(
            shard_context(prev_block_hash, epoch_id, shard_id, view),
            shard_context(prev_block_hash, epoch_id, shard_id, other),
            view,
        ),
{
}

proof fn stable_new_chunk_data<'a>(
    chunk_header: &'a ShardChunkHeader,
    shard_uid: ShardUId,
    shard_id: u64,
    epoch_id: EpochId,
    context: u64,
    prev_block: &'a Block,
    incoming_receipts: &'a Vec<ReceiptProof>,
    view: &'a ChainView,
    other: &'a ChainView,
)
    requires
        view.extends_to(other),
    ensures
        stable(
            new_chunk_data(
                chunk_header,
                shard_uid,
                shard_id,
                epoch_id,
                context,
                prev_block,
                incoming_receipts,
                view,
            ),
            new_chunk_data(
                chunk_header,
                shard_uid,
                shard_id,
                epoch_id,
                context,
                prev_block,
                incoming_receipts,
                other,
            ),
            view,
        ),
{
}

proof fn stable_update_reason<'a>(
    block: &'a Block,
    shard_index: u64,
    shard_id: u64,
    shard_uid: ShardUId,
    epoch_id: EpochId,
    context: u64,
    prev_block: &'a Block,
    incoming_receipts: &'a Vec<ReceiptProof>,
    view: &'a ChainView,
    other: &'a ChainView,
)
    requires
        view.extends_to(other),
    ensures
        stable(
            update_reason(
                block,
                shard_index,
                shard_id,
                shard_uid,
                epoch_id,
                context,
                prev_block,
                incoming_receipts,
                view,
            ),
            update_reason(
                block,
                shard_index,
                shard_id,
                shard_uid,
                epoch_id,
                context,
                prev_block,
                incoming_receipts,
                other,
            ),
            view,
        ),
{
    if let Ok(chunk_header) = block.chunk_of(shard_index, shard_id) {
        stable_new_chunk_data(
            &chunk_header,
            shard_uid,
            shard_id,
            epoch_id,
            context,
            prev_block,
            incoming_receipts,
            view,
            other,
        );
    }
}

proof fn stable_update_shard_job<'a>(
    key: u64,
    context: u64,
    block: &'a Block,
    shard_index: u64,
    prev_block: &'a Block,
    incoming_receipts: &'a Vec<ReceiptProof>,
    takes_state_patch: bool,
    view: &'a ChainView,
    other: &'a ChainView,
)
    requires
        view.extends_to(other),
    ensures
        stable(
            update_shard_job(
                key,
                context,
                block,
                shard_index,
                prev_block,
                incoming_receipts,
                takes_state_patch,
                view,
            ),
            update_shard_job(
                key,
                context,
                block,
                shard_index,
                prev_block,
                incoming_receipts,
                takes_state_patch,
                other,
            ),
            view,
        ),
{
    let prev_block_hash = prev_block.header.hash;
    if let Ok(epoch_hash) = view.digest(Query::EpochIdFromPrevBlock(prev_block_hash)) {
        let epoch_id = EpochId(epoch_hash);
        if let Ok(layout) = view.layout(Query::ShardLayout(epoch_id)) {
            if let Ok(shard_id) = layout.shard_id_at(shard_index) {
                stable_shard_context(prev_block_hash, epoch_id, shard_id, view, other);
                if let Ok(context_of_shard) = shard_context(
                    prev_block_hash,
                    epoch_id,
                    shard_id,
                    view,
                ) {
                    stable_update_reason(
                        block,
                        shard_index,
                        shard_id,
                        context_of_shard.shard_uid,
                        epoch_id,
                        context,
                        prev_block,
                        incoming_receipts,
                        view,
                        other,
                    );
                }
            }
        }
    }
}

proof fn stable_job_at<'a>(
    block: &'a Block,
    prev_block: &'a Block,
    layout: &'a ShardLayout,
    shard_index: u64,
    view: &'a ChainView,
    other: &'a ChainView,
)
    requires
        view.extends_to(other),
    ensures
        stable(
            job_at(block, prev_block, layout, shard_index, view),
            job_at(block, prev_block, layout, shard_index, other),
            view,
        ),
{
    let block_hash = block.header.hash;
    let prev_block_hash = block.header.prev_hash;
    if let Ok(shard_id) = layout.shard_id_at(shard_index) {
        if let Ok(chunk_header) = block.chunk_of(shard_index, shard_id) {
            let is_new_chunk = chunk_header.is_new_chunk(block.header.height);
            let about_context = Query::BlockContext {
                block_hash,
                prev_block_hash: prev_block.header.hash,
                is_new_chunk,
            };
            if let Ok(context) = view.number(about_context) {
                let about_receipts = Query::IncomingReceipts {
                    block_hash: prev_block_hash,
                    shard_id,
                };
                let about_key = Query::CachedUpdateKey { context, block_hash, shard_id };
                if let Ok(incoming_receipts) = view.proofs(about_receipts) {
                    if let Ok(key) = view.number(about_key) {
                        stable_update_shard_job(
                            key,
                            context,
                            block,
                            shard_index,
                            prev_block,
                            incoming_receipts,
                            shard_index == 0,
                            view,
                            other,
                        );
                    }
                }
            }
        }
    }
}

proof fn stable_jobs_below<'a>(
    block: &'a Block,
    prev_block: &'a Block,
    layout: &'a ShardLayout,
    count: nat,
    view: &'a ChainView,
    other: &'a ChainView,
)
    requires
        view.extends_to(other),
    ensures
        stable(
            jobs_below(block, prev_block, layout, count, view),
            jobs_below(block, prev_block, layout, count, other),
            view,
        ),
    decreases count,
{
    if count > 0 {
        stable_jobs_below(block, prev_block, layout, (count - 1) as nat, view, other);
        stable_job_at(block, prev_block, layout, (count - 1) as u64, view, other);
    }
}

proof fn stable_receipts_saved<'a>(
    shard_ids: Seq<u64>,
    i: int,
    block_hash: CryptoHash,
    prev_block_hash: CryptoHash,
    view: &'a ChainView,
    other: &'a ChainView,
)
    requires
        view.extends_to(other),
    ensures
        stable(
            receipts_saved(shard_ids, i, block_hash, prev_block_hash, view),
            receipts_saved(shard_ids, i, block_hash, prev_block_hash, other),
            view,
        ),
    decreases shard_ids.len() - i,
{
    if 0 <= i < shard_ids.len() {
        stable_receipts_saved(shard_ids, i + 1, block_hash, prev_block_hash, view, other);
    }
}

proof fn stable_chunk_jobs<'a>(
    block: &'a Block,
    view: &'a ChainView,
    other: &'a ChainView,
)
    requires
        view.extends_to(other),
    ensures
        stable(
            chunk_jobs(block, view),
            chunk_jobs(block, other),
            view,
        ),
{
    if let Ok(prev_block) = view.block(Query::Block(block.header.prev_hash)) {
        if let Ok(count) = view.number(Query::PrevChunkCount(prev_block.header.hash)) {
            if let Ok(layout) = view.layout(Query::ShardLayout(block.header.epoch_id)) {
                stable_jobs_below(block, prev_block, layout, count as nat, view, other);
            }
        }
    }
}

/// Whether and how the chunks of a block are executed does not change when more
/// is learned, unless an answer was missing; and no question is asked whose
/// answer is known.
pub proof fn applying_is_stable<'a>(
    executor: &'a ChunkExecutorActor,
    block_hash: CryptoHash,
    view: &'a ChainView,
    other: &'a ChainView,
)
    requires
        view.extends_to(other),
    ensures
        stable(
            executor.applying(block_hash, view),
            executor.applying(block_hash, other),
            view,
        ),
{
    if let Ok(epoch_hash) = view.digest(Query::EpochId(block_hash)) {
        if let Ok(block) = view.block(Query::Block(block_hash)) {
            let prev_hash = block.header.prev_hash;
            if let Ok(shard_ids) = view.shard_ids(Query::ShardIds(EpochId(epoch_hash))) {
                stable_receipts_saved(shard_ids@, 0, block_hash, prev_hash, view, other);
            }
            stable_results_exist(&executor.processor(), prev_hash, view, other);
            stable_chunk_jobs(block, view, other);
        }
    }
}

proof fn stable_header_of<'a>(
    block: &'a Block,
    shard_id: u64,
    view: &'a ChainView,
    other: &'a ChainView,
)
    requires
        view.extends_to(other),
    ensures
        stable(
            header_of(block, shard_id, view),
            header_of(block, shard_id, other),
            view,
        ),
{
}

proof fn stable_outgoing_proofs<'a>(
    block: &'a Block,
    prev_block: &'a Block,
    chunk_header: &'a ShardChunkHeader,
    shard_uid: ShardUId,
    receipts: u64,
    view: &'a ChainView,
    other: &'a ChainView,
)
    requires
        view.extends_to(other),
    ensures
        stable(
            outgoing_proofs(block, prev_block, chunk_header, shard_uid, receipts, view),
            outgoing_proofs(block, prev_block, chunk_header, shard_uid, receipts, other),
            view,
        ),
{
}

/// What is recorded and sent after an execution does not change when more is
/// learned, unless an answer was missing; and no question is asked whose answer
/// is known.
pub proof fn outcome_is_stable<'a>(
    block: &'a Block,
    result: ShardUpdateResult,
    view: &'a ChainView,
    other: &'a ChainView,
)
    requires
        view.extends_to(other),
    ensures
        stable(
            outcome_of(block, result, view),
            outcome_of(block, result, other),
            view,
        ),
{
    let (shard_uid, apply_result) = result.parts();
    stable_header_of(block, shard_uid.shard_id as u64, view, other);
    if let Ok(chunk_header) = header_of(block, shard_uid.shard_id as u64, view) {
        if let Ok(prev_block) = view.block(Query::Block(block.header.prev_hash)) {
            stable_outgoing_proofs(
                block,
                prev_block,
                &chunk_header,
                shard_uid,
                apply_result.outgoing_receipts,
                view,
                other,
            );
        }
    }
}

proof fn stable_witnessed_transition<'a>(
    block_hash: CryptoHash,
    chunk_header: &'a ShardChunkHeader,
    shard_uid: ShardUId,
    apply_result: ApplyResult,
    view: &'a ChainView,
    other: &'a ChainView,
)
    requires
        view.extends_to(other),
    ensures
        stable(
            witnessed_transition(block_hash, chunk_header, shard_uid, apply_result, view),
            witnessed_transition(block_hash, chunk_header, shard_uid, apply_result, other),
            view,
        ),
{
}

proof fn stable_source_proofs<'a>(
    block: &'a Block,
    prev_block: &'a Block,
    shard_id: u64,
    view: &'a ChainView,
    other: &'a ChainView,
)
    requires
        view.extends_to(other),
    ensures
        stable(
            source_proofs(block, prev_block, shard_id, view),
            source_proofs(block, prev_block, shard_id, other),
            view,
        ),
{
}

/// The witness that is made of an execution does not change when more is
/// learned, unless an answer was missing; and no question is asked whose answer
/// is known.
pub proof fn state_witness_is_stable<'a>(
    me: Option<&'a AccountId>,
    block: &'a Block,
    result: ShardUpdateResult,
    view: &'a ChainView,
    other: &'a ChainView,
)
    requires
        view.extends_to(other),
    ensures
        stable(
            state_witness(me, block, result, view),
            state_witness(me, block, result, other),
            view,
        ),
{
    let (shard_uid, apply_result) = result.parts();
    let shard_id = shard_uid.shard_id as u64;
    stable_header_of(block, shard_id, view, other);
    if let Ok(chunk_header) = header_of(block, shard_id, view) {
        stable_witnessed_transition(
            block.header.hash,
            &chunk_header,
            shard_uid,
            apply_result,
            view,
            other,
        );
        if let Ok(prev_block) = view.block(Query::Block(block.header.prev_hash)) {
            stable_source_proofs(block, prev_block, shard_id, view, other);
        }
    }
}

} // verus!
