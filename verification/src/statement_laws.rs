//! What holds of what a node knows about executions, and of the witnesses that
//! it accepts.
use vstd::prelude::*;
use crate::block::{AccountId, Block};
use crate::by_hash::ByHash;
use crate::core_statements::{
    all_executed, recorded, AppliedWitness, CoreStatementsProcessor,
};
use crate::error::Error;
use crate::executor::{ChunkExecutorActor, OrphanStateWitness, WitnessStepView};
use crate::hash::CryptoHash;
use crate::receipts::{receipts_digest, root_of_transactions};
use crate::statements::ExecutionResult;
use crate::validation::{
    block_match, checked_contents, lemma_gathered, results_of, source_receipts,
};
use crate::view::{ChainView, Query, Stop};
use crate::witness::ChunkStateWitness;

verus! {

/// A result that was recorded is known, and nothing else changed.
pub proof fn recorded_result_is_known(
    known: Map<CryptoHash, Map<CryptoHash, ExecutionResult>>,
    result: ExecutionResult,
    block_hash: CryptoHash,
    chunk_hash: CryptoHash,
)
    ensures
        recorded(known, result).contains_key(result.block_hash),
        recorded(known, result)[result.block_hash].contains_key(result.chunk_hash.0),
        recorded(known, result)[result.block_hash][result.chunk_hash.0] == result,
        block_hash != result.block_hash ==> recorded(known, result).contains_key(block_hash)
            == known.contains_key(block_hash) && recorded(known, result)[block_hash]
            == known[block_hash],
        known.contains_key(block_hash) && known[block_hash].contains_key(chunk_hash) && (block_hash
            != result.block_hash || chunk_hash != result.chunk_hash.0) ==> recorded(
            known,
            result,
        )[block_hash].contains_key(chunk_hash) && recorded(known, result)[block_hash][chunk_hash]
            == known[block_hash][chunk_hash],
{
}

/// It is of no matter in which order two results are recorded that are not of
/// the same chunk in the same block.
pub proof fn recording_commutes(
    known: Map<CryptoHash, Map<CryptoHash, ExecutionResult>>,
    one: ExecutionResult,
    other: ExecutionResult,
)
    requires
        one.block_hash != other.block_hash || one.chunk_hash != other.chunk_hash,
    ensures
        recorded(recorded(known, one), other) == recorded(recorded(known, other), one),
{
    let a = recorded(recorded(known, one), other);
    let b = recorded(recorded(known, other), one);
    if one.block_hash == other.block_hash {
        assert(one.chunk_hash.0 != other.chunk_hash.0);
        assert(a[one.block_hash] =~= b[one.block_hash]);
    } else {
        assert(a[one.block_hash] =~= b[one.block_hash]);
        assert(a[other.block_hash] =~= b[other.block_hash]);
    }
    assert forall|k: CryptoHash| a.contains_key(k) == b.contains_key(k) && (a.contains_key(k)
        ==> #[trigger] a[k] == #[trigger] b[k]) by {}
    assert(a =~= b);
}

/// To record a result again changes nothing.
pub proof fn recording_again_changes_nothing(
    known: Map<CryptoHash, Map<CryptoHash, ExecutionResult>>,
    result: ExecutionResult,
)
    ensures
        recorded(recorded(known, result), result) == recorded(known, result),
{
    let a = recorded(known, result);
    assert(recorded(a, result)[result.block_hash] =~= a[result.block_hash]);
    assert(recorded(a, result) =~= a);
}

/// Once the results of all chunks of a block are there, they stay there,
/// whatever is recorded of the chunks of this block or of other blocks.
pub proof fn results_stay(
    before: &CoreStatementsProcessor,
    after: &CoreStatementsProcessor,
    result: ExecutionResult,
    block_hash: CryptoHash,
    view: &ChainView,
)
    requires
        before.results_exist(block_hash, view) == Ok::<bool, Stop>(true),
        after.statements()@ == recorded(before.statements()@, result),
        result.block_hash == block_hash ==> (view.block(Query::Block(block_hash)) matches Ok(block)
            ==> exists|i: int|
            0 <= i < block.chunks@.len() && (#[trigger] block.chunks@[i]).chunk_hash
                == result.chunk_hash),
    ensures
        after.results_exist(block_hash, view) == Ok::<bool, Stop>(true),
{
    let block = view.block(Query::Block(block_hash))->Ok_0;
    if !block.header.is_genesis() {
        let known = before.statements()@;
        assert(before.statements().results(block_hash) is Some);
        assert(known.contains_key(block_hash));
        assert(after.statements()@.contains_key(block_hash));
        assert(after.statements().results(block_hash) is Some);
        let then = after.statements()@[block_hash];
        assert(then == after.statements().results(block_hash)->0@);
        assert(known[block_hash] == before.statements().results(block_hash)->0@);
        if result.block_hash == block_hash {
            let i = choose|i: int|
                0 <= i < block.chunks@.len() && (#[trigger] block.chunks@[i]).chunk_hash
                    == result.chunk_hash;
            assert(known[block_hash].contains_key(block.chunks@[i].chunk_hash.0));
            assert(then.dom() =~= known[block_hash].dom());
        } else {
            assert(then == known[block_hash]);
        }
    }
}

/// What a witness has to meet to be accepted for execution.
pub open spec fn is_acceptable<'a>(
    processor: &'a CoreStatementsProcessor,
    witness: &'a ChunkStateWitness<'a>,
    view: &ChainView,
) -> bool {
    &&& view.block(Query::Block(witness.main_state_transition.block_hash)) matches Ok(block)
    &&& view.header(Query::BlockHeader(block.header.prev_hash)) matches Ok(prev_block_header)
    &&& view.digest(Query::EpochId(block.header.hash)) == Ok::<CryptoHash, Stop>(
        witness.epoch_id.0,
    )
    &&& block.contains(witness.chunk_header)
    &&& processor.results_exist(block.header.prev_hash, view) == Ok::<bool, Stop>(true)
    &&& witness.chunk_header.tx_root == root_of_transactions(witness.transactions@)
    &&& processor.results_before(block.header.prev_hash, prev_block_header) matches Ok(results)
    &&& source_receipts(
        witness.source_receipt_proofs@,
        results,
        witness.chunk_header.shard_id,
        prev_block_header.hash,
        *block,
        view,
    ) matches Ok(receipts)
    &&& witness.applied_receipts_hash == receipts_digest(receipts)
    &&& !block.header.is_genesis() && !prev_block_header.is_genesis() ==> {
        &&& processor.statements().results(block.header.prev_hash) matches Some(results)
        &&& all_proven(results, witness)
    }
}

/// For each of the results, the witness brings the receipts that the execution
/// sent to the shard of the witness, proven by the outgoing receipts root of the
/// result, and brings no others.
pub open spec fn all_proven<'a>(
    results: &ByHash<ExecutionResult>,
    witness: &'a ChunkStateWitness<'a>,
) -> bool {
    &&& witness.source_receipt_proofs@.dom().len() as usize == results.entries().len() as usize
    &&& forall|i: int|
        0 <= i < results.entries().len() ==> {
            let (chunk_hash, result) = #[trigger] results.entries()[i];
            &&& witness.source_receipt_proofs@.contains_key(chunk_hash)
            &&& witness.source_receipt_proofs@[chunk_hash].shard_proof.from_shard_id
                == result.shard_id
            &&& witness.source_receipt_proofs@[chunk_hash].shard_proof.to_shard_id
                == witness.chunk_header.shard_id
            &&& witness.source_receipt_proofs@[chunk_hash].leads_to(result.outgoing_receipts_root)
        }
}

/// Only an acceptable witness is accepted, be it for execution or, once executed,
/// as right: it is about a chunk of a known block, all that the block builds on
/// was executed, its transactions are those of the chunk, the receipts that it
/// brings are proven by those executions, and their digest is the one that it
/// claims.
pub proof fn accepted_witness_is_acceptable<'a>(
    processor: &'a CoreStatementsProcessor,
    witness: &'a ChunkStateWitness<'a>,
    view: &ChainView,
    applied: Option<Result<AppliedWitness, Error>>,
)
    requires
        processor.validation(witness, view, applied) is Ok,
    ensures
        is_acceptable(processor, witness, view),
{
    let block = view.block(Query::Block(witness.main_state_transition.block_hash))->Ok_0;
    let prev_hash = block.header.prev_hash;
    let prev_block_header = view.header(Query::BlockHeader(prev_hash))->Ok_0;
    let results = processor.results_before(prev_hash, prev_block_header)->Ok_0;
    assert(block_match(witness, block, view) is Ok);
    let contents = checked_contents(witness, block, prev_block_header, results, view);
    assert(contents is Ok);
    let receipts = source_receipts(
        witness.source_receipt_proofs@,
        results,
        witness.chunk_header.shard_id,
        prev_block_header.hash,
        *block,
        view,
    )->Ok_0;
    assert(witness.applied_receipts_hash == receipts_digest(receipts));
    if !block.header.is_genesis() && !prev_block_header.is_genesis() {
        lemma_gathered(
            results_of(results),
            witness.source_receipt_proofs@,
            witness.chunk_header.shard_id,
        );
        let table = processor.statements().results(prev_hash)->0;
        assert forall|i: int| 0 <= i < table.entries().len() implies {
            let (chunk_hash, result) = #[trigger] table.entries()[i];
            &&& witness.source_receipt_proofs@.contains_key(chunk_hash)
            &&& witness.source_receipt_proofs@[chunk_hash].shard_proof.from_shard_id
                == result.shard_id
            &&& witness.source_receipt_proofs@[chunk_hash].shard_proof.to_shard_id
                == witness.chunk_header.shard_id
            &&& witness.source_receipt_proofs@[chunk_hash].leads_to(result.outgoing_receipts_root)
        } by {
            assert(results_of(results)[i] == table.entries()[i]);
        }
    }
}

/// Some chunk of a block, not being genesis, has no result; or nothing at all is
/// on record for the block.
pub open spec fn results_missing(
    processor: &CoreStatementsProcessor,
    block_hash: CryptoHash,
    view: &ChainView,
) -> bool {
    view.block(Query::Block(block_hash)) matches Ok(block) && !block.header.is_genesis() && (
    processor.statements()@.contains_key(block_hash) ==> !all_executed(
        block,
        processor.statements()@[block_hash],
    ))
}

/// A witness that came too early: its block is not known yet, or the block before
/// it is not, or results of the block before it are missing.
pub open spec fn is_early(
    processor: &CoreStatementsProcessor,
    witness: &ChunkStateWitness,
    view: &ChainView,
) -> bool {
    match view.block(Query::Block(witness.main_state_transition.block_hash)) {
        Err(stop) => is_not_there(stop),
        Ok(block) => match view.header(Query::BlockHeader(block.header.prev_hash)) {
            Err(stop) => is_not_there(stop),
            Ok(prev_block_header) => {
                let prev_hash = block.header.prev_hash;
                !prev_block_header.is_genesis() && (!processor.statements()@.contains_key(prev_hash)
                    || match view.block(Query::Block(prev_hash)) {
                    Err(stop) => is_not_there(stop),
                    Ok(_) => results_missing(processor, prev_hash, view),
                })
            },
        },
    }
}

/// The store does not have what was asked for.
pub open spec fn is_not_there(stop: Stop) -> bool {
    stop matches Stop::Fail(e) && e is NotFound
}

/// A witness that came too early is not refused but kept, with the size that it
/// came in.
pub proof fn early_witness_is_kept<'a>(
    executor: &'a ChunkExecutorActor,
    witness: &'a ChunkStateWitness<'a>,
    raw_witness_size: usize,
    validator_id: &AccountId,
    view: &'a ChainView,
    applied: Option<Result<AppliedWitness, Error>>,
)
    requires
        is_early(&executor.processor(), witness, view),
    ensures
        executor.witness_processing(witness, raw_witness_size, validator_id, view, applied) == Ok::<
            WitnessStepView<'a>,
            Stop,
        >(WitnessStepView::Keep(OrphanStateWitness { witness, witness_size: raw_witness_size })),
{
}

/// Of a block that is not genesis, results are on record, but some chunk has none.
pub open spec fn results_incomplete(
    processor: &CoreStatementsProcessor,
    block_hash: CryptoHash,
    view: &ChainView,
) -> bool {
    processor.statements()@.contains_key(block_hash) && results_missing(processor, block_hash, view)
}

/// A witness that was kept is kept on as long as results are on record of the
/// block that it waits for, but not of all chunks.
pub proof fn waiting_witness_is_kept_on<'a>(
    executor: &'a ChunkExecutorActor,
    witness: &'a ChunkStateWitness<'a>,
    new_block: &Block,
    validator_id: &AccountId,
    view: &'a ChainView,
    applied: Option<Result<AppliedWitness, Error>>,
)
    requires
        results_incomplete(&executor.processor(), new_block.header.prev_hash, view),
    ensures
        executor.orphan_processing(witness, new_block, validator_id, view, applied) == Ok::<
            WitnessStepView<'a>,
            Stop,
        >(WitnessStepView::Keep(OrphanStateWitness { witness, witness_size: 0 })),
{
}

} // verus!
