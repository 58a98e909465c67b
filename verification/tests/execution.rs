use near_primitives::hash::CryptoHash as NearHash;
use near_primitives::receipt::{Receipt as NearReceipt, ReceiptPriority};
use near_primitives::sharding::{ReceiptList, ShardChunkHeader as NearHeader};
use spice::block::{
    AccountId, Block, BlockHeader, ChunkExtra, ShardChunkHeader, ShardLayout, ShardUId,
};
use spice::core_statements::{CoreStatementsProcessor, Validation};
use spice::error::Error;
use spice::executor::{ChunkExecutorActor, ORPHAN_WITNESS_POOL_SIZE};
use spice::hash::{ChunkHash, CryptoHash, EpochId};
use spice::jobs::{calculate_receipts_root, get_shard_context, ShardUpdateReason};
use spice::messages::ExecutorIncomingReceipt;
use spice::outcome::{
    chunk_outcome, collect_results, make_state_witness, ApplyResult, ShardUpdateResult,
};
use spice::receipts::{Receipt, ReceiptProof, ShardProof, SignedTransaction};
use spice::statements::ExecutionResult;
use spice::view::{Assumption, ChainView, Query, Reply, Stop, StoredTransition};
use spice::witness::{MainTransition, PrevChunkExtra, StorageDataSource};
use std::sync::Arc;

// The chain of these tests: a block (5) that was executed and the one after it (6), each with
// the chunks of two shards. The node cares about shard 0.
const BEFORE: u128 = 5;
const BLOCK: u128 = 6;
const EPOCH: u128 = 50;

fn h(n: u128) -> CryptoHash {
    CryptoHash { hi: 0, lo: n }
}

fn from_near(hash: NearHash) -> CryptoHash {
    CryptoHash {
        hi: u128::from_be_bytes(hash.0[..16].try_into().unwrap()),
        lo: u128::from_be_bytes(hash.0[16..].try_into().unwrap()),
    }
}

fn to_near(hash: CryptoHash) -> NearHash {
    NearHash([hash.hi.to_be_bytes(), hash.lo.to_be_bytes()].concat().try_into().unwrap())
}

fn near_receipt(amount: u128) -> NearReceipt {
    NearReceipt::new_balance_refund(
        &"alice.near".parse().unwrap(),
        amount,
        ReceiptPriority::NoPriority,
    )
}

fn receipt(amount: u128) -> Receipt {
    Receipt::decode(borsh::to_vec(&near_receipt(amount)).unwrap()).unwrap()
}

fn digest_of(amounts: &[u128]) -> CryptoHash {
    let list: Vec<NearReceipt> = amounts.iter().map(|n| near_receipt(*n)).collect();
    from_near(near_primitives::hash::hash(&borsh::to_vec(&list).unwrap()))
}

fn sent(from_shard_id: u64, to_shard_id: u64, amounts: &[u128]) -> ReceiptProof {
    ReceiptProof {
        receipts: amounts.iter().map(|n| receipt(*n)).collect(),
        shard_proof: ShardProof { from_shard_id, to_shard_id, proof: vec![] },
    }
}

fn root_of(to_shard_id: u64, amounts: &[u128]) -> CryptoHash {
    let list: Vec<NearReceipt> = amounts.iter().map(|n| near_receipt(*n)).collect();
    let digest = NearHash::hash_borsh(ReceiptList(to_shard_id.into(), &list));
    from_near(near_primitives::merkle::merklize(&[digest]).0)
}

fn merkle_root(hashes: &[CryptoHash]) -> CryptoHash {
    let items: Vec<NearHash> = hashes.iter().map(|hash| to_near(*hash)).collect();
    from_near(near_primitives::merkle::merklize(&items).0)
}

fn chunk_hash(block: u128, shard_id: u64) -> ChunkHash {
    ChunkHash(h(100 * block + shard_id as u128))
}

// In block 6 the chunk of shard 1 is the one of block 5.
fn chunk_header(block: u128, shard_id: u64) -> ShardChunkHeader {
    let header = NearHeader::new_dummy(block as u64, shard_id.into(), NearHash::default());
    let is_old = block == BLOCK && shard_id == 1;
    ShardChunkHeader {
        chunk_hash: chunk_hash(block, shard_id),
        prev_block_hash: h(block - 1),
        shard_id,
        height_created: block as u64,
        height_included: if is_old { BEFORE as u64 } else { block as u64 },
        tx_root: CryptoHash::default(),
        encoded: borsh::to_vec(&header).unwrap(),
    }
}

fn block(n: u128) -> Block {
    Block {
        header: BlockHeader {
            hash: h(n),
            prev_hash: h(n - 1),
            epoch_id: EpochId(h(EPOCH)),
            height: n as u64,
        },
        chunks: vec![chunk_header(n, 0), chunk_header(n, 1)],
        congestion_info: vec![],
    }
}

fn extra(n: u128) -> Arc<ChunkExtra> {
    Arc::new(ChunkExtra { state_root: h(n), encoded: vec![1] })
}

fn result(shard_id: u64, amounts: &[u128]) -> ExecutionResult {
    ExecutionResult {
        block_hash: h(BEFORE),
        chunk_hash: chunk_hash(BEFORE, shard_id),
        shard_id,
        chunk_extra: extra(700 + shard_id as u128),
        outgoing_receipts_root: root_of(0, amounts),
    }
}

fn processor() -> CoreStatementsProcessor {
    let mut processor = CoreStatementsProcessor::new();
    processor.record_execution_result(result(0, &[10]));
    processor.record_execution_result(result(1, &[20, 21]));
    processor
}

fn name(s: &str) -> AccountId {
    AccountId(s.to_string())
}

fn uid(shard_id: u64) -> ShardUId {
    ShardUId { version: 1, shard_id: shard_id as u32 }
}

// The receipts for shard 0 as they are stored: shuffled, the last shard first.
fn stored() -> Vec<ReceiptProof> {
    vec![sent(1, 0, &[20, 21]), sent(0, 0, &[10])]
}

fn answer(q: Query) -> Reply {
    match q {
        Query::Block(hash) => Reply::Block(Ok(block(hash.lo))),
        Query::BlockHeader(hash) => Reply::Header(Ok(block(hash.lo).header)),
        Query::EpochId(_) | Query::EpochIdFromPrevBlock(_) => Reply::Hash(Ok(h(EPOCH))),
        Query::EpochInfoVersion(_) => Reply::Version(Ok(80)),
        Query::ShardIds(_) => Reply::ShardIds(Ok(vec![0, 1])),
        Query::ShardLayout(_) => Reply::Layout(Ok(ShardLayout::Numbered { num_shards: 2 })),
        Query::ShardUid { shard_id, .. } => Reply::Uid(Ok(uid(shard_id))),
        Query::ReshardingTransition { .. } => Reply::Transition(Ok(None)),
        Query::CaresThisOrNextEpoch { shard_id, .. } => Reply::Flag(Ok(shard_id == 0)),
        Query::CaresThisEpoch { shard_id, .. } => Reply::Flag(Ok(shard_id == 0)),
        Query::CaresNextEpoch { .. } => Reply::Flag(Ok(false)),
        Query::CaredPrevEpoch { .. } => Reply::Flag(Ok(true)),
        Query::ShouldApplyChunk { cares_this, cares_next, .. } => {
            Reply::Flag(Ok(cares_this || cares_next))
        }
        Query::IncomingReceiptsExist { shard_id, .. } => Reply::Flag(Ok(shard_id == 0)),
        Query::IncomingReceipts { .. } => Reply::Proofs(Ok(stored())),
        Query::PrevChunkCount(_) => Reply::Number(Ok(2)),
        Query::PrevChunkHeightIncluded { .. } => Reply::Number(Ok(BEFORE as u64)),
        Query::PrevShardId { shard_id, .. } => Reply::Number(Ok(shard_id)),
        Query::OutgoingReceipts { .. } => Reply::Number(Ok(31)),
        Query::ReceiptsHashes { receipts: 31, .. } => Reply::Hashes(Ok(vec![h(310), h(311)])),
        Query::ReceiptsHashes { .. } => Reply::Hashes(Ok(vec![h(320), h(321), h(322)])),
        Query::OutgoingReceiptProofs { .. } => Reply::Proofs(Ok(vec![sent(0, 1, &[5])])),
        Query::ChunkExtra { block_hash, .. } => Reply::Extra(Ok(extra(800 + block_hash.lo))),
        Query::ChunkTransactions(_) => Reply::Transactions(Ok(Vec::<SignedTransaction>::new())),
        Query::ChunkTransactionsValid { .. } => Reply::Flags(Ok(vec![])),
        Query::BlockContext { is_new_chunk, .. } => {
            Reply::Number(Ok(if is_new_chunk { 41 } else { 42 }))
        }
        Query::WitnessBlockContext { .. } => Reply::Number(Ok(43)),
        Query::CachedUpdateKey { context, .. } => Reply::Number(Ok(context + 1000)),
        Query::StateTransition { .. } => Reply::StoredTransition(Ok(Some(StoredTransition {
            base_state: vec![vec![1], vec![2]],
            receipts_hash: digest_of(&[20, 21, 10]),
            contract_accesses: vec![h(1), h(2), h(1)],
            contract_deploys: vec![vec![9]],
        }))),
        Query::Shuffle { len, .. } => Reply::Order((0..len).rev().collect()),
        other => panic!("{other:?}"),
    }
}

// Lets an operation ask until it has all it needs.
fn learn_all(
    answers: &dyn Fn(Query) -> Reply,
    run: &dyn Fn(&ChainView) -> Option<Stop>,
) -> ChainView {
    let mut view = ChainView::new();
    while let Some(Stop::Need(q)) = run(&view) {
        assert!(view.learn(q, answers(q)));
    }
    view
}

#[test]
fn receipts_are_saved_once_complete() {
    let mut executor = ChunkExecutorActor::new(4, processor());
    let run = |executor: &mut ChunkExecutorActor| {
        let mut view = ChainView::new();
        loop {
            match executor.try_save_incoming_receipts(h(BEFORE), &view) {
                Err(Stop::Need(q)) => assert!(view.learn(q, answer(q))),
                Ok(saved) => break saved,
                Err(stop) => panic!("{stop:?}"),
            }
        }
    };
    assert!(run(&mut executor).is_none());
    executor.add_incoming_receipts(ExecutorIncomingReceipt {
        block_hash: h(BEFORE),
        receipt_proofs: vec![sent(0, 0, &[10]), sent(0, 1, &[11])],
    });
    assert!(run(&mut executor).is_none());
    executor.add_incoming_receipts(ExecutorIncomingReceipt {
        block_hash: h(BEFORE),
        receipt_proofs: vec![sent(1, 0, &[20, 21]), sent(0, 0, &[99])],
    });
    let saved = run(&mut executor).unwrap();
    assert_eq!(saved.len(), 1);
    let (shard_id, group) = saved.group(0);
    assert_eq!(shard_id, 0);
    let amounts: Vec<usize> = group.iter().map(|sent| sent.receipts.len()).collect();
    assert_eq!(amounts, vec![2, 1]);
    assert_eq!(group[1].receipts[0].encoded(), receipt(10).encoded());
    // what was handed out is no longer kept
    assert!(run(&mut executor).is_none());
}

#[test]
fn what_is_saved_does_not_depend_on_arrival() {
    let saved = |received: Vec<Vec<ReceiptProof>>| {
        let mut executor = ChunkExecutorActor::new(4, processor());
        for receipt_proofs in received {
            let block_hash = h(BEFORE);
            executor.add_incoming_receipts(ExecutorIncomingReceipt { block_hash, receipt_proofs });
        }
        let mut view = ChainView::new();
        loop {
            match executor.try_save_incoming_receipts(h(BEFORE), &view) {
                Err(Stop::Need(q)) => assert!(view.learn(q, answer(q))),
                Ok(saved) => break saved.unwrap(),
                Err(stop) => panic!("{stop:?}"),
            }
        }
    };
    let one = saved(vec![vec![sent(0, 0, &[10]), sent(1, 1, &[12])], vec![sent(1, 0, &[20, 21])]]);
    let other = saved(vec![
        vec![sent(1, 0, &[20, 21])],
        vec![sent(1, 1, &[12]), sent(0, 0, &[10]), sent(1, 0, &[99])],
    ]);
    for saved in [one, other] {
        assert_eq!(saved.len(), 1);
        let (shard_id, group) = saved.group(0);
        let receipts: Vec<&Vec<u8>> =
            group.iter().flat_map(|sent| sent.receipts.iter().map(|r| r.encoded())).collect();
        let expected = [receipt(20), receipt(21), receipt(10)];
        assert_eq!(shard_id, 0);
        assert_eq!(receipts, expected.iter().map(|r| r.encoded()).collect::<Vec<_>>());
    }
}

#[test]
fn chunks_wait_for_receipts_and_results() {
    let outcome = |processor: CoreStatementsProcessor, answers: &dyn Fn(Query) -> Reply| {
        let executor = ChunkExecutorActor::new(1, processor);
        let view = learn_all(answers, &|view| executor.try_apply_chunks(h(BLOCK), view).err());
        let outcome = executor.try_apply_chunks(h(BLOCK), &view);
        outcome.map(|jobs| jobs.map(|jobs| jobs.len()))
    };
    assert_eq!(outcome(processor(), &answer), Ok(Some(1)));
    let no_receipts = |q: Query| match q {
        Query::IncomingReceiptsExist { .. } => Reply::Flag(Ok(false)),
        other => answer(other),
    };
    assert_eq!(outcome(processor(), &no_receipts), Ok(None));
    let mut some = CoreStatementsProcessor::new();
    some.record_execution_result(result(0, &[10]));
    assert_eq!(outcome(some, &answer), Ok(None));
    let none = CoreStatementsProcessor::new();
    let unknown = Stop::Fail(Error::NoExecutionResults(h(BEFORE)));
    assert_eq!(outcome(none, &answer), Err(unknown));
}

#[test]
fn a_new_chunk_is_laid_out_with_the_stored_receipts() {
    let executor = ChunkExecutorActor::new(1, processor());
    let view = learn_all(&answer, &|view| executor.try_apply_chunks(h(BLOCK), view).err());
    let jobs = executor.try_apply_chunks(h(BLOCK), &view).ok().unwrap().unwrap();
    let job = &jobs[0];
    assert_eq!(job.shard_id, 0);
    assert_eq!(job.cached_shard_update_key, 1041);
    assert!(job.takes_state_patch);
    assert_eq!(job.shard_context.shard_uid, uid(0));
    let ShardUpdateReason::NewChunk(data) = &job.shard_update_reason else { panic!() };
    let applied: Vec<&Vec<u8>> = data.receipts.iter().map(|r| r.encoded()).collect();
    let expected = [receipt(20), receipt(21), receipt(10)];
    assert_eq!(applied, expected.iter().map(|r| r.encoded()).collect::<Vec<_>>());
    assert_eq!(data.block, 41);
    assert_eq!(data.chunk_header.prev_outgoing_receipts_root, merkle_root(&[h(310), h(311)]));
    let PrevChunkExtra::Executed(extra) = data.chunk_header.prev_chunk_extra else { panic!() };
    assert_eq!(extra.state_root, h(805));
    assert!(matches!(data.storage_data_source, StorageDataSource::Db));
}

#[test]
fn an_old_chunk_is_carried_over() {
    let cares_about_all = |q: Query| match q {
        Query::CaresThisOrNextEpoch { .. } | Query::CaresThisEpoch { .. } => Reply::Flag(Ok(true)),
        Query::IncomingReceiptsExist { .. } => Reply::Flag(Ok(true)),
        other => answer(other),
    };
    let executor = ChunkExecutorActor::new(1, processor());
    let view = learn_all(&cares_about_all, &|view| executor.try_apply_chunks(h(BLOCK), view).err());
    let jobs = executor.try_apply_chunks(h(BLOCK), &view).ok().unwrap().unwrap();
    assert_eq!(jobs.len(), 2);
    assert!(!jobs[1].takes_state_patch);
    let ShardUpdateReason::OldChunk(data) = &jobs[1].shard_update_reason else { panic!() };
    assert_eq!(data.block, 42);
    assert_eq!(data.prev_chunk_extra.state_root, h(805));
}

#[test]
fn a_chunk_that_is_not_to_be_applied_makes_no_work() {
    let not_applied = |q: Query| match q {
        Query::ShouldApplyChunk { cares_this, cares_next, cared_prev } => {
            assert_eq!((cares_this, cares_next, cared_prev), (true, false, true));
            Reply::Flag(Ok(false))
        }
        other => answer(other),
    };
    let executor = ChunkExecutorActor::new(1, processor());
    let view = learn_all(&not_applied, &|view| executor.try_apply_chunks(h(BLOCK), view).err());
    assert_eq!(executor.try_apply_chunks(h(BLOCK), &view).ok().unwrap().unwrap().len(), 0);
}

#[test]
fn work_that_cannot_be_laid_out_halts_the_node() {
    let stop = |answers: &dyn Fn(Query) -> Reply| {
        let executor = ChunkExecutorActor::new(1, processor());
        let view = learn_all(answers, &|view| executor.try_apply_chunks(h(BLOCK), view).err());
        executor.try_apply_chunks(h(BLOCK), &view).err()
    };
    let no_chunk = |q: Query| match q {
        Query::ChunkTransactions(_) => Reply::Transactions(Err(Error::NotFound(4))),
        other => answer(other),
    };
    let expected = Stop::Broken(Assumption::ShardJob(Error::NotFound(4)));
    assert_eq!(stop(&no_chunk), Some(expected));
    let no_chunk_before = |q: Query| match q {
        Query::PrevChunkHeightIncluded { .. } => Reply::Number(Err(Error::Outside(5))),
        other => answer(other),
    };
    let expected = Stop::Broken(Assumption::PreviousChunk(Error::Outside(5)));
    assert_eq!(stop(&no_chunk_before), Some(expected));
    let one_more_shard = |q: Query| match q {
        Query::PrevChunkCount(_) => Reply::Number(Ok(3)),
        other => answer(other),
    };
    assert_eq!(stop(&one_more_shard), Some(Stop::Fail(Error::InvalidShardIndex(2))));
}

#[test]
fn the_shard_context_comes_from_what_the_node_cares_about() {
    let run = |view: &ChainView| get_shard_context(h(BEFORE), EpochId(h(EPOCH)), 1, view);
    let view = learn_all(&answer, &|view| run(view).err());
    let context = run(&view).ok().unwrap();
    assert_eq!(context.shard_uid, uid(1));
    assert!(!context.should_apply_chunk);
}

#[test]
fn the_receipts_root_is_over_one_digest_per_shard() {
    let run = |view: &ChainView| calculate_receipts_root(8, EpochId(h(EPOCH)), view);
    let view = learn_all(&answer, &|view| run(view).err());
    assert_eq!(run(&view), Ok(merkle_root(&[h(320), h(321), h(322)])));
}

#[test]
fn the_first_failure_of_the_work_counts() {
    let apply_result = ApplyResult { new_root: h(1), outgoing_receipts: 2 };
    let done = ShardUpdateResult::OldChunk { shard_uid: uid(0), apply_result };
    let failed = vec![Ok(done), Err(Error::Outside(1)), Err(Error::Outside(2))];
    assert_eq!(collect_results(&failed), Err(Error::Outside(1)));
    assert_eq!(collect_results(&vec![Ok(done), Ok(done)]), Ok(vec![done, done]));
    assert_eq!(collect_results(&vec![]), Ok(vec![]));
}

fn executed(shard_id: u64) -> ShardUpdateResult {
    ShardUpdateResult::NewChunk {
        shard_uid: uid(shard_id),
        gas_limit: 1,
        apply_result: ApplyResult { new_root: h(77), outgoing_receipts: 8 },
    }
}

#[test]
fn an_execution_is_recorded_and_its_receipts_are_sent() {
    let this = block(BLOCK);
    let run = |view: &ChainView| chunk_outcome(&this, executed(0), view).err();
    let view = learn_all(
        &|q| match q {
            Query::OutgoingReceiptProofs {
                block_hash,
                chunk_hash: of_chunk,
                prev_outgoing_receipts_root,
                receipts,
                ..
            } => {
                assert_eq!((block_hash, of_chunk), (h(BLOCK), chunk_hash(BLOCK, 0)));
                assert_eq!(prev_outgoing_receipts_root, merkle_root(&[h(310), h(311)]));
                assert_eq!(receipts, 8);
                answer(q)
            }
            other => answer(other),
        },
        &run,
    );
    let outcome = chunk_outcome(&this, executed(0), &view).ok().unwrap();
    let recorded = &outcome.execution_result;
    assert_eq!(recorded.block_hash, h(BLOCK));
    assert_eq!(recorded.chunk_hash, chunk_hash(BLOCK, 0));
    assert_eq!(recorded.shard_id, 0);
    assert_eq!(recorded.chunk_extra.state_root, h(806));
    assert_eq!(recorded.outgoing_receipts_root, merkle_root(&[h(320), h(321), h(322)]));
    assert_eq!(outcome.receipt_proofs[0].shard_proof.to_shard_id, 1);
}

#[test]
fn nothing_is_made_of_an_execution_without_the_block_before() {
    let this = block(BLOCK);
    let unknown = |q: Query| match q {
        Query::Block(hash) => {
            assert_eq!(hash, h(BEFORE));
            Reply::Block(Err(Error::NotFound(6)))
        }
        other => answer(other),
    };
    let outcome = |view: &ChainView| chunk_outcome(&this, executed(0), view).err();
    let expected = Some(Stop::Fail(Error::NotFound(6)));
    assert_eq!(outcome(&learn_all(&unknown, &outcome)), expected);
    let me = name("me");
    let made = |view: &ChainView| make_state_witness(Some(&me), &this, executed(0), view).err();
    assert_eq!(made(&learn_all(&unknown, &made)), expected);
}

#[test]
fn the_result_of_an_unknown_shard_is_refused() {
    let this = block(BLOCK);
    let run = |view: &ChainView| chunk_outcome(&this, executed(2), view).err();
    let view = learn_all(&answer, &run);
    assert_eq!(run(&view), Some(Stop::Fail(Error::InvalidShardId(2))));
}

#[test]
fn the_witness_of_an_execution_is_found_to_be_right() {
    let this = block(BLOCK);
    let me = name("me");
    let run = |view: &ChainView| {
        make_state_witness(Some(&me), &this, executed(0), view).err()
    };
    let view = learn_all(&answer, &run);
    let request = make_state_witness(Some(&me), &this, executed(0), &view).ok().unwrap();
    assert_eq!(request.main_transition_shard_id, 0);
    assert_eq!(request.contract_updates.contract_accesses, vec![h(1), h(2)]);
    assert_eq!(request.contract_updates.contract_deploys, vec![&vec![9]]);
    let witness = &request.state_witness;
    assert_eq!(witness.chunk_producer.0, "me");
    assert_eq!(witness.epoch_id, EpochId(h(EPOCH)));
    assert_eq!(witness.main_state_transition.block_hash, h(BLOCK));
    assert_eq!(witness.main_state_transition.post_state_root, h(806));
    assert_eq!(witness.main_state_transition.base_state, vec![&vec![1], &vec![2]]);
    assert_eq!(witness.applied_receipts_hash, digest_of(&[20, 21, 10]));
    assert!(witness.implicit_transitions.is_empty());
    let source = |shard_id| witness.source_receipt_proofs.get(chunk_hash(BEFORE, shard_id).0);
    assert_eq!(source(0).unwrap().shard_proof.from_shard_id, 0);
    assert_eq!(source(1).unwrap().receipts.len(), 2);
    // whoever checks the witness applies the same receipts in the same order
    let processor = processor();
    let checking = learn_all(&answer, &|view| {
        processor.validate_state_witness(witness, view, None).err()
    });
    let validation = processor.validate_state_witness(witness, &checking, None).ok().unwrap();
    let Validation::Apply(output) = validation else { panic!() };
    let MainTransition::NewChunk(data) = output.main_transition_params else { panic!() };
    let applied: Vec<&Vec<u8>> = data.receipts.iter().map(|r| r.encoded()).collect();
    let expected = [receipt(20), receipt(21), receipt(10)];
    assert_eq!(applied, expected.iter().map(|r| r.encoded()).collect::<Vec<_>>());
}

#[test]
fn the_witness_of_a_genesis_chunk_brings_nothing() {
    let mut this = block(BLOCK);
    this.chunks[0].prev_block_hash = CryptoHash::default();
    let me = name("me");
    let run = |view: &ChainView| {
        make_state_witness(Some(&me), &this, executed(0), view).err()
    };
    let view = learn_all(&answer, &run);
    let request = make_state_witness(Some(&me), &this, executed(0), &view).ok().unwrap();
    let witness = &request.state_witness;
    assert_eq!(witness.main_state_transition.post_state_root, h(77));
    assert!(witness.main_state_transition.base_state.is_empty());
    assert_eq!(witness.applied_receipts_hash, digest_of(&[]));
    assert!(request.contract_updates.contract_accesses.is_empty());
}

#[test]
fn no_witness_is_made_without_a_stored_transition_or_a_name() {
    let this = block(BLOCK);
    let me = name("me");
    let not_stored = |q: Query| match q {
        Query::StateTransition { .. } => Reply::StoredTransition(Ok(None)),
        other => answer(other),
    };
    let run = |view: &ChainView| {
        make_state_witness(Some(&me), &this, executed(0), view).err()
    };
    let view = learn_all(&not_stored, &run);
    let expected = Error::NoStateTransition { block_hash: h(BLOCK), shard_id: 0 };
    assert_eq!(run(&view), Some(Stop::Fail(expected)));
    let nameless = |view: &ChainView| {
        make_state_witness(None, &this, executed(0), view).err()
    };
    let view = learn_all(&answer, &nameless);
    assert_eq!(nameless(&view), Some(Stop::Broken(Assumption::Signer)));
}

#[test]
fn receipts_from_an_unknown_shard_make_no_witness() {
    let this = block(BLOCK);
    let me = name("me");
    let run = |view: &ChainView| {
        make_state_witness(Some(&me), &this, executed(0), view).err()
    };
    let unknown = |q: Query| match q {
        Query::IncomingReceipts { .. } => Reply::Proofs(Ok(vec![sent(6, 0, &[1])])),
        other => answer(other),
    };
    let view = learn_all(&unknown, &run);
    assert_eq!(run(&view), Some(Stop::Fail(Error::InvalidShardId(6))));
}

#[test]
fn the_executor_gives_out_what_it_knows() {
    let mut executor = ChunkExecutorActor::new(1, CoreStatementsProcessor::new());
    assert!(executor.core_processor().read().get_execution_results(h(BEFORE)).is_err());
    executor.core_processor_mut().record_execution_result(result(0, &[10]));
    assert!(executor.core_processor().read().get_execution_results(h(BEFORE)).is_ok());
    assert_eq!(ORPHAN_WITNESS_POOL_SIZE, 1000);
}
