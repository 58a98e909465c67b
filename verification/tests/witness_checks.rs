use near_primitives::hash::CryptoHash as NearHash;
use near_primitives::receipt::{Receipt as NearReceipt, ReceiptPriority};
use near_primitives::sharding::{
    ReceiptList, ShardChunkHeader as NearHeader, ShardChunkHeaderV2 as NearHeaderV2,
};
use spice::block::{
    AccountId, Block, BlockHeader, ChunkExtra, CongestionInfo, ShardChunkHeader, ShardLayout,
    ShardUId,
};
use spice::by_hash::ByHash;
use spice::core_statements::{
    AppliedWitness, CoreStatementsProcessor, Endorsing, Validation,
};
use spice::error::{Error, WitnessFault};
use spice::executor::{verdict, ChunkExecutorActor, WitnessStep};
use spice::flow::Verdict;
use spice::hash::{ChunkHash, CryptoHash, EpochId};
use spice::messages::ExecutorAllExecutionResultsAvailable;
use spice::receipts::{Receipt, ReceiptProof, ShardProof, SignedTransaction};
use spice::statements::{ChunkEndorsement, ExecutionResult};
use spice::validation::GENESIS_GAS_LIMIT;
use spice::view::{Assumption, ChainView, Query, Reply, Stop};
use spice::witness::{
    ChunkStateTransition, ChunkStateWitness, MainTransition, PreValidationOutput, PrevChunkExtra,
    StorageDataSource,
};
use std::sync::Arc;

// The chain of these tests: genesis (1), a block after it (2), and one more (3). Each has the
// chunks of two shards.
const GENESIS: u128 = 1;
const FIRST: u128 = 2;
const SECOND: u128 = 3;
const EPOCH: u128 = 50;

fn h(n: u128) -> CryptoHash {
    CryptoHash { hi: 0, lo: n }
}

fn from_near(hash: NearHash) -> CryptoHash {
    CryptoHash {
        hi: u128::from_be_bytes(hash.0[..16].try_into().unwrap()),
        lo: u128::from_be_bytes(hash.0[16..].try_into().unwrap()),
    }
}

fn near_receipt(amount: u128) -> NearReceipt {
    NearReceipt::new_balance_refund(
        &"alice.near".parse().unwrap(),
        amount,
        ReceiptPriority::NoPriority,
    )
}

fn receipt(amount: u128) -> Receipt {
    Receipt::decode(borsh::to_vec(&near_receipt(amount)).unwrap()).unwrap()
}

fn digest_of(amounts: &[u128]) -> CryptoHash {
    let list: Vec<NearReceipt> = amounts.iter().map(|n| near_receipt(*n)).collect();
    from_near(near_primitives::hash::hash(&borsh::to_vec(&list).unwrap()))
}

fn sent(from_shard_id: u64, to_shard_id: u64, amounts: &[u128]) -> ReceiptProof {
    ReceiptProof {
        receipts: amounts.iter().map(|n| receipt(*n)).collect(),
        shard_proof: ShardProof { from_shard_id, to_shard_id, proof: vec![] },
    }
}

// The root over receipts for one shard alone, to which an empty path leads.
fn root_of(to_shard_id: u64, amounts: &[u128]) -> CryptoHash {
    let list: Vec<NearReceipt> = amounts.iter().map(|n| near_receipt(*n)).collect();
    let digest = NearHash::hash_borsh(ReceiptList(to_shard_id.into(), &list));
    from_near(near_primitives::merkle::merklize(&[digest]).0)
}

fn transaction(base: CryptoHash) -> SignedTransaction {
    let mut bytes = Vec::new();
    bytes.extend(4u32.to_le_bytes());
    bytes.extend(b"near");
    bytes.push(0);
    bytes.extend([1u8; 32]);
    bytes.extend(9u64.to_le_bytes());
    bytes.extend(3u32.to_le_bytes());
    bytes.extend(b"bob");
    bytes.extend(base.hi.to_be_bytes());
    bytes.extend(base.lo.to_be_bytes());
    bytes.extend(0u32.to_le_bytes());
    bytes.push(0);
    bytes.extend([0u8; 64]);
    SignedTransaction::decode(bytes).unwrap()
}

fn transactions_root(transactions: &[SignedTransaction]) -> CryptoHash {
    let decoded: Vec<near_primitives::transaction::SignedTransaction> =
        transactions.iter().map(|t| borsh::from_slice(t.encoded()).unwrap()).collect();
    from_near(near_primitives::merkle::merklize(&decoded).0)
}

fn transactions() -> Vec<SignedTransaction> {
    vec![transaction(h(GENESIS)), transaction(h(FIRST))]
}

fn chunk_hash(block: u128, shard_id: u64) -> ChunkHash {
    ChunkHash(h(100 * block + shard_id as u128))
}

fn chunk_header(block: u128, shard_id: u64) -> ShardChunkHeader {
    let header = NearHeader::new_dummy(block as u64, shard_id.into(), NearHash::default());
    ShardChunkHeader {
        chunk_hash: chunk_hash(block, shard_id),
        prev_block_hash: h(block - 1),
        shard_id,
        height_created: block as u64,
        height_included: block as u64,
        tx_root: transactions_root(&transactions()),
        encoded: borsh::to_vec(&header).unwrap(),
    }
}

fn block_header(block: u128) -> BlockHeader {
    BlockHeader {
        hash: h(block),
        prev_hash: h(block - 1),
        epoch_id: EpochId(h(EPOCH)),
        height: block as u64,
    }
}

fn congestion() -> CongestionInfo {
    CongestionInfo {
        delayed_receipts_gas: 1,
        buffered_receipts_gas: 2,
        receipt_bytes: 3,
        allowed_shard: 4,
    }
}

fn block(n: u128) -> Block {
    Block {
        header: block_header(n),
        chunks: vec![chunk_header(n, 0), chunk_header(n, 1)],
        congestion_info: vec![(0, congestion())],
    }
}

fn extra(n: u128) -> Arc<ChunkExtra> {
    Arc::new(ChunkExtra { state_root: h(n), encoded: vec![n as u8] })
}

fn result(block: u128, shard_id: u64, root: CryptoHash) -> ExecutionResult {
    ExecutionResult {
        block_hash: h(block),
        chunk_hash: chunk_hash(block, shard_id),
        shard_id,
        chunk_extra: extra(700 + shard_id as u128),
        outgoing_receipts_root: root,
    }
}

// The first block sent 10 from shard 0 to shard 0, and 20 and 21 from shard 1 to shard 0.
fn processor() -> CoreStatementsProcessor {
    let mut processor = CoreStatementsProcessor::new();
    processor.record_execution_result(result(FIRST, 0, root_of(0, &[10])));
    processor.record_execution_result(result(FIRST, 1, root_of(0, &[20, 21])));
    processor
}

fn proofs() -> Vec<ReceiptProof> {
    vec![sent(0, 0, &[10]), sent(1, 0, &[20, 21])]
}

fn answer(q: Query) -> Reply {
    match q {
        Query::Block(hash) => Reply::Block(Ok(block(hash.lo))),
        Query::BlockHeader(hash) => Reply::Header(Ok(block_header(hash.lo))),
        Query::EpochId(_) => Reply::Hash(Ok(h(EPOCH))),
        Query::EpochIdFromPrevBlock(_) => Reply::Hash(Ok(h(EPOCH))),
        Query::EpochInfoVersion(_) => Reply::Version(Ok(80)),
        Query::ProtocolVersion(_) => Reply::Version(Ok(79)),
        Query::ShardLayout(_) => Reply::Layout(Ok(ShardLayout::Numbered { num_shards: 2 })),
        Query::ShardUid { shard_id, .. } => {
            Reply::Uid(Ok(ShardUId { version: 1, shard_id: shard_id as u32 }))
        }
        Query::ReshardingTransition { .. } => Reply::Transition(Ok(None)),
        Query::Shuffle { len, .. } => Reply::Order((0..len).rev().collect()),
        Query::TransactionValid { base_block_hash, .. } => {
            Reply::Flag(Ok(base_block_hash == h(FIRST)))
        }
        Query::PrevShardId { shard_id, .. } => Reply::Number(Ok(shard_id)),
        Query::WitnessBlockContext { .. } => Reply::Number(Ok(4242)),
        Query::GenesisStateRoots => Reply::Roots(Ok(Some(vec![h(60), h(61)]))),
        Query::AllValidators(_) => Reply::Accounts(Ok(vec![name("a"), name("me"), name("b")])),
        other => panic!("{other:?}"),
    }
}

fn name(s: &str) -> AccountId {
    AccountId(s.to_string())
}

// A witness for the chunk of shard 0, with what it borrows.
struct Parts {
    producer: AccountId,
    header: ShardChunkHeader,
    nodes: Vec<Vec<u8>>,
    proofs: Vec<(CryptoHash, ReceiptProof)>,
    transactions: Vec<SignedTransaction>,
    block: u128,
    epoch: u128,
    receipts_hash: CryptoHash,
}

// With the shuffle of these tests, the receipts of the last shard come first.
fn parts() -> Parts {
    let mut sent = proofs();
    let second = sent.pop().unwrap();
    let first = sent.pop().unwrap();
    Parts {
        producer: name("maker"),
        header: chunk_header(SECOND, 0),
        nodes: vec![vec![1], vec![2, 3]],
        proofs: vec![(chunk_hash(FIRST, 0).0, first), (chunk_hash(FIRST, 1).0, second)],
        transactions: transactions(),
        block: SECOND,
        epoch: EPOCH,
        receipts_hash: digest_of(&[20, 21, 10]),
    }
}

fn witness(parts: &Parts) -> ChunkStateWitness<'_> {
    let mut source_receipt_proofs = ByHash::new();
    for (chunk, sent) in &parts.proofs {
        source_receipt_proofs.insert(*chunk, sent);
    }
    ChunkStateWitness {
        chunk_producer: &parts.producer,
        epoch_id: EpochId(h(parts.epoch)),
        chunk_header: &parts.header,
        main_state_transition: ChunkStateTransition {
            block_hash: h(parts.block),
            base_state: parts.nodes.iter().collect(),
            post_state_root: h(99),
        },
        source_receipt_proofs,
        applied_receipts_hash: parts.receipts_hash,
        transactions: &parts.transactions,
        implicit_transitions: vec![],
    }
}

// Runs the check with all the answers that it asks for, some of them special.
fn view_for(
    processor: &CoreStatementsProcessor,
    witness: &ChunkStateWitness<'_>,
    answers: &dyn Fn(Query) -> Reply,
) -> ChainView {
    let mut view = ChainView::new();
    loop {
        let outcome = processor.validate_state_witness_and_send_endorsements(
            witness,
            &view,
            Some(Ok(AppliedWitness { chunk_extra: extra(1), outgoing_receipts_root: h(2) })),
            &name("me"),
        );
        let question = match outcome {
            Err(Stop::Need(q)) => q,
            _ => break,
        };
        assert!(view.learn(question, answers(question)));
    }
    view
}

fn refusal(parts: &Parts, processor: &CoreStatementsProcessor) -> Option<Stop> {
    refusal_with(parts, processor, &answer)
}

fn refusal_with(
    parts: &Parts,
    processor: &CoreStatementsProcessor,
    answers: &dyn Fn(Query) -> Reply,
) -> Option<Stop> {
    let witness = witness(parts);
    let view = view_for(processor, &witness, answers);
    processor.validate_state_witness(&witness, &view, None).err()
}

fn fault(fault: WitnessFault) -> Option<Stop> {
    Some(Stop::Fail(Error::InvalidChunkStateWitness(fault)))
}

fn output<'a>(validation: Validation<'a>) -> PreValidationOutput<'a> {
    match validation {
        Validation::Apply(output) => output,
        Validation::Valid(_) => panic!(),
    }
}

#[test]
fn a_witness_is_laid_out_for_execution() {
    let parts = parts();
    let witness = witness(&parts);
    let processor = processor();
    let view = view_for(&processor, &witness, &answer);
    let output = output(processor.validate_state_witness(&witness, &view, None).ok().unwrap());
    assert_eq!(output.implicit_transition_params, None);
    let MainTransition::NewChunk(data) = output.main_transition_params else { panic!() };
    let applied: Vec<&Vec<u8>> = data.receipts.iter().map(|r| r.encoded()).collect();
    let expected = [receipt(20), receipt(21), receipt(10)];
    assert_eq!(applied, expected.iter().map(|r| r.encoded()).collect::<Vec<_>>());
    assert_eq!(data.transaction_validity_check_results, vec![false, true]);
    assert_eq!(data.transactions.len(), 2);
    assert_eq!(data.block, 4242);
    assert_eq!(data.chunk_header.chunk_header.chunk_hash, chunk_hash(SECOND, 0));
    assert_eq!(data.chunk_header.prev_outgoing_receipts_root, root_of(0, &[10]));
    let PrevChunkExtra::Executed(extra) = data.chunk_header.prev_chunk_extra else { panic!() };
    assert_eq!(extra.state_root, h(700));
    let StorageDataSource::Recorded(nodes) = data.storage_data_source else { panic!() };
    assert_eq!(nodes.len(), 2);
}

#[test]
fn a_resharding_follows_the_execution() {
    let parts = parts();
    let witness = witness(&parts);
    let processor = processor();
    let view = view_for(&processor, &witness, &|q| match q {
        Query::ReshardingTransition { block_hash, shard_uid } => {
            assert_eq!(block_hash, h(SECOND));
            assert_eq!(shard_uid, ShardUId { version: 1, shard_id: 0 });
            Reply::Transition(Ok(Some(17)))
        }
        other => answer(other),
    });
    let output = output(processor.validate_state_witness(&witness, &view, None).ok().unwrap());
    assert_eq!(output.implicit_transition_params, Some(17));
}

fn after_genesis() -> Parts {
    let mut parts = parts();
    parts.header = chunk_header(FIRST, 0);
    parts.block = FIRST;
    parts.proofs = vec![];
    parts.receipts_hash = digest_of(&[]);
    parts
}

#[test]
fn after_genesis_the_chunk_extra_is_made_from_the_genesis_state() {
    let parts = after_genesis();
    let witness = witness(&parts);
    let processor = CoreStatementsProcessor::new();
    let view = view_for(&processor, &witness, &answer);
    let output = output(processor.validate_state_witness(&witness, &view, None).ok().unwrap());
    let MainTransition::NewChunk(data) = output.main_transition_params else { panic!() };
    assert!(data.receipts.is_empty());
    assert_eq!(data.chunk_header.prev_outgoing_receipts_root, CryptoHash::default());
    let PrevChunkExtra::Genesis(extra) = data.chunk_header.prev_chunk_extra else { panic!() };
    assert_eq!(extra.state_root, h(60));
    assert_eq!(extra.gas_limit, 1_000_000_000_000_000);
    assert_eq!(extra.gas_limit, GENESIS_GAS_LIMIT);
    assert_eq!(extra.protocol_version, 79);
    assert_eq!(extra.congestion_info, Some(congestion()));
    assert!(matches!(data.storage_data_source, StorageDataSource::Db));
}

#[test]
fn without_genesis_state_roots_nothing_builds_on_genesis() {
    let processor = CoreStatementsProcessor::new();
    let with = |roots: Option<Vec<CryptoHash>>| {
        let reply = std::cell::RefCell::new(Some(roots));
        refusal_with(&after_genesis(), &processor, &|q| match q {
            Query::GenesisStateRoots => Reply::Roots(Ok(reply.borrow_mut().take().unwrap())),
            other => answer(other),
        })
    };
    assert_eq!(with(None), Some(Stop::Fail(Error::NoGenesisStateRoots)));
    let missing = Error::NoGenesisStateRoot { shard_id: 0, shard_index: 0 };
    assert_eq!(with(Some(vec![])), Some(Stop::Fail(missing)));
}

#[test]
fn a_shard_that_the_genesis_layout_lacks_is_refused() {
    let refused = refusal_with(&after_genesis(), &CoreStatementsProcessor::new(), &|q| match q {
        Query::ShardLayout(_) => Reply::Layout(Ok(ShardLayout::Listed { shard_ids: vec![5] })),
        other => answer(other),
    });
    assert_eq!(refused, Some(Stop::Fail(Error::InvalidShardId(0))));
}

#[test]
fn a_genesis_witness_brings_no_receipts() {
    // a block without a block before it, whose header the store still answers for
    let mut parts = after_genesis();
    parts.header = chunk_header(GENESIS, 0);
    parts.block = GENESIS;
    let answers = |q: Query| match q {
        Query::Block(_) => Reply::Block(Ok(block(GENESIS))),
        other => answer(other),
    };
    let answers_headers = |q: Query| match q {
        Query::BlockHeader(_) => Reply::Header(Ok(block_header(GENESIS))),
        other => answers(other),
    };
    let processor = CoreStatementsProcessor::new();
    let witness_of_none = witness(&parts);
    let view = view_for(&processor, &witness_of_none, &answers_headers);
    let validation = processor.validate_state_witness(&witness_of_none, &view, None);
    let MainTransition::Genesis { chunk_extra, block_hash, shard_id } =
        output(validation.ok().unwrap()).main_transition_params
    else {
        panic!()
    };
    assert_eq!((chunk_extra.state_root, block_hash, shard_id), (h(60), h(GENESIS), 0));
    parts.proofs = vec![(h(5), sent(0, 0, &[1]))];
    let refused = refusal_with(&parts, &processor, &answers_headers);
    assert_eq!(refused, fault(WitnessFault::GenesisProofsNotEmpty { count: 1 }));
}

#[test]
fn there_has_to_be_one_proof_per_execution() {
    let mut parts = parts();
    parts.proofs.pop();
    let expected = fault(WitnessFault::ProofCount { executed: 2, count: 1 });
    assert_eq!(refusal(&parts, &processor()), expected);
}

#[test]
fn each_executed_chunk_needs_its_proof() {
    let mut parts = parts();
    parts.proofs[1].0 = h(12345);
    let expected = fault(WitnessFault::MissingProof { chunk_hash: chunk_hash(FIRST, 1) });
    assert_eq!(refusal(&parts, &processor()), expected);
}

#[test]
fn a_proof_from_another_shard_is_refused() {
    let mut parts = parts();
    parts.proofs[1].1.shard_proof.from_shard_id = 0;
    let chunk_hash = chunk_hash(FIRST, 1);
    let expected = fault(WitnessFault::WrongFromShard { chunk_hash, found: 0, expected: 1 });
    assert_eq!(refusal(&parts, &processor()), expected);
}

#[test]
fn a_proof_for_another_shard_is_refused() {
    let mut parts = parts();
    parts.proofs[1].1.shard_proof.to_shard_id = 1;
    let chunk_hash = chunk_hash(FIRST, 1);
    let expected = fault(WitnessFault::WrongToShard { chunk_hash, found: 1, expected: 0 });
    assert_eq!(refusal(&parts, &processor()), expected);
}

#[test]
fn receipts_that_the_execution_did_not_send_are_refused() {
    let mut parts = parts();
    parts.proofs[1].1.receipts.push(receipt(22));
    let expected = fault(WitnessFault::InvalidMerklePath { chunk_hash: chunk_hash(FIRST, 1) });
    assert_eq!(refusal(&parts, &processor()), expected);
}

#[test]
fn receipts_with_another_digest_are_refused() {
    let mut parts = parts();
    parts.receipts_hash = digest_of(&[10, 20, 21]);
    let expected = fault(WitnessFault::ReceiptsHash {
        computed: digest_of(&[20, 21, 10]),
        claimed: digest_of(&[10, 20, 21]),
    });
    assert_eq!(refusal(&parts, &processor()), expected);
}

#[test]
fn transactions_with_another_root_are_refused() {
    let mut parts = parts();
    parts.transactions.pop();
    let expected = fault(WitnessFault::TransactionRoot {
        computed: transactions_root(&[transaction(h(GENESIS))]),
        claimed: transactions_root(&transactions()),
    });
    assert_eq!(refusal(&parts, &processor()), expected);
}

#[test]
fn a_check_of_a_transaction_that_fails_counts_as_a_no() {
    let parts = parts();
    let witness = witness(&parts);
    let processor = processor();
    let view = view_for(&processor, &witness, &|q| match q {
        Query::TransactionValid { .. } => Reply::Flag(Err(Error::Outside(1))),
        other => answer(other),
    });
    let output = output(processor.validate_state_witness(&witness, &view, None).ok().unwrap());
    let MainTransition::NewChunk(data) = output.main_transition_params else { panic!() };
    assert_eq!(data.transaction_validity_check_results, vec![false, false]);
}

#[test]
fn a_header_of_an_old_version_is_refused() {
    let old = NearHeader::V2(NearHeaderV2::new_dummy(3, 0.into(), NearHash::default()));
    let encoded = borsh::to_vec(&old).unwrap();
    let mut parts = parts();
    parts.header.encoded = encoded.clone();
    let refused = refusal_with(&parts, &processor(), &|q| match q {
        Query::Block(hash) if hash == h(SECOND) => {
            let mut held = block(SECOND);
            held.chunks[0].encoded = encoded.clone();
            Reply::Block(Ok(held))
        }
        other => answer(other),
    });
    let chunk_hash = chunk_hash(SECOND, 0);
    let expected = Error::HeaderVersion { chunk_hash, protocol_version: 80 };
    assert_eq!(refused, Some(Stop::Fail(expected)));
}

#[test]
fn what_is_taken_for_granted_of_a_witness_is_reported() {
    let mut of_other_epoch = parts();
    of_other_epoch.epoch = 51;
    let broken = |assumption| Some(Stop::Broken(assumption));
    assert_eq!(refusal(&of_other_epoch, &processor()), broken(Assumption::WitnessEpoch));
    let mut of_other_block = parts();
    of_other_block.header = chunk_header(SECOND, 7);
    assert_eq!(refusal(&of_other_block, &processor()), broken(Assumption::WitnessChunkInBlock));
    for change in 0..6 {
        // the encoding is that of a header of the block, but not what is read from it
        let mut of_other_header = parts();
        let header = &mut of_other_header.header;
        match change {
            0 => header.chunk_hash = chunk_hash(SECOND, 1),
            1 => header.prev_block_hash = h(GENESIS),
            2 => header.shard_id = 1,
            3 => header.height_created = 9,
            4 => header.height_included = 9,
            _ => header.tx_root = h(9),
        }
        let expected = broken(Assumption::WitnessChunkInBlock);
        assert_eq!(refusal(&of_other_header, &processor()), expected);
    }
    let of_new_shard = refusal_with(&parts(), &processor(), &|q| match q {
        Query::PrevShardId { .. } => Reply::Number(Ok(9)),
        other => answer(other),
    });
    assert_eq!(of_new_shard, broken(Assumption::PreviousShardResult));
    let mut surplus = processor();
    let mut more = result(FIRST, 1, h(1));
    more.chunk_hash = ChunkHash(h(5));
    surplus.record_execution_result(more);
    assert_eq!(refusal(&parts(), &surplus), broken(Assumption::NoSurplusResults));
}

#[test]
fn failures_outside_are_handed_on() {
    let refused = refusal_with(&parts(), &processor(), &|q| match q {
        Query::ShardUid { .. } => Reply::Uid(Err(Error::Outside(8))),
        other => answer(other),
    });
    assert_eq!(refused, Some(Stop::Fail(Error::Outside(8))));
}

#[test]
fn without_the_results_of_the_block_before_a_witness_cannot_be_checked() {
    let expected = Some(Stop::Fail(Error::MissingPreviousExecutionResults(h(FIRST))));
    let none = CoreStatementsProcessor::new();
    assert_eq!(refusal(&parts(), &none), expected);
    let mut some = CoreStatementsProcessor::new();
    some.record_execution_result(result(FIRST, 0, h(1)));
    assert_eq!(refusal(&parts(), &some), expected);
}

#[test]
fn a_valid_witness_is_endorsed_to_all_other_validators() {
    let parts = parts();
    let witness = witness(&parts);
    let processor = processor();
    let view = view_for(&processor, &witness, &answer);
    let applied = || AppliedWitness { chunk_extra: extra(5), outgoing_receipts_root: h(6) };
    let outcome = processor.validate_state_witness_and_send_endorsements(
        &witness,
        &view,
        Some(Ok(applied())),
        &name("me"),
    );
    let Endorsing::Send(request) = outcome.ok().unwrap() else { panic!() };
    let recipients: Vec<&str> = request.recipients.iter().map(|a| a.0.as_str()).collect();
    assert_eq!(recipients, vec!["a", "b"]);
    assert_eq!(request.epoch_id, EpochId(h(EPOCH)));
    assert_eq!(request.execution_result.block_hash, h(SECOND));
    assert_eq!(request.execution_result.chunk_hash, chunk_hash(SECOND, 0));
    assert_eq!(request.execution_result.shard_id, 0);
    assert_eq!(request.execution_result.chunk_extra.state_root, h(5));
    assert_eq!(request.execution_result.outgoing_receipts_root, h(6));
    let validation = processor.validate_state_witness(&witness, &view, Some(Ok(applied())));
    let Validation::Valid(validated) = validation.ok().unwrap() else { panic!() };
    assert_eq!(validated.chunk_header.chunk_hash, chunk_hash(SECOND, 0));
    let failed = processor.validate_state_witness(&witness, &view, Some(Err(Error::Outside(3))));
    assert_eq!(failed.err(), Some(Stop::Fail(Error::Outside(3))));
}

#[test]
fn an_unknown_epoch_of_the_chunk_halts_the_endorsement() {
    let parts = parts();
    let witness = witness(&parts);
    let processor = processor();
    let view = view_for(&processor, &witness, &|q| match q {
        Query::EpochIdFromPrevBlock(hash) => {
            assert_eq!(hash, h(FIRST));
            Reply::Hash(Err(Error::NotFound(2)))
        }
        other => answer(other),
    });
    let outcome = processor.validate_state_witness_and_send_endorsements(
        &witness,
        &view,
        Some(Ok(AppliedWitness { chunk_extra: extra(5), outgoing_receipts_root: h(6) })),
        &name("me"),
    );
    let expected = Stop::Broken(Assumption::EpochOfChunk(Error::NotFound(2)));
    assert_eq!(outcome.err(), Some(expected));
}

#[test]
fn an_early_witness_is_kept_and_others_are_refused() {
    let parts = parts();
    let witness = witness(&parts);
    let step = |processor: CoreStatementsProcessor, answers: &dyn Fn(Query) -> Reply| {
        let view = view_for(&processor, &witness, answers);
        let executor = ChunkExecutorActor::new(1, processor);
        match executor.process_chunk_state_witness(&witness, 33, &name("me"), &view, None) {
            Ok(WitnessStep::Keep(orphan)) => {
                assert_eq!(orphan.witness.epoch_id, witness.epoch_id);
                Ok(Some(orphan.witness_size))
            }
            Ok(_) => Ok(None),
            Err(stop) => Err(stop),
        }
    };
    let unknown = |q: Query| match q {
        Query::Block(_) => Reply::Block(Err(Error::NotFound(1))),
        other => answer(other),
    };
    assert_eq!(step(processor(), &unknown), Ok(Some(33)));
    let mut some = CoreStatementsProcessor::new();
    some.record_execution_result(result(FIRST, 0, h(1)));
    assert_eq!(step(some, &answer), Ok(Some(33)));
    assert_eq!(step(CoreStatementsProcessor::new(), &answer), Ok(Some(33)));
    let no_previous = |q: Query| match q {
        Query::BlockHeader(_) => Reply::Header(Err(Error::NotFound(2))),
        other => answer(other),
    };
    assert_eq!(step(processor(), &no_previous), Ok(Some(33)));
    assert_eq!(step(processor(), &answer), Ok(None));
    let failing = |q: Query| match q {
        Query::EpochId(_) => Reply::Hash(Err(Error::Outside(7))),
        other => answer(other),
    };
    assert_eq!(step(processor(), &failing), Err(Stop::Fail(Error::Outside(7))));
}

#[test]
fn a_kept_witness_is_kept_on_while_results_are_missing() {
    let parts = parts();
    let witness = witness(&parts);
    let step = |processor: CoreStatementsProcessor| {
        let mut view = view_for(&processor, &witness, &answer);
        view.learn(Query::Block(h(FIRST)), answer(Query::Block(h(FIRST))));
        let executor = ChunkExecutorActor::new(1, processor);
        let applied = AppliedWitness { chunk_extra: extra(5), outgoing_receipts_root: h(6) };
        let outcome = executor.process_ready_orphan_state_witness(
            &witness,
            &block(SECOND),
            &name("me"),
            &view,
            Some(Ok(applied)),
        );
        let verdict = verdict(&outcome);
        match outcome {
            Ok(WitnessStep::Keep(orphan)) => {
                assert_eq!(verdict, Some(Verdict::Early));
                Ok(format!("kept as {}", orphan.witness_size))
            }
            Ok(WitnessStep::Endorse(_)) => {
                assert_eq!(verdict, Some(Verdict::Valid));
                Ok("endorsed".to_string())
            }
            Ok(WitnessStep::Apply(_)) => Ok("applied".to_string()),
            Err(stop) => Err(stop),
        }
    };
    let mut some = CoreStatementsProcessor::new();
    some.record_execution_result(result(FIRST, 0, h(1)));
    assert_eq!(step(some), Ok("kept as 0".to_string()));
    let unknown = Stop::Fail(Error::NoExecutionResults(h(FIRST)));
    assert_eq!(step(CoreStatementsProcessor::new()), Err(unknown));
    assert_eq!(step(processor()), Ok("endorsed".to_string()));
}

#[test]
fn a_check_that_has_to_go_on_brings_no_verdict() {
    let parts = parts();
    let witness = witness(&parts);
    let processor = processor();
    let view = view_for(&processor, &witness, &answer);
    let nothing = ChainView::new();
    let executor = ChunkExecutorActor::new(1, processor);
    let check = |view, applied| {
        verdict(&executor.process_chunk_state_witness(&witness, 33, &name("me"), view, applied))
    };
    assert_eq!(check(&nothing, None), None);
    assert_eq!(check(&view, None), None);
    let applied = AppliedWitness { chunk_extra: extra(5), outgoing_receipts_root: h(6) };
    assert_eq!(check(&view, Some(Ok(applied))), Some(Verdict::Valid));
    let failed = Error::Outside(4);
    assert_eq!(check(&view, Some(Err(failed))), Some(Verdict::Refused(failed)));
    assert_eq!(verdict(&Err(Stop::Broken(Assumption::WitnessEpoch))), None);
}

#[test]
fn the_maker_of_a_witness_gets_no_acknowledgement_from_itself() {
    let parts = parts();
    let witness = witness(&parts);
    let ack = ChunkExecutorActor::send_state_witness_ack(&witness, &name("me")).unwrap();
    assert_eq!(ack.chunk_producer.0, "maker");
    assert_eq!(ack.chunk_hash, chunk_hash(SECOND, 0));
    assert!(ChunkExecutorActor::send_state_witness_ack(&witness, &name("maker")).is_none());
}

#[test]
fn an_orphan_is_handed_on_with_its_size() {
    let parts = parts();
    let witness = witness(&parts);
    let executor = ChunkExecutorActor::new(1, CoreStatementsProcessor::new());
    let orphan = executor.handle_orphan_state_witness(&witness, 12).ok().unwrap();
    assert_eq!(orphan.witness_size, 12);
    assert_eq!(orphan.witness.chunk_header.chunk_hash, chunk_hash(SECOND, 0));
}

#[test]
fn an_endorsement_brings_its_result() {
    let mut processor = CoreStatementsProcessor::new();
    let endorsement = || ChunkEndorsement::V3(result(FIRST, 0, h(8)));
    let message = ExecutorAllExecutionResultsAvailable { block_hash: h(FIRST) };
    let failed = processor.process_chunk_endorsement(endorsement(), Err(Error::Outside(1)));
    assert_eq!(failed, Err(Error::Outside(1)));
    let invalid = processor.process_chunk_endorsement(endorsement(), Ok(false));
    assert_eq!(invalid, Err(Error::InvalidEndorsement));
    for old in [ChunkEndorsement::V1, ChunkEndorsement::V2] {
        let refused = processor.process_chunk_endorsement(old, Ok(true));
        assert_eq!(refused, Err(Error::NonSpiceEndorsement));
    }
    assert!(processor.read().get_execution_results(h(FIRST)).is_err());
    assert_eq!(processor.process_chunk_endorsement(endorsement(), Ok(true)), Ok(message));
    let results = processor.read().get_execution_results(h(FIRST)).ok().unwrap();
    let found = results.get(chunk_hash(FIRST, 0).0).unwrap();
    assert_eq!(found.outgoing_receipts_root, h(8));
}

#[test]
fn results_are_known_by_block_and_chunk() {
    let mut processor = CoreStatementsProcessor::new();
    processor.write().record_execution_result(result(FIRST, 0, h(8)));
    processor.write().record_execution_result(result(FIRST, 1, h(9)));
    processor.write().record_execution_result(result(SECOND, 0, h(10)));
    processor.write().record_execution_result(result(FIRST, 0, h(11)));
    let tracker = processor.read();
    let results = tracker.get_execution_results(h(FIRST)).ok().unwrap();
    assert_eq!(results.len(), 2);
    let found = |shard_id| results.get(chunk_hash(FIRST, shard_id).0).unwrap();
    let root = |shard_id| found(shard_id).outgoing_receipts_root;
    assert_eq!((root(0), root(1)), (h(11), h(9)));
    let other = tracker.get_execution_results(h(SECOND)).ok().unwrap();
    assert_eq!(other.len(), 1);
    let missing = tracker.get_execution_results(h(GENESIS)).err();
    assert_eq!(missing, Some(Error::NoExecutionResults(h(GENESIS))));
}

#[test]
fn genesis_needs_no_results() {
    let mut view = ChainView::new();
    assert!(view.learn(Query::Block(h(GENESIS)), answer(Query::Block(h(GENESIS)))));
    assert!(view.learn(Query::Block(h(FIRST)), answer(Query::Block(h(FIRST)))));
    let none = CoreStatementsProcessor::new();
    assert_eq!(none.do_all_execution_results_exist(h(GENESIS), &view), Ok(true));
    let unknown = Err(Stop::Fail(Error::NoExecutionResults(h(FIRST))));
    assert_eq!(none.do_all_execution_results_exist(h(FIRST), &view), unknown);
    assert_eq!(processor().do_all_execution_results_exist(h(FIRST), &view), Ok(true));
    let need = Err(Stop::Need(Query::Block(h(SECOND))));
    assert_eq!(none.do_all_execution_results_exist(h(SECOND), &view), need);
}
