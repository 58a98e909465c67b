//! The checks that a state witness has to pass before it is executed.
use vstd::prelude::*;
use crate::block::{congestion_in, Block, BlockHeader, CongestionInfo, ShardLayout};
use crate::by_hash::ByHash;
use crate::error::{Error, WitnessFault};
use crate::hash::{zero_hash, ChunkHash, CryptoHash, EpochId};
use crate::order::{applied_order, apply_order};
use crate::receipts::{
    collect_receipts, hash_receipts, merklize_transactions, receipts_digest, receipts_of,
    root_of_transactions, Receipt, ReceiptProof, SignedTransaction,
};
use crate::statements::ExecutionResult;
use crate::view::{or_fail, seen, Assumption, ChainView, Query, Stop};
use crate::witness::{
    ChunkStateWitness, GenesisChunkExtra, MainTransition, MainTransitionView, NewChunkData,
    NewChunkDataView, PreValidationOutput, PreValidationOutputView, PrevChunkExtra,
    SpiceChunkHeader, StorageDataSource,
};

verus! {

/// The results of executing a block, in the order in which they are walked;
/// after genesis there are none.
pub open spec fn results_of(results: Option<&ByHash<ExecutionResult>>) -> Seq<
    (CryptoHash, ExecutionResult),
> {
    match results {
        Some(table) => table.entries(),
        None => Seq::empty(),
    }
}

/// What [`validate_receipt_proof`] returns.
pub open spec fn receipt_proof_check(
    receipt_proof: ReceiptProof,
    prev_execution_result: ExecutionResult,
    target_shard_id: u64,
) -> Result<(), Error> {
    let chunk_hash = prev_execution_result.chunk_hash;
    if receipt_proof.shard_proof.from_shard_id != prev_execution_result.shard_id {
        Err(
            Error::InvalidChunkStateWitness(
                WitnessFault::WrongFromShard {
                    chunk_hash,
                    found: receipt_proof.shard_proof.from_shard_id,
                    expected: prev_execution_result.shard_id,
                },
            ),
        )
    } else if receipt_proof.shard_proof.to_shard_id != target_shard_id {
        Err(
            Error::InvalidChunkStateWitness(
                WitnessFault::WrongToShard {
                    chunk_hash,
                    found: receipt_proof.shard_proof.to_shard_id,
                    expected: target_shard_id,
                },
            ),
        )
    } else if !receipt_proof.leads_to(prev_execution_result.outgoing_receipts_root) {
        Err(Error::InvalidChunkStateWitness(WitnessFault::InvalidMerklePath { chunk_hash }))
    } else {
        Ok(())
    }
}

/// A receipt proof names the shard of an execution and the shard that is executed.
pub open spec fn names_shards(
    receipt_proof: ReceiptProof,
    prev_execution_result: ExecutionResult,
    target_shard_id: u64,
) -> bool {
    receipt_proof.shard_proof.from_shard_id == prev_execution_result.shard_id
        && receipt_proof.shard_proof.to_shard_id == target_shard_id
}

/// Whether a receipt proof brings what the execution of a chunk sent to a shard.
/// The receipts of one that names the right shards are to be counted in 32 bits.
pub fn validate_receipt_proof(
    receipt_proof: &ReceiptProof,
    prev_execution_result: &ExecutionResult,
    target_shard_id: u64,
) -> (r: Result<(), Error>)
    requires
        names_shards(*receipt_proof, *prev_execution_result, target_shard_id)
            ==> receipt_proof.receipts@.len() <= u32::MAX,
    ensures
        r == receipt_proof_check(*receipt_proof, *prev_execution_result, target_shard_id),
{
    let chunk_hash = prev_execution_result.chunk_hash;
    if receipt_proof.shard_proof.from_shard_id != prev_execution_result.shard_id {
        return Err(
            Error::InvalidChunkStateWitness(
                WitnessFault::WrongFromShard {
                    chunk_hash,
                    found: receipt_proof.shard_proof.from_shard_id,
                    expected: prev_execution_result.shard_id,
                },
            ),
        );
    }
    if receipt_proof.shard_proof.to_shard_id != target_shard_id {
        return Err(
            Error::InvalidChunkStateWitness(
                WitnessFault::WrongToShard {
                    chunk_hash,
                    found: receipt_proof.shard_proof.to_shard_id,
                    expected: target_shard_id,
                },
            ),
        );
    }
    if !receipt_proof.verify_against_receipt_root(prev_execution_result.outgoing_receipts_root) {
        return Err(Error::InvalidChunkStateWitness(WitnessFault::InvalidMerklePath { chunk_hash }));
    }
    Ok(())
}

/// What comes of checking the proof of an executed chunk. One that names the
/// right shards is taken to have no more receipts than can be counted in 32 bits.
pub open spec fn source_proof_check(
    receipt_proof: ReceiptProof,
    prev_execution_result: ExecutionResult,
    target_shard_id: u64,
) -> Result<(), Stop> {
    if names_shards(receipt_proof, prev_execution_result, target_shard_id)
        && receipt_proof.receipts@.len() > u32::MAX {
        Err(Stop::Broken(Assumption::ReceiptCount))
    } else {
        or_fail(receipt_proof_check(receipt_proof, prev_execution_result, target_shard_id))
    }
}

/// Checks the proof of an executed chunk.
fn check_source_proof(
    receipt_proof: &ReceiptProof,
    prev_execution_result: &ExecutionResult,
    target_shard_id: u64,
) -> (r: Result<(), Stop>)
    ensures
        r == source_proof_check(*receipt_proof, *prev_execution_result, target_shard_id),
{
    if receipt_proof.receipts.len() > u32::MAX as usize
        && receipt_proof.shard_proof.from_shard_id == prev_execution_result.shard_id
        && receipt_proof.shard_proof.to_shard_id == target_shard_id {
        return Err(Stop::Broken(Assumption::ReceiptCount));
    }
    or_fail(validate_receipt_proof(receipt_proof, prev_execution_result, target_shard_id))
}

/// The proof of each executed chunk, in the order in which the results are
/// walked, or why the first does not do that does not.
pub open spec fn gathered(
    results: Seq<(CryptoHash, ExecutionResult)>,
    source_receipt_proofs: Map<CryptoHash, &ReceiptProof>,
    shard_id: u64,
) -> Result<Seq<ReceiptProof>, Stop>
    decreases results.len(),
{
    if results.len() == 0 {
        Ok(Seq::empty())
    } else {
        match gathered(results.drop_last(), source_receipt_proofs, shard_id) {
            Err(stop) => Err(stop),
            Ok(proofs) => {
                let (chunk_hash, result) = results.last();
                if !source_receipt_proofs.contains_key(chunk_hash) {
                    Err(
                        Stop::Fail(
                            Error::InvalidChunkStateWitness(
                                WitnessFault::MissingProof { chunk_hash: ChunkHash(chunk_hash) },
                            ),
                        ),
                    )
                } else {
                    match source_proof_check(
                        *source_receipt_proofs[chunk_hash],
                        result,
                        shard_id,
                    ) {
                        Err(stop) => Err(stop),
                        Ok(_) => Ok(proofs.push(*source_receipt_proofs[chunk_hash])),
                    }
                }
            },
        }
    }
}

/// Where all proofs do, there is one for each result, and it passed its check.
pub proof fn lemma_gathered(
    results: Seq<(CryptoHash, ExecutionResult)>,
    source_receipt_proofs: Map<CryptoHash, &ReceiptProof>,
    shard_id: u64,
)
    requires
        gathered(results, source_receipt_proofs, shard_id) is Ok,
    ensures
        ({
            let proofs = gathered(results, source_receipt_proofs, shard_id)->Ok_0;
            &&& proofs.len() == results.len()
            &&& forall|i: int|
                0 <= i < results.len() ==> source_receipt_proofs.contains_key(
                    (#[trigger] results[i]).0,
                ) && proofs[i] == *source_receipt_proofs[results[i].0] && source_proof_check(
                    proofs[i],
                    results[i].1,
                    shard_id,
                ) is Ok
        }),
    decreases results.len(),
{
    if results.len() > 0 {
        let init = results.drop_last();
        lemma_gathered(init, source_receipt_proofs, shard_id);
        let proofs = gathered(results, source_receipt_proofs, shard_id)->Ok_0;
        let before = gathered(init, source_receipt_proofs, shard_id)->Ok_0;
        assert forall|i: int| 0 <= i < results.len() implies source_receipt_proofs.contains_key(
            (#[trigger] results[i]).0,
        ) && proofs[i] == *source_receipt_proofs[results[i].0] && source_proof_check(
            proofs[i],
            results[i].1,
            shard_id,
        ) is Ok by {
            if i < init.len() {
                assert(init[i] == results[i]);
                assert(proofs[i] == before[i]);
            }
        }
    }
}

/// Where there is a proof for each result that passes its check, all proofs do.
pub proof fn lemma_all_gathered(
    results: Seq<(CryptoHash, ExecutionResult)>,
    source_receipt_proofs: Map<CryptoHash, &ReceiptProof>,
    shard_id: u64,
)
    requires
        forall|i: int|
            0 <= i < results.len() ==> source_receipt_proofs.contains_key((#[trigger] results[i]).0)
                && source_proof_check(
                *source_receipt_proofs[results[i].0],
                results[i].1,
                shard_id,
            ) is Ok,
    ensures
        gathered(results, source_receipt_proofs, shard_id) is Ok,
    decreases results.len(),
{
    if results.len() > 0 {
        let init = results.drop_last();
        assert forall|i: int| 0 <= i < init.len() implies source_receipt_proofs.contains_key(
            (#[trigger] init[i]).0,
        ) && source_proof_check(
            *source_receipt_proofs[init[i].0],
            init[i].1,
            shard_id,
        ) is Ok by {
            assert(init[i] == results[i]);
        }
        lemma_all_gathered(init, source_receipt_proofs, shard_id);
        assert(results[results.len() - 1] == results.last());
    }
}

/// Gathering asks nothing of the chain.
pub proof fn lemma_gathered_needs_nothing(
    results: Seq<(CryptoHash, ExecutionResult)>,
    source_receipt_proofs: Map<CryptoHash, &ReceiptProof>,
    shard_id: u64,
)
    ensures
        !(gathered(results, source_receipt_proofs, shard_id) matches Err(Stop::Need(_))),
    decreases results.len(),
{
    if results.len() > 0 {
        lemma_gathered_needs_nothing(results.drop_last(), source_receipt_proofs, shard_id);
    }
}

proof fn lemma_gathered_prefix(
    results: Seq<(CryptoHash, ExecutionResult)>,
    proofs: Map<CryptoHash, &ReceiptProof>,
    shard_id: u64,
    n: int,
)
    requires
        0 <= n <= results.len(),
        gathered(results.take(n), proofs, shard_id) is Err,
    ensures
        gathered(results, proofs, shard_id) == gathered(results.take(n), proofs, shard_id),
    decreases results.len(),
{
    if n < results.len() {
        assert(results.drop_last().take(n) =~= results.take(n));
        lemma_gathered_prefix(results.drop_last(), proofs, shard_id, n);
    } else {
        assert(results.take(n) =~= results);
    }
}

/// Gathers the proof of each executed chunk.
fn gather<'a>(
    source_receipt_proofs: &ByHash<&'a ReceiptProof>,
    prev_execution_results: Option<&ByHash<ExecutionResult>>,
    shard_id: u64,
) -> (r: Result<Vec<&'a ReceiptProof>, Stop>)
    ensures
        match r {
            Ok(proofs) => gathered(
                results_of(prev_execution_results),
                source_receipt_proofs@,
                shard_id,
            ) == Ok::<Seq<ReceiptProof>, Stop>(proofs@.unref()),
            Err(stop) => gathered(
                results_of(prev_execution_results),
                source_receipt_proofs@,
                shard_id,
            ) == Err::<Seq<ReceiptProof>, Stop>(stop),
        },
{
    let mut proofs: Vec<&'a ReceiptProof> = Vec::new();
    assert(proofs@.unref() =~= Seq::<ReceiptProof>::empty());
    let results: &ByHash<ExecutionResult> = match prev_execution_results {
        Some(results) => results,
        None => {
            return Ok(proofs);
        },
    };
    let ghost entries = results.entries();
    let count: usize = results.len();
    let mut i: usize = 0;
    while i < count
        invariant
            i <= count == entries.len(),
            entries == results.entries(),
            entries == results_of(prev_execution_results),
            gathered(entries.take(i as int), source_receipt_proofs@, shard_id) == Ok::<
                Seq<ReceiptProof>,
                Stop,
            >(proofs@.unref()),
        decreases count - i,
    {
        let (chunk_hash, result) = results.at(i);
        assert(entries.take(i + 1).drop_last() =~= entries.take(i as int));
        assert(entries.take(i + 1).last() == entries[i as int]);
        let receipt_proof: &'a ReceiptProof = match source_receipt_proofs.get(chunk_hash) {
            Some(receipt_proof) => *receipt_proof,
            None => {
                proof {
                    lemma_gathered_prefix(entries, source_receipt_proofs@, shard_id, i + 1);
                }
                return Err(
                    Stop::Fail(
                        Error::InvalidChunkStateWitness(
                            WitnessFault::MissingProof { chunk_hash: ChunkHash(chunk_hash) },
                        ),
                    ),
                );
            },
        };
        match check_source_proof(receipt_proof, result, shard_id) {
            Ok(_) => {},
            Err(stop) => {
                proof {
                    lemma_gathered_prefix(entries, source_receipt_proofs@, shard_id, i + 1);
                }
                return Err(stop);
            },
        }
        let ghost before = proofs@;
        proofs.push(receipt_proof);
        assert(proofs@.unref() =~= before.unref().push(*receipt_proof));
        i = i + 1;
    }
    assert(entries.take(i as int) =~= entries);
    Ok(proofs)
}

/// What [`validate_source_receipts_proofs`] returns.
pub open spec fn source_receipts(
    source_receipt_proofs: Map<CryptoHash, &ReceiptProof>,
    prev_execution_results: Option<&ByHash<ExecutionResult>>,
    shard_id: u64,
    prev_block_hash: CryptoHash,
    block: Block,
    view: &ChainView,
) -> Result<Seq<Receipt>, Stop> {
    let count = source_receipt_proofs.dom().len() as usize;
    let executed = results_of(prev_execution_results).len() as usize;
    if block.header.is_genesis() {
        if count != 0 {
            Err(
                Stop::Fail(
                    Error::InvalidChunkStateWitness(WitnessFault::GenesisProofsNotEmpty { count }),
                ),
            )
        } else {
            Ok(Seq::empty())
        }
    } else if executed != count {
        Err(
            Stop::Fail(
                Error::InvalidChunkStateWitness(WitnessFault::ProofCount { executed, count }),
            ),
        )
    } else {
        match gathered(results_of(prev_execution_results), source_receipt_proofs, shard_id) {
            Err(stop) => Err(stop),
            Ok(proofs) => match view.shuffle(prev_block_hash, proofs.len() as usize) {
                Err(stop) => Err(stop),
                Ok(order) => Ok(receipts_of(applied_order(proofs, order@))),
            },
        }
    }
}

/// The receipts to apply, in order, if the proofs bring what the chunks of the
/// previous block sent to the shard.
pub fn validate_source_receipts_proofs<'a>(
    source_receipt_proofs: &ByHash<&'a ReceiptProof>,
    prev_execution_results: Option<&ByHash<ExecutionResult>>,
    shard_id: u64,
    prev_block_hash: CryptoHash,
    block: &Block,
    view: &ChainView,
) -> (r: Result<Vec<&'a Receipt>, Stop>)
    ensures
        ({
            let expected = source_receipts(
                source_receipt_proofs@,
                prev_execution_results,
                shard_id,
                prev_block_hash,
                *block,
                view,
            );
            match r {
                Ok(receipts) => expected == Ok::<Seq<Receipt>, Stop>(receipts@.unref()),
                Err(stop) => expected == Err::<Seq<Receipt>, Stop>(stop),
            }
        }),
{
    let count: usize = source_receipt_proofs.len();
    if block.header.is_genesis() {
        if count != 0 {
            return Err(
                Stop::Fail(
                    Error::InvalidChunkStateWitness(WitnessFault::GenesisProofsNotEmpty { count }),
                ),
            );
        }
        let none: Vec<&'a Receipt> = Vec::new();
        assert(none@.unref() =~= Seq::<Receipt>::empty());
        return Ok(none);
    }
    let executed: usize = match prev_execution_results {
        Some(results) => results.len(),
        None => 0,
    };
    if executed != count {
        return Err(
            Stop::Fail(
                Error::InvalidChunkStateWitness(WitnessFault::ProofCount { executed, count }),
            ),
        );
    }
    let proofs: Vec<&'a ReceiptProof> = gather(
        source_receipt_proofs,
        prev_execution_results,
        shard_id,
    )?;
    let order: &Vec<usize> = view.shuffle(prev_block_hash, proofs.len())?;
    let ordered: Vec<&'a ReceiptProof> = apply_order(&proofs, order);
    Ok(collect_receipts(&ordered))
}

/// For each transaction, whether it can still go into the block after another.
/// A check that fails counts as a no.
pub open spec fn transaction_validity(
    transactions: Seq<SignedTransaction>,
    prev_block_hash: CryptoHash,
    view: &ChainView,
) -> Result<Seq<bool>, Stop>
    decreases transactions.len(),
{
    if transactions.len() == 0 {
        Ok(Seq::empty())
    } else {
        match transaction_validity(transactions.drop_last(), prev_block_hash, view) {
            Err(stop) => Err(stop),
            Ok(flags) => match view.flag(
                Query::TransactionValid {
                    prev_block_hash,
                    base_block_hash: transactions.last().base(),
                },
            ) {
                Ok(valid) => Ok(flags.push(valid)),
                Err(Stop::Fail(_)) => Ok(flags.push(false)),
                Err(stop) => Err(stop),
            },
        }
    }
}

proof fn lemma_transaction_validity_prefix(
    transactions: Seq<SignedTransaction>,
    prev_block_hash: CryptoHash,
    view: &ChainView,
    n: int,
)
    requires
        0 <= n <= transactions.len(),
        transaction_validity(transactions.take(n), prev_block_hash, view) is Err,
    ensures
        transaction_validity(transactions, prev_block_hash, view) == transaction_validity(
            transactions.take(n),
            prev_block_hash,
            view,
        ),
    decreases transactions.len(),
{
    if n < transactions.len() {
        assert(transactions.drop_last().take(n) =~= transactions.take(n));
        lemma_transaction_validity_prefix(transactions.drop_last(), prev_block_hash, view, n);
    } else {
        assert(transactions.take(n) =~= transactions);
    }
}

/// For each transaction, whether it can still go into the block after another.
fn check_transaction_validity(
    transactions: &Vec<SignedTransaction>,
    prev_block_hash: CryptoHash,
    view: &ChainView,
) -> (r: Result<Vec<bool>, Stop>)
    ensures
        seen(r) == transaction_validity(transactions@, prev_block_hash, view),
{
    let mut flags: Vec<bool> = Vec::new();
    let mut i: usize = 0;
    assert(flags@ =~= Seq::<bool>::empty());
    while i < transactions.len()
        invariant
            i <= transactions.len(),
            transaction_validity(transactions@.take(i as int), prev_block_hash, view) == Ok::<
                Seq<bool>,
                Stop,
            >(flags@),
        decreases transactions.len() - i,
    {
        assert(transactions@.take(i + 1).drop_last() =~= transactions@.take(i as int));
        let base_block_hash = transactions[i].base_block_hash();
        let valid: bool = match view.flag(
            Query::TransactionValid { prev_block_hash, base_block_hash },
        ) {
            Ok(valid) => valid,
            Err(Stop::Fail(_)) => false,
            Err(stop) => {
                proof {
                    lemma_transaction_validity_prefix(
                        transactions@,
                        prev_block_hash,
                        view,
                        i + 1,
                    );
                }
                return Err(stop);
            },
        };
        flags.push(valid);
        i = i + 1;
    }
    assert(transactions@.take(i as int) =~= transactions@);
    Ok(flags)
}

/// The gas limit that the chunks of genesis are taken to have.
pub const GENESIS_GAS_LIMIT: u64 = 1_000_000_000_000_000;

/// The state root of a shard in genesis.
pub open spec fn genesis_state_root(
    layout: ShardLayout,
    shard_id: u64,
    view: &ChainView,
) -> Result<CryptoHash, Stop> {
    match layout.shard_index_of(shard_id) {
        Err(e) => Err(Stop::Fail(e)),
        Ok(shard_index) => match view.roots(Query::GenesisStateRoots) {
            Err(stop) => Err(stop),
            Ok(None) => Err(Stop::Fail(Error::NoGenesisStateRoots)),
            Ok(Some(roots)) => if shard_index < roots@.len() {
                Ok(roots@[shard_index as int])
            } else {
                Err(Stop::Fail(Error::NoGenesisStateRoot { shard_id, shard_index }))
            },
        },
    }
}

/// The chunk extra that the genesis block left behind for a shard.
pub open spec fn genesis_chunk_extra(
    prev_block_header: BlockHeader,
    shard_id: u64,
    view: &ChainView,
) -> Result<GenesisChunkExtra, Stop> {
    match view.layout(Query::ShardLayout(prev_block_header.epoch_id)) {
        Err(stop) => Err(stop),
        Ok(layout) => match view.block(Query::Block(prev_block_header.hash)) {
            Err(stop) => Err(stop),
            Ok(prev_block) => match view.version(
                Query::ProtocolVersion(prev_block_header.epoch_id),
            ) {
                Err(stop) => Err(stop),
                Ok(protocol_version) => match genesis_state_root(*layout, shard_id, view) {
                    Err(stop) => Err(stop),
                    Ok(state_root) => Ok(
                        GenesisChunkExtra {
                            state_root,
                            gas_limit: GENESIS_GAS_LIMIT,
                            protocol_version,
                            congestion_info: congestion_in(prev_block.congestion_info@, shard_id),
                        },
                    ),
                },
            },
        },
    }
}

/// The chunk extra that the genesis block left behind for a shard.
fn get_genesis_chunk_extra(
    prev_block_header: BlockHeader,
    shard_id: u64,
    view: &ChainView,
) -> (r: Result<GenesisChunkExtra, Stop>)
    ensures
        r == genesis_chunk_extra(prev_block_header, shard_id, view),
{
    let layout: &ShardLayout = view.layout(Query::ShardLayout(prev_block_header.epoch_id))?;
    let prev_block: &Block = view.block(Query::Block(prev_block_header.hash))?;
    let congestion_info: Option<CongestionInfo> = prev_block.congestion(shard_id);
    let protocol_version: u32 = view.version(Query::ProtocolVersion(prev_block_header.epoch_id))?;
    let shard_index: u64 = or_fail(layout.get_shard_index(shard_id))?;
    let state_root: CryptoHash = match view.roots(Query::GenesisStateRoots)? {
        None => {
            return Err(Stop::Fail(Error::NoGenesisStateRoots));
        },
        Some(roots) => {
            if shard_index < roots.len() as u64 {
                roots[shard_index as usize]
            } else {
                return Err(Stop::Fail(Error::NoGenesisStateRoot { shard_id, shard_index }));
            }
        },
    };
    Ok(
        GenesisChunkExtra {
            state_root,
            gas_limit: GENESIS_GAS_LIMIT,
            protocol_version,
            congestion_info,
        },
    )
}

/// The first result of a shard.
pub open spec fn result_of_shard(
    results: Seq<(CryptoHash, ExecutionResult)>,
    shard_id: u64,
) -> Option<ExecutionResult>
    decreases results.len(),
{
    if results.len() == 0 {
        None
    } else if results[0].1.shard_id == shard_id {
        Some(results[0].1)
    } else {
        result_of_shard(results.skip(1), shard_id)
    }
}

/// The first result of a shard.
fn find_result<'a>(results: Option<&'a ByHash<ExecutionResult>>, shard_id: u64) -> (r: Option<
    &'a ExecutionResult,
>)
    ensures
        match r {
            Some(result) => result_of_shard(results_of(results), shard_id) == Some(*result),
            None => result_of_shard(results_of(results), shard_id) is None,
        },
{
    let table: &'a ByHash<ExecutionResult> = match results {
        Some(table) => table,
        None => {
            return None;
        },
    };
    let ghost entries = table.entries();
    let count: usize = table.len();
    let mut i: usize = 0;
    assert(entries.skip(0) =~= entries);
    while i < count
        invariant
            i <= count == entries.len(),
            entries == table.entries(),
            entries == results_of(results),
            result_of_shard(entries, shard_id) == result_of_shard(entries.skip(i as int), shard_id),
        decreases count - i,
    {
        let (_, result) = table.at(i);
        if result.shard_id == shard_id {
            return Some(result);
        }
        assert(entries.skip(i as int).skip(1) =~= entries.skip(i + 1));
        i = i + 1;
    }
    None
}

/// The chunk header of a witness, completed for execution.
pub open spec fn spice_header<'a>(
    witness: &'a ChunkStateWitness<'a>,
    prev_block_header: BlockHeader,
    prev_execution_results: Option<&'a ByHash<ExecutionResult>>,
    view: &ChainView,
) -> Result<SpiceChunkHeader<'a>, Stop> {
    let chunk_header = witness.chunk_header;
    let shard_id = chunk_header.shard_id;
    if prev_block_header.is_genesis() {
        match genesis_chunk_extra(prev_block_header, shard_id, view) {
            Err(stop) => Err(stop),
            Ok(extra) => Ok(
                SpiceChunkHeader {
                    chunk_header,
                    prev_chunk_extra: PrevChunkExtra::Genesis(extra),
                    prev_outgoing_receipts_root: zero_hash(),
                },
            ),
        }
    } else {
        match view.number(
            Query::PrevShardId { prev_block_hash: prev_block_header.hash, shard_id },
        ) {
            Err(stop) => Err(stop),
            Ok(prev_shard_id) => match result_of_shard(
                results_of(prev_execution_results),
                prev_shard_id,
            ) {
                None => Err(Stop::Broken(Assumption::PreviousShardResult)),
                Some(result) => Ok(
                    SpiceChunkHeader {
                        chunk_header,
                        prev_chunk_extra: PrevChunkExtra::Executed(&result.chunk_extra),
                        prev_outgoing_receipts_root: result.outgoing_receipts_root,
                    },
                ),
            },
        }
    }
}

/// Completes the chunk header of a witness for execution.
fn into_spice_header<'a>(
    witness: &'a ChunkStateWitness<'a>,
    prev_block_header: BlockHeader,
    prev_execution_results: Option<&'a ByHash<ExecutionResult>>,
    view: &ChainView,
) -> (r: Result<SpiceChunkHeader<'a>, Stop>)
    ensures
        r == spice_header(witness, prev_block_header, prev_execution_results, view),
{
    let chunk_header = witness.chunk_header;
    let shard_id: u64 = chunk_header.shard_id;
    if prev_block_header.is_genesis() {
        let extra: GenesisChunkExtra = get_genesis_chunk_extra(prev_block_header, shard_id, view)?;
        return Ok(
            SpiceChunkHeader {
                chunk_header,
                prev_chunk_extra: PrevChunkExtra::Genesis(extra),
                prev_outgoing_receipts_root: CryptoHash { hi: 0, lo: 0 },
            },
        );
    }
    let prev_shard_id: u64 = view.number(
        Query::PrevShardId { prev_block_hash: prev_block_header.hash, shard_id },
    )?;
    match find_result(prev_execution_results, prev_shard_id) {
        None => Err(Stop::Broken(Assumption::PreviousShardResult)),
        Some(result) => Ok(
            SpiceChunkHeader {
                chunk_header,
                prev_chunk_extra: PrevChunkExtra::Executed(&result.chunk_extra),
                prev_outgoing_receipts_root: result.outgoing_receipts_root,
            },
        ),
    }
}

/// The execution that a witness is about.
pub open spec fn main_transition<'a>(
    witness: &'a ChunkStateWitness<'a>,
    block: &Block,
    prev_block_header: BlockHeader,
    prev_execution_results: Option<&'a ByHash<ExecutionResult>>,
    receipts: Seq<Receipt>,
    transaction_validity_check_results: Seq<bool>,
    view: &ChainView,
) -> Result<MainTransitionView<'a>, Stop> {
    let shard_id = witness.chunk_header.shard_id;
    if block.header.is_genesis() {
        match genesis_chunk_extra(prev_block_header, shard_id, view) {
            Err(stop) => Err(stop),
            Ok(chunk_extra) => Ok(
                MainTransitionView::Genesis {
                    chunk_extra,
                    block_hash: block.header.hash,
                    shard_id,
                },
            ),
        }
    } else {
        match spice_header(witness, prev_block_header, prev_execution_results, view) {
            Err(stop) => Err(stop),
            Ok(chunk_header) => match view.number(
                Query::WitnessBlockContext {
                    block_hash: block.header.hash,
                    prev_block_hash: prev_block_header.hash,
                },
            ) {
                Err(stop) => Err(stop),
                Ok(context) => Ok(
                    MainTransitionView::NewChunk(
                        NewChunkDataView {
                            chunk_header,
                            transactions: witness.transactions,
                            transaction_validity_check_results,
                            receipts,
                            block: context,
                            storage_data_source: if prev_block_header.is_genesis() {
                                StorageDataSource::Db
                            } else {
                                StorageDataSource::Recorded(
                                    &witness.main_state_transition.base_state,
                                )
                            },
                        },
                    ),
                ),
            },
        }
    }
}

/// The execution that a witness is about.
fn get_main_transition<'a>(
    witness: &'a ChunkStateWitness<'a>,
    block: &Block,
    prev_block_header: BlockHeader,
    prev_execution_results: Option<&'a ByHash<ExecutionResult>>,
    receipts: Vec<&'a Receipt>,
    transaction_validity_check_results: Vec<bool>,
    view: &ChainView,
) -> (r: Result<MainTransition<'a>, Stop>)
    ensures
        seen(r) == main_transition(
            witness,
            block,
            prev_block_header,
            prev_execution_results,
            receipts@.unref(),
            transaction_validity_check_results@,
            view,
        ),
{
    let shard_id: u64 = witness.chunk_header.shard_id;
    if block.header.is_genesis() {
        let chunk_extra: GenesisChunkExtra = get_genesis_chunk_extra(
            prev_block_header,
            shard_id,
            view,
        )?;
        return Ok(
            MainTransition::Genesis { chunk_extra, block_hash: block.header.hash, shard_id },
        );
    }
    let chunk_header: SpiceChunkHeader<'a> = into_spice_header(
        witness,
        prev_block_header,
        prev_execution_results,
        view,
    )?;
    let storage_data_source: StorageDataSource<'a> = if prev_block_header.is_genesis() {
        StorageDataSource::Db
    } else {
        StorageDataSource::Recorded(&witness.main_state_transition.base_state)
    };
    let context: u64 = view.number(
        Query::WitnessBlockContext {
            block_hash: block.header.hash,
            prev_block_hash: prev_block_header.hash,
        },
    )?;
    Ok(
        MainTransition::NewChunk(
            NewChunkData {
                chunk_header,
                transactions: witness.transactions,
                transaction_validity_check_results,
                receipts,
                block: context,
                storage_data_source,
            },
        ),
    )
}

/// What the receipts and the transactions of a witness come to, if they are
/// those that the witness and its chunk header claim.
pub open spec fn checked_contents<'a>(
    witness: &'a ChunkStateWitness<'a>,
    block: &Block,
    prev_block_header: BlockHeader,
    prev_execution_results: Option<&'a ByHash<ExecutionResult>>,
    view: &ChainView,
) -> Result<(Seq<Receipt>, Seq<bool>), Stop> {
    match source_receipts(
        witness.source_receipt_proofs@,
        prev_execution_results,
        witness.chunk_header.shard_id,
        prev_block_header.hash,
        *block,
        view,
    ) {
        Err(stop) => Err(stop),
        Ok(receipts) => {
            let tx_root = root_of_transactions(witness.transactions@);
            if receipts.len() > u32::MAX {
                Err(Stop::Broken(Assumption::ReceiptCount))
            } else if receipts_digest(receipts) != witness.applied_receipts_hash {
                Err(
                    Stop::Fail(
                        Error::InvalidChunkStateWitness(
                            WitnessFault::ReceiptsHash {
                                computed: receipts_digest(receipts),
                                claimed: witness.applied_receipts_hash,
                            },
                        ),
                    ),
                )
            } else if witness.chunk_header.tx_root != tx_root {
                Err(
                    Stop::Fail(
                        Error::InvalidChunkStateWitness(
                            WitnessFault::TransactionRoot {
                                computed: tx_root,
                                claimed: witness.chunk_header.tx_root,
                            },
                        ),
                    ),
                )
            } else {
                match transaction_validity(witness.transactions@, prev_block_header.hash, view) {
                    Err(stop) => Err(stop),
                    Ok(flags) => Ok((receipts, flags)),
                }
            }
        },
    }
}

/// Checks the receipts and the transactions of a witness.
fn check_contents<'a>(
    witness: &'a ChunkStateWitness<'a>,
    block: &Block,
    prev_block_header: BlockHeader,
    prev_execution_results: Option<&'a ByHash<ExecutionResult>>,
    view: &ChainView,
) -> (r: Result<(Vec<&'a Receipt>, Vec<bool>), Stop>)
    ensures
        ({
            let expected = checked_contents(
                witness,
                block,
                prev_block_header,
                prev_execution_results,
                view,
            );
            match r {
                Ok((receipts, flags)) => expected == Ok::<(Seq<Receipt>, Seq<bool>), Stop>(
                    (receipts@.unref(), flags@),
                ),
                Err(stop) => expected == Err::<(Seq<Receipt>, Seq<bool>), Stop>(stop),
            }
        }),
{
    let receipts: Vec<&'a Receipt> = validate_source_receipts_proofs(
        &witness.source_receipt_proofs,
        prev_execution_results,
        witness.chunk_header.shard_id,
        prev_block_header.hash,
        block,
        view,
    )?;
    if receipts.len() > u32::MAX as usize {
        return Err(Stop::Broken(Assumption::ReceiptCount));
    }
    let applied_receipts_hash: CryptoHash = hash_receipts(&receipts);
    if applied_receipts_hash != witness.applied_receipts_hash {
        return Err(
            Stop::Fail(
                Error::InvalidChunkStateWitness(
                    WitnessFault::ReceiptsHash {
                        computed: applied_receipts_hash,
                        claimed: witness.applied_receipts_hash,
                    },
                ),
            ),
        );
    }
    let tx_root: CryptoHash = merklize_transactions(witness.transactions);
    if witness.chunk_header.tx_root != tx_root {
        return Err(
            Stop::Fail(
                Error::InvalidChunkStateWitness(
                    WitnessFault::TransactionRoot {
                        computed: tx_root,
                        claimed: witness.chunk_header.tx_root,
                    },
                ),
            ),
        );
    }
    let flags: Vec<bool> = check_transaction_validity(
        witness.transactions,
        prev_block_header.hash,
        view,
    )?;
    Ok((receipts, flags))
}

/// Whether a witness is about a chunk of the block, of a version that the
/// protocol allows.
pub open spec fn block_match(
    witness: &ChunkStateWitness,
    block: &Block,
    view: &ChainView,
) -> Result<EpochId, Stop> {
    match view.digest(Query::EpochId(block.header.hash)) {
        Err(stop) => Err(stop),
        Ok(epoch_hash) => {
            let epoch_id = EpochId(epoch_hash);
            if epoch_id != witness.epoch_id {
                Err(Stop::Broken(Assumption::WitnessEpoch))
            } else if !block.contains(witness.chunk_header) {
                Err(Stop::Broken(Assumption::WitnessChunkInBlock))
            } else {
                match view.version(Query::EpochInfoVersion(epoch_id)) {
                    Err(stop) => Err(stop),
                    Ok(protocol_version) => match witness.chunk_header.version_check(
                        protocol_version,
                    ) {
                        Err(e) => Err(Stop::Fail(e)),
                        Ok(_) => Ok(epoch_id),
                    },
                }
            }
        },
    }
}

/// Whether a witness is about a chunk of the block, of a version that the
/// protocol allows.
fn match_block(witness: &ChunkStateWitness, block: &Block, view: &ChainView) -> (r: Result<
    EpochId,
    Stop,
>)
    ensures
        r == block_match(witness, block, view),
{
    let epoch_id: EpochId = EpochId(view.digest(Query::EpochId(block.header.hash))?);
    if epoch_id != witness.epoch_id {
        return Err(Stop::Broken(Assumption::WitnessEpoch));
    }
    if !block.contains(witness.chunk_header) {
        return Err(Stop::Broken(Assumption::WitnessChunkInBlock));
    }
    let protocol_version: u32 = view.version(Query::EpochInfoVersion(epoch_id))?;
    or_fail(witness.chunk_header.validate_version(protocol_version))?;
    Ok(epoch_id)
}

/// What [`pre_validate_chunk_state_witness`] returns.
pub open spec fn pre_validation<'a>(
    witness: &'a ChunkStateWitness<'a>,
    block: &Block,
    prev_execution_results: Option<&'a ByHash<ExecutionResult>>,
    view: &ChainView,
) -> Result<PreValidationOutputView<'a>, Stop> {
    match block_match(witness, block, view) {
        Err(stop) => Err(stop),
        Ok(epoch_id) => match view.header(Query::BlockHeader(block.header.prev_hash)) {
            Err(stop) => Err(stop),
            Ok(prev_block_header) => match view.uid(
                Query::ShardUid { shard_id: witness.chunk_header.shard_id, epoch_id },
            ) {
                Err(stop) => Err(stop),
                Ok(shard_uid) => match view.transition(
                    Query::ReshardingTransition { block_hash: block.header.hash, shard_uid },
                ) {
                    Err(stop) => Err(stop),
                    Ok(implicit_transition_params) => match checked_contents(
                        witness,
                        block,
                        prev_block_header,
                        prev_execution_results,
                        view,
                    ) {
                        Err(stop) => Err(stop),
                        Ok((receipts, flags)) => match main_transition(
                            witness,
                            block,
                            prev_block_header,
                            prev_execution_results,
                            receipts,
                            flags,
                            view,
                        ) {
                            Err(stop) => Err(stop),
                            Ok(main_transition_params) => Ok(
                                PreValidationOutputView {
                                    main_transition_params,
                                    implicit_transition_params,
                                },
                            ),
                        },
                    },
                },
            },
        },
    }
}

/// Checks a witness against its block and the results of executing the block
/// before, and lays out what has to be executed to see whether it is right.
pub fn pre_validate_chunk_state_witness<'a>(
    witness: &'a ChunkStateWitness<'a>,
    block: &Block,
    prev_execution_results: Option<&'a ByHash<ExecutionResult>>,
    view: &ChainView,
) -> (r: Result<PreValidationOutput<'a>, Stop>)
    ensures
        seen(r) == pre_validation(witness, block, prev_execution_results, view),
{
    let epoch_id: EpochId = match_block(witness, block, view)?;
    let prev_block_header: BlockHeader = view.header(Query::BlockHeader(block.header.prev_hash))?;
    let shard_uid = view.uid(
        Query::ShardUid { shard_id: witness.chunk_header.shard_id, epoch_id },
    )?;
    let implicit_transition_params: Option<u64> = view.transition(
        Query::ReshardingTransition { block_hash: block.header.hash, shard_uid },
    )?;
    let (receipts, flags) = check_contents(
        witness,
        block,
        prev_block_header,
        prev_execution_results,
        view,
    )?;
    let main_transition_params: MainTransition<'a> = get_main_transition(
        witness,
        block,
        prev_block_header,
        prev_execution_results,
        receipts,
        flags,
        view,
    )?;
    Ok(PreValidationOutput { main_transition_params, implicit_transition_params })
}

} // verus!
