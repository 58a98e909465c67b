//! What the checks of a witness find, and what they have executed.
use vstd::prelude::*;
use crate::block::{AccountId, Block, BlockHeader, ShardChunkHeader, ShardLayout};
use crate::by_hash::ByHash;
use crate::core_statements::{
    endorsement_request, AppliedWitness, CoreStatementsProcessor, EndorsingView, ValidatedWitness,
    ValidationView,
};
use crate::error::{Error, WitnessFault};
use crate::executor::{
    spec_verdict, ChunkExecutorActor, OrphanStateWitness, WitnessStepView,
};
use crate::flow::Verdict;
use crate::hash::{digest, ChunkHash, CryptoHash, EpochId};
use crate::messages::EndorsementRequestView;
use crate::order::{applied_order, spec_is_shuffle};
use crate::receipts::{
    encodings, path_root, receipt_list_encoding, receipts_digest, receipts_of,
    root_of_transactions, transactions_root, Receipt, ReceiptProof, SignedTransaction,
};
use crate::saved_laws::{is_ranking, is_shuffled, proofs_are_sorted_then_shuffled};
use crate::statements::ExecutionResult;
use crate::validation::{
    gathered, genesis_chunk_extra, lemma_all_gathered, lemma_gathered, main_transition,
    pre_validation, receipt_proof_check, result_of_shard, results_of, source_proof_check,
    source_receipts, transaction_validity,
};
use crate::view::{Assumption, ChainView, Query, Stop};
use crate::witness::{
    ChunkStateWitness, GenesisChunkExtra, MainTransitionView, PreValidationOutputView,
    PrevChunkExtra, SpiceChunkHeader, StorageDataSource,
};

verus! {

/// The bytes of each of some receipts.
pub open spec fn bytes_of(receipts: Seq<Receipt>) -> Seq<Seq<u8>> {
    Seq::new(receipts.len(), |i: int| receipts[i]@)
}

/// The bytes of each of some transactions.
pub open spec fn transaction_bytes(transactions: Seq<SignedTransaction>) -> Seq<Seq<u8>> {
    Seq::new(transactions.len(), |i: int| transactions[i]@)
}

/// The digest of receipts is that of the encoding of their list, the root of
/// transactions is over each of them, and a proof leads to the root that its path
/// gives for its receipts and the shard that they go to; all of them in order.
pub proof fn digests_are_of_the_contents(
    receipts: Seq<Receipt>,
    transactions: Seq<SignedTransaction>,
    proof: &ReceiptProof,
    root: CryptoHash,
)
    ensures
        receipts_digest(receipts) == digest(receipt_list_encoding(bytes_of(receipts))),
        root_of_transactions(transactions) == transactions_root(transaction_bytes(transactions)),
        proof.leads_to(root) <==> path_root(
            bytes_of(proof.receipts@),
            proof.shard_proof.to_shard_id,
            proof.shard_proof.proof@,
        ) == root,
{
    assert(encodings(receipts) =~= bytes_of(receipts));
    assert(encodings(proof.receipts@) =~= bytes_of(proof.receipts@));
    assert(transactions.map_values(|t: SignedTransaction| t@) =~= transaction_bytes(transactions));
}

/// A proof brings what an execution sent to a shard: it comes from the shard of the
/// execution, goes to the shard, and leads to the outgoing receipts root.
pub open spec fn is_proof_of(
    proof: ReceiptProof,
    result: ExecutionResult,
    shard_id: u64,
) -> bool {
    &&& proof.shard_proof.from_shard_id == result.shard_id
    &&& proof.shard_proof.to_shard_id == shard_id
    &&& path_root(
        bytes_of(proof.receipts@),
        proof.shard_proof.to_shard_id,
        proof.shard_proof.proof@,
    ) == result.outgoing_receipts_root
}

/// A receipt proof is accepted if and only if it brings what the execution sent to
/// the shard. A refusal names the chunk, and the shard that is wrong: first the one
/// that the proof comes from, then the one that it goes to.
pub proof fn proof_is_checked_against_the_execution(
    proof: ReceiptProof,
    result: ExecutionResult,
    shard_id: u64,
)
    ensures
        receipt_proof_check(proof, result, shard_id) is Ok <==> is_proof_of(
            proof,
            result,
            shard_id,
        ),
        receipt_proof_check(proof, result, shard_id) matches Err(e) ==> e
            == Error::InvalidChunkStateWitness(
            if proof.shard_proof.from_shard_id != result.shard_id {
                WitnessFault::WrongFromShard {
                    chunk_hash: result.chunk_hash,
                    found: proof.shard_proof.from_shard_id,
                    expected: result.shard_id,
                }
            } else if proof.shard_proof.to_shard_id != shard_id {
                WitnessFault::WrongToShard {
                    chunk_hash: result.chunk_hash,
                    found: proof.shard_proof.to_shard_id,
                    expected: shard_id,
                }
            } else {
                WitnessFault::InvalidMerklePath { chunk_hash: result.chunk_hash }
            },
        ),
{
    assert(encodings(proof.receipts@) =~= bytes_of(proof.receipts@));
}

/// The results of a block in the order in which they are walked; none after genesis.
pub open spec fn walked(results: Option<&ByHash<ExecutionResult>>) -> Seq<
    (CryptoHash, ExecutionResult),
> {
    match results {
        Some(table) => table.entries(),
        None => Seq::empty(),
    }
}

/// For each of the results there is a proof that brings what the execution sent.
pub open spec fn all_brought(
    results: Seq<(CryptoHash, ExecutionResult)>,
    proofs: Map<CryptoHash, &ReceiptProof>,
    shard_id: u64,
) -> bool {
    forall|i: int|
        0 <= i < results.len() ==> proofs.contains_key((#[trigger] results[i]).0) && is_proof_of(
            *proofs[results[i].0],
            results[i].1,
            shard_id,
        ) && proofs[results[i].0].receipts@.len() <= u32::MAX
}

/// The proofs of the results, in the order in which the results are walked.
pub open spec fn brought(
    results: Seq<(CryptoHash, ExecutionResult)>,
    proofs: Map<CryptoHash, &ReceiptProof>,
) -> Seq<ReceiptProof> {
    Seq::new(results.len(), |i: int| *proofs[results[i].0])
}

/// The receipts of some proofs, the proofs sorted by the shard that they come from
/// and shuffled under a salt.
pub open spec fn is_in_applied_order(
    receipts: Seq<Receipt>,
    proofs: Seq<ReceiptProof>,
    salt: CryptoHash,
    view: &ChainView,
) -> bool {
    &&& view.shuffle(salt, proofs.len() as usize) matches Ok(order)
    &&& exists|ranking: Seq<int>, list: Seq<ReceiptProof>|
        #![trigger is_ranking(ranking, proofs), is_shuffled(list, proofs, ranking, order@)]
        is_ranking(ranking, proofs) && is_shuffled(list, proofs, ranking, order@) && receipts
            == receipts_of(list)
}

/// The proofs can be gathered if and only if each brings what was sent, and then they
/// are gathered in the order of the results.
pub proof fn lemma_brought(
    results: Seq<(CryptoHash, ExecutionResult)>,
    proofs: Map<CryptoHash, &ReceiptProof>,
    shard_id: u64,
)
    ensures
        gathered(results, proofs, shard_id) is Ok <==> all_brought(results, proofs, shard_id),
        gathered(results, proofs, shard_id) matches Ok(found) ==> found == brought(results, proofs),
{
    if gathered(results, proofs, shard_id) is Ok {
        lemma_gathered(results, proofs, shard_id);
        assert forall|i: int| 0 <= i < results.len() implies proofs.contains_key(
            (#[trigger] results[i]).0,
        ) && is_proof_of(*proofs[results[i].0], results[i].1, shard_id)
            && proofs[results[i].0].receipts@.len() <= u32::MAX by {
            proof_is_checked_against_the_execution(
                *proofs[results[i].0],
                results[i].1,
                shard_id,
            );
        }
        assert(gathered(results, proofs, shard_id)->Ok_0 =~= brought(results, proofs));
    }
    if all_brought(results, proofs, shard_id) {
        assert forall|i: int| 0 <= i < results.len() implies proofs.contains_key(
            (#[trigger] results[i]).0,
        ) && source_proof_check(*proofs[results[i].0], results[i].1, shard_id) is Ok by {
            proof_is_checked_against_the_execution(
                *proofs[results[i].0],
                results[i].1,
                shard_id,
            );
        }
        lemma_all_gathered(results, proofs, shard_id);
    }
}

/// The receipts that a check accepts: for a block after genesis there is one proof
/// for each execution of the previous block, and it brings what that execution sent
/// to the shard; the receipts are those of the proofs, sorted and shuffled under the
/// hash of the previous block. For genesis there are none.
pub proof fn accepted_receipts_are_those_sent(
    proofs: Map<CryptoHash, &ReceiptProof>,
    results: Option<&ByHash<ExecutionResult>>,
    shard_id: u64,
    prev_block_hash: CryptoHash,
    block: Block,
    receipts: Seq<Receipt>,
    view: &ChainView,
)
    requires
        view.consistent(),
        proofs.dom().len() <= usize::MAX,
        walked(results).len() <= usize::MAX,
        source_receipts(proofs, results, shard_id, prev_block_hash, block, view) == Ok::<
            Seq<Receipt>,
            Stop,
        >(receipts),
    ensures
        block.header.is_genesis() ==> proofs.dom().len() == 0 && receipts.len() == 0,
        !block.header.is_genesis() ==> {
            &&& proofs.dom().len() == walked(results).len()
            &&& all_brought(walked(results), proofs, shard_id)
            &&& is_in_applied_order(
                receipts,
                brought(walked(results), proofs),
                prev_block_hash,
                view,
            )
        },
{
    if !block.header.is_genesis() {
        let entries = walked(results);
        assert(results_of(results) == entries);
        lemma_brought(entries, proofs, shard_id);
        let given = brought(entries, proofs);
        let order = view.shuffle(prev_block_hash, given.len() as usize)->Ok_0;
        let question = Query::Shuffle { salt: prev_block_hash, len: given.len() as usize };
        assert(view.answer(question) is Some);
        assert(spec_is_shuffle(order@, given.len() as int));
        assert(order@.no_duplicates()) by {
            assert forall|i: int, j: int|
                0 <= i < order@.len() && 0 <= j < order@.len() && i != j implies order@[i]
                != order@[j] by {
                if i < j {
                    assert(order@[i] != order@[j]);
                } else {
                    assert(order@[j] != order@[i]);
                }
            }
        }
        proofs_are_sorted_then_shuffled(given, order@);
        let ranking = choose|ranking: Seq<int>| #[trigger]
            is_ranking(ranking, given) && is_shuffled(
                applied_order(given, order@),
                given,
                ranking,
                order@,
            );
        assert(is_ranking(ranking, given) && is_shuffled(
            applied_order(given, order@),
            given,
            ranking,
            order@,
        ));
    }
}

/// The receipts that a witness brings are refused only with reason: for genesis if
/// it brings any; otherwise if their number is wrong, if one is missing or does not
/// bring what was sent, or if it is not known how they are shuffled.
pub proof fn right_receipts_are_accepted(
    proofs: Map<CryptoHash, &ReceiptProof>,
    results: Option<&ByHash<ExecutionResult>>,
    shard_id: u64,
    prev_block_hash: CryptoHash,
    block: Block,
    view: &ChainView,
)
    requires
        proofs.dom().len() <= usize::MAX,
        walked(results).len() <= usize::MAX,
    ensures
        ({
            let outcome = source_receipts(
                proofs,
                results,
                shard_id,
                prev_block_hash,
                block,
                view,
            );
            let count = proofs.dom().len() as usize;
            let executed = walked(results).len() as usize;
            if block.header.is_genesis() {
                if count == 0 {
                    outcome is Ok
                } else {
                    outcome == Err::<Seq<Receipt>, Stop>(
                        Stop::Fail(
                            Error::InvalidChunkStateWitness(
                                WitnessFault::GenesisProofsNotEmpty { count },
                            ),
                        ),
                    )
                }
            } else if executed != count {
                outcome == Err::<Seq<Receipt>, Stop>(
                    Stop::Fail(
                        Error::InvalidChunkStateWitness(
                            WitnessFault::ProofCount { executed, count },
                        ),
                    ),
                )
            } else {
                all_brought(walked(results), proofs, shard_id) && view.shuffle(
                    prev_block_hash,
                    executed,
                ) is Ok ==> outcome is Ok
            }
        }),
{
    assert(results_of(results) == walked(results));
    lemma_brought(walked(results), proofs, shard_id);
}

/// The first of the results whose proof does not do decides why the receipts are
/// refused: the proof is missing, or it is not one of that execution.
pub proof fn first_wrong_proof_is_named(
    results: Seq<(CryptoHash, ExecutionResult)>,
    proofs: Map<CryptoHash, &ReceiptProof>,
    shard_id: u64,
    k: int,
)
    requires
        0 <= k < results.len(),
        all_brought(results.take(k), proofs, shard_id),
        !proofs.contains_key(results[k].0) || !is_proof_of(
            *proofs[results[k].0],
            results[k].1,
            shard_id,
        ) && proofs[results[k].0].receipts@.len() <= u32::MAX,
    ensures
        gathered(results, proofs, shard_id) == Err::<Seq<ReceiptProof>, Stop>(
            Stop::Fail(
                if !proofs.contains_key(results[k].0) {
                    Error::InvalidChunkStateWitness(
                        WitnessFault::MissingProof { chunk_hash: ChunkHash(results[k].0) },
                    )
                } else {
                    receipt_proof_check(
                        *proofs[results[k].0],
                        results[k].1,
                        shard_id,
                    )->Err_0
                },
            ),
        ),
    decreases results.len(),
{
    let n = results.len() - 1;
    if k < n {
        assert(results.drop_last().take(k) =~= results.take(k));
        assert(results.drop_last()[k] == results[k]);
        first_wrong_proof_is_named(results.drop_last(), proofs, shard_id, k);
    } else {
        assert(results.drop_last() =~= results.take(k));
        assert(results.last() == results[k]);
        lemma_brought(results.drop_last(), proofs, shard_id);
        if proofs.contains_key(results[k].0) {
            proof_is_checked_against_the_execution(
                *proofs[results[k].0],
                results[k].1,
                shard_id,
            );
        }
    }
}

/// Of each transaction it is said whether the chain finds it valid, on the block
/// that it is based on; a check that fails counts as a no. Only a missing answer
/// stops this.
pub proof fn each_transaction_is_checked(
    transactions: Seq<SignedTransaction>,
    prev_block_hash: CryptoHash,
    view: &ChainView,
)
    ensures
        transaction_validity(transactions, prev_block_hash, view) matches Ok(flags)
            ==> flags.len() == transactions.len() && forall|i: int|
            0 <= i < flags.len() ==> (#[trigger] flags[i] <==> view.flag(
                Query::TransactionValid {
                    prev_block_hash,
                    base_block_hash: transactions[i].base(),
                },
            ) == Ok::<bool, Stop>(true)),
        (forall|i: int|
            0 <= i < transactions.len() ==> !(view.flag(
                Query::TransactionValid {
                    prev_block_hash,
                    base_block_hash: (#[trigger] transactions[i]).base(),
                },
            ) matches Err(Stop::Need(_)))) ==> transaction_validity(
            transactions,
            prev_block_hash,
            view,
        ) is Ok,
    decreases transactions.len(),
{
    if transactions.len() > 0 {
        let init = transactions.drop_last();
        each_transaction_is_checked(init, prev_block_hash, view);
        if let Ok(flags) = transaction_validity(transactions, prev_block_hash, view) {
            assert forall|i: int| 0 <= i < flags.len() implies (#[trigger] flags[i] <==> view.flag(
                Query::TransactionValid {
                    prev_block_hash,
                    base_block_hash: transactions[i].base(),
                },
            ) == Ok::<bool, Stop>(true)) by {
                if i < init.len() {
                    let before = transaction_validity(init, prev_block_hash, view)->Ok_0;
                    assert(flags[i] == before[i]);
                    assert(init[i] == transactions[i]);
                }
            }
        }
        if forall|i: int|
            0 <= i < transactions.len() ==> !(view.flag(
                Query::TransactionValid {
                    prev_block_hash,
                    base_block_hash: (#[trigger] transactions[i]).base(),
                },
            ) matches Err(Stop::Need(_))) {
            assert forall|i: int| 0 <= i < init.len() implies !(view.flag(
                Query::TransactionValid {
                    prev_block_hash,
                    base_block_hash: (#[trigger] init[i]).base(),
                },
            ) matches Err(Stop::Need(_))) by {
                assert(init[i] == transactions[i]);
            }
            assert(transactions[transactions.len() - 1] == transactions.last());
        }
    }
}

/// The result that is found for a shard is of that shard, and the first such of
/// those walked; where none is found there is none of the shard.
pub proof fn found_result_is_of_the_shard(
    results: Seq<(CryptoHash, ExecutionResult)>,
    shard_id: u64,
)
    ensures
        match result_of_shard(results, shard_id) {
            Some(result) => result.shard_id == shard_id && exists|i: int|
                0 <= i < results.len() && (#[trigger] results[i]).1 == result && forall|j: int|
                    0 <= j < i ==> (#[trigger] results[j]).1.shard_id != shard_id,
            None => forall|i: int|
                0 <= i < results.len() ==> (#[trigger] results[i]).1.shard_id != shard_id,
        },
    decreases results.len(),
{
    if results.len() > 0 {
        if results[0].1.shard_id == shard_id {
            assert(results[0].1 == result_of_shard(results, shard_id)->0);
        } else {
            let rest = results.skip(1);
            found_result_is_of_the_shard(rest, shard_id);
            match result_of_shard(rest, shard_id) {
                Some(result) => {
                    let i = choose|i: int|
                        0 <= i < rest.len() && (#[trigger] rest[i]).1 == result && forall|j: int|
                            0 <= j < i ==> (#[trigger] rest[j]).1.shard_id != shard_id;
                    assert(results[i + 1].1 == result);
                    assert forall|j: int| 0 <= j < i + 1 implies (#[trigger] results[j]).1.shard_id
                        != shard_id by {
                        if j > 0 {
                            assert(rest[j - 1] == results[j]);
                        }
                    }
                },
                None => {
                    assert forall|i: int| 0 <= i < results.len() implies (
                    #[trigger] results[i]).1.shard_id != shard_id by {
                        if i > 0 {
                            assert(rest[i - 1] == results[i]);
                        }
                    }
                },
            }
        }
    }
}

/// What genesis leaves behind for a shard: its state root in genesis, the protocol
/// version of the epoch of genesis, the congestion that the genesis block states,
/// and the gas limit of genesis.
pub open spec fn is_left_by_genesis(
    extra: GenesisChunkExtra,
    genesis: BlockHeader,
    shard_id: u64,
    view: &ChainView,
) -> bool {
    &&& view.layout(Query::ShardLayout(genesis.epoch_id)) matches Ok(layout)
    &&& layout.shard_index_of(shard_id) matches Ok(index)
    &&& view.roots(Query::GenesisStateRoots) matches Ok(Some(roots))
    &&& index < roots@.len()
    &&& extra.state_root == roots@[index as int]
    &&& extra.gas_limit == 1_000_000_000_000_000
    &&& view.version(Query::ProtocolVersion(genesis.epoch_id)) == Ok::<u32, Stop>(
        extra.protocol_version,
    )
    &&& view.block(Query::Block(genesis.hash)) matches Ok(block)
    &&& extra.congestion_info == crate::block::congestion_in(block.congestion_info@, shard_id)
}

/// What genesis leaves behind is found if and only if the chain knows it; a shard
/// without a state root, or genesis without any, is reported.
pub proof fn genesis_extra_is_found(genesis: BlockHeader, shard_id: u64, view: &ChainView)
    ensures
        genesis_chunk_extra(genesis, shard_id, view) matches Ok(extra) ==> is_left_by_genesis(
            extra,
            genesis,
            shard_id,
            view,
        ),
        forall|extra: GenesisChunkExtra| #[trigger]
            is_left_by_genesis(extra, genesis, shard_id, view) ==> genesis_chunk_extra(
                genesis,
                shard_id,
                view,
            ) == Ok::<GenesisChunkExtra, Stop>(extra),
        view.layout(Query::ShardLayout(genesis.epoch_id)) is Ok && view.block(
            Query::Block(genesis.hash),
        ) is Ok && view.version(Query::ProtocolVersion(genesis.epoch_id)) is Ok ==> match (
            view.layout(Query::ShardLayout(genesis.epoch_id))->Ok_0.shard_index_of(shard_id),
            view.roots(Query::GenesisStateRoots),
        ) {
            (Err(e), _) => genesis_chunk_extra(genesis, shard_id, view) == Err::<
                GenesisChunkExtra,
                Stop,
            >(Stop::Fail(e)),
            (Ok(_), Ok(None)) => genesis_chunk_extra(genesis, shard_id, view) == Err::<
                GenesisChunkExtra,
                Stop,
            >(Stop::Fail(Error::NoGenesisStateRoots)),
            (Ok(shard_index), Ok(Some(roots))) => shard_index >= roots@.len()
                ==> genesis_chunk_extra(genesis, shard_id, view) == Err::<GenesisChunkExtra, Stop>(
                Stop::Fail(Error::NoGenesisStateRoot { shard_id, shard_index }),
            ),
            _ => true,
        },
{
}

/// A chunk header is completed by what was executed before it: after genesis by
/// what genesis left behind; otherwise by the result of the shard that its shard
/// stems from.
pub open spec fn is_completed<'a>(
    header: SpiceChunkHeader<'a>,
    witness: &'a ChunkStateWitness<'a>,
    prev_block_header: BlockHeader,
    results: Option<&'a ByHash<ExecutionResult>>,
    view: &ChainView,
) -> bool {
    let shard_id = witness.chunk_header.shard_id;
    &&& header.chunk_header == witness.chunk_header
    &&& if prev_block_header.is_genesis() {
        &&& header.prev_chunk_extra matches PrevChunkExtra::Genesis(extra)
        &&& is_left_by_genesis(extra, prev_block_header, shard_id, view)
        &&& header.prev_outgoing_receipts_root.hi == 0
        &&& header.prev_outgoing_receipts_root.lo == 0
    } else {
        &&& view.number(
            Query::PrevShardId { prev_block_hash: prev_block_header.hash, shard_id },
        ) matches Ok(prev_shard_id)
        &&& exists|i: int| #[trigger]
            is_completed_by(header, walked(results), i, prev_shard_id)
    }
}

/// A header is completed by one of the results, the first of a shard.
pub open spec fn is_completed_by(
    header: SpiceChunkHeader,
    results: Seq<(CryptoHash, ExecutionResult)>,
    i: int,
    shard_id: u64,
) -> bool {
    &&& 0 <= i < results.len()
    &&& results[i].1.shard_id == shard_id
    &&& forall|j: int| 0 <= j < i ==> (#[trigger] results[j]).1.shard_id != shard_id
    &&& header.prev_chunk_extra == PrevChunkExtra::Executed(&results[i].1.chunk_extra)
    &&& header.prev_outgoing_receipts_root == results[i].1.outgoing_receipts_root
}

/// What is laid out to be executed for a witness: for a block after genesis the
/// chunk of the witness, with its transactions, the given receipts and flags, and
/// the header completed by what was executed before; on the nodes that the witness
/// brings, or on the store of the node right after genesis. For genesis itself what
/// it leaves behind.
pub open spec fn is_laid_out<'a>(
    transition: MainTransitionView<'a>,
    witness: &'a ChunkStateWitness<'a>,
    block: &Block,
    prev_block_header: BlockHeader,
    results: Option<&'a ByHash<ExecutionResult>>,
    receipts: Seq<Receipt>,
    flags: Seq<bool>,
    view: &ChainView,
) -> bool {
    match transition {
        MainTransitionView::Genesis { chunk_extra, block_hash, shard_id } => {
            &&& block.header.is_genesis()
            &&& block_hash == block.header.hash
            &&& shard_id == witness.chunk_header.shard_id
            &&& is_left_by_genesis(chunk_extra, prev_block_header, shard_id, view)
        },
        MainTransitionView::NewChunk(data) => {
            &&& !block.header.is_genesis()
            &&& is_completed(data.chunk_header, witness, prev_block_header, results, view)
            &&& data.transactions == witness.transactions
            &&& data.transaction_validity_check_results == flags
            &&& data.receipts == receipts
            &&& view.number(
                Query::WitnessBlockContext {
                    block_hash: block.header.hash,
                    prev_block_hash: prev_block_header.hash,
                },
            ) == Ok::<u64, Stop>(data.block)
            &&& data.storage_data_source == (if prev_block_header.is_genesis() {
                StorageDataSource::Db
            } else {
                StorageDataSource::Recorded(&witness.main_state_transition.base_state)
            })
        },
    }
}

/// All that is read to lay out the execution of a witness is known.
pub open spec fn can_be_laid_out<'a>(
    witness: &'a ChunkStateWitness<'a>,
    block: &Block,
    prev_block_header: BlockHeader,
    results: Option<&'a ByHash<ExecutionResult>>,
    view: &ChainView,
) -> bool {
    let shard_id = witness.chunk_header.shard_id;
    &&& block.header.is_genesis() || prev_block_header.is_genesis() ==> exists|
        extra: GenesisChunkExtra,
    | #[trigger]
        is_left_by_genesis(extra, prev_block_header, shard_id, view)
    &&& !block.header.is_genesis() ==> view.number(
        Query::WitnessBlockContext {
            block_hash: block.header.hash,
            prev_block_hash: prev_block_header.hash,
        },
    ) is Ok
    &&& !block.header.is_genesis() && !prev_block_header.is_genesis() ==> (view.number(
        Query::PrevShardId { prev_block_hash: prev_block_header.hash, shard_id },
    ) matches Ok(prev_shard_id) && exists|i: int|
        0 <= i < walked(results).len() && (#[trigger] walked(results)[i]).1.shard_id
            == prev_shard_id)
}

/// The execution of a witness is laid out as it has to be, and it is whenever all
/// is known that it takes.
pub proof fn execution_is_laid_out<'a>(
    witness: &'a ChunkStateWitness<'a>,
    block: &Block,
    prev_block_header: BlockHeader,
    results: Option<&'a ByHash<ExecutionResult>>,
    receipts: Seq<Receipt>,
    flags: Seq<bool>,
    view: &ChainView,
)
    ensures
        main_transition(
            witness,
            block,
            prev_block_header,
            results,
            receipts,
            flags,
            view,
        ) matches Ok(transition) ==> is_laid_out(
            transition,
            witness,
            block,
            prev_block_header,
            results,
            receipts,
            flags,
            view,
        ),
        can_be_laid_out(witness, block, prev_block_header, results, view) ==> main_transition(
            witness,
            block,
            prev_block_header,
            results,
            receipts,
            flags,
            view,
        ) is Ok,
{
    let shard_id = witness.chunk_header.shard_id;
    let outcome = main_transition(
        witness,
        block,
        prev_block_header,
        results,
        receipts,
        flags,
        view,
    );
    genesis_extra_is_found(prev_block_header, shard_id, view);
    assert(results_of(results) == walked(results));
    if let Ok(prev_shard_id) = view.number(
        Query::PrevShardId { prev_block_hash: prev_block_header.hash, shard_id },
    ) {
        found_result_is_of_the_shard(walked(results), prev_shard_id);
        if let Ok(MainTransitionView::NewChunk(data)) = outcome {
            if !prev_block_header.is_genesis() {
                let result = result_of_shard(walked(results), prev_shard_id)->0;
                let i = choose|i: int|
                    0 <= i < walked(results).len() && (#[trigger] walked(results)[i]).1 == result
                        && forall|j: int|
                        0 <= j < i ==> (#[trigger] walked(results)[j]).1.shard_id != prev_shard_id;
                assert(is_completed_by(data.chunk_header, walked(results), i, prev_shard_id));
            }
        }
    }
    if can_be_laid_out(witness, block, prev_block_header, results, view) {
        if block.header.is_genesis() || prev_block_header.is_genesis() {
            let extra = choose|extra: GenesisChunkExtra| #[trigger]
                is_left_by_genesis(extra, prev_block_header, shard_id, view);
            assert(genesis_chunk_extra(prev_block_header, shard_id, view) is Ok);
        }
    }
}

/// Some chunk of a block has no result on record.
pub open spec fn lacks_a_result(block: &Block, known: Map<CryptoHash, ExecutionResult>) -> bool {
    exists|i: int|
        0 <= i < block.chunks@.len() && !known.contains_key(
            (#[trigger] block.chunks@[i]).chunk_hash.0,
        )
}

/// Whether a block was executed: genesis counts as executed; any other block was
/// once each of its chunks has a result on record. It is a failure if nothing at
/// all is on record, and an assumption is broken if there are results of other
/// chunks besides.
pub proof fn block_is_executed_once_all_chunks_are(
    processor: &CoreStatementsProcessor,
    block_hash: CryptoHash,
    block: &Block,
    view: &ChainView,
)
    requires
        view.block(Query::Block(block_hash)) == Ok::<&Block, Stop>(block),
    ensures
        ({
            let outcome = processor.results_exist(block_hash, view);
            let on_record = processor.statements()@;
            if block.header.is_genesis() {
                outcome == Ok::<bool, Stop>(true)
            } else if !on_record.contains_key(block_hash) {
                outcome == Err::<bool, Stop>(Stop::Fail(Error::NoExecutionResults(block_hash)))
            } else if lacks_a_result(block, on_record[block_hash]) {
                outcome == Ok::<bool, Stop>(false)
            } else if on_record[block_hash].dom().len() == block.chunks@.len() {
                outcome == Ok::<bool, Stop>(true)
            } else {
                outcome == Err::<bool, Stop>(Stop::Broken(Assumption::NoSurplusResults))
            }
        }),
{
    if processor.statements()@.contains_key(block_hash) {
        let known = processor.statements()@[block_hash];
        if lacks_a_result(block, known) {
            let i = choose|i: int|
                0 <= i < block.chunks@.len() && !known.contains_key(
                    (#[trigger] block.chunks@[i]).chunk_hash.0,
                );
            assert(!crate::core_statements::all_executed(block, known));
        } else {
            assert(crate::core_statements::all_executed(block, known));
        }
    }
}

/// The results that the chunks after a block build on: none after genesis,
/// otherwise those on record of the block.
pub open spec fn builds_on<'a>(
    results: Option<&'a ByHash<ExecutionResult>>,
    processor: &'a CoreStatementsProcessor,
    prev_hash: CryptoHash,
    prev_block_header: BlockHeader,
) -> bool {
    if prev_block_header.is_genesis() {
        results is None
    } else {
        results is Some && processor.statements().results(prev_hash) == results
    }
}

/// What a witness for a block has to meet to be executed: it names the epoch of the
/// block and is about one of its chunks; the version of the header is allowed; and
/// the receipts and the transactions have the digest and the root that are claimed.
pub open spec fn meets<'a>(
    witness: &'a ChunkStateWitness<'a>,
    block: &Block,
    prev_block_header: BlockHeader,
    results: Option<&'a ByHash<ExecutionResult>>,
    receipts: Seq<Receipt>,
    view: &ChainView,
) -> bool {
    &&& view.header(Query::BlockHeader(block.header.prev_hash)) == Ok::<BlockHeader, Stop>(
        prev_block_header,
    )
    &&& view.digest(Query::EpochId(block.header.hash)) == Ok::<CryptoHash, Stop>(
        witness.epoch_id.0,
    )
    &&& block.contains(witness.chunk_header)
    &&& view.version(Query::EpochInfoVersion(witness.epoch_id)) matches Ok(version)
    &&& witness.chunk_header.version_check(version) is Ok
    &&& source_receipts(
        witness.source_receipt_proofs@,
        results,
        witness.chunk_header.shard_id,
        prev_block_header.hash,
        *block,
        view,
    ) == Ok::<Seq<Receipt>, Stop>(receipts)
    &&& receipts.len() <= u32::MAX
    &&& receipts_digest(receipts) == witness.applied_receipts_hash
    &&& root_of_transactions(witness.transactions@) == witness.chunk_header.tx_root
}

/// What a witness has to meet to be executed: it meets what is asked of a witness for
/// a known block, and the block before was executed.
pub open spec fn passes<'a>(
    witness: &'a ChunkStateWitness<'a>,
    block: &Block,
    prev_block_header: BlockHeader,
    results: Option<&'a ByHash<ExecutionResult>>,
    receipts: Seq<Receipt>,
    processor: &'a CoreStatementsProcessor,
    view: &ChainView,
) -> bool {
    let prev_hash = block.header.prev_hash;
    &&& view.block(Query::Block(witness.main_state_transition.block_hash)) == Ok::<&Block, Stop>(
        block,
    )
    &&& builds_on(results, processor, prev_hash, prev_block_header)
    &&& processor.results_exist(prev_hash, view) == Ok::<bool, Stop>(true)
    &&& meets(witness, block, prev_block_header, results, receipts, view)
}

/// What is executed to check a witness: the chunk that it is about, and the
/// resharding that the block brings for its shard.
pub open spec fn is_to_be_executed<'a>(
    output: PreValidationOutputView<'a>,
    witness: &'a ChunkStateWitness<'a>,
    block: &Block,
    prev_block_header: BlockHeader,
    results: Option<&'a ByHash<ExecutionResult>>,
    receipts: Seq<Receipt>,
    view: &ChainView,
) -> bool {
    let shard_id = witness.chunk_header.shard_id;
    &&& view.uid(Query::ShardUid { shard_id, epoch_id: witness.epoch_id }) matches Ok(shard_uid)
    &&& view.transition(
        Query::ReshardingTransition { block_hash: block.header.hash, shard_uid },
    ) == Ok::<Option<u64>, Stop>(output.implicit_transition_params)
    &&& transaction_validity(
        witness.transactions@,
        prev_block_header.hash,
        view,
    ) matches Ok(flags)
    &&& is_laid_out(
        output.main_transition_params,
        witness,
        block,
        prev_block_header,
        results,
        receipts,
        flags,
        view,
    )
}

/// Of the witnesses for a block only those that meet what is asked of them are
/// executed, and what is executed is the chunk that each is about.
pub proof fn pre_validated_witness_meets<'a>(
    witness: &'a ChunkStateWitness<'a>,
    block: &Block,
    results: Option<&'a ByHash<ExecutionResult>>,
    output: PreValidationOutputView<'a>,
    view: &ChainView,
)
    requires
        pre_validation(witness, block, results, view) == Ok::<PreValidationOutputView<'a>, Stop>(
            output,
        ),
    ensures
        exists|prev: BlockHeader, receipts: Seq<Receipt>|
            #![trigger meets(witness, block, prev, results, receipts, view)]
            meets(witness, block, prev, results, receipts, view) && is_to_be_executed(
                output,
                witness,
                block,
                prev,
                results,
                receipts,
                view,
            ),
{
    let prev = view.header(Query::BlockHeader(block.header.prev_hash))->Ok_0;
    let receipts = source_receipts(
        witness.source_receipt_proofs@,
        results,
        witness.chunk_header.shard_id,
        prev.hash,
        *block,
        view,
    )->Ok_0;
    let flags = transaction_validity(witness.transactions@, prev.hash, view)->Ok_0;
    execution_is_laid_out(witness, block, prev, results, receipts, flags, view);
    assert(meets(witness, block, prev, results, receipts, view));
    assert(is_to_be_executed(output, witness, block, prev, results, receipts, view));
}

/// All that is read besides to execute a witness that meets what is asked of it.
pub open spec fn rest_is_known<'a>(
    witness: &'a ChunkStateWitness<'a>,
    block: &Block,
    prev: BlockHeader,
    results: Option<&'a ByHash<ExecutionResult>>,
    view: &ChainView,
) -> bool {
    let shard_id = witness.chunk_header.shard_id;
    &&& view.uid(Query::ShardUid { shard_id, epoch_id: witness.epoch_id }) matches Ok(shard_uid)
    &&& view.transition(
        Query::ReshardingTransition { block_hash: block.header.hash, shard_uid },
    ) is Ok
    &&& forall|i: int|
        0 <= i < witness.transactions@.len() ==> !(view.flag(
            Query::TransactionValid {
                prev_block_hash: prev.hash,
                base_block_hash: (#[trigger] witness.transactions@[i]).base(),
            },
        ) matches Err(Stop::Need(_)))
    &&& can_be_laid_out(witness, block, prev, results, view)
}

/// A witness for a block that meets what is asked of it is executed, as soon as all
/// is known that this takes.
pub proof fn meeting_witness_is_pre_validated<'a>(
    witness: &'a ChunkStateWitness<'a>,
    block: &Block,
    prev: BlockHeader,
    results: Option<&'a ByHash<ExecutionResult>>,
    receipts: Seq<Receipt>,
    view: &ChainView,
)
    requires
        meets(witness, block, prev, results, receipts, view),
        rest_is_known(witness, block, prev, results, view),
    ensures
        pre_validation(witness, block, results, view) is Ok,
{
    each_transaction_is_checked(witness.transactions@, prev.hash, view);
    let flags = transaction_validity(witness.transactions@, prev.hash, view)->Ok_0;
    execution_is_laid_out(witness, block, prev, results, receipts, flags, view);
    assert(witness.epoch_id == EpochId(witness.epoch_id.0));
}

/// Only a witness that meets all that it has to is executed, and what is executed
/// is the chunk that it is about.
pub proof fn executed_witness_passes<'a>(
    processor: &'a CoreStatementsProcessor,
    witness: &'a ChunkStateWitness<'a>,
    output: PreValidationOutputView<'a>,
    view: &ChainView,
)
    requires
        processor.prepared(witness, view) == Ok::<PreValidationOutputView<'a>, Stop>(output),
    ensures
        exists|
            block: &Block,
            prev: BlockHeader,
            results: Option<&'a ByHash<ExecutionResult>>,
            receipts: Seq<Receipt>,
        |
            #![trigger passes(witness, block, prev, results, receipts, processor, view)]
            passes(witness, block, prev, results, receipts, processor, view) && is_to_be_executed(
                output,
                witness,
                block,
                prev,
                results,
                receipts,
                view,
            ),
{
    let block = view.block(Query::Block(witness.main_state_transition.block_hash))->Ok_0;
    let prev_header = view.header(Query::BlockHeader(block.header.prev_hash))->Ok_0;
    let results = if prev_header.is_genesis() {
        None
    } else {
        processor.statements().results(block.header.prev_hash)
    };
    pre_validated_witness_meets(witness, block, results, output, view);
    let (prev, receipts) = choose|prev: BlockHeader, receipts: Seq<Receipt>|
        #![trigger meets(witness, block, prev, results, receipts, view)]
        meets(witness, block, prev, results, receipts, view) && is_to_be_executed(
            output,
            witness,
            block,
            prev,
            results,
            receipts,
            view,
        );
    assert(passes(witness, block, prev, results, receipts, processor, view));
}

/// A witness that meets all that it has to is executed, as soon as all is known that
/// this takes.
pub proof fn passing_witness_is_executed<'a>(
    processor: &'a CoreStatementsProcessor,
    witness: &'a ChunkStateWitness<'a>,
    block: &Block,
    prev: BlockHeader,
    results: Option<&'a ByHash<ExecutionResult>>,
    receipts: Seq<Receipt>,
    view: &ChainView,
)
    requires
        passes(witness, block, prev, results, receipts, processor, view),
        rest_is_known(witness, block, prev, results, view),
    ensures
        processor.prepared(witness, view) is Ok,
{
    meeting_witness_is_pre_validated(witness, block, prev, results, receipts, view);
}

/// Why a witness is not executed, once its block and the one before are known: it
/// cannot be yet where the block before was not executed; the node has to halt where
/// it names another epoch, or a chunk that is not in the block; and it is refused
/// where the header has a version that is not allowed, and, with what was computed
/// and what was claimed, where the receipts or the transactions are not those
/// claimed.
pub proof fn witness_is_refused_with_reason<'a>(
    processor: &'a CoreStatementsProcessor,
    witness: &'a ChunkStateWitness<'a>,
    block: &Block,
    prev: BlockHeader,
    results: Option<&'a ByHash<ExecutionResult>>,
    view: &ChainView,
)
    requires
        view.block(Query::Block(witness.main_state_transition.block_hash)) == Ok::<&Block, Stop>(
            block,
        ),
        view.header(Query::BlockHeader(block.header.prev_hash)) == Ok::<BlockHeader, Stop>(prev),
    ensures
        ({
            let prev_hash = block.header.prev_hash;
            let missing = Stop::Fail(Error::MissingPreviousExecutionResults(prev_hash));
            let outcome = processor.prepared(witness, view);
            &&& !prev.is_genesis() && processor.statements().results(prev_hash) is None ==> outcome
                == Err::<PreValidationOutputView<'a>, Stop>(missing)
            &&& builds_on(results, processor, prev_hash, prev) ==> match (
                processor.results_exist(prev_hash, view),
                view.digest(Query::EpochId(block.header.hash)),
            ) {
                (Err(stop), _) => outcome == Err::<PreValidationOutputView<'a>, Stop>(stop),
                (Ok(false), _) => outcome == Err::<PreValidationOutputView<'a>, Stop>(missing),
                (Ok(true), Err(stop)) => outcome == Err::<PreValidationOutputView<'a>, Stop>(stop),
                (Ok(true), Ok(epoch_hash)) => {
                    if epoch_hash != witness.epoch_id.0 {
                        outcome == Err::<PreValidationOutputView<'a>, Stop>(
                            Stop::Broken(Assumption::WitnessEpoch),
                        )
                    } else if !block.contains(witness.chunk_header) {
                        outcome == Err::<PreValidationOutputView<'a>, Stop>(
                            Stop::Broken(Assumption::WitnessChunkInBlock),
                        )
                    } else {
                        view.version(Query::EpochInfoVersion(witness.epoch_id)) matches Ok(version)
                            ==> (witness.chunk_header.version_check(version) matches Err(e)
                            ==> outcome == Err::<PreValidationOutputView<'a>, Stop>(
                            Stop::Fail(e),
                        ))
                    }
                },
            }
        }),
{
}

/// A witness whose receipts or transactions are not those claimed is refused with
/// what was computed and what was claimed.
pub proof fn wrong_contents_are_refused<'a>(
    witness: &'a ChunkStateWitness<'a>,
    block: &Block,
    prev: BlockHeader,
    results: Option<&'a ByHash<ExecutionResult>>,
    receipts: Seq<Receipt>,
    view: &ChainView,
)
    requires
        source_receipts(
            witness.source_receipt_proofs@,
            results,
            witness.chunk_header.shard_id,
            prev.hash,
            *block,
            view,
        ) == Ok::<Seq<Receipt>, Stop>(receipts),
    ensures
        ({
            let outcome = crate::validation::checked_contents(witness, block, prev, results, view);
            let computed = receipts_digest(receipts);
            let root = root_of_transactions(witness.transactions@);
            if receipts.len() > u32::MAX {
                outcome == Err::<(Seq<Receipt>, Seq<bool>), Stop>(
                    Stop::Broken(Assumption::ReceiptCount),
                )
            } else if computed != witness.applied_receipts_hash {
                outcome == Err::<(Seq<Receipt>, Seq<bool>), Stop>(
                    Stop::Fail(
                        Error::InvalidChunkStateWitness(
                            WitnessFault::ReceiptsHash {
                                computed,
                                claimed: witness.applied_receipts_hash,
                            },
                        ),
                    ),
                )
            } else if root != witness.chunk_header.tx_root {
                outcome == Err::<(Seq<Receipt>, Seq<bool>), Stop>(
                    Stop::Fail(
                        Error::InvalidChunkStateWitness(
                            WitnessFault::TransactionRoot {
                                computed: root,
                                claimed: witness.chunk_header.tx_root,
                            },
                        ),
                    ),
                )
            } else {
                outcome is Ok <==> transaction_validity(
                    witness.transactions@,
                    prev.hash,
                    view,
                ) is Ok
            }
        }),
{
}

/// What comes of a witness that passed the checks: without an outcome it is to be
/// executed; a failed execution refuses it; and where it was executed it is valid,
/// with what the execution came to.
pub proof fn executed_witness_is_valid<'a>(
    processor: &'a CoreStatementsProcessor,
    witness: &'a ChunkStateWitness<'a>,
    view: &ChainView,
    applied: Option<Result<AppliedWitness, Error>>,
)
    ensures
        match (processor.prepared(witness, view), applied) {
            (Err(stop), _) => processor.validation(witness, view, applied) == Err::<
                ValidationView<'a>,
                Stop,
            >(stop),
            (Ok(output), None) => processor.validation(witness, view, applied) == Ok::<
                ValidationView<'a>,
                Stop,
            >(ValidationView::Apply(output)),
            (Ok(_), Some(Err(e))) => processor.validation(witness, view, applied) == Err::<
                ValidationView<'a>,
                Stop,
            >(Stop::Fail(e)),
            (Ok(_), Some(Ok(done))) => processor.validation(witness, view, applied) == Ok::<
                ValidationView<'a>,
                Stop,
            >(
                ValidationView::Valid(
                    ValidatedWitness {
                        chunk_header: witness.chunk_header,
                        chunk_extra: done.chunk_extra,
                        outgoing_receipts_root: done.outgoing_receipts_root,
                    },
                ),
            ),
        },
{
}

/// An endorsement goes to all validators of the epoch of the chunk but to the one
/// who sends it, in their order, and states the execution. That the epoch of the
/// chunk is not known halts the node.
pub proof fn endorsement_goes_to_all_others<'a>(
    header: &'a ShardChunkHeader,
    result: ExecutionResult,
    me: &AccountId,
    view: &'a ChainView,
)
    ensures
        ({
            let outcome = endorsement_request(header, result, me, view);
            match view.digest(Query::EpochIdFromPrevBlock(header.prev_block_hash)) {
                Err(Stop::Fail(e)) => outcome == Err::<EndorsementRequestView<'a>, Stop>(
                    Stop::Broken(Assumption::EpochOfChunk(e)),
                ),
                Err(stop) => outcome == Err::<EndorsementRequestView<'a>, Stop>(stop),
                Ok(epoch_hash) => match view.accounts(Query::AllValidators(EpochId(epoch_hash))) {
                    Err(stop) => outcome == Err::<EndorsementRequestView<'a>, Stop>(stop),
                    Ok(validators) => outcome matches Ok(request) && request.epoch_id == EpochId(
                        epoch_hash,
                    ) && request.chunk_header == header && request.execution_result == result
                        && request.recipients == validators@.filter(
                        |account: AccountId| account.0@ != me.0@,
                    ),
                },
            }
        }),
{
}

/// A valid witness is endorsed to all validators of the epoch of its chunk but this
/// node, in their order, and the endorsement states the block, the chunk and the
/// shard of the witness and what the execution came to. That the epoch of the chunk
/// is not known halts the node.
pub proof fn valid_witness_is_endorsed<'a>(
    processor: &'a CoreStatementsProcessor,
    witness: &'a ChunkStateWitness<'a>,
    view: &'a ChainView,
    done: AppliedWitness,
    me: &AccountId,
)
    requires
        processor.prepared(witness, view) is Ok,
    ensures
        ({
            let header = witness.chunk_header;
            let outcome = processor.endorsing(witness, view, Some(Ok(done)), me);
            match view.digest(Query::EpochIdFromPrevBlock(header.prev_block_hash)) {
                Err(Stop::Fail(e)) => outcome == Err::<EndorsingView<'a>, Stop>(
                    Stop::Broken(Assumption::EpochOfChunk(e)),
                ),
                Err(stop) => outcome == Err::<EndorsingView<'a>, Stop>(stop),
                Ok(epoch_hash) => match view.accounts(Query::AllValidators(EpochId(epoch_hash))) {
                    Err(stop) => outcome == Err::<EndorsingView<'a>, Stop>(stop),
                    Ok(validators) => outcome == Ok::<EndorsingView<'a>, Stop>(
                        EndorsingView::Send(
                            EndorsementRequestView {
                                epoch_id: EpochId(epoch_hash),
                                chunk_header: header,
                                execution_result: ExecutionResult {
                                    block_hash: witness.main_state_transition.block_hash,
                                    chunk_hash: header.chunk_hash,
                                    shard_id: header.shard_id,
                                    chunk_extra: done.chunk_extra,
                                    outgoing_receipts_root: done.outgoing_receipts_root,
                                },
                                recipients: validators@.filter(
                                    |account: AccountId| account.0@ != me.0@,
                                ),
                            },
                        ),
                    ),
                },
            }
        }),
{
}

/// A witness that is not valid yet is not endorsed: it has to be executed first, or
/// why it was not found valid is handed on.
pub proof fn only_valid_witness_is_endorsed<'a>(
    processor: &'a CoreStatementsProcessor,
    witness: &'a ChunkStateWitness<'a>,
    view: &'a ChainView,
    applied: Option<Result<AppliedWitness, Error>>,
    me: &AccountId,
)
    ensures
        match (processor.prepared(witness, view), applied) {
            (Err(stop), _) => processor.endorsing(witness, view, applied, me) == Err::<
                EndorsingView<'a>,
                Stop,
            >(stop),
            (Ok(output), None) => processor.endorsing(witness, view, applied, me) == Ok::<
                EndorsingView<'a>,
                Stop,
            >(EndorsingView::Apply(output)),
            (Ok(_), Some(Err(e))) => processor.endorsing(witness, view, applied, me) == Err::<
                EndorsingView<'a>,
                Stop,
            >(Stop::Fail(e)),
            (Ok(_), Some(Ok(_))) => true,
        },
{
}

/// What is done about a witness that was received: what its endorsement came to,
/// unless that failed because something is not there yet; then it is kept with its
/// size.
pub proof fn witness_is_endorsed_kept_or_refused<'a>(
    executor: &'a ChunkExecutorActor,
    witness: &'a ChunkStateWitness<'a>,
    raw_witness_size: usize,
    me: &AccountId,
    view: &'a ChainView,
    applied: Option<Result<AppliedWitness, Error>>,
)
    ensures
        ({
            let step = executor.witness_processing(witness, raw_witness_size, me, view, applied);
            match executor.processor().endorsing(witness, view, applied, me) {
                Ok(EndorsingView::Apply(output)) => step == Ok::<WitnessStepView<'a>, Stop>(
                    WitnessStepView::Apply(output),
                ),
                Ok(EndorsingView::Send(request)) => step == Ok::<WitnessStepView<'a>, Stop>(
                    WitnessStepView::Endorse(request),
                ),
                Err(Stop::Fail(e)) => if e is NotFound || e is MissingPreviousExecutionResults {
                    step == Ok::<WitnessStepView<'a>, Stop>(
                        WitnessStepView::Keep(
                            OrphanStateWitness { witness, witness_size: raw_witness_size },
                        ),
                    )
                } else {
                    step == Err::<WitnessStepView<'a>, Stop>(Stop::Fail(e))
                },
                Err(stop) => step == Err::<WitnessStepView<'a>, Stop>(stop),
            }
        }),
{
}

/// What is done about a witness that was kept: it is kept on while the block that it
/// waits for was not executed, and then what its endorsement came to is done.
pub proof fn kept_witness_waits_for_its_block<'a>(
    executor: &'a ChunkExecutorActor,
    witness: &'a ChunkStateWitness<'a>,
    new_block: &Block,
    me: &AccountId,
    view: &'a ChainView,
    applied: Option<Result<AppliedWitness, Error>>,
)
    ensures
        ({
            let step = executor.orphan_processing(witness, new_block, me, view, applied);
            match (
                executor.processor().results_exist(new_block.header.prev_hash, view),
                executor.processor().endorsing(witness, view, applied, me),
            ) {
                (Err(stop), _) => step == Err::<WitnessStepView<'a>, Stop>(stop),
                (Ok(false), _) => step == Ok::<WitnessStepView<'a>, Stop>(
                    WitnessStepView::Keep(OrphanStateWitness { witness, witness_size: 0 }),
                ),
                (Ok(true), Ok(EndorsingView::Apply(output))) => step == Ok::<
                    WitnessStepView<'a>,
                    Stop,
                >(WitnessStepView::Apply(output)),
                (Ok(true), Ok(EndorsingView::Send(request))) => step == Ok::<
                    WitnessStepView<'a>,
                    Stop,
                >(WitnessStepView::Endorse(request)),
                (Ok(true), Err(stop)) => step == Err::<WitnessStepView<'a>, Stop>(stop),
            }
        }),
{
}

/// The verdict on a witness follows from what is to be done about it.
pub proof fn verdict_follows_the_step(step: Result<WitnessStepView, Stop>)
    ensures
        spec_verdict(step) == Some(Verdict::Valid) <==> step matches Ok(
            WitnessStepView::Endorse(_),
        ),
        spec_verdict(step) == Some(Verdict::Early) <==> step matches Ok(WitnessStepView::Keep(_)),
        forall|e: Error| #[trigger]
            spec_verdict(step) == Some(Verdict::Refused(e)) <==> step == Err::<
                WitnessStepView,
                Stop,
            >(Stop::Fail(e)),
{
}

} // verus!
