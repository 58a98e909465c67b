//! What a node makes of the execution of a chunk, and when it can.
use vstd::prelude::*;
use crate::block::{AccountId, Block, ShardLayout, ShardUId};
use crate::error::Error;
use crate::execution_laws::stands_in;
use crate::hash::{digest, CryptoHash};
use crate::job_laws::is_root_of_sent;
use crate::outcome::{
    by_source, chunk_of_shard, collected, header_of, outcome_of, outgoing_proofs, source_of,
    source_proofs, state_witness, witnessed_transition, ApplyResult, ChunkOutcome,
    DistributeStateWitnessRequestView, ShardUpdateResult,
};
use crate::receipts::{
    digests_root, encodings, receipt_list_encoding, receipts_digest, Receipt, ReceiptProof,
};
use crate::view::{Assumption, ChainView, Query, Stop};

verus! {

/// What was done for a shard is about a shard, and an execution brought it about.
pub open spec fn is_about(
    result: ShardUpdateResult,
    shard_uid: ShardUId,
    apply_result: ApplyResult,
) -> bool {
    match result {
        ShardUpdateResult::NewChunk { shard_uid: uid, apply_result: applied, .. } => uid
            == shard_uid && applied == apply_result,
        ShardUpdateResult::OldChunk { shard_uid: uid, apply_result: applied } => uid == shard_uid
            && applied == apply_result,
    }
}

/// The parts of what was done for a shard are the shard that it is about and the
/// execution that brought it about.
pub proof fn parts_are_those_of_the_result(result: ShardUpdateResult)
    ensures
        is_about(result, result.parts().0, result.parts().1),
{
}

/// All results are handed on, in order, if none of the executions failed; otherwise
/// the first failure is.
pub proof fn results_are_handed_on(results: Seq<Result<ShardUpdateResult, Error>>)
    ensures
        match collected(results) {
            Ok(list) => list.len() == results.len() && forall|i: int|
                0 <= i < results.len() ==> #[trigger] results[i] == Ok::<ShardUpdateResult, Error>(
                    list[i],
                ),
            Err(e) => exists|k: int|
                0 <= k < results.len() && #[trigger] results[k] == Err::<ShardUpdateResult, Error>(
                    e,
                ) && forall|i: int| 0 <= i < k ==> (#[trigger] results[i]) is Ok,
        },
    decreases results.len(),
{
    if results.len() > 0 {
        let init = results.drop_last();
        results_are_handed_on(init);
        match collected(init) {
            Ok(before) => {
                assert forall|i: int| 0 <= i < init.len() implies #[trigger] results[i] == Ok::<
                    ShardUpdateResult,
                    Error,
                >(before[i]) by {
                    assert(init[i] == results[i]);
                }
                assert(results[results.len() - 1] == results.last());
            },
            Err(e) => {
                let k = choose|k: int|
                    0 <= k < init.len() && #[trigger] init[k] == Err::<ShardUpdateResult, Error>(e)
                        && forall|i: int| 0 <= i < k ==> (#[trigger] init[i]) is Ok;
                assert(results[k] == init[k]);
                assert forall|i: int| 0 <= i < k implies (#[trigger] results[i]) is Ok by {
                    assert(init[i] == results[i]);
                }
            },
        }
    }
}

/// The chunk of a shard in a block has a header if and only if the layout of the
/// epoch of the block has the shard and the block has a chunk at its index; the
/// header is the one that stands there.
pub proof fn header_stands_in_the_block(block: &Block, shard_id: u64, view: &ChainView)
    ensures
        header_of(block, shard_id, view) matches Ok(header) ==> stands_in(
            header,
            block,
            shard_id,
            view,
        ),
        (view.layout(Query::ShardLayout(block.header.epoch_id)) matches Ok(layout)
            && layout.shard_index_of(shard_id) matches Ok(index) && index < block.chunks@.len())
            <==> header_of(block, shard_id, view) is Ok,
{
}

/// The proofs to send out are those that the chain gives for the receipts of the
/// execution of a chunk, on top of what its shard had sent out before.
pub open spec fn are_sent_out(
    proofs: &Vec<ReceiptProof>,
    block: &Block,
    prev_block_hash: CryptoHash,
    shard_uid: ShardUId,
    receipts: u64,
    view: &ChainView,
) -> bool {
    let shard_id = shard_uid.shard_id as u64;
    &&& view.layout(Query::ShardLayout(block.header.epoch_id)) matches Ok(layout)
    &&& layout.shard_index_of(shard_id) matches Ok(index)
    &&& index < block.chunks@.len()
    &&& exists|root: CryptoHash|
        #![trigger is_root_of_sent(root, prev_block_hash, shard_id, block.header.epoch_id, view)]
        is_root_of_sent(root, prev_block_hash, shard_id, block.header.epoch_id, view)
            && view.proofs(
            Query::OutgoingReceiptProofs {
                block_hash: block.header.hash,
                chunk_hash: block.chunks@[index as int].chunk_hash,
                prev_block_hash,
                shard_uid,
                prev_outgoing_receipts_root: root,
                receipts,
            },
        ) == Ok::<&Vec<ReceiptProof>, Stop>(proofs)
}

/// What is recorded of an execution names the block, the chunk that stands in it for
/// the shard, and the shard; it holds the chunk extra of the block and the merkle
/// root of the receipts of the execution. What is sent out is what the chain gives
/// as the proofs of those receipts.
pub proof fn outcome_is_of_the_execution<'a>(
    block: &Block,
    result: ShardUpdateResult,
    shard_uid: ShardUId,
    apply_result: ApplyResult,
    outcome: ChunkOutcome<'a>,
    view: &'a ChainView,
)
    requires
        is_about(result, shard_uid, apply_result),
        outcome_of(block, result, view) == Ok::<ChunkOutcome<'a>, Stop>(outcome),
    ensures
        ({
            let recorded = outcome.execution_result;
            let receipts = apply_result.outgoing_receipts;
            let epoch_id = block.header.epoch_id;
            &&& view.block(Query::Block(block.header.prev_hash)) matches Ok(prev_block)
            &&& are_sent_out(
                outcome.receipt_proofs,
                block,
                prev_block.header.hash,
                shard_uid,
                receipts,
                view,
            )
            &&& recorded.block_hash == block.header.hash
            &&& recorded.shard_id == shard_uid.shard_id
            &&& view.layout(Query::ShardLayout(epoch_id)) matches Ok(layout)
            &&& layout.shard_index_of(recorded.shard_id) matches Ok(index)
            &&& index < block.chunks@.len()
            &&& recorded.chunk_hash == block.chunks@[index as int].chunk_hash
            &&& view.extra(
                Query::ChunkExtra { block_hash: block.header.hash, shard_uid },
            ) == Ok::<_, Stop>(&recorded.chunk_extra)
            &&& view.hashes(Query::ReceiptsHashes { receipts, epoch_id }) matches Ok(hashes)
            &&& recorded.outgoing_receipts_root == digests_root(hashes@)
        }),
{
    let prev_block = view.block(Query::Block(block.header.prev_hash))->Ok_0;
    let shard_id = shard_uid.shard_id as u64;
    let prev_block_hash = prev_block.header.hash;
    let height = view.number(Query::PrevChunkHeightIncluded { prev_block_hash, shard_id })->Ok_0;
    let sent = view.number(
        Query::OutgoingReceipts {
            block_hash: prev_block_hash,
            shard_id,
            last_height_included: height,
        },
    )->Ok_0;
    let hashes = view.hashes(
        Query::ReceiptsHashes { receipts: sent, epoch_id: block.header.epoch_id },
    )->Ok_0;
    assert(is_root_of_sent(
        digests_root(hashes@),
        prev_block_hash,
        shard_id,
        block.header.epoch_id,
        view,
    ));
}

/// There is an outcome of an execution once all is known that it takes: the previous
/// block and what the shard left behind and sent out there, the chunk, its extra and
/// the digests of its receipts, and the proofs to send out.
pub proof fn known_outcome_is_found(
    block: &Block,
    prev_block: &Block,
    result: ShardUpdateResult,
    shard_uid: ShardUId,
    apply_result: ApplyResult,
    proofs: &Vec<ReceiptProof>,
    view: &ChainView,
)
    requires
        is_about(result, shard_uid, apply_result),
        view.block(Query::Block(block.header.prev_hash)) == Ok::<&Block, Stop>(prev_block),
        view.extra(
            Query::ChunkExtra { block_hash: prev_block.header.hash, shard_uid },
        ) is Ok,
        view.extra(Query::ChunkExtra { block_hash: block.header.hash, shard_uid }) is Ok,
        view.hashes(
            Query::ReceiptsHashes {
                receipts: apply_result.outgoing_receipts,
                epoch_id: block.header.epoch_id,
            },
        ) is Ok,
        are_sent_out(
            proofs,
            block,
            prev_block.header.hash,
            shard_uid,
            apply_result.outgoing_receipts,
            view,
        ),
    ensures
        outcome_of(block, result, view) is Ok,
{
    let shard_id = shard_uid.shard_id as u64;
    let layout = view.layout(Query::ShardLayout(block.header.epoch_id))->Ok_0;
    let index = layout.shard_index_of(shard_id)->Ok_0;
    let header = block.chunks@[index as int];
    assert(header_of(block, shard_id, view) == Ok::<_, Stop>(header));
    assert(outgoing_proofs(
        block,
        prev_block,
        &header,
        shard_uid,
        apply_result.outgoing_receipts,
        view,
    ) is Ok);
}

/// A chunk of a block sent the receipts of a proof: it stands in the block at the
/// index that a layout has for the shard that the proof comes from.
#[verifier::opaque]
pub open spec fn is_sender(
    chunk_hash: CryptoHash,
    proof: ReceiptProof,
    layout: &ShardLayout,
    block: &Block,
) -> bool {
    &&& layout.shard_index_of(proof.shard_proof.from_shard_id) matches Ok(index)
    &&& index < block.chunks@.len()
    &&& block.chunks@[index as int].chunk_hash.0 == chunk_hash
}

/// A proof has a sender in a block.
pub open spec fn has_sender(proof: ReceiptProof, layout: &ShardLayout, block: &Block) -> bool {
    &&& layout.shard_index_of(proof.shard_proof.from_shard_id) matches Ok(index)
    &&& index < block.chunks@.len()
}

/// A place holds the last proof of a list that a chunk sent the receipts of.
pub open spec fn is_last_sent(
    i: int,
    chunk_hash: CryptoHash,
    proofs: Seq<ReceiptProof>,
    layout: &ShardLayout,
    block: &Block,
) -> bool {
    &&& 0 <= i < proofs.len()
    &&& is_sender(chunk_hash, proofs[i], layout, block)
    &&& forall|j: int|
        i < j < proofs.len() ==> !is_sender(chunk_hash, #[trigger] proofs[j], layout, block)
}

/// A table holds, for each chunk of a block that sent the receipts of one of the
/// proofs, the last such proof, and nothing else.
pub open spec fn is_filed_by_sender(
    table: Map<CryptoHash, &ReceiptProof>,
    proofs: Seq<ReceiptProof>,
    layout: &ShardLayout,
    block: &Block,
) -> bool {
    &&& forall|chunk_hash: CryptoHash, i: int| #[trigger]
        is_last_sent(i, chunk_hash, proofs, layout, block) ==> table.contains_key(chunk_hash)
            && *table[chunk_hash] == proofs[i]
    &&& forall|chunk_hash: CryptoHash| #[trigger]
        table.contains_key(chunk_hash) ==> exists|i: int| #[trigger]
            is_last_sent(i, chunk_hash, proofs, layout, block)
}

proof fn lemma_source(proof: ReceiptProof, layout: &ShardLayout, block: &Block)
    ensures
        source_of(&proof, layout, block) is Ok <==> has_sender(proof, layout, block),
        forall|chunk_hash: CryptoHash| #[trigger]
            is_sender(chunk_hash, proof, layout, block) <==> source_of(&proof, layout, block)
                == Ok::<CryptoHash, Error>(chunk_hash),
{
    reveal(chunk_of_shard);
    reveal(is_sender);
}

proof fn lemma_one_more(
    before: Map<CryptoHash, &ReceiptProof>,
    shorter: Seq<ReceiptProof>,
    proof: &ReceiptProof,
    sender: CryptoHash,
    layout: &ShardLayout,
    block: &Block,
)
    requires
        is_filed_by_sender(before, shorter, layout, block),
        forall|chunk_hash: CryptoHash| #[trigger]
            is_sender(chunk_hash, *proof, layout, block) <==> chunk_hash == sender,
    ensures
        is_filed_by_sender(before.insert(sender, proof), shorter.push(*proof), layout, block),
{
    let n = shorter.len() as int;
    let longer = shorter.push(*proof);
    let table = before.insert(sender, proof);
    assert(longer[n] == *proof);
    assert forall|chunk_hash: CryptoHash, i: int| #[trigger]
        is_last_sent(i, chunk_hash, longer, layout, block) implies table.contains_key(chunk_hash)
        && *table[chunk_hash] == longer[i] by {
        if chunk_hash == sender {
            if i < n {
                assert(is_sender(chunk_hash, longer[n], layout, block));
            }
        } else {
            assert(!is_sender(chunk_hash, *proof, layout, block));
            assert(i < n);
            assert(shorter[i] == longer[i]);
            assert forall|j: int| i < j < n implies !is_sender(
                chunk_hash,
                #[trigger] shorter[j],
                layout,
                block,
            ) by {
                assert(shorter[j] == longer[j]);
            }
            assert(is_last_sent(i, chunk_hash, shorter, layout, block));
        }
    }
    assert forall|chunk_hash: CryptoHash| #[trigger]
        table.contains_key(chunk_hash) implies exists|i: int| #[trigger]
        is_last_sent(i, chunk_hash, longer, layout, block) by {
        if chunk_hash == sender {
            assert(is_sender(chunk_hash, *proof, layout, block));
            assert(is_last_sent(n, chunk_hash, longer, layout, block));
        } else {
            assert(before.contains_key(chunk_hash));
            let i = choose|i: int| #[trigger] is_last_sent(i, chunk_hash, shorter, layout, block);
            assert(is_last_sent(i, chunk_hash, shorter, layout, block));
            assert(longer[i] == shorter[i]);
            assert forall|j: int| i < j < longer.len() implies !is_sender(
                chunk_hash,
                #[trigger] longer[j],
                layout,
                block,
            ) by {
                if j < n {
                    assert(shorter[j] == longer[j]);
                } else {
                    assert(!is_sender(chunk_hash, *proof, layout, block));
                }
            }
            assert(is_last_sent(i, chunk_hash, longer, layout, block));
        }
    }
}

proof fn lemma_filed(proofs: &Vec<ReceiptProof>, n: int, layout: &ShardLayout, block: &Block)
    requires
        0 <= n <= proofs@.len(),
        by_source(proofs, n, layout, block) is Ok,
    ensures
        is_filed_by_sender(
            by_source(proofs, n, layout, block)->Ok_0,
            proofs@.take(n),
            layout,
            block,
        ),
        forall|i: int| 0 <= i < n ==> has_sender(#[trigger] proofs@[i], layout, block),
    decreases n,
{
    if n > 0 {
        lemma_filed(proofs, n - 1, layout, block);
        lemma_source(proofs@[n - 1], layout, block);
        assert(proofs@.take(n) =~= proofs@.take(n - 1).push(proofs@[n - 1]));
        lemma_one_more(
            by_source(proofs, n - 1, layout, block)->Ok_0,
            proofs@.take(n - 1),
            &proofs@[n - 1],
            source_of(&proofs@[n - 1], layout, block)->Ok_0,
            layout,
            block,
        );
    }
}

proof fn lemma_can_be_filed(proofs: &Vec<ReceiptProof>, n: int, layout: &ShardLayout, block: &Block)
    requires
        0 <= n <= proofs@.len(),
        forall|i: int| 0 <= i < n ==> has_sender(#[trigger] proofs@[i], layout, block),
    ensures
        by_source(proofs, n, layout, block) is Ok,
    decreases n,
{
    if n > 0 {
        lemma_can_be_filed(proofs, n - 1, layout, block);
        lemma_source(proofs@[n - 1], layout, block);
    }
}

/// The proofs of a list are filed by the chunks that sent their receipts, the last of
/// each chunk, and they can be if and only if each has a sender.
pub proof fn proofs_are_filed_by_sender(
    proofs: &Vec<ReceiptProof>,
    layout: &ShardLayout,
    block: &Block,
)
    ensures
        by_source(proofs, proofs@.len() as int, layout, block) is Ok <==> forall|i: int|
            0 <= i < proofs@.len() ==> has_sender(#[trigger] proofs@[i], layout, block),
        by_source(proofs, proofs@.len() as int, layout, block) matches Ok(table)
            ==> is_filed_by_sender(table, proofs@, layout, block),
{
    let n = proofs@.len() as int;
    assert(proofs@.take(n) =~= proofs@);
    if by_source(proofs, n, layout, block) is Ok {
        lemma_filed(proofs, n, layout, block);
    }
    if forall|i: int| 0 <= i < n ==> has_sender(#[trigger] proofs@[i], layout, block) {
        lemma_can_be_filed(proofs, n, layout, block);
    }
}

/// The witness of the execution of a chunk of a shard that is not one of genesis
/// brings the transition that was stored for the block and the shard, with the
/// digest of the receipts that were applied and the contracts that were called and
/// deployed; it claims the state root of the chunk extra of the block.
pub open spec fn brings_the_stored(
    request: DistributeStateWitnessRequestView,
    block_hash: CryptoHash,
    shard_uid: ShardUId,
    view: &ChainView,
) -> bool {
    let witness = request.state_witness;
    let shard_id = shard_uid.shard_id as u64;
    &&& view.stored_transition(
        Query::StateTransition { block_hash, shard_id },
    ) matches Ok(Some(stored))
    &&& witness.main_state_transition.base_state == stored.base_state@
    &&& witness.applied_receipts_hash == stored.receipts_hash
    &&& request.contract_updates.contract_accesses == stored.contract_accesses@.to_set()
    &&& request.contract_updates.contract_deploys == stored.contract_deploys@
    &&& view.extra(Query::ChunkExtra { block_hash, shard_uid }) matches Ok(extra)
    &&& witness.main_state_transition.post_state_root == extra.state_root
}

/// The witness of a chunk of genesis brings nothing: no state, no receipts and no
/// contracts; it claims the state root that the execution came to.
pub open spec fn brings_nothing(
    request: DistributeStateWitnessRequestView,
    apply_result: ApplyResult,
) -> bool {
    let witness = request.state_witness;
    &&& witness.main_state_transition.base_state.len() == 0
    &&& witness.main_state_transition.post_state_root == apply_result.new_root
    &&& witness.applied_receipts_hash == digest(receipt_list_encoding(Seq::empty()))
    &&& request.contract_updates.contract_accesses == Set::<CryptoHash>::empty()
    &&& request.contract_updates.contract_deploys.len() == 0
}

/// The witness of an execution is about the chunk that stands in the block for the
/// shard, and brings what was stored of the execution, the transactions of the
/// chunk, and the proofs of the receipts that were stored for the shard, filed by
/// the chunks of the previous block that sent them.
pub proof fn witness_brings_what_was_stored<'a>(
    me: Option<&'a AccountId>,
    block: &'a Block,
    result: ShardUpdateResult,
    shard_uid: ShardUId,
    apply_result: ApplyResult,
    request: DistributeStateWitnessRequestView<'a>,
    view: &'a ChainView,
)
    requires
        is_about(result, shard_uid, apply_result),
        state_witness(me, block, result, view) == Ok::<
            DistributeStateWitnessRequestView<'a>,
            Stop,
        >(request),
    ensures
        ({
            let witness = request.state_witness;
            let shard_id = shard_uid.shard_id as u64;
            &&& stands_in(*witness.chunk_header, block, shard_id, view)
            &&& if witness.chunk_header.is_genesis() {
                brings_nothing(request, apply_result)
            } else {
                brings_the_stored(request, block.header.hash, shard_uid, view)
            }
            &&& witness.main_state_transition.block_hash == block.header.hash
            &&& request.main_transition_shard_id == shard_id
            &&& me == Some(witness.chunk_producer)
            &&& witness.epoch_id == block.header.epoch_id
            &&& witness.implicit_transitions.len() == 0
            &&& view.transactions(
                Query::ChunkTransactions(witness.chunk_header.chunk_hash),
            ) == Ok::<_, Stop>(witness.transactions)
            &&& view.block(Query::Block(block.header.prev_hash)) matches Ok(prev_block)
            &&& view.layout(Query::ShardLayout(prev_block.header.epoch_id)) matches Ok(layout)
            &&& view.proofs(
                Query::IncomingReceipts { block_hash: block.header.prev_hash, shard_id },
            ) matches Ok(stored)
            &&& is_filed_by_sender(witness.source_receipt_proofs, stored@, layout, prev_block)
        }),
{
    let shard_id = shard_uid.shard_id as u64;
    let prev_block = view.block(Query::Block(block.header.prev_hash))->Ok_0;
    let layout = view.layout(Query::ShardLayout(prev_block.header.epoch_id))->Ok_0;
    let stored = view.proofs(
        Query::IncomingReceipts { block_hash: block.header.prev_hash, shard_id },
    )->Ok_0;
    proofs_are_filed_by_sender(stored, layout, prev_block);
    assert(encodings(Seq::<Receipt>::empty()) =~= Seq::<Seq<u8>>::empty());
    assert(receipts_digest(Seq::<Receipt>::empty()) == digest(
        receipt_list_encoding(Seq::<Seq<u8>>::empty()),
    ));
}

/// All is known that the witness of an execution takes but who makes it: the chunk,
/// what was stored of the execution unless the chunk is one of genesis, the receipts
/// and who sent them, and the transactions.
pub open spec fn witness_is_known(
    block: &Block,
    prev_block: &Block,
    shard_uid: ShardUId,
    view: &ChainView,
) -> bool {
    let shard_id = shard_uid.shard_id as u64;
    let block_hash = block.header.hash;
    &&& view.block(Query::Block(block.header.prev_hash)) == Ok::<&Block, Stop>(prev_block)
    &&& view.layout(Query::ShardLayout(block.header.epoch_id)) matches Ok(own_layout)
    &&& own_layout.shard_index_of(shard_id) matches Ok(index)
    &&& index < block.chunks@.len()
    &&& block.chunks@[index as int].is_genesis() || (view.stored_transition(
        Query::StateTransition { block_hash, shard_id },
    ) matches Ok(Some(_)) && view.extra(Query::ChunkExtra { block_hash, shard_uid }) is Ok)
    &&& view.transactions(
        Query::ChunkTransactions(block.chunks@[index as int].chunk_hash),
    ) is Ok
    &&& view.proofs(
        Query::IncomingReceipts { block_hash: block.header.prev_hash, shard_id },
    ) matches Ok(stored)
    &&& view.layout(Query::ShardLayout(prev_block.header.epoch_id)) matches Ok(layout)
    &&& forall|i: int|
        0 <= i < stored@.len() ==> has_sender(#[trigger] stored@[i], layout, prev_block)
}

/// A validator makes a witness once all is known that it takes; a node that is none
/// halts there.
pub proof fn known_witness_is_made<'a>(
    me: Option<&'a AccountId>,
    block: &'a Block,
    prev_block: &Block,
    result: ShardUpdateResult,
    shard_uid: ShardUId,
    apply_result: ApplyResult,
    view: &'a ChainView,
)
    requires
        is_about(result, shard_uid, apply_result),
        witness_is_known(block, prev_block, shard_uid, view),
    ensures
        match me {
            Some(_) => state_witness(me, block, result, view) is Ok,
            None => state_witness(me, block, result, view) == Err::<
                DistributeStateWitnessRequestView<'a>,
                Stop,
            >(Stop::Broken(Assumption::Signer)),
        },
{
    let shard_id = shard_uid.shard_id as u64;
    let layout = view.layout(Query::ShardLayout(prev_block.header.epoch_id))->Ok_0;
    let stored = view.proofs(
        Query::IncomingReceipts { block_hash: block.header.prev_hash, shard_id },
    )->Ok_0;
    proofs_are_filed_by_sender(stored, layout, prev_block);
    assert(header_of(block, shard_id, view) is Ok);
    assert(source_proofs(block, prev_block, shard_id, view) is Ok);
    let header = header_of(block, shard_id, view)->Ok_0;
    assert(witnessed_transition(
        block.header.hash,
        &header,
        shard_uid,
        apply_result,
        view,
    ) is Ok);
}

/// No witness is made of an execution of which nothing was stored for the block and
/// the shard, unless the chunk is one of genesis; that is a failure that names both.
pub proof fn witness_needs_the_stored_transition<'a>(
    me: Option<&'a AccountId>,
    block: &'a Block,
    result: ShardUpdateResult,
    shard_uid: ShardUId,
    apply_result: ApplyResult,
    index: u64,
    layout: &ShardLayout,
    view: &'a ChainView,
)
    requires
        is_about(result, shard_uid, apply_result),
        view.block(Query::Block(block.header.prev_hash)) is Ok,
        view.layout(Query::ShardLayout(block.header.epoch_id)) == Ok::<&ShardLayout, Stop>(layout),
        layout.shard_index_of(shard_uid.shard_id as u64) == Ok::<u64, Error>(index),
        index < block.chunks@.len(),
        !block.chunks@[index as int].is_genesis(),
        view.stored_transition(
            Query::StateTransition {
                block_hash: block.header.hash,
                shard_id: shard_uid.shard_id as u64,
            },
        ) matches Ok(None),
    ensures
        state_witness(me, block, result, view) == Err::<
            DistributeStateWitnessRequestView<'a>,
            Stop,
        >(
            Stop::Fail(
                Error::NoStateTransition {
                    block_hash: block.header.hash,
                    shard_id: shard_uid.shard_id as u64,
                },
            ),
        ),
{
}

} // verus!
