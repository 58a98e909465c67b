//! What is saved of the receipts that come in, and what others make of it.
use vstd::prelude::*;
use vstd::set_lib::{lemma_int_range, lemma_subset_equality, set_int_range};
use crate::block::{Block, ShardLayout};
use crate::by_hash::{distinct_keys, lemma_table_len, lemma_table_of, table_of, ByHash};
use crate::error::Error;
use crate::executor::saving;
use crate::hash::{CryptoHash, EpochId};
use crate::incoming::{
    arranged, brings, brings_from_all, complete_from, for_shard, lemma_for_shard,
    plan, planned, targets,
};
use crate::order::{
    arrangement, by_from_shard, first_of_each, lemma_by_from_shard,
    lemma_first_of_each, placed, spec_is_shuffle, Placed,
};
use crate::order_laws::{
    arrival_order_does_not_matter, distinct_from, distinct_shards, first_for, has_result,
    lemma_first_for, lemma_group, lemma_group_covers, lemma_in_places, lemma_sorted_strictly,
    matched, same_proofs_same_order, saved_for, saved_items, stands_for,
    witness_brings_received, witness_order_is_saved_order,
};
use crate::outcome::{by_source, chunk_of_shard, source_of};
use crate::receipts::{receipts_of, Receipt, ReceiptProof};
use crate::statements::ExecutionResult;
use crate::validation::{
    gathered, lemma_all_gathered, lemma_gathered, results_of, source_proof_check,
    source_receipts,
};
use crate::view::{ChainView, Query, Stop};

verus! {

/// A shard with the places of its items under the shuffle with a block hash as salt.
pub open spec fn is_arranged(
    items: Seq<Placed>,
    shard_id: u64,
    block_hash: CryptoHash,
    view: &ChainView,
    group: (u64, Seq<usize>),
) -> bool {
    let order = view.shuffle(block_hash, for_shard(items, shard_id).len() as usize);
    &&& group.0 == shard_id
    &&& order is Ok
    &&& group.1 == arrangement(for_shard(items, shard_id), order->Ok_0@)
}

pub proof fn lemma_arranged(
    items: Seq<Placed>,
    shard_ids: Seq<u64>,
    block_hash: CryptoHash,
    view: &ChainView,
)
    requires
        arranged(items, shard_ids, block_hash, view) is Ok,
    ensures
        ({
            let groups = arranged(items, shard_ids, block_hash, view)->Ok_0;
            &&& groups.len() == shard_ids.len()
            &&& forall|g: int|
                0 <= g < groups.len() ==> is_arranged(
                    items,
                    shard_ids[g],
                    block_hash,
                    view,
                    #[trigger] groups[g],
                )
        }),
    decreases shard_ids.len(),
{
    let groups = arranged(items, shard_ids, block_hash, view)->Ok_0;
    if shard_ids.len() > 0 {
        let init = shard_ids.drop_last();
        lemma_arranged(items, init, block_hash, view);
        let before = arranged(items, init, block_hash, view)->Ok_0;
        assert forall|g: int| 0 <= g < groups.len() implies is_arranged(
            items,
            shard_ids[g],
            block_hash,
            view,
            #[trigger] groups[g],
        ) by {
            if g < before.len() {
                assert(groups[g] == before[g]);
                assert(init[g] == shard_ids[g]);
            }
        }
    } else {
        assert(groups.len() == 0);
    }
}

/// What is saved for a shard are the proofs saved for it under the shuffle with
/// the hash of the block as salt.
pub proof fn lemma_saving(
    received: Seq<ReceiptProof>,
    block_hash: CryptoHash,
    view: &ChainView,
    g: int,
)
    requires
        saving(Some(received), block_hash, view) matches Ok(Some(groups)) && 0 <= g < groups.len(),
    ensures
        ({
            let groups = saving(Some(received), block_hash, view)->Ok_0->0;
            let items = saved_items(received, groups[g].0);
            let order = view.shuffle(block_hash, items.len() as usize);
            &&& order is Ok
            &&& groups[g].1 == saved_for(received, groups[g].0, order->Ok_0@)
        }),
{
    let items = first_of_each(placed(received));
    let shard_ids = targets(items, block_hash, view)->Ok_0;
    lemma_arranged(items, shard_ids, block_hash, view);
    let places = plan(received, block_hash, view)->Ok_0;
    let groups = saving(Some(received), block_hash, view)->Ok_0->0;
    assert(groups == planned(received, places));
    assert(is_arranged(items, shard_ids[g], block_hash, view, places[g]));
}

/// The receipts that a witness check finds to be applied are those that the
/// executor saved for the shard, one after the other: where the executor saved
/// the receipts of a block, and a witness for a chunk of the next block brings
/// what was received, a check that accepts the receipts gives the same list.
pub proof fn witness_applies_saved_receipts(
    received: Seq<ReceiptProof>,
    prev_block_hash: CryptoHash,
    block: Block,
    prev_execution_results: &ByHash<ExecutionResult>,
    source_receipt_proofs: Map<CryptoHash, &ReceiptProof>,
    view: &ChainView,
    g: int,
)
    requires
        view.consistent(),
        received.len() <= usize::MAX,
        prev_execution_results.entries().len() <= usize::MAX,
        !block.header.is_genesis(),
        saving(Some(received), prev_block_hash, view) matches Ok(Some(groups)) && 0 <= g
            < groups.len() && witness_brings_received(
            received,
            prev_execution_results.entries(),
            source_receipt_proofs,
            groups[g].0,
        ) && source_receipts(
            source_receipt_proofs,
            Some(prev_execution_results),
            groups[g].0,
            prev_block_hash,
            block,
            view,
        ) is Ok,
        distinct_shards(prev_execution_results.entries()),
    ensures
        ({
            let groups = saving(Some(received), prev_block_hash, view)->Ok_0->0;
            source_receipts(
                source_receipt_proofs,
                Some(prev_execution_results),
                groups[g].0,
                prev_block_hash,
                block,
                view,
            ) == Ok::<Seq<Receipt>, Stop>(receipts_of(groups[g].1))
        }),
{
    let groups = saving(Some(received), prev_block_hash, view)->Ok_0->0;
    let shard_id = groups[g].0;
    let results = prev_execution_results.entries();
    lemma_saving(received, prev_block_hash, view, g);
    lemma_gathered(results, source_receipt_proofs, shard_id);
    let order = view.shuffle(prev_block_hash, results.len() as usize)->Ok_0;
    let q = Query::Shuffle { salt: prev_block_hash, len: results.len() as usize };
    assert(view.answer(q) is Some);
    assert(spec_is_shuffle(order@, results.len() as int));
    witness_order_is_saved_order(
        received,
        results,
        source_receipt_proofs,
        shard_id,
        order@,
    );
}

/// Receipts that were received again change nothing in what is saved.
pub proof fn repeated_receipts_do_not_matter(
    received: Seq<ReceiptProof>,
    again: Seq<ReceiptProof>,
    to_shard_id: u64,
    order: Seq<usize>,
)
    requires
        received.len() + again.len() <= usize::MAX,
        forall|i: int|
            0 <= i < again.len() ==> brings(
                received,
                (#[trigger] again[i]).shard_proof.from_shard_id,
                again[i].shard_proof.to_shard_id,
            ),
        spec_is_shuffle(order, saved_items(received, to_shard_id).len() as int),
    ensures
        saved_items(received + again, to_shard_id).len() == saved_items(
            received,
            to_shard_id,
        ).len(),
        saved_for(received + again, to_shard_id, order) == saved_for(received, to_shard_id, order),
{
    assert forall|from_shard_id: u64| #[trigger]
        first_for(received, from_shard_id, to_shard_id) == first_for(
            received + again,
            from_shard_id,
            to_shard_id,
        ) by {
        lemma_first_for_again(received, again, from_shard_id, to_shard_id);
    }
    arrival_order_does_not_matter(received, received + again, to_shard_id, order);
}

proof fn lemma_first_for_again(
    received: Seq<ReceiptProof>,
    again: Seq<ReceiptProof>,
    from_shard_id: u64,
    to_shard_id: u64,
)
    requires
        forall|i: int|
            0 <= i < again.len() ==> brings(
                received,
                (#[trigger] again[i]).shard_proof.from_shard_id,
                again[i].shard_proof.to_shard_id,
            ),
    ensures
        first_for(received + again, from_shard_id, to_shard_id) == first_for(
            received,
            from_shard_id,
            to_shard_id,
        ),
    decreases again.len(),
{
    if again.len() > 0 {
        let init = again.drop_last();
        assert forall|i: int| 0 <= i < init.len() implies brings(
            received,
            (#[trigger] init[i]).shard_proof.from_shard_id,
            init[i].shard_proof.to_shard_id,
        ) by {
            assert(init[i] == again[i]);
        }
        lemma_first_for_again(received, init, from_shard_id, to_shard_id);
        assert((received + again).drop_last() =~= received + init);
        let last = again[again.len() - 1];
        assert((received + again).last() == last);
        lemma_first_for(received, last.shard_proof.from_shard_id, last.shard_proof.to_shard_id);
    } else {
        assert(received + again =~= received);
    }
}

proof fn lemma_complete_from(
    proofs: Seq<ReceiptProof>,
    shard_ids: Seq<u64>,
    i: int,
    block_hash: CryptoHash,
    view: &ChainView,
    k: int,
)
    requires
        0 <= i <= k < shard_ids.len(),
        complete_from(proofs, shard_ids, i, block_hash, view) == Ok::<bool, Stop>(true),
        view.flag(Query::CaresThisOrNextEpoch { block_hash, shard_id: shard_ids[k] }) == Ok::<
            bool,
            Stop,
        >(true),
    ensures
        brings_from_all(proofs, shard_ids, shard_ids[k]),
    decreases k - i,
{
    if i < k {
        lemma_complete_from(proofs, shard_ids, i + 1, block_hash, view, k);
    }
}

proof fn lemma_targets(items: Seq<Placed>, block_hash: CryptoHash, view: &ChainView, k: int)
    requires
        0 <= k < items.len(),
        targets(items, block_hash, view) is Ok,
        view.flag(
            Query::CaresThisOrNextEpoch { block_hash, shard_id: items[k].to_shard_id },
        ) == Ok::<bool, Stop>(true),
    ensures
        targets(items, block_hash, view)->Ok_0.contains(items[k].to_shard_id),
    decreases items.len(),
{
    let init = items.drop_last();
    let before = targets(init, block_hash, view)->Ok_0;
    let found = targets(items, block_hash, view)->Ok_0;
    if k < init.len() {
        assert(init[k] == items[k]);
        lemma_targets(init, block_hash, view, k);
        let j = choose|j: int| 0 <= j < before.len() && before[j] == items[k].to_shard_id;
        assert(found[j] == before[j]);
    } else if !before.contains(items[k].to_shard_id) {
        assert(found[found.len() - 1] == items[k].to_shard_id);
    }
}

/// A list that holds each place below its length once leaves none out.
proof fn lemma_shuffle_reaches(order: Seq<usize>, n: int, i: int)
    requires
        spec_is_shuffle(order, n),
        0 <= i < n,
    ensures
        exists|k: int| 0 <= k < n && #[trigger] order[k] == i,
{
    let s = order.map_values(|x: usize| x as int);
    assert(s.no_duplicates()) by {
        assert forall|a: int, b: int| 0 <= a < s.len() && 0 <= b < s.len() && a != b implies s[a]
            != s[b] by {
            if a < b {
                assert(order[a] != order[b]);
            } else {
                assert(order[b] != order[a]);
            }
        }
    }
    s.unique_seq_to_set();
    lemma_int_range(0, n);
    assert(s.to_set().subset_of(set_int_range(0, n))) by {
        assert forall|x: int| s.to_set().contains(x) implies set_int_range(0, n).contains(x) by {
            let k = choose|k: int| 0 <= k < s.len() && s[k] == x;
            assert(order[k] < n);
        }
    }
    lemma_subset_equality(s.to_set(), set_int_range(0, n));
    assert(s.to_set().contains(i));
    let k = choose|k: int| 0 <= k < s.len() && s[k] == i;
    assert(order[k] == i);
}

/// What is saved for a shard brings the receipts of every shard that sent some.
proof fn lemma_saved_brings(
    received: Seq<ReceiptProof>,
    from_shard_id: u64,
    to_shard_id: u64,
    order: Seq<usize>,
)
    requires
        received.len() <= usize::MAX,
        brings(received, from_shard_id, to_shard_id),
        spec_is_shuffle(order, saved_items(received, to_shard_id).len() as int),
    ensures
        brings(saved_for(received, to_shard_id, order), from_shard_id, to_shard_id),
{
    let items = saved_items(received, to_shard_id);
    let sorted = by_from_shard(items);
    let saved = saved_for(received, to_shard_id, order);
    lemma_first_for(received, from_shard_id, to_shard_id);
    lemma_group_covers(received, from_shard_id, to_shard_id);
    let first = first_for(received, from_shard_id, to_shard_id)->0;
    let j = choose|j: int|
        0 <= j < items.len() && (#[trigger] items[j]).from_shard_id == from_shard_id && received[
        items[j].at as int] == first;
    lemma_by_from_shard(items);
    assert(items.contains(items[j]));
    assert(by_from_shard(items).contains(items[j]));
    let i = choose|i: int| 0 <= i < sorted.len() && sorted[i] == items[j];
    lemma_shuffle_reaches(order, items.len() as int, i);
    let k = choose|k: int| 0 <= k < items.len() && #[trigger] order[k] == i;
    assert(saved[k] == first);
}

/// Once the receipts of a block are saved, they are saved for every shard that
/// the node cares about, and what is saved for a shard brings the receipts of
/// every shard of the block.
pub proof fn saved_for_every_shard_cared_about(
    received: Seq<ReceiptProof>,
    block_hash: CryptoHash,
    view: &ChainView,
    k: int,
)
    requires
        view.consistent(),
        received.len() <= usize::MAX,
        saving(Some(received), block_hash, view) matches Ok(Some(_)),
        view.digest(Query::EpochId(block_hash)) matches Ok(epoch_hash) && view.shard_ids(
            Query::ShardIds(EpochId(epoch_hash)),
        ) matches Ok(shard_ids) && 0 <= k < shard_ids@.len() && view.flag(
            Query::CaresThisOrNextEpoch { block_hash, shard_id: shard_ids@[k] },
        ) == Ok::<bool, Stop>(true),
    ensures
        ({
            let epoch_id = EpochId(view.digest(Query::EpochId(block_hash))->Ok_0);
            let shard_ids = view.shard_ids(Query::ShardIds(epoch_id))->Ok_0@;
            let groups = saving(Some(received), block_hash, view)->Ok_0->0;
            exists|g: int|
                0 <= g < groups.len() && (#[trigger] groups[g]).0 == shard_ids[k]
                    && brings_from_all(groups[g].1, shard_ids, shard_ids[k])
        }),
{
    let epoch_id = EpochId(view.digest(Query::EpochId(block_hash))->Ok_0);
    let shard_ids = view.shard_ids(Query::ShardIds(epoch_id))->Ok_0@;
    let groups = saving(Some(received), block_hash, view)->Ok_0->0;
    let shard_id = shard_ids[k];
    lemma_complete_from(received, shard_ids, 0, block_hash, view, k);
    let items = first_of_each(placed(received));
    let found = targets(items, block_hash, view)->Ok_0;
    // the shard sends receipts to itself, so that one of the items goes to it
    assert(brings(received, shard_ids[k], shard_id));
    lemma_first_for(received, shard_id, shard_id);
    lemma_group_covers(received, shard_id, shard_id);
    let group = saved_items(received, shard_id);
    let j = choose|j: int|
        0 <= j < group.len() && (#[trigger] group[j]).from_shard_id == shard_id && received[
        group[j].at as int] == first_for(received, shard_id, shard_id)->0;
    lemma_in_places(received);
    lemma_first_of_each(placed(received));
    lemma_for_shard(items, shard_id);
    assert(for_shard(items, shard_id).contains(group[j]));
    let i = choose|i: int| 0 <= i < items.len() && items[i] == group[j];
    lemma_targets(items, block_hash, view, i);
    let g = choose|g: int| 0 <= g < found.len() && found[g] == shard_id;
    lemma_arranged(items, found, block_hash, view);
    let places = plan(received, block_hash, view)->Ok_0;
    assert(is_arranged(items, found[g], block_hash, view, places[g]));
    assert(groups[g].0 == shard_id);
    lemma_saving(received, block_hash, view, g);
    let q = Query::Shuffle { salt: block_hash, len: group.len() as usize };
    let order = view.shuffle(block_hash, group.len() as usize)->Ok_0;
    assert(view.answer(q) is Some);
    assert(group.len() <= usize::MAX);
    assert forall|a: int| 0 <= a < shard_ids.len() implies brings(
        groups[g].1,
        #[trigger] shard_ids[a],
        shard_id,
    ) by {
        assert(brings(received, shard_ids[a], shard_id));
        lemma_saved_brings(received, shard_ids[a], shard_id, order@);
    }
}

/// The first proofs of a list, each under the chunk that sent its receipts.
spec fn sources<'a>(
    proofs: &'a Vec<ReceiptProof>,
    n: int,
    layout: &ShardLayout,
    prev_block: &Block,
) -> Seq<(CryptoHash, &'a ReceiptProof)> {
    Seq::new(n as nat, |a: int| (source_of(&proofs@[a], layout, prev_block)->Ok_0, &proofs@[a]))
}

/// Filing makes the table of the proofs under the chunks that sent their receipts.
proof fn lemma_by_source<'a>(
    proofs: &'a Vec<ReceiptProof>,
    n: int,
    layout: &ShardLayout,
    prev_block: &Block,
)
    requires
        0 <= n <= proofs@.len(),
        by_source(proofs, n, layout, prev_block) is Ok,
    ensures
        by_source(proofs, n, layout, prev_block)->Ok_0 == table_of(
            sources(proofs, n, layout, prev_block),
        ),
    decreases n,
{
    if n > 0 {
        lemma_by_source(proofs, n - 1, layout, prev_block);
        assert(sources(proofs, n, layout, prev_block).drop_last() =~= sources(
            proofs,
            n - 1,
            layout,
            prev_block,
        ));
    }
}

/// The results are those of the chunks of a block: each stands under the hash of
/// the chunk that the block holds for the shard of the result.
pub open spec fn results_of_block(
    results: Seq<(CryptoHash, ExecutionResult)>,
    layout: &ShardLayout,
    block: &Block,
) -> bool {
    forall|i: int|
        0 <= i < results.len() ==> chunk_of_shard(
            layout,
            block,
            (#[trigger] results[i]).1.shard_id,
        ) == Ok::<CryptoHash, Error>(results[i].0)
}

/// Each proof that is saved for a shard is the first received from its shard.
proof fn lemma_saved_is_first(
    received: Seq<ReceiptProof>,
    to_shard_id: u64,
    order: Seq<usize>,
    k: int,
)
    requires
        received.len() <= usize::MAX,
        spec_is_shuffle(order, saved_items(received, to_shard_id).len() as int),
        0 <= k < order.len(),
    ensures
        ({
            let saved = saved_for(received, to_shard_id, order);
            first_for(received, saved[k].shard_proof.from_shard_id, to_shard_id) == Some(saved[k])
        }),
{
    let items = saved_items(received, to_shard_id);
    let sorted = by_from_shard(items);
    let saved = saved_for(received, to_shard_id, order);
    lemma_by_from_shard(items);
    lemma_group(received, to_shard_id);
    assert(order[k] < items.len());
    let x = sorted[order[k] as int];
    assert(by_from_shard(items).contains(x) && items.contains(x));
    let i = choose|i: int| 0 <= i < items.len() && items[i] == x;
    assert(first_for(received, items[i].from_shard_id, to_shard_id) == Some(
        received[items[i].at as int],
    ));
    lemma_first_for(received, items[i].from_shard_id, to_shard_id);
}

/// No two proofs that are saved for a shard come from the same shard.
proof fn lemma_saved_distinct(
    received: Seq<ReceiptProof>,
    to_shard_id: u64,
    order: Seq<usize>,
    a: int,
    b: int,
)
    requires
        received.len() <= usize::MAX,
        spec_is_shuffle(order, saved_items(received, to_shard_id).len() as int),
        0 <= a < b < order.len(),
    ensures
        ({
            let saved = saved_for(received, to_shard_id, order);
            saved[a].shard_proof.from_shard_id != saved[b].shard_proof.from_shard_id
        }),
{
    let items = saved_items(received, to_shard_id);
    let sorted = by_from_shard(items);
    lemma_by_from_shard(items);
    lemma_group(received, to_shard_id);
    lemma_sorted_strictly(items);
    assert(order[a] < items.len() && order[b] < items.len());
    assert(order[a] != order[b]);
    let x = sorted[order[a] as int];
    let y = sorted[order[b] as int];
    assert(by_from_shard(items).contains(x) && items.contains(x));
    assert(by_from_shard(items).contains(y) && items.contains(y));
    let i = choose|i: int| 0 <= i < items.len() && items[i] == x;
    let j = choose|j: int| 0 <= j < items.len() && items[j] == y;
    lemma_first_for(received, items[i].from_shard_id, to_shard_id);
    lemma_first_for(received, items[j].from_shard_id, to_shard_id);
    assert(first_for(received, items[i].from_shard_id, to_shard_id) == Some(
        received[items[i].at as int],
    ));
    assert(first_for(received, items[j].from_shard_id, to_shard_id) == Some(
        received[items[j].at as int],
    ));
    assert(x.from_shard_id != y.from_shard_id);
}

/// From each of the shards that have a result, and from no other, receipts for a
/// shard were received, and the first proof of them leads to the outgoing
/// receipts root of the result. The receipts can be counted in 32 bits.
pub open spec fn received_is_proven(
    received: Seq<ReceiptProof>,
    results: Seq<(CryptoHash, ExecutionResult)>,
    shard_id: u64,
) -> bool {
    &&& forall|i: int|
        0 <= i < results.len() ==> {
            let first = first_for(received, (#[trigger] results[i]).1.shard_id, shard_id);
            &&& first is Some
            &&& first->0.receipts@.len() <= u32::MAX
            &&& first->0.leads_to(results[i].1.outgoing_receipts_root)
        }
    &&& forall|from_shard_id: u64| #[trigger]
        first_for(received, from_shard_id, shard_id) is Some ==> has_result(results, from_shard_id)
}

/// The chunk that sent the receipts of a saved proof is one that has a result.
proof fn lemma_source_has_result(
    received: Seq<ReceiptProof>,
    prev_block: &Block,
    layout: &ShardLayout,
    results: Seq<(CryptoHash, ExecutionResult)>,
    shard_id: u64,
    order: Seq<usize>,
    k: int,
) -> (i: int)
    requires
        received.len() <= usize::MAX,
        spec_is_shuffle(order, saved_items(received, shard_id).len() as int),
        0 <= k < order.len(),
        results_of_block(results, layout, prev_block),
        received_is_proven(received, results, shard_id),
    ensures
        0 <= i < results.len(),
        results[i].1.shard_id == saved_for(
            received,
            shard_id,
            order,
        )[k].shard_proof.from_shard_id,
        source_of(&saved_for(received, shard_id, order)[k], layout, prev_block) == Ok::<
            CryptoHash,
            Error,
        >(results[i].0),
{
    let saved = saved_for(received, shard_id, order);
    lemma_saved_is_first(received, shard_id, order, k);
    let from_shard_id = saved[k].shard_proof.from_shard_id;
    assert(has_result(results, from_shard_id));
    choose|i: int| 0 <= i < results.len() && (#[trigger] results[i]).1.shard_id == from_shard_id
}

/// Filed by the chunks that sent their receipts, the saved proofs are found under
/// the chunks that have a result.
proof fn lemma_own_table<'a>(
    received: Seq<ReceiptProof>,
    saved: &'a Vec<ReceiptProof>,
    prev_block: &Block,
    layout: &ShardLayout,
    results: Seq<(CryptoHash, ExecutionResult)>,
    shard_id: u64,
    order: Seq<usize>,
)
    requires
        received.len() <= usize::MAX,
        distinct_keys(results),
        results_of_block(results, layout, prev_block),
        received_is_proven(received, results, shard_id),
        spec_is_shuffle(order, saved_items(received, shard_id).len() as int),
        saved@ == saved_for(received, shard_id, order),
        by_source(saved, saved@.len() as int, layout, prev_block) is Ok,
    ensures
        ({
            let table = by_source(saved, saved@.len() as int, layout, prev_block)->Ok_0;
            &&& table.dom().len() == saved@.len()
            &&& forall|i: int|
                0 <= i < results.len() ==> table.contains_key((#[trigger] results[i]).0)
                    && first_for(received, results[i].1.shard_id, shard_id) == Some(
                    *table[results[i].0],
                )
        }),
{
    let n = saved@.len() as int;
    let table = by_source(saved, n, layout, prev_block)->Ok_0;
    let entries = sources(saved, n, layout, prev_block);
    lemma_by_source(saved, n, layout, prev_block);
    assert forall|a: int, b: int| 0 <= a < n && 0 <= b < n && a != b implies (
    #[trigger] entries[a]).0 != (#[trigger] entries[b]).0 by {
        let i = lemma_source_has_result(
            received,
            prev_block,
            layout,
            results,
            shard_id,
            order,
            a,
        );
        let j = lemma_source_has_result(
            received,
            prev_block,
            layout,
            results,
            shard_id,
            order,
            b,
        );
        if a < b {
            lemma_saved_distinct(received, shard_id, order, a, b);
        } else {
            lemma_saved_distinct(received, shard_id, order, b, a);
        }
        assert(results[i].0 != results[j].0);
    }
    lemma_table_of(entries);
    lemma_table_len(entries);
    assert forall|i: int| 0 <= i < results.len() implies table.contains_key(
        (#[trigger] results[i]).0,
    ) && first_for(received, results[i].1.shard_id, shard_id) == Some(*table[results[i].0]) by {
        let from_shard_id = results[i].1.shard_id;
        lemma_first_for(received, from_shard_id, shard_id);
        lemma_saved_brings(received, from_shard_id, shard_id, order);
        let k = choose|k: int|
            0 <= k < saved@.len() && (#[trigger] saved@[k]).shard_proof.from_shard_id
                == from_shard_id && saved@[k].shard_proof.to_shard_id == shard_id;
        lemma_saved_is_first(received, shard_id, order, k);
        assert(source_of(&saved@[k], layout, prev_block) == Ok::<CryptoHash, Error>(results[i].0));
        assert(entries[k] == (results[i].0, &saved@[k]));
    }
}

/// The receipts that a node puts into a witness are accepted, and applied in the
/// order in which it saved them: where the node saved the receipts of a block
/// and files them by the chunks of the block that sent them, and the results of
/// the block are those of its chunks, each having sent receipts whose proof leads
/// to its outgoing receipts root, the check of the receipts accepts them.
pub proof fn own_receipts_are_accepted<'a>(
    received: Seq<ReceiptProof>,
    saved: &'a Vec<ReceiptProof>,
    prev_block: &Block,
    layout: &ShardLayout,
    block: Block,
    prev_execution_results: &ByHash<ExecutionResult>,
    view: &ChainView,
    g: int,
)
    requires
        view.consistent(),
        received.len() <= usize::MAX,
        saved@.len() <= usize::MAX,
        !block.header.is_genesis(),
        distinct_keys(prev_execution_results.entries()),
        prev_execution_results.entries().len() <= usize::MAX,
        distinct_shards(prev_execution_results.entries()),
        results_of_block(prev_execution_results.entries(), layout, prev_block),
        saving(Some(received), prev_block.header.hash, view) matches Ok(Some(groups)) && 0 <= g
            < groups.len() && saved@ == groups[g].1 && received_is_proven(
            received,
            prev_execution_results.entries(),
            groups[g].0,
        ),
        by_source(saved, saved@.len() as int, layout, prev_block) is Ok,
    ensures
        ({
            let groups = saving(Some(received), prev_block.header.hash, view)->Ok_0->0;
            source_receipts(
                by_source(saved, saved@.len() as int, layout, prev_block)->Ok_0,
                Some(prev_execution_results),
                groups[g].0,
                prev_block.header.hash,
                block,
                view,
            ) == Ok::<Seq<Receipt>, Stop>(receipts_of(saved@))
        }),
{
    let results = prev_execution_results.entries();
    let groups = saving(Some(received), prev_block.header.hash, view)->Ok_0->0;
    let shard_id = groups[g].0;
    let table = by_source(saved, saved@.len() as int, layout, prev_block)->Ok_0;
    lemma_saving(received, prev_block.header.hash, view, g);
    let items = saved_items(received, shard_id);
    lemma_in_places(received);
    lemma_first_of_each(placed(received));
    lemma_for_shard(first_of_each(placed(received)), shard_id);
    let order = view.shuffle(prev_block.header.hash, items.len() as usize)->Ok_0;
    let q = Query::Shuffle { salt: prev_block.header.hash, len: items.len() as usize };
    assert(view.answer(q) is Some);
    assert(spec_is_shuffle(order@, items.len() as int));
    lemma_own_table(received, saved, prev_block, layout, results, shard_id, order@);
    assert forall|i: int| 0 <= i < results.len() implies table.contains_key(
        (#[trigger] results[i]).0,
    ) && source_proof_check(*table[results[i].0], results[i].1, shard_id) is Ok by {
        lemma_first_for(received, results[i].1.shard_id, shard_id);
    }
    lemma_all_gathered(results, table, shard_id);
    lemma_results_shuffle(received, results, table, shard_id, order@);
    witness_order_is_saved_order(received, results, table, shard_id, order@);
    lemma_gathered(results, table, shard_id);
    assert(saved@.len() == order@.len());
    assert(results_of(Some(prev_execution_results)) == results);
    assert(view.shuffle(prev_block.header.hash, results.len() as usize) == Ok::<&Vec<usize>, Stop>(
        order,
    ));
}

/// As many items are saved for a shard as there are results.
proof fn lemma_results_shuffle(
    received: Seq<ReceiptProof>,
    results: Seq<(CryptoHash, ExecutionResult)>,
    table: Map<CryptoHash, &ReceiptProof>,
    shard_id: u64,
    order: Seq<usize>,
)
    requires
        received.len() <= usize::MAX,
        results.len() <= usize::MAX,
        distinct_shards(results),
        gathered(results, table, shard_id) is Ok,
        witness_brings_received(received, results, table, shard_id),
    ensures
        saved_items(received, shard_id).len() == results.len(),
{
    let identity = Seq::new(results.len(), |i: int| i as usize);
    witness_order_is_saved_order(received, results, table, shard_id, identity);
}

/// The list holds an entry.
spec fn holds_entry(
    entries: Seq<(CryptoHash, ExecutionResult)>,
    entry: (CryptoHash, ExecutionResult),
) -> bool {
    exists|j: int| 0 <= j < entries.len() && #[trigger] entries[j] == entry
}

proof fn lemma_same_table(
    one: Seq<(CryptoHash, ExecutionResult)>,
    other: Seq<(CryptoHash, ExecutionResult)>,
    i: int,
)
    requires
        distinct_keys(one),
        distinct_keys(other),
        table_of(one) == table_of(other),
        0 <= i < one.len(),
    ensures
        holds_entry(other, one[i]),
{
    lemma_table_of(one);
    lemma_table_of(other);
    let k = one[i].0;
    assert(table_of(other).contains_key(k));
    let j = choose|j: int| 0 <= j < other.len() && (#[trigger] other[j]).0 == k;
    assert(other[j] == one[i]);
}

/// The receipts that a witness check accepts, and their order, do not depend on
/// the order in which the results of the previous block are walked, given that
/// they are of different shards.
pub proof fn walk_order_does_not_matter(
    one: &ByHash<ExecutionResult>,
    other: &ByHash<ExecutionResult>,
    source_receipt_proofs: Map<CryptoHash, &ReceiptProof>,
    shard_id: u64,
    prev_block_hash: CryptoHash,
    block: Block,
    view: &ChainView,
)
    requires
        view.consistent(),
        distinct_keys(one.entries()),
        distinct_keys(other.entries()),
        one@ == other@,
        one.entries().len() <= usize::MAX,
        distinct_shards(one.entries()),
        source_receipts(
            source_receipt_proofs,
            Some(one),
            shard_id,
            prev_block_hash,
            block,
            view,
        ) is Ok,
    ensures
        source_receipts(
            source_receipt_proofs,
            Some(other),
            shard_id,
            prev_block_hash,
            block,
            view,
        ) == source_receipts(
            source_receipt_proofs,
            Some(one),
            shard_id,
            prev_block_hash,
            block,
            view,
        ),
{
    let a = one.entries();
    let b = other.entries();
    lemma_table_len(a);
    lemma_table_len(b);
    if !block.header.is_genesis() {
        assert(results_of(Some(one)) == a && results_of(Some(other)) == b);
        lemma_gathered(a, source_receipt_proofs, shard_id);
        assert forall|i: int| 0 <= i < b.len() implies source_receipt_proofs.contains_key(
            (#[trigger] b[i]).0,
        ) && source_proof_check(*source_receipt_proofs[b[i].0], b[i].1, shard_id) is Ok by {
            lemma_same_table(b, a, i);
            let j = choose|j: int| 0 <= j < a.len() && #[trigger] a[j] == b[i];
            assert(source_receipt_proofs.contains_key(a[j].0));
        }
        lemma_all_gathered(b, source_receipt_proofs, shard_id);
        lemma_gathered(b, source_receipt_proofs, shard_id);
        let p = gathered(a, source_receipt_proofs, shard_id)->Ok_0;
        let q = gathered(b, source_receipt_proofs, shard_id)->Ok_0;
        lemma_walks_match(a, b, source_receipt_proofs, shard_id);
        lemma_walks_match(b, a, source_receipt_proofs, shard_id);
        assert forall|i: int, j: int| 0 <= i < j < b.len() implies (#[trigger] b[i]).1.shard_id != (
        #[trigger] b[j]).1.shard_id by {
            lemma_same_table(b, a, i);
            lemma_same_table(b, a, j);
            let i0 = choose|k: int| 0 <= k < a.len() && #[trigger] a[k] == b[i];
            let j0 = choose|k: int| 0 <= k < a.len() && #[trigger] a[k] == b[j];
            assert(b[i].0 != b[j].0);
            if i0 < j0 {
                assert(a[i0].1.shard_id != a[j0].1.shard_id);
            } else {
                assert(a[j0].1.shard_id != a[i0].1.shard_id);
            }
        }
        lemma_distinct_placed(a, source_receipt_proofs, shard_id);
        lemma_distinct_placed(b, source_receipt_proofs, shard_id);
        let order = view.shuffle(prev_block_hash, p.len() as usize)->Ok_0;
        let question = Query::Shuffle { salt: prev_block_hash, len: p.len() as usize };
        assert(view.answer(question) is Some);
        assert(spec_is_shuffle(order@, p.len() as int));
        same_proofs_same_order(p, placed(p), q, placed(q), order@);
    }
}

/// What is gathered in one walk of the results is gathered in the other.
proof fn lemma_walks_match(
    a: Seq<(CryptoHash, ExecutionResult)>,
    b: Seq<(CryptoHash, ExecutionResult)>,
    source_receipt_proofs: Map<CryptoHash, &ReceiptProof>,
    shard_id: u64,
)
    requires
        distinct_keys(a),
        distinct_keys(b),
        table_of(a) == table_of(b),
        a.len() <= usize::MAX,
        b.len() <= usize::MAX,
        gathered(a, source_receipt_proofs, shard_id) is Ok,
        gathered(b, source_receipt_proofs, shard_id) is Ok,
    ensures
        ({
            let p = gathered(a, source_receipt_proofs, shard_id)->Ok_0;
            let q = gathered(b, source_receipt_proofs, shard_id)->Ok_0;
            matched(p, placed(p), q, placed(q))
        }),
{
    let p = gathered(a, source_receipt_proofs, shard_id)->Ok_0;
    let q = gathered(b, source_receipt_proofs, shard_id)->Ok_0;
    lemma_gathered(a, source_receipt_proofs, shard_id);
    lemma_gathered(b, source_receipt_proofs, shard_id);
    let x = placed(p);
    let y = placed(q);
    assert forall|i: int| 0 <= i < x.len() implies stands_for(
        q,
        y,
        (#[trigger] x[i]).from_shard_id,
        p[x[i].at as int],
    ) by {
        lemma_same_table(a, b, i);
        let j = choose|j: int| 0 <= j < b.len() && #[trigger] b[j] == a[i];
        assert(p[i] == *source_receipt_proofs[a[i].0]);
        assert(q[j] == *source_receipt_proofs[b[j].0]);
        assert(y[j].from_shard_id == x[i].from_shard_id);
    }
}

/// The proofs gathered for results of different shards come from different shards.
proof fn lemma_distinct_placed(
    results: Seq<(CryptoHash, ExecutionResult)>,
    source_receipt_proofs: Map<CryptoHash, &ReceiptProof>,
    shard_id: u64,
)
    requires
        distinct_shards(results),
        gathered(results, source_receipt_proofs, shard_id) is Ok,
    ensures
        distinct_from(placed(gathered(results, source_receipt_proofs, shard_id)->Ok_0)),
{
    lemma_gathered(results, source_receipt_proofs, shard_id);
    let x = placed(gathered(results, source_receipt_proofs, shard_id)->Ok_0);
    assert forall|i: int, j: int| 0 <= i < j < x.len() implies (#[trigger] x[i]).from_shard_id != (
    #[trigger] x[j]).from_shard_id by {
        assert(results[i].1.shard_id != results[j].1.shard_id);
    }
}

/// For each pair of shards the first proof received is the same.
pub open spec fn same_first(one: Seq<ReceiptProof>, other: Seq<ReceiptProof>) -> bool {
    forall|from_shard_id: u64, to_shard_id: u64| #[trigger]
        first_for(one, from_shard_id, to_shard_id) == first_for(other, from_shard_id, to_shard_id)
}

/// The same lists are saved for the same shards.
pub open spec fn same_saved(
    one: Seq<(u64, Seq<ReceiptProof>)>,
    other: Seq<(u64, Seq<ReceiptProof>)>,
) -> bool {
    &&& one.len() == other.len()
    &&& forall|g: int| 0 <= g < one.len() ==> other.contains(#[trigger] one[g])
    &&& forall|g: int| 0 <= g < other.len() ==> one.contains(#[trigger] other[g])
}

/// The proofs that are there do not depend on the order in which they came.
proof fn lemma_same_brought(
    one: Seq<ReceiptProof>,
    other: Seq<ReceiptProof>,
    shard_ids: Seq<u64>,
    to_shard_id: u64,
)
    requires
        same_first(one, other),
    ensures
        brings_from_all(one, shard_ids, to_shard_id) == brings_from_all(
            other,
            shard_ids,
            to_shard_id,
        ),
{
    assert forall|i: int| 0 <= i < shard_ids.len() implies brings(
        one,
        #[trigger] shard_ids[i],
        to_shard_id,
    ) == brings(other, shard_ids[i], to_shard_id) by {
        lemma_first_for(one, shard_ids[i], to_shard_id);
        lemma_first_for(other, shard_ids[i], to_shard_id);
        assert(first_for(one, shard_ids[i], to_shard_id) == first_for(
            other,
            shard_ids[i],
            to_shard_id,
        ));
    }
}

proof fn lemma_same_complete(
    one: Seq<ReceiptProof>,
    other: Seq<ReceiptProof>,
    shard_ids: Seq<u64>,
    i: int,
    block_hash: CryptoHash,
    view: &ChainView,
)
    requires
        same_first(one, other),
    ensures
        complete_from(one, shard_ids, i, block_hash, view) == complete_from(
            other,
            shard_ids,
            i,
            block_hash,
            view,
        ),
    decreases shard_ids.len() - i,
{
    if 0 <= i < shard_ids.len() {
        lemma_same_brought(one, other, shard_ids, shard_ids[i]);
        lemma_same_complete(one, other, shard_ids, i + 1, block_hash, view);
    }
}

/// One of the items goes to a shard.
pub open spec fn sent_to(items: Seq<Placed>, shard_id: u64) -> bool {
    exists|k: int| 0 <= k < items.len() && (#[trigger] items[k]).to_shard_id == shard_id
}

/// The node cares about a shard.
pub open spec fn is_cared_about(block_hash: CryptoHash, shard_id: u64, view: &ChainView) -> Result<
    bool,
    Stop,
> {
    view.flag(Query::CaresThisOrNextEpoch { block_hash, shard_id })
}

/// The shards to save receipts for are those that items go to and that the node
/// cares about, each once.
pub proof fn lemma_targets_found(items: Seq<Placed>, block_hash: CryptoHash, view: &ChainView)
    requires
        targets(items, block_hash, view) is Ok,
    ensures
        targets(items, block_hash, view)->Ok_0.no_duplicates(),
        forall|shard_id: u64| #[trigger]
            sent_to(items, shard_id) ==> is_cared_about(block_hash, shard_id, view) is Ok,
        forall|shard_id: u64| #[trigger]
            targets(items, block_hash, view)->Ok_0.contains(shard_id) <==> sent_to(items, shard_id)
                && is_cared_about(block_hash, shard_id, view) == Ok::<bool, Stop>(true),
    decreases items.len(),
{
    let found = targets(items, block_hash, view)->Ok_0;
    if items.len() > 0 {
        let init = items.drop_last();
        let last = items.last().to_shard_id;
        lemma_targets_found(init, block_hash, view);
        let before = targets(init, block_hash, view)->Ok_0;
        assert forall|shard_id: u64| #[trigger] sent_to(items, shard_id) == (sent_to(init, shard_id)
            || shard_id == last) by {
            if sent_to(init, shard_id) {
                let k = choose|k: int|
                    0 <= k < init.len() && (#[trigger] init[k]).to_shard_id == shard_id;
                assert(items[k] == init[k]);
            }
            if shard_id == last {
                assert(items[items.len() - 1].to_shard_id == shard_id);
            }
            if sent_to(items, shard_id) && shard_id != last {
                let k = choose|k: int|
                    0 <= k < items.len() && (#[trigger] items[k]).to_shard_id == shard_id;
                assert(init[k] == items[k]);
            }
        }
        assert forall|shard_id: u64| #[trigger] found.contains(shard_id) <==> sent_to(
            items,
            shard_id,
        ) && is_cared_about(block_hash, shard_id, view) == Ok::<bool, Stop>(true) by {
            assert(before.contains(shard_id) <==> sent_to(init, shard_id) && is_cared_about(
                block_hash,
                shard_id,
                view,
            ) == Ok::<bool, Stop>(true));
            assert(sent_to(items, shard_id) == (sent_to(init, shard_id) || shard_id == last));
            if found != before {
                assert(found == before.push(last));
                assert(found[before.len() as int] == last);
                if before.contains(shard_id) {
                    let k = choose|k: int| 0 <= k < before.len() && before[k] == shard_id;
                    assert(found[k] == shard_id);
                }
                if found.contains(shard_id) && shard_id != last {
                    let k = choose|k: int| 0 <= k < found.len() && found[k] == shard_id;
                    assert(before[k] == shard_id);
                }
            }
        }
    }
}

/// The shards to save receipts for are found where it is known of each whether the
/// node cares about it.
pub proof fn lemma_targets_ok(items: Seq<Placed>, block_hash: CryptoHash, view: &ChainView)
    requires
        forall|shard_id: u64| #[trigger]
            sent_to(items, shard_id) ==> is_cared_about(block_hash, shard_id, view) is Ok,
    ensures
        targets(items, block_hash, view) is Ok,
    decreases items.len(),
{
    if items.len() > 0 {
        let init = items.drop_last();
        assert forall|shard_id: u64| #[trigger] sent_to(init, shard_id) implies is_cared_about(
            block_hash,
            shard_id,
            view,
        ) is Ok by {
            let k = choose|k: int|
                0 <= k < init.len() && (#[trigger] init[k]).to_shard_id == shard_id;
            assert(items[k] == init[k]);
            assert(sent_to(items, shard_id));
        }
        lemma_targets_ok(init, block_hash, view);
        assert(items[items.len() - 1].to_shard_id == items.last().to_shard_id);
        assert(sent_to(items, items.last().to_shard_id));
    }
}

/// Items are arranged where it is known how lists of their number are shuffled.
pub proof fn lemma_arranged_ok(
    items: Seq<Placed>,
    shard_ids: Seq<u64>,
    block_hash: CryptoHash,
    view: &ChainView,
)
    requires
        forall|g: int|
            0 <= g < shard_ids.len() ==> view.shuffle(
                block_hash,
                for_shard(items, #[trigger] shard_ids[g]).len() as usize,
            ) is Ok,
    ensures
        arranged(items, shard_ids, block_hash, view) is Ok,
    decreases shard_ids.len(),
{
    if shard_ids.len() > 0 {
        let init = shard_ids.drop_last();
        assert forall|g: int| 0 <= g < init.len() implies view.shuffle(
            block_hash,
            for_shard(items, #[trigger] init[g]).len() as usize,
        ) is Ok by {
            assert(init[g] == shard_ids[g]);
        }
        lemma_arranged_ok(items, init, block_hash, view);
        assert(shard_ids[shard_ids.len() - 1] == shard_ids.last());
    }
}

/// Where receipts were sent to a shard in one run, they were in the other.
proof fn lemma_same_sent(one: Seq<ReceiptProof>, other: Seq<ReceiptProof>, shard_id: u64)
    requires
        one.len() <= usize::MAX,
        other.len() <= usize::MAX,
        same_first(one, other),
        sent_to(first_of_each(placed(one)), shard_id),
    ensures
        sent_to(first_of_each(placed(other)), shard_id),
{
    let x = first_of_each(placed(one));
    let y = first_of_each(placed(other));
    lemma_in_places(one);
    lemma_in_places(other);
    lemma_first_of_each(placed(one));
    lemma_first_of_each(placed(other));
    lemma_for_shard(x, shard_id);
    lemma_for_shard(y, shard_id);
    let k = choose|k: int| 0 <= k < x.len() && (#[trigger] x[k]).to_shard_id == shard_id;
    assert(x.contains(x[k]));
    assert(for_shard(x, shard_id).contains(x[k]));
    let group = saved_items(one, shard_id);
    let i = choose|i: int| 0 <= i < group.len() && group[i] == x[k];
    lemma_group(one, shard_id);
    assert(first_for(one, group[i].from_shard_id, shard_id) is Some);
    lemma_group_covers(other, group[i].from_shard_id, shard_id);
    let found = saved_items(other, shard_id);
    let j = choose|j: int|
        0 <= j < found.len() && (#[trigger] found[j]).from_shard_id == group[i].from_shard_id
            && other[found[j].at as int] == first_for(
            other,
            group[i].from_shard_id,
            shard_id,
        )->0;
    assert(for_shard(y, shard_id).contains(found[j]));
    let m = choose|m: int| 0 <= m < y.len() && y[m] == found[j];
    assert(y[m].to_shard_id == shard_id);
}

/// What is saved for a shard that is cared about is the same in both runs, and is
/// put together under the same shuffle.
proof fn lemma_same_list(
    one: Seq<ReceiptProof>,
    other: Seq<ReceiptProof>,
    shard_id: u64,
    block_hash: CryptoHash,
    view: &ChainView,
)
    requires
        view.consistent(),
        one.len() <= usize::MAX,
        other.len() <= usize::MAX,
        same_first(one, other),
        view.shuffle(block_hash, saved_items(one, shard_id).len() as usize) is Ok,
    ensures
        saved_items(one, shard_id).len() == saved_items(other, shard_id).len(),
        ({
            let order = view.shuffle(
                block_hash,
                saved_items(one, shard_id).len() as usize,
            )->Ok_0@;
            saved_for(one, shard_id, order) == saved_for(other, shard_id, order)
        }),
{
    let count = saved_items(one, shard_id).len();
    lemma_in_places(one);
    lemma_first_of_each(placed(one));
    lemma_for_shard(first_of_each(placed(one)), shard_id);
    let question = Query::Shuffle { salt: block_hash, len: count as usize };
    assert(view.answer(question) is Some);
    let order = view.shuffle(block_hash, count as usize)->Ok_0@;
    assert forall|from_shard_id: u64| #[trigger]
        first_for(one, from_shard_id, shard_id) == first_for(other, from_shard_id, shard_id) by {}
    arrival_order_does_not_matter(one, other, shard_id, order);
}

/// Each group that is saved in one run is saved in the other.
proof fn lemma_saved_in_both(
    one: Seq<ReceiptProof>,
    other: Seq<ReceiptProof>,
    block_hash: CryptoHash,
    view: &ChainView,
    g: int,
)
    requires
        view.consistent(),
        one.len() <= usize::MAX,
        other.len() <= usize::MAX,
        same_first(one, other),
        saving(Some(one), block_hash, view) matches Ok(Some(groups)) && 0 <= g < groups.len(),
        saving(Some(other), block_hash, view) matches Ok(Some(_)),
    ensures
        saving(Some(other), block_hash, view)->Ok_0->0.contains(
            saving(Some(one), block_hash, view)->Ok_0->0[g],
        ),
{
    let x = first_of_each(placed(one));
    let y = first_of_each(placed(other));
    let mine = targets(x, block_hash, view)->Ok_0;
    let theirs = targets(y, block_hash, view)->Ok_0;
    lemma_targets_found(x, block_hash, view);
    lemma_targets_found(y, block_hash, view);
    lemma_arranged(x, mine, block_hash, view);
    lemma_arranged(y, theirs, block_hash, view);
    let groups = saving(Some(one), block_hash, view)->Ok_0->0;
    let others = saving(Some(other), block_hash, view)->Ok_0->0;
    let places = plan(one, block_hash, view)->Ok_0;
    let other_places = plan(other, block_hash, view)->Ok_0;
    assert(is_arranged(x, mine[g], block_hash, view, places[g]));
    let shard_id = mine[g];
    assert(groups[g].0 == shard_id);
    assert(mine.contains(shard_id));
    lemma_same_sent(one, other, shard_id);
    assert(theirs.contains(shard_id));
    let h = choose|h: int| 0 <= h < theirs.len() && theirs[h] == shard_id;
    assert(is_arranged(y, theirs[h], block_hash, view, other_places[h]));
    assert(others[h].0 == shard_id);
    lemma_saving(one, block_hash, view, g);
    lemma_saving(other, block_hash, view, h);
    lemma_same_list(one, other, shard_id, block_hash, view);
    assert(others[h] == groups[g]);
}

/// As many shards are saved for in one run as in the other.
proof fn lemma_same_count(
    one: Seq<ReceiptProof>,
    other: Seq<ReceiptProof>,
    block_hash: CryptoHash,
    view: &ChainView,
)
    requires
        one.len() <= usize::MAX,
        other.len() <= usize::MAX,
        same_first(one, other),
        targets(first_of_each(placed(one)), block_hash, view) is Ok,
        targets(first_of_each(placed(other)), block_hash, view) is Ok,
    ensures
        targets(first_of_each(placed(one)), block_hash, view)->Ok_0.len() == targets(
            first_of_each(placed(other)),
            block_hash,
            view,
        )->Ok_0.len(),
{
    let mine = targets(first_of_each(placed(one)), block_hash, view)->Ok_0;
    let theirs = targets(first_of_each(placed(other)), block_hash, view)->Ok_0;
    lemma_targets_found(first_of_each(placed(one)), block_hash, view);
    lemma_targets_found(first_of_each(placed(other)), block_hash, view);
    mine.unique_seq_to_set();
    theirs.unique_seq_to_set();
    assert(mine.to_set() =~= theirs.to_set()) by {
        assert forall|shard_id: u64| mine.to_set().contains(shard_id) == theirs.to_set().contains(
            shard_id,
        ) by {
            assert(same_first(other, one));
            if mine.contains(shard_id) {
                lemma_same_sent(one, other, shard_id);
                assert(theirs.contains(shard_id));
            }
            if theirs.contains(shard_id) {
                lemma_same_sent(other, one, shard_id);
                assert(mine.contains(shard_id));
            }
        }
    }
}

/// Whether the receipts of a block are saved, for which shards, and in which order
/// for each, does not depend on the order in which they were received, nor on
/// what was received again: only the first proof for each pair of shards counts.
pub proof fn saved_does_not_depend_on_arrival(
    one: Seq<ReceiptProof>,
    other: Seq<ReceiptProof>,
    block_hash: CryptoHash,
    view: &ChainView,
)
    requires
        view.consistent(),
        one.len() <= usize::MAX,
        other.len() <= usize::MAX,
        same_first(one, other),
        saving(Some(one), block_hash, view) is Ok,
    ensures
        match saving(Some(one), block_hash, view)->Ok_0 {
            None => saving(Some(other), block_hash, view) == Ok::<
                Option<Seq<(u64, Seq<ReceiptProof>)>>,
                Stop,
            >(None),
            Some(groups) => saving(Some(other), block_hash, view) matches Ok(Some(others))
                && same_saved(groups, others),
        },
{
    let epoch_id = EpochId(view.digest(Query::EpochId(block_hash))->Ok_0);
    let shard_ids = view.shard_ids(Query::ShardIds(epoch_id))->Ok_0@;
    lemma_same_complete(one, other, shard_ids, 0, block_hash, view);
    if saving(Some(one), block_hash, view)->Ok_0 is Some {
        let x = first_of_each(placed(one));
        let y = first_of_each(placed(other));
        let mine = targets(x, block_hash, view)->Ok_0;
        assert(same_first(other, one));
        lemma_targets_found(x, block_hash, view);
        assert forall|shard_id: u64| #[trigger] sent_to(y, shard_id) implies is_cared_about(
            block_hash,
            shard_id,
            view,
        ) is Ok by {
            lemma_same_sent(other, one, shard_id);
        }
        lemma_targets_ok(y, block_hash, view);
        lemma_targets_found(y, block_hash, view);
        let theirs = targets(y, block_hash, view)->Ok_0;
        lemma_arranged(x, mine, block_hash, view);
        let places = plan(one, block_hash, view)->Ok_0;
        assert forall|h: int| 0 <= h < theirs.len() implies view.shuffle(
            block_hash,
            for_shard(y, #[trigger] theirs[h]).len() as usize,
        ) is Ok by {
            assert(theirs.contains(theirs[h]));
            lemma_same_sent(other, one, theirs[h]);
            assert(mine.contains(theirs[h]));
            let g = choose|g: int| 0 <= g < mine.len() && mine[g] == theirs[h];
            assert(is_arranged(x, mine[g], block_hash, view, places[g]));
            lemma_same_list(one, other, theirs[h], block_hash, view);
        }
        lemma_arranged_ok(y, theirs, block_hash, view);
        lemma_arranged(y, theirs, block_hash, view);
        lemma_same_count(one, other, block_hash, view);
        let groups = saving(Some(one), block_hash, view)->Ok_0->0;
        let others = saving(Some(other), block_hash, view)->Ok_0->0;
        assert forall|g: int| 0 <= g < groups.len() implies others.contains(
            #[trigger] groups[g],
        ) by {
            lemma_saved_in_both(one, other, block_hash, view, g);
        }
        assert forall|g: int| 0 <= g < others.len() implies groups.contains(
            #[trigger] others[g],
        ) by {
            lemma_saved_in_both(other, one, block_hash, view, g);
        }
    }
}

/// No two proofs are for the same pair of shards.
pub open spec fn one_proof_per_pair(proofs: Seq<ReceiptProof>) -> bool {
    forall|i: int, j: int|
        0 <= i < j < proofs.len() ==> (#[trigger] proofs[i]).shard_proof.from_shard_id != (
        #[trigger] proofs[j]).shard_proof.from_shard_id || proofs[i].shard_proof.to_shard_id
            != proofs[j].shard_proof.to_shard_id
}

/// The first proof is one of the proofs.
proof fn lemma_first_is_there(proofs: Seq<ReceiptProof>, from_shard_id: u64, to_shard_id: u64)
    ensures
        first_for(proofs, from_shard_id, to_shard_id) matches Some(first) ==> proofs.contains(
            first,
        ),
    decreases proofs.len(),
{
    if proofs.len() > 0 {
        let init = proofs.drop_last();
        lemma_first_is_there(init, from_shard_id, to_shard_id);
        if let Some(first) = first_for(init, from_shard_id, to_shard_id) {
            let i = choose|i: int| 0 <= i < init.len() && init[i] == first;
            assert(proofs[i] == first);
        } else {
            assert(proofs[proofs.len() - 1] == proofs.last());
        }
    }
}

/// Where one proof was received for each pair of shards, another order of them
/// comes to the same first proofs, and so to the same receipts saved.
pub proof fn reordered_receipts_are_the_same(one: Seq<ReceiptProof>, other: Seq<ReceiptProof>)
    requires
        one_proof_per_pair(one),
        one.to_multiset() == other.to_multiset(),
    ensures
        same_first(one, other),
{
    one.to_multiset_ensures();
    other.to_multiset_ensures();
    assert forall|from_shard_id: u64, to_shard_id: u64| #[trigger]
        first_for(one, from_shard_id, to_shard_id) == first_for(
            other,
            from_shard_id,
            to_shard_id,
        ) by {
        let first = first_for(one, from_shard_id, to_shard_id);
        let second = first_for(other, from_shard_id, to_shard_id);
        lemma_first_for(one, from_shard_id, to_shard_id);
        lemma_first_for(other, from_shard_id, to_shard_id);
        lemma_first_is_there(one, from_shard_id, to_shard_id);
        lemma_first_is_there(other, from_shard_id, to_shard_id);
        if first is Some {
            assert(one.to_multiset().contains(first->0));
            assert(other.contains(first->0));
            let j = choose|j: int| 0 <= j < other.len() && other[j] == first->0;
            assert(brings(other, from_shard_id, to_shard_id));
        }
        if second is Some {
            assert(other.to_multiset().contains(second->0));
            assert(one.contains(second->0));
            let i = choose|i: int| 0 <= i < one.len() && one[i] == second->0;
            assert(brings(one, from_shard_id, to_shard_id));
            let k = choose|k: int| 0 <= k < one.len() && one[k] == first->0;
            if i < k {
                assert(one[i] != one[k]);
            } else if k < i {
                assert(one[k] != one[i]);
            }
        }
    }
}

} // verus!
