//! Which receipts are saved, and in which order receipts are applied.
use vstd::prelude::*;
use crate::executor::saving;
use crate::hash::{CryptoHash, EpochId};
use crate::incoming::{complete, complete_from, for_shard, lemma_for_shard, plan, targets};
use crate::order::{
    applied_order, arrangement, by_from_shard, first_of_each, in_places, lemma_by_from_shard,
    lemma_first_of_each, placed, same_shards, spec_is_shuffle, stands_before, Placed,
};
use crate::order_laws::{
    lemma_group, lemma_group_covers, lemma_in_places, lemma_sorted_strictly, saved_for,
    saved_items,
};
use crate::receipt_laws::{
    is_arranged, is_cared_about, lemma_arranged, lemma_arranged_ok, lemma_saving,
    lemma_targets_found, lemma_targets_ok, sent_to,
};
use crate::receipts::{receipts_of, Receipt, ReceiptProof};
use crate::view::{ChainView, Query, Stop};

verus! {

/// The places of a list of proofs, each once, sorted by the shard that the proof
/// comes from; proofs of one shard keep their order.
pub open spec fn is_ranking(ranking: Seq<int>, proofs: Seq<ReceiptProof>) -> bool {
    &&& ranking.len() == proofs.len()
    &&& ranking.no_duplicates()
    &&& forall|i: int| 0 <= i < ranking.len() ==> 0 <= #[trigger] ranking[i] < proofs.len()
    &&& forall|i: int, j: int|
        #![trigger ranking[i], ranking[j]]
        0 <= i < j < ranking.len() ==> {
            let a = proofs[ranking[i]].shard_proof.from_shard_id;
            let b = proofs[ranking[j]].shard_proof.from_shard_id;
            a < b || a == b && ranking[i] < ranking[j]
        }
}

/// The proofs at ranked places, shuffled.
pub open spec fn is_shuffled(
    list: Seq<ReceiptProof>,
    proofs: Seq<ReceiptProof>,
    ranking: Seq<int>,
    order: Seq<usize>,
) -> bool {
    &&& list.len() == ranking.len() == order.len()
    &&& forall|k: int|
        0 <= k < list.len() ==> #[trigger] list[k] == proofs[ranking[order[k] as int]]
}

/// The places of the items, sorted.
spec fn sorted_places(items: Seq<Placed>) -> Seq<int> {
    Seq::new(items.len(), |i: int| by_from_shard(items)[i].at as int)
}

/// Sorting loses no item and doubles none.
proof fn lemma_sorted_places(items: Seq<Placed>)
    requires
        in_places(items),
    ensures
        sorted_places(items).no_duplicates(),
        by_from_shard(items).len() == items.len(),
        forall|i: int| 0 <= i < items.len() ==> items.contains(#[trigger] by_from_shard(items)[i]),
{
    let sorted = by_from_shard(items);
    lemma_by_from_shard(items);
    assert(items.no_duplicates()) by {
        assert forall|a: int, b: int|
            0 <= a < items.len() && 0 <= b < items.len() && a != b implies items[a] != items[b] by {
            if a < b {
                assert(items[a].at < items[b].at);
            } else {
                assert(items[b].at < items[a].at);
            }
        }
    }
    items.lemma_multiset_has_no_duplicates();
    sorted.lemma_multiset_has_no_duplicates_conv();
    assert forall|i: int| 0 <= i < items.len() implies items.contains(#[trigger] sorted[i]) by {
        assert(by_from_shard(items).contains(sorted[i]));
    }
    let places = sorted_places(items);
    assert forall|i: int, j: int|
        0 <= i < places.len() && 0 <= j < places.len() && i != j implies places[i]
        != places[j] by {
        assert(items.contains(sorted[i]) && items.contains(sorted[j]));
        let a = choose|a: int| 0 <= a < items.len() && items[a] == sorted[i];
        let b = choose|b: int| 0 <= b < items.len() && items[b] == sorted[j];
        assert(sorted[i] != sorted[j]);
        if a < b {
            assert(items[a].at < items[b].at);
        } else if b < a {
            assert(items[b].at < items[a].at);
        }
    }
}

/// Proofs are applied sorted by the shard that they come from, and then shuffled.
pub proof fn proofs_are_sorted_then_shuffled(proofs: Seq<ReceiptProof>, order: Seq<usize>)
    requires
        proofs.len() <= usize::MAX,
        order.len() == proofs.len(),
        order.no_duplicates(),
        forall|k: int| 0 <= k < order.len() ==> #[trigger] order[k] < proofs.len(),
    ensures
        exists|ranking: Seq<int>| #[trigger]
            is_ranking(ranking, proofs) && is_shuffled(
                applied_order(proofs, order),
                proofs,
                ranking,
                order,
            ),
{
    let items = placed(proofs);
    let sorted = by_from_shard(items);
    let ranking = sorted_places(items);
    lemma_in_places(proofs);
    lemma_sorted_places(items);
    lemma_by_from_shard(items);
    assert forall|i: int| 0 <= i < ranking.len() implies 0 <= #[trigger] ranking[i] < proofs.len()
        && sorted[i].from_shard_id == proofs[ranking[i]].shard_proof.from_shard_id by {
        assert(items.contains(sorted[i]));
        let a = choose|a: int| 0 <= a < items.len() && items[a] == sorted[i];
        assert(items[a].at == a);
    }
    assert forall|i: int, j: int|
        #![trigger ranking[i], ranking[j]]
        0 <= i < j < ranking.len() implies {
        let a = proofs[ranking[i]].shard_proof.from_shard_id;
        let b = proofs[ranking[j]].shard_proof.from_shard_id;
        a < b || a == b && ranking[i] < ranking[j]
    } by {
        assert(stands_before(sorted[i], sorted[j]));
        assert(ranking[i] != ranking[j]);
    }
    assert(is_ranking(ranking, proofs));
    let list = applied_order(proofs, order);
    assert forall|k: int| 0 <= k < list.len() implies #[trigger] list[k]
        == proofs[ranking[order[k] as int]] by {
        assert(order[k] < proofs.len());
        assert(arrangement(items, order)[k] == sorted[order[k] as int].at);
    }
    assert(is_shuffled(list, proofs, ranking, order));
}

/// The receipts of some proofs are those of the first, then those of the rest.
pub proof fn receipts_come_proof_by_proof(one: Seq<ReceiptProof>, other: Seq<ReceiptProof>)
    ensures
        receipts_of(one + other) == receipts_of(one) + receipts_of(other),
        other.len() == 1 ==> receipts_of(other) == other[0].receipts@,
        receipts_of(Seq::empty()) == Seq::<Receipt>::empty(),
    decreases other.len(),
{
    reveal_with_fuel(receipts_of, 2);
    if other.len() > 0 {
        receipts_come_proof_by_proof(one, other.drop_last());
        assert((one + other).drop_last() =~= one + other.drop_last());
        assert((one + other).last() == other.last());
        assert(receipts_of(one) + receipts_of(other) =~= receipts_of(one) + receipts_of(
            other.drop_last(),
        ) + other.last().receipts@);
        if other.len() == 1 {
            assert(other.drop_last() =~= Seq::<ReceiptProof>::empty());
            assert(receipts_of(other) =~= other[0].receipts@);
        }
    } else {
        assert(one + other =~= one);
        assert(receipts_of(one) + receipts_of(other) =~= receipts_of(one));
    }
}

/// A proof was received from one shard for another.
pub open spec fn is_sent(
    proof: ReceiptProof,
    from_shard_id: u64,
    to_shard_id: u64,
) -> bool {
    proof.shard_proof.from_shard_id == from_shard_id && proof.shard_proof.to_shard_id == to_shard_id
}

/// Some proof was received from one shard for another.
pub open spec fn was_sent(
    received: Seq<ReceiptProof>,
    from_shard_id: u64,
    to_shard_id: u64,
) -> bool {
    exists|i: int|
        0 <= i < received.len() && is_sent(#[trigger] received[i], from_shard_id, to_shard_id)
}

/// The places of the first proofs received for a shard from each shard that sent
/// some, sorted by the shard that they come from.
pub open spec fn is_first_ranking(
    ranking: Seq<int>,
    received: Seq<ReceiptProof>,
    to_shard_id: u64,
) -> bool {
    &&& forall|i: int|
        0 <= i < ranking.len() ==> 0 <= #[trigger] ranking[i] < received.len()
            && received[ranking[i]].shard_proof.to_shard_id == to_shard_id && (forall|e: int|
            0 <= e < ranking[i] ==> !is_sent(
                #[trigger] received[e],
                received[ranking[i]].shard_proof.from_shard_id,
                to_shard_id,
            ))
    &&& forall|i: int, j: int|
        #![trigger ranking[i], ranking[j]]
        0 <= i < j < ranking.len() ==> received[ranking[i]].shard_proof.from_shard_id
            < received[ranking[j]].shard_proof.from_shard_id
    &&& forall|from_shard_id: u64| #[trigger]
        was_sent(received, from_shard_id, to_shard_id) ==> exists|i: int|
            0 <= i < ranking.len() && received[#[trigger] ranking[i]].shard_proof.from_shard_id
                == from_shard_id
}

/// An item that is kept has none of its pair of shards before it.
proof fn lemma_kept_has_none_before(items: Seq<Placed>, x: Placed)
    requires
        in_places(items),
        first_of_each(items).contains(x),
    ensures
        items.contains(x),
        forall|e: int|
            0 <= e < items.len() && (#[trigger] items[e]).at < x.at ==> !same_shards(items[e], x),
    decreases items.len(),
{
    lemma_first_of_each(items);
    let init = items.drop_last();
    let last = items.last();
    let kept = first_of_each(init);
    let r = first_of_each(items);
    assert forall|i: int, j: int| 0 <= i < j < init.len() implies (#[trigger] init[i]).at < (
    #[trigger] init[j]).at by {
        assert(items[i].at < items[j].at);
    }
    if kept.contains(x) {
        lemma_kept_has_none_before(init, x);
        let k = choose|k: int| 0 <= k < init.len() && init[k] == x;
        assert(items[k] == x);
        assert forall|e: int| 0 <= e < items.len() && (#[trigger] items[e]).at
            < x.at implies !same_shards(items[e], x) by {
            if e < init.len() {
                assert(init[e] == items[e]);
            } else {
                assert(items[k].at < items[e].at);
            }
        }
    } else {
        let i = choose|i: int| 0 <= i < r.len() && r[i] == x;
        if i < kept.len() {
            assert(kept[i] == x);
        }
        assert(x == last);
        assert(!exists|k: int| 0 <= k < items.len() - 1 && same_shards(#[trigger] items[k], last));
        assert forall|e: int| 0 <= e < items.len() && (#[trigger] items[e]).at
            < x.at implies !same_shards(items[e], x) by {
            assert(e < items.len() - 1);
        }
    }
}

/// What is saved for a shard are the first proofs received for it, one from each
/// shard that sent some, sorted by that shard and then shuffled.
proof fn lemma_saved_for(received: Seq<ReceiptProof>, to_shard_id: u64, order: Seq<usize>)
    requires
        received.len() <= usize::MAX,
        spec_is_shuffle(order, saved_items(received, to_shard_id).len() as int),
    ensures
        exists|ranking: Seq<int>| #[trigger]
            is_first_ranking(ranking, received, to_shard_id) && is_shuffled(
                saved_for(received, to_shard_id, order),
                received,
                ranking,
                order,
            ),
{
    let all = placed(received);
    let kept = first_of_each(all);
    let items = saved_items(received, to_shard_id);
    let sorted = by_from_shard(items);
    let ranking = sorted_places(items);
    lemma_in_places(received);
    lemma_first_of_each(all);
    lemma_for_shard(kept, to_shard_id);
    lemma_group(received, to_shard_id);
    lemma_sorted_places(items);
    lemma_sorted_strictly(items);
    assert forall|i: int| 0 <= i < ranking.len() implies 0 <= #[trigger] ranking[i]
        < received.len() && received[ranking[i]].shard_proof.to_shard_id == to_shard_id
        && received[ranking[i]].shard_proof.from_shard_id == sorted[i].from_shard_id && (forall|
        e: int,
    |
        0 <= e < ranking[i] ==> !is_sent(
            #[trigger] received[e],
            received[ranking[i]].shard_proof.from_shard_id,
            to_shard_id,
        )) by {
        let x = sorted[i];
        assert(items.contains(x));
        assert(for_shard(kept, to_shard_id).contains(x));
        assert(kept.contains(x));
        lemma_kept_has_none_before(all, x);
        let a = choose|a: int| 0 <= a < all.len() && all[a] == x;
        assert(all[a].at == a);
        assert forall|e: int| 0 <= e < ranking[i] implies !is_sent(
            #[trigger] received[e],
            x.from_shard_id,
            to_shard_id,
        ) by {
            assert(all[e].at < x.at);
        }
    }
    assert forall|i: int, j: int|
        #![trigger ranking[i], ranking[j]]
        0 <= i < j < ranking.len() implies received[ranking[i]].shard_proof.from_shard_id
        < received[ranking[j]].shard_proof.from_shard_id by {
        assert(sorted[i].from_shard_id < sorted[j].from_shard_id);
    }
    assert forall|from_shard_id: u64| #[trigger]
        was_sent(received, from_shard_id, to_shard_id) implies exists|i: int|
        0 <= i < ranking.len() && received[#[trigger] ranking[i]].shard_proof.from_shard_id
            == from_shard_id by {
        lemma_received_is_kept(received, from_shard_id, to_shard_id);
        let j = choose|j: int|
            0 <= j < items.len() && (#[trigger] items[j]).from_shard_id == from_shard_id;
        assert(items.contains(items[j]));
        lemma_by_from_shard(items);
        assert(by_from_shard(items).contains(items[j]));
        let i = choose|i: int| 0 <= i < sorted.len() && sorted[i] == items[j];
        assert(received[ranking[i]].shard_proof.from_shard_id == from_shard_id);
    }
    assert(is_first_ranking(ranking, received, to_shard_id));
    let list = saved_for(received, to_shard_id, order);
    assert forall|k: int| 0 <= k < list.len() implies #[trigger] list[k]
        == received[ranking[order[k] as int]] by {
        assert(order[k] < items.len());
        assert(arrangement(items, order)[k] == sorted[order[k] as int].at);
    }
    assert(is_shuffled(list, received, ranking, order));
}

/// A shard that sent receipts to another has an item among those kept.
proof fn lemma_received_is_kept(
    received: Seq<ReceiptProof>,
    from_shard_id: u64,
    to_shard_id: u64,
)
    requires
        received.len() <= usize::MAX,
        was_sent(received, from_shard_id, to_shard_id),
    ensures
        exists|j: int|
            0 <= j < saved_items(received, to_shard_id).len() && (#[trigger] saved_items(
                received,
                to_shard_id,
            )[j]).from_shard_id == from_shard_id,
{
    let i = choose|i: int|
        0 <= i < received.len() && is_sent(#[trigger] received[i], from_shard_id, to_shard_id);
    assert(received[i].shard_proof.from_shard_id == from_shard_id);
    crate::order_laws::lemma_first_for(received, from_shard_id, to_shard_id);
    lemma_group_covers(received, from_shard_id, to_shard_id);
}

/// The node cares about a shard at a block.
pub open spec fn cares(block_hash: CryptoHash, shard_id: u64, view: &ChainView) -> bool {
    view.flag(Query::CaresThisOrNextEpoch { block_hash, shard_id }) == Ok::<bool, Stop>(true)
}

/// A proof was received for a shard.
pub open spec fn goes_to(received: Seq<ReceiptProof>, shard_id: u64) -> bool {
    exists|i: int|
        0 <= i < received.len() && (#[trigger] received[i]).shard_proof.to_shard_id == shard_id
}

/// What is saved for a shard of what was received of a block: the first proofs, one
/// from each shard that sent some, sorted by that shard and then shuffled under the
/// hash of the block.
pub open spec fn is_saved_list(
    list: Seq<ReceiptProof>,
    received: Seq<ReceiptProof>,
    shard_id: u64,
    block_hash: CryptoHash,
    view: &ChainView,
) -> bool {
    &&& view.shuffle(block_hash, list.len() as usize) matches Ok(order)
    &&& exists|ranking: Seq<int>| #[trigger]
        is_first_ranking(ranking, received, shard_id) && is_shuffled(
            list,
            received,
            ranking,
            order@,
        )
}

proof fn lemma_goes_to(received: Seq<ReceiptProof>, shard_id: u64)
    requires
        received.len() <= usize::MAX,
    ensures
        goes_to(received, shard_id) <==> sent_to(first_of_each(placed(received)), shard_id),
{
    let all = placed(received);
    let kept = first_of_each(all);
    lemma_in_places(received);
    lemma_first_of_each(all);
    lemma_for_shard(kept, shard_id);
    if sent_to(kept, shard_id) {
        let k = choose|k: int|
            0 <= k < kept.len() && (#[trigger] kept[k]).to_shard_id == shard_id;
        assert(kept.contains(kept[k]));
        assert(all.contains(kept[k]));
        let a = choose|a: int| 0 <= a < all.len() && all[a] == kept[k];
        assert(received[a].shard_proof.to_shard_id == shard_id);
    }
    if goes_to(received, shard_id) {
        let i = choose|i: int|
            0 <= i < received.len() && (#[trigger] received[i]).shard_proof.to_shard_id == shard_id;
        let from_shard_id = received[i].shard_proof.from_shard_id;
        assert(is_sent(received[i], from_shard_id, shard_id));
        lemma_received_is_kept(received, from_shard_id, shard_id);
        let items = saved_items(received, shard_id);
        let j = choose|j: int|
            0 <= j < items.len() && (#[trigger] items[j]).from_shard_id == from_shard_id;
        assert(for_shard(kept, shard_id).contains(items[j]));
        let k = choose|k: int| 0 <= k < kept.len() && kept[k] == items[j];
        assert(kept[k].to_shard_id == shard_id);
    }
}

/// Receipts are saved for the shards that the node cares about and for which some
/// were received, each shard once; and what is saved for each are the first proofs
/// from each shard, in the order in which they are applied.
pub proof fn saved_are_the_first_proofs(
    received: Seq<ReceiptProof>,
    block_hash: CryptoHash,
    view: &ChainView,
)
    requires
        view.consistent(),
        received.len() <= usize::MAX,
        saving(Some(received), block_hash, view) matches Ok(Some(_)),
    ensures
        ({
            let groups = saving(Some(received), block_hash, view)->Ok_0->0;
            &&& forall|g: int|
                0 <= g < groups.len() ==> cares(block_hash, (#[trigger] groups[g]).0, view)
                    && goes_to(received, groups[g].0) && is_saved_list(
                    groups[g].1,
                    received,
                    groups[g].0,
                    block_hash,
                    view,
                )
            &&& forall|g: int, h: int|
                0 <= g < h < groups.len() ==> (#[trigger] groups[g]).0 != (#[trigger] groups[h]).0
            &&& forall|shard_id: u64|
                goes_to(received, shard_id) && #[trigger] cares(block_hash, shard_id, view)
                    ==> exists|g: int| 0 <= g < groups.len() && (#[trigger] groups[g]).0 == shard_id
        }),
{
    let groups = saving(Some(received), block_hash, view)->Ok_0->0;
    let items = first_of_each(placed(received));
    let found = targets(items, block_hash, view)->Ok_0;
    let places = plan(received, block_hash, view)->Ok_0;
    lemma_targets_found(items, block_hash, view);
    lemma_arranged(items, found, block_hash, view);
    lemma_in_places(received);
    lemma_first_of_each(placed(received));
    assert forall|g: int| 0 <= g < groups.len() implies cares(
        block_hash,
        (#[trigger] groups[g]).0,
        view,
    ) && goes_to(received, groups[g].0) && is_saved_list(
        groups[g].1,
        received,
        groups[g].0,
        block_hash,
        view,
    ) && groups[g].0 == found[g] by {
        assert(is_arranged(items, found[g], block_hash, view, places[g]));
        let shard_id = found[g];
        assert(groups[g].0 == shard_id);
        assert(found.contains(shard_id));
        assert(is_cared_about(block_hash, shard_id, view) == Ok::<bool, Stop>(true));
        lemma_goes_to(received, shard_id);
        lemma_saving(received, block_hash, view, g);
        let group = saved_items(received, shard_id);
        lemma_for_shard(items, shard_id);
        let order = view.shuffle(block_hash, group.len() as usize)->Ok_0;
        let question = Query::Shuffle { salt: block_hash, len: group.len() as usize };
        assert(view.answer(question) is Some);
        assert(spec_is_shuffle(order@, group.len() as int));
        lemma_saved_for(received, shard_id, order@);
        assert(groups[g].1.len() == group.len());
    }
    assert forall|g: int, h: int| 0 <= g < h < groups.len() implies (#[trigger] groups[g]).0 != (
    #[trigger] groups[h]).0 by {
        assert(groups[g].0 == found[g] && groups[h].0 == found[h]);
    }
    assert forall|shard_id: u64|
        goes_to(received, shard_id) && #[trigger] cares(block_hash, shard_id, view) implies exists|
        g: int,
    |
        0 <= g < groups.len() && (#[trigger] groups[g]).0 == shard_id by {
        lemma_goes_to(received, shard_id);
        assert(sent_to(items, shard_id));
        assert(found.contains(shard_id));
        let g = choose|g: int| 0 <= g < found.len() && found[g] == shard_id;
        assert(groups[g].0 == shard_id);
    }
}

/// Some shard that the node cares about has not heard of some shard of the block.
pub open spec fn is_waiting(
    received: Seq<ReceiptProof>,
    shard_ids: Seq<u64>,
    block_hash: CryptoHash,
    view: &ChainView,
) -> bool {
    exists|a: int, b: int|
        0 <= a < shard_ids.len() && 0 <= b < shard_ids.len() && cares(
            block_hash,
            #[trigger] shard_ids[a],
            view,
        ) && !was_sent(received, #[trigger] shard_ids[b], shard_ids[a])
}

/// It is known of each shard whether the node cares about it.
pub open spec fn caring_is_known(
    shard_ids: Seq<u64>,
    block_hash: CryptoHash,
    view: &ChainView,
) -> bool {
    forall|a: int|
        0 <= a < shard_ids.len() ==> view.flag(
            Query::CaresThisOrNextEpoch { block_hash, shard_id: #[trigger] shard_ids[a] },
        ) is Ok
}

proof fn lemma_complete_from(
    received: Seq<ReceiptProof>,
    shard_ids: Seq<u64>,
    i: int,
    block_hash: CryptoHash,
    view: &ChainView,
)
    requires
        0 <= i <= shard_ids.len(),
    ensures
        complete_from(received, shard_ids, i, block_hash, view) == Ok::<bool, Stop>(true)
            ==> forall|a: int, b: int|
            i <= a < shard_ids.len() && 0 <= b < shard_ids.len() && cares(
                block_hash,
                #[trigger] shard_ids[a],
                view,
            ) ==> was_sent(received, #[trigger] shard_ids[b], shard_ids[a]),
        complete_from(received, shard_ids, i, block_hash, view) == Ok::<bool, Stop>(false)
            ==> is_waiting(received, shard_ids, block_hash, view),
        caring_is_known(shard_ids, block_hash, view) ==> complete_from(
            received,
            shard_ids,
            i,
            block_hash,
            view,
        ) is Ok,
    decreases shard_ids.len() - i,
{
    if i < shard_ids.len() {
        lemma_complete_from(received, shard_ids, i + 1, block_hash, view);
        let to = shard_ids[i];
        if cares(block_hash, to, view) && complete_from(
            received,
            shard_ids,
            i,
            block_hash,
            view,
        ) is Ok {
            assert forall|b: int|
                0 <= b < shard_ids.len() implies crate::incoming::brings(
                received,
                #[trigger] shard_ids[b],
                to,
            ) == was_sent(received, shard_ids[b], to) by {
                if was_sent(received, shard_ids[b], to) {
                    let k = choose|k: int|
                        0 <= k < received.len() && is_sent(
                            #[trigger] received[k],
                            shard_ids[b],
                            to,
                        );
                    assert(received[k].shard_proof.from_shard_id == shard_ids[b]);
                }
                if crate::incoming::brings(received, shard_ids[b], to) {
                    let k = choose|k: int|
                        0 <= k < received.len() && (
                        #[trigger] received[k]).shard_proof.from_shard_id == shard_ids[b]
                            && received[k].shard_proof.to_shard_id == to;
                    assert(is_sent(received[k], shard_ids[b], to));
                }
            }
            if !crate::incoming::brings_from_all(received, shard_ids, to) {
                let b = choose|b: int|
                    0 <= b < shard_ids.len() && !crate::incoming::brings(
                        received,
                        #[trigger] shard_ids[b],
                        to,
                    );
                assert(cares(block_hash, shard_ids[i], view) && !was_sent(
                    received,
                    shard_ids[b],
                    shard_ids[i],
                ));
            }
        }
    }
}

/// The receipts of a block are complete once, for each of its shards that the node
/// cares about, some were received from every shard; and not before.
pub proof fn complete_once_all_were_sent(
    received: Seq<ReceiptProof>,
    epoch_hash: CryptoHash,
    shard_ids: &Vec<u64>,
    block_hash: CryptoHash,
    view: &ChainView,
)
    requires
        view.digest(Query::EpochId(block_hash)) == Ok::<CryptoHash, Stop>(epoch_hash),
        view.shard_ids(Query::ShardIds(EpochId(epoch_hash))) == Ok::<&Vec<u64>, Stop>(shard_ids),
    ensures
        complete(Some(received), block_hash, view) == Ok::<bool, Stop>(true) ==> !is_waiting(
            received,
            shard_ids@,
            block_hash,
            view,
        ),
        complete(Some(received), block_hash, view) == Ok::<bool, Stop>(false) ==> is_waiting(
            received,
            shard_ids@,
            block_hash,
            view,
        ),
        caring_is_known(shard_ids@, block_hash, view) ==> complete(
            Some(received),
            block_hash,
            view,
        ) is Ok,
        complete(None, block_hash, view) == Ok::<bool, Stop>(false),
{
    lemma_complete_from(received, shard_ids@, 0, block_hash, view);
}

/// How a list of each length up to a number is shuffled is known.
pub open spec fn shuffles_are_known(block_hash: CryptoHash, n: int, view: &ChainView) -> bool {
    forall|len: usize| len <= n ==> (#[trigger] view.shuffle(block_hash, len)) is Ok
}

/// Receipts are saved as soon as they are complete, and none are before: where it
/// is known of each shard whether the node cares about it, and how lists are
/// shuffled, what was received is saved if and only if no shard that the node cares
/// about waits for another.
pub proof fn saved_once_complete(
    received: Seq<ReceiptProof>,
    epoch_hash: CryptoHash,
    shard_ids: &Vec<u64>,
    block_hash: CryptoHash,
    view: &ChainView,
)
    requires
        received.len() <= usize::MAX,
        view.digest(Query::EpochId(block_hash)) == Ok::<CryptoHash, Stop>(epoch_hash),
        view.shard_ids(Query::ShardIds(EpochId(epoch_hash))) == Ok::<&Vec<u64>, Stop>(shard_ids),
        caring_is_known(shard_ids@, block_hash, view),
        forall|shard_id: u64| #[trigger]
            goes_to(received, shard_id) ==> view.flag(
                Query::CaresThisOrNextEpoch { block_hash, shard_id },
            ) is Ok,
        shuffles_are_known(block_hash, received.len() as int, view),
    ensures
        is_waiting(received, shard_ids@, block_hash, view) ==> saving(
            Some(received),
            block_hash,
            view,
        ) == Ok::<Option<Seq<(u64, Seq<ReceiptProof>)>>, Stop>(None),
        !is_waiting(received, shard_ids@, block_hash, view) ==> saving(
            Some(received),
            block_hash,
            view,
        ) matches Ok(Some(_)),
        saving(None, block_hash, view) == Ok::<Option<Seq<(u64, Seq<ReceiptProof>)>>, Stop>(None),
{
    complete_once_all_were_sent(received, epoch_hash, shard_ids, block_hash, view);
    let items = first_of_each(placed(received));
    lemma_in_places(received);
    lemma_first_of_each(placed(received));
    assert forall|shard_id: u64| #[trigger] sent_to(items, shard_id) implies is_cared_about(
        block_hash,
        shard_id,
        view,
    ) is Ok by {
        lemma_goes_to(received, shard_id);
        assert(goes_to(received, shard_id));
    }
    lemma_targets_ok(items, block_hash, view);
    let found = targets(items, block_hash, view)->Ok_0;
    assert forall|g: int| 0 <= g < found.len() implies view.shuffle(
        block_hash,
        for_shard(items, #[trigger] found[g]).len() as usize,
    ) is Ok by {
        lemma_for_shard(items, found[g]);
    }
    lemma_arranged_ok(items, found, block_hash, view);
}

} // verus!
