//! The order in which receipts are applied does not depend on how they came.
use vstd::prelude::*;
use crate::hash::CryptoHash;
use crate::incoming::{brings, for_shard, lemma_for_shard};
use crate::order::{
    applied_order, arrangement, by_from_shard, first_of_each, in_places, lemma_by_from_shard,
    lemma_first_of_each, lemma_first_of_each_covers, one_per_pair, placed, proofs_at, represented,
    same_shards, spec_is_shuffle, stands_before, Placed,
};
use crate::receipts::ReceiptProof;
use crate::statements::ExecutionResult;
use crate::validation::{gathered, lemma_gathered};

verus! {

/// No two items come from the same shard.
pub open spec fn distinct_from(items: Seq<Placed>) -> bool {
    forall|i: int, j: int|
        0 <= i < j < items.len() ==> (#[trigger] items[i]).from_shard_id != (
        #[trigger] items[j]).from_shard_id
}

/// One of the items comes from this shard and stands for this proof.
pub open spec fn stands_for(
    q: Seq<ReceiptProof>,
    y: Seq<Placed>,
    from_shard_id: u64,
    receipt_proof: ReceiptProof,
) -> bool {
    exists|j: int|
        0 <= j < y.len() && (#[trigger] y[j]).from_shard_id == from_shard_id && q[y[j].at as int]
            == receipt_proof
}

/// Every item of one list has one in the other that comes from the same shard
/// and stands for the same proof.
pub open spec fn matched(
    p: Seq<ReceiptProof>,
    x: Seq<Placed>,
    q: Seq<ReceiptProof>,
    y: Seq<Placed>,
) -> bool {
    forall|i: int|
        0 <= i < x.len() ==> stands_for(
            q,
            y,
            (#[trigger] x[i]).from_shard_id,
            p[x[i].at as int],
        )
}

/// The list is sorted by the shard that the items come from, each shard once.
pub open spec fn strictly_sorted(items: Seq<Placed>) -> bool {
    forall|i: int, j: int|
        0 <= i < j < items.len() ==> (#[trigger] items[i]).from_shard_id < (
        #[trigger] items[j]).from_shard_id
}

/// Where no two items come from the same shard, sorting is strict.
pub proof fn lemma_sorted_strictly(items: Seq<Placed>)
    requires
        distinct_from(items),
    ensures
        strictly_sorted(by_from_shard(items)),
{
    lemma_by_from_shard(items);
    let r = by_from_shard(items);
    lemma_no_duplicates(items, r);
    assert forall|i: int, j: int| 0 <= i < j < r.len() implies (#[trigger] r[i]).from_shard_id < (
    #[trigger] r[j]).from_shard_id by {
        assert(stands_before(r[i], r[j]));
        if r[i].from_shard_id == r[j].from_shard_id {
            assert(by_from_shard(items).contains(r[i]) && items.contains(r[i]));
            assert(by_from_shard(items).contains(r[j]) && items.contains(r[j]));
            let a = choose|a: int| 0 <= a < items.len() && items[a] == r[i];
            let b = choose|b: int| 0 <= b < items.len() && items[b] == r[j];
            if a < b {
                assert(items[a].from_shard_id != items[b].from_shard_id);
            } else if b < a {
                assert(items[b].from_shard_id != items[a].from_shard_id);
            }
        }
    }
}

/// Where no two items come from the same shard, no order of them holds one twice.
proof fn lemma_no_duplicates(items: Seq<Placed>, r: Seq<Placed>)
    requires
        r.to_multiset() == items.to_multiset(),
        distinct_from(items),
    ensures
        r.no_duplicates(),
{
    assert(items.no_duplicates()) by {
        assert forall|a: int, b: int|
            0 <= a < items.len() && 0 <= b < items.len() && a != b implies items[a] != items[b] by {
            if a < b {
                assert(items[a].from_shard_id != items[b].from_shard_id);
            } else {
                assert(items[b].from_shard_id != items[a].from_shard_id);
            }
        }
    }
    items.lemma_multiset_has_no_duplicates();
    r.lemma_multiset_has_no_duplicates_conv();
}

/// Where two sorted lists stand for the same proofs, so they do without their
/// last items, which are the same.
proof fn lemma_same_last(
    p: Seq<ReceiptProof>,
    x: Seq<Placed>,
    q: Seq<ReceiptProof>,
    y: Seq<Placed>,
)
    requires
        strictly_sorted(x),
        strictly_sorted(y),
        matched(p, x, q, y),
        matched(q, y, p, x),
        x.len() > 0,
    ensures
        y.len() > 0,
        x.last().from_shard_id == y.last().from_shard_id,
        p[x.last().at as int] == q[y.last().at as int],
{
    let a = x.len() - 1;
    assert(stands_for(q, y, x[a].from_shard_id, p[x[a].at as int]));
    let j = choose|j: int|
        0 <= j < y.len() && (#[trigger] y[j]).from_shard_id == x[a].from_shard_id && q[
        y[j].at as int] == p[x[a].at as int];
    let b = y.len() - 1;
    assert(stands_for(p, x, y[b].from_shard_id, q[y[b].at as int]));
    let i = choose|i: int|
        0 <= i < x.len() && (#[trigger] x[i]).from_shard_id == y[b].from_shard_id && p[
        x[i].at as int] == q[y[b].at as int];
    if j < b {
        assert(y[j].from_shard_id < y[b].from_shard_id);
        if i < a {
            assert(x[i].from_shard_id < x[a].from_shard_id);
        }
    }
}

proof fn lemma_matched_init(
    p: Seq<ReceiptProof>,
    x: Seq<Placed>,
    q: Seq<ReceiptProof>,
    y: Seq<Placed>,
)
    requires
        strictly_sorted(x),
        matched(p, x, q, y),
        x.len() > 0,
        y.len() > 0,
        x.last().from_shard_id == y.last().from_shard_id,
    ensures
        matched(p, x.drop_last(), q, y.drop_last()),
{
    let x1 = x.drop_last();
    let y1 = y.drop_last();
    let a = x.len() - 1;
    assert forall|k: int| 0 <= k < x1.len() implies stands_for(
        q,
        y1,
        (#[trigger] x1[k]).from_shard_id,
        p[x1[k].at as int],
    ) by {
        assert(x1[k] == x[k]);
        assert(x[k].from_shard_id < x[a].from_shard_id);
        assert(stands_for(q, y, x[k].from_shard_id, p[x[k].at as int]));
        let l = choose|l: int|
            0 <= l < y.len() && (#[trigger] y[l]).from_shard_id == x[k].from_shard_id && q[
            y[l].at as int] == p[x[k].at as int];
        assert(y1[l] == y[l]);
    }
}

proof fn lemma_same_sorted(
    p: Seq<ReceiptProof>,
    x: Seq<Placed>,
    q: Seq<ReceiptProof>,
    y: Seq<Placed>,
)
    requires
        strictly_sorted(x),
        strictly_sorted(y),
        matched(p, x, q, y),
        matched(q, y, p, x),
    ensures
        x.len() == y.len(),
        forall|k: int|
            0 <= k < x.len() ==> p[(#[trigger] x[k]).at as int] == q[(#[trigger] y[k]).at as int],
    decreases x.len(),
{
    if x.len() > 0 {
        lemma_same_last(p, x, q, y);
        lemma_matched_init(p, x, q, y);
        lemma_matched_init(q, y, p, x);
        let x1 = x.drop_last();
        let y1 = y.drop_last();
        assert(strictly_sorted(x1)) by {
            assert forall|i: int, j: int| 0 <= i < j < x1.len() implies (
            #[trigger] x1[i]).from_shard_id < (#[trigger] x1[j]).from_shard_id by {
                assert(x[i].from_shard_id < x[j].from_shard_id);
            }
        }
        assert(strictly_sorted(y1)) by {
            assert forall|i: int, j: int| 0 <= i < j < y1.len() implies (
            #[trigger] y1[i]).from_shard_id < (#[trigger] y1[j]).from_shard_id by {
                assert(y[i].from_shard_id < y[j].from_shard_id);
            }
        }
        lemma_same_sorted(p, x1, q, y1);
        assert forall|k: int| 0 <= k < x.len() implies p[(#[trigger] x[k]).at as int] == q[(
        #[trigger] y[k]).at as int] by {
            if k < x1.len() {
                assert(x1[k] == x[k] && y1[k] == y[k]);
            }
        }
    } else if y.len() > 0 {
        lemma_same_last(q, y, p, x);
    }
}

proof fn lemma_matched_sorted(
    p: Seq<ReceiptProof>,
    x: Seq<Placed>,
    q: Seq<ReceiptProof>,
    y: Seq<Placed>,
)
    requires
        matched(p, x, q, y),
    ensures
        matched(p, by_from_shard(x), q, by_from_shard(y)),
{
    lemma_by_from_shard(x);
    lemma_by_from_shard(y);
    let xs = by_from_shard(x);
    let ys = by_from_shard(y);
    assert forall|i: int| 0 <= i < xs.len() implies stands_for(
        q,
        ys,
        (#[trigger] xs[i]).from_shard_id,
        p[xs[i].at as int],
    ) by {
        assert(by_from_shard(x).contains(xs[i]) && x.contains(xs[i]));
        let a = choose|a: int| 0 <= a < x.len() && x[a] == xs[i];
        assert(stands_for(q, y, x[a].from_shard_id, p[x[a].at as int]));
        let b = choose|b: int|
            0 <= b < y.len() && (#[trigger] y[b]).from_shard_id == x[a].from_shard_id
                && q[y[b].at as int] == p[x[a].at as int];
        assert(y.contains(y[b]));
        assert(by_from_shard(y).contains(y[b]));
        let j = choose|j: int| 0 <= j < ys.len() && ys[j] == y[b];
        assert(ys[j].from_shard_id == xs[i].from_shard_id);
    }
}

/// Two lists that stand for the same proofs, one per shard, are applied in the
/// same order under the same shuffle.
pub proof fn same_proofs_same_order(
    p: Seq<ReceiptProof>,
    x: Seq<Placed>,
    q: Seq<ReceiptProof>,
    y: Seq<Placed>,
    order: Seq<usize>,
)
    requires
        distinct_from(x),
        distinct_from(y),
        matched(p, x, q, y),
        matched(q, y, p, x),
        spec_is_shuffle(order, x.len() as int),
    ensures
        x.len() == y.len(),
        proofs_at(p, arrangement(x, order)) == proofs_at(q, arrangement(y, order)),
{
    lemma_sorted_strictly(x);
    lemma_sorted_strictly(y);
    lemma_matched_sorted(p, x, q, y);
    lemma_matched_sorted(q, y, p, x);
    lemma_same_sorted(p, by_from_shard(x), q, by_from_shard(y));
    lemma_by_from_shard(x);
    lemma_by_from_shard(y);
    let r = proofs_at(p, arrangement(x, order));
    let s = proofs_at(q, arrangement(y, order));
    assert forall|k: int| 0 <= k < r.len() implies r[k] == s[k] by {
        assert(order[k] < x.len());
        let a = by_from_shard(x)[order[k] as int];
        let b = by_from_shard(y)[order[k] as int];
        assert(p[a.at as int] == q[b.at as int]);
    }
    assert(r =~= s);
}

/// The first of the proofs that brings the receipts of one shard for another.
pub open spec fn first_for(
    proofs: Seq<ReceiptProof>,
    from_shard_id: u64,
    to_shard_id: u64,
) -> Option<ReceiptProof>
    decreases proofs.len(),
{
    if proofs.len() == 0 {
        None
    } else {
        match first_for(proofs.drop_last(), from_shard_id, to_shard_id) {
            Some(first) => Some(first),
            None => if proofs.last().shard_proof.from_shard_id == from_shard_id
                && proofs.last().shard_proof.to_shard_id == to_shard_id {
                Some(proofs.last())
            } else {
                None
            },
        }
    }
}

/// There is a first proof where there is one.
pub proof fn lemma_first_for(proofs: Seq<ReceiptProof>, from_shard_id: u64, to_shard_id: u64)
    ensures
        match first_for(proofs, from_shard_id, to_shard_id) {
            Some(first) => brings(proofs, from_shard_id, to_shard_id)
                && first.shard_proof.from_shard_id == from_shard_id
                && first.shard_proof.to_shard_id == to_shard_id,
            None => !brings(proofs, from_shard_id, to_shard_id),
        },
    decreases proofs.len(),
{
    if proofs.len() > 0 {
        let init = proofs.drop_last();
        lemma_first_for(init, from_shard_id, to_shard_id);
        if brings(init, from_shard_id, to_shard_id) {
            let i = choose|i: int|
                0 <= i < init.len() && (#[trigger] init[i]).shard_proof.from_shard_id
                    == from_shard_id && init[i].shard_proof.to_shard_id == to_shard_id;
            assert(proofs[i] == init[i]);
        } else {
            assert(proofs[proofs.len() - 1] == proofs.last());
            if brings(proofs, from_shard_id, to_shard_id) {
                let i = choose|i: int|
                    0 <= i < proofs.len() && (#[trigger] proofs[i]).shard_proof.from_shard_id
                        == from_shard_id && proofs[i].shard_proof.to_shard_id == to_shard_id;
                if i < init.len() {
                    assert(init[i] == proofs[i]);
                }
            }
        }
    }
}

/// An item that is kept stands for the first proof of its pair of shards.
proof fn lemma_kept_is_first(proofs: Seq<ReceiptProof>, x: Placed)
    requires
        proofs.len() <= usize::MAX,
        first_of_each(placed(proofs)).contains(x),
    ensures
        x.at < proofs.len(),
        first_for(proofs, x.from_shard_id, x.to_shard_id) == Some(proofs[x.at as int]),
    decreases proofs.len(),
{
    let items = placed(proofs);
    let init = proofs.drop_last();
    assert(items.drop_last() =~= placed(init));
    let kept = first_of_each(placed(init));
    let last = items.last();
    lemma_first_for(init, last.from_shard_id, last.to_shard_id);
    if kept.contains(x) {
        lemma_kept_is_first(init, x);
        assert(init[x.at as int] == proofs[x.at as int]);
    } else {
        let r = first_of_each(items);
        let i = choose|i: int| 0 <= i < r.len() && r[i] == x;
        if exists|k: int| 0 <= k < items.len() - 1 && same_shards(#[trigger] items[k], last) {
            assert(kept[i] == x);
        } else {
            if i < kept.len() {
                assert(kept[i] == x);
            }
            assert(x == last);
            if brings(init, x.from_shard_id, x.to_shard_id) {
                let k = choose|k: int|
                    0 <= k < init.len() && (#[trigger] init[k]).shard_proof.from_shard_id
                        == x.from_shard_id && init[k].shard_proof.to_shard_id == x.to_shard_id;
                assert(same_shards(items[k], last));
            }
        }
    }
}

/// The places of the proofs of a list increase.
pub proof fn lemma_in_places(proofs: Seq<ReceiptProof>)
    requires
        proofs.len() <= usize::MAX,
    ensures
        in_places(placed(proofs)),
{
}

/// The items that are saved for a shard: one for each shard that sent receipts,
/// and it stands for the first proof of them.
pub proof fn lemma_group(proofs: Seq<ReceiptProof>, to_shard_id: u64)
    requires
        proofs.len() <= usize::MAX,
    ensures
        distinct_from(saved_items(proofs, to_shard_id)),
        forall|i: int|
            0 <= i < saved_items(proofs, to_shard_id).len() ==> first_for(
                proofs,
                (#[trigger] saved_items(proofs, to_shard_id)[i]).from_shard_id,
                to_shard_id,
            ) == Some(proofs[saved_items(proofs, to_shard_id)[i].at as int]),
{
    let kept = first_of_each(placed(proofs));
    let group = saved_items(proofs, to_shard_id);
    lemma_in_places(proofs);
    lemma_first_of_each(placed(proofs));
    lemma_for_shard(kept, to_shard_id);
    assert forall|i: int| 0 <= i < group.len() implies first_for(
        proofs,
        (#[trigger] group[i]).from_shard_id,
        to_shard_id,
    ) == Some(proofs[group[i].at as int]) by {
        assert(for_shard(kept, to_shard_id).contains(group[i]));
        assert(kept.contains(group[i]));
        lemma_kept_is_first(proofs, group[i]);
    }
    assert forall|i: int, j: int| 0 <= i < j < group.len() implies (
    #[trigger] group[i]).from_shard_id != (#[trigger] group[j]).from_shard_id by {
        assert(group[i].at < group[j].at);
        assert(for_shard(kept, to_shard_id).contains(group[i]));
        assert(for_shard(kept, to_shard_id).contains(group[j]));
        let a = choose|a: int| 0 <= a < kept.len() && kept[a] == group[i];
        let b = choose|b: int| 0 <= b < kept.len() && kept[b] == group[j];
        if a < b {
            assert(!same_shards(kept[a], kept[b]));
        } else {
            assert(!same_shards(kept[b], kept[a]));
        }
    }
}

/// Every shard that sent receipts to another has an item among those saved.
pub proof fn lemma_group_covers(proofs: Seq<ReceiptProof>, from_shard_id: u64, to_shard_id: u64)
    requires
        proofs.len() <= usize::MAX,
        first_for(proofs, from_shard_id, to_shard_id) is Some,
    ensures
        stands_for(
            proofs,
            saved_items(proofs, to_shard_id),
            from_shard_id,
            first_for(proofs, from_shard_id, to_shard_id)->0,
        ),
{
    let kept = first_of_each(placed(proofs));
    let group = saved_items(proofs, to_shard_id);
    lemma_in_places(proofs);
    lemma_first_of_each(placed(proofs));
    lemma_for_shard(kept, to_shard_id);
    lemma_first_for(proofs, from_shard_id, to_shard_id);
    let k = choose|k: int|
        0 <= k < proofs.len() && (#[trigger] proofs[k]).shard_proof.from_shard_id == from_shard_id
            && proofs[k].shard_proof.to_shard_id == to_shard_id;
    let x = placed(proofs)[k];
    assert(same_shards(placed(proofs)[k], x));
    assert(represented(placed(proofs), x));
    lemma_first_of_each_covers(placed(proofs), x);
    let j = choose|j: int| 0 <= j < kept.len() && same_shards(#[trigger] kept[j], x);
    assert(kept.contains(kept[j]));
    lemma_kept_is_first(proofs, kept[j]);
    assert(for_shard(kept, to_shard_id).contains(kept[j]));
    let i = choose|i: int| 0 <= i < group.len() && group[i] == kept[j];
    assert(group[i].from_shard_id == from_shard_id);
}

/// The items whose proofs are saved for a shard.
pub open spec fn saved_items(proofs: Seq<ReceiptProof>, to_shard_id: u64) -> Seq<Placed> {
    for_shard(first_of_each(placed(proofs)), to_shard_id)
}

/// The proofs that are saved for a shard, in order, of those that were received.
pub open spec fn saved_for(
    received: Seq<ReceiptProof>,
    to_shard_id: u64,
    order: Seq<usize>,
) -> Seq<ReceiptProof> {
    proofs_at(received, arrangement(saved_items(received, to_shard_id), order))
}

/// The proofs saved for a shard, and their order, do not depend on the order in
/// which the proofs were received, nor on what was received for other shards:
/// where the first proof from each shard is the same, so is what is saved.
pub proof fn arrival_order_does_not_matter(
    one: Seq<ReceiptProof>,
    other: Seq<ReceiptProof>,
    to_shard_id: u64,
    order: Seq<usize>,
)
    requires
        one.len() <= usize::MAX,
        other.len() <= usize::MAX,
        forall|from_shard_id: u64| #[trigger]
            first_for(one, from_shard_id, to_shard_id) == first_for(
                other,
                from_shard_id,
                to_shard_id,
            ),
        spec_is_shuffle(order, saved_items(one, to_shard_id).len() as int),
    ensures
        saved_items(one, to_shard_id).len() == saved_items(other, to_shard_id).len(),
        saved_for(one, to_shard_id, order) == saved_for(other, to_shard_id, order),
{
    let x = saved_items(one, to_shard_id);
    let y = saved_items(other, to_shard_id);
    lemma_group(one, to_shard_id);
    lemma_group(other, to_shard_id);
    assert forall|i: int| 0 <= i < x.len() implies stands_for(
        other,
        y,
        (#[trigger] x[i]).from_shard_id,
        one[x[i].at as int],
    ) by {
        assert(first_for(one, x[i].from_shard_id, to_shard_id) == Some(one[x[i].at as int]));
        lemma_group_covers(other, x[i].from_shard_id, to_shard_id);
    }
    assert forall|i: int| 0 <= i < y.len() implies stands_for(
        one,
        x,
        (#[trigger] y[i]).from_shard_id,
        other[y[i].at as int],
    ) by {
        assert(first_for(one, y[i].from_shard_id, to_shard_id) == first_for(
            other,
            y[i].from_shard_id,
            to_shard_id,
        ));
        lemma_group_covers(one, y[i].from_shard_id, to_shard_id);
    }
    same_proofs_same_order(one, x, other, y, order);
}

/// The results are of different shards.
pub open spec fn distinct_shards(results: Seq<(CryptoHash, ExecutionResult)>) -> bool {
    forall|i: int, j: int|
        0 <= i < j < results.len() ==> (#[trigger] results[i]).1.shard_id != (
        #[trigger] results[j]).1.shard_id
}

/// A witness brings, for each chunk of the previous block, the proof that was
/// received first from the shard of the chunk, and no other was received.
pub open spec fn witness_brings_received(
    received: Seq<ReceiptProof>,
    results: Seq<(CryptoHash, ExecutionResult)>,
    source_receipt_proofs: Map<CryptoHash, &ReceiptProof>,
    shard_id: u64,
) -> bool {
    &&& forall|i: int|
        0 <= i < results.len() ==> first_for(
            received,
            (#[trigger] results[i]).1.shard_id,
            shard_id,
        ) == Some(*source_receipt_proofs[results[i].0])
    &&& forall|from_shard_id: u64| #[trigger]
        first_for(received, from_shard_id, shard_id) is Some ==> has_result(results, from_shard_id)
}

/// One of the results is of this shard.
pub open spec fn has_result(results: Seq<(CryptoHash, ExecutionResult)>, shard_id: u64) -> bool {
    exists|i: int| 0 <= i < results.len() && (#[trigger] results[i]).1.shard_id == shard_id
}

/// Whoever checks a witness applies the receipts in the order in which the
/// executor saved them: where the witness brings what was received, the proofs
/// that pass the check, put in order, are those that were saved.
pub proof fn witness_order_is_saved_order(
    received: Seq<ReceiptProof>,
    results: Seq<(CryptoHash, ExecutionResult)>,
    source_receipt_proofs: Map<CryptoHash, &ReceiptProof>,
    shard_id: u64,
    order: Seq<usize>,
)
    requires
        received.len() <= usize::MAX,
        results.len() <= usize::MAX,
        distinct_shards(results),
        gathered(results, source_receipt_proofs, shard_id) is Ok,
        witness_brings_received(received, results, source_receipt_proofs, shard_id),
        spec_is_shuffle(order, results.len() as int),
    ensures
        saved_items(received, shard_id).len() == results.len(),
        applied_order(gathered(results, source_receipt_proofs, shard_id)->Ok_0, order) == saved_for(
            received,
            shard_id,
            order,
        ),
{
    let proofs = gathered(results, source_receipt_proofs, shard_id)->Ok_0;
    lemma_gathered(results, source_receipt_proofs, shard_id);
    let x = placed(proofs);
    let y = saved_items(received, shard_id);
    lemma_group(received, shard_id);
    assert forall|i: int, j: int| 0 <= i < j < x.len() implies (#[trigger] x[i]).from_shard_id != (
    #[trigger] x[j]).from_shard_id by {
        assert(results[i].1.shard_id != results[j].1.shard_id);
    }
    assert forall|i: int| 0 <= i < x.len() implies stands_for(
        received,
        y,
        (#[trigger] x[i]).from_shard_id,
        proofs[x[i].at as int],
    ) by {
        assert(results[i].1.shard_id == x[i].from_shard_id);
        assert(x[i].at == i);
        lemma_group_covers(received, x[i].from_shard_id, shard_id);
    }
    assert forall|j: int| 0 <= j < y.len() implies stands_for(
        proofs,
        x,
        (#[trigger] y[j]).from_shard_id,
        received[y[j].at as int],
    ) by {
        assert(first_for(received, y[j].from_shard_id, shard_id) is Some);
        assert(has_result(results, y[j].from_shard_id));
        let i = choose|i: int|
            0 <= i < results.len() && (#[trigger] results[i]).1.shard_id == y[j].from_shard_id;
        assert(x[i].from_shard_id == y[j].from_shard_id);
        assert(x[i].at == i);
    }
    same_proofs_same_order(proofs, x, received, y, order);
}

} // verus!
