//! The order in which the receipts for a shard are applied.
//!
//! The proofs that bring the receipts are sorted by the shard that they come
//! from and then shuffled, with the hash of the block that made the receipts
//! as salt. How a list of a given length is shuffled under a given salt is
//! decided by the chain; here it is a list of places.
use vstd::prelude::*;
use vstd::relations::{sorted_by, total_ordering};
use vstd::seq_lib::lemma_sorted_unique;
use itertools::Itertools;
use crate::receipts::ReceiptProof;

verus! {

/// A receipt proof, known by its shards and its place in a list of proofs.
#[derive(Clone, Copy, PartialEq, Eq, Structural, Debug)]
pub struct Placed {
    pub from_shard_id: u64,
    pub to_shard_id: u64,
    pub at: usize,
}

/// The proofs of a list, each with its place.
pub open spec fn placed(proofs: Seq<ReceiptProof>) -> Seq<Placed> {
    Seq::new(
        proofs.len(),
        |i: int|
            Placed {
                from_shard_id: proofs[i].shard_proof.from_shard_id,
                to_shard_id: proofs[i].shard_proof.to_shard_id,
                at: i as usize,
            },
    )
}

/// The proofs of a list, each with its place.
pub fn place_all(proofs: &Vec<&ReceiptProof>) -> (r: Vec<Placed>)
    ensures
        r@ == placed(proofs@.unref()),
        in_places(r@),
{
    let mut r: Vec<Placed> = Vec::new();
    let mut i: usize = 0;
    while i < proofs.len()
        invariant
            i <= proofs.len(),
            r@.len() == i,
            forall|j: int| 0 <= j < i ==> #[trigger] r@[j] == placed(proofs@.unref())[j],
        decreases proofs.len() - i,
    {
        let proof: &ReceiptProof = proofs[i];
        r.push(
            Placed {
                from_shard_id: proof.shard_proof.from_shard_id,
                to_shard_id: proof.shard_proof.to_shard_id,
                at: i,
            },
        );
        i = i + 1;
    }
    assert(r@ =~= placed(proofs@.unref()));
    r
}

/// The places of the items increase.
pub open spec fn in_places(items: Seq<Placed>) -> bool {
    forall|i: int, j: int|
        0 <= i < j < items.len() ==> (#[trigger] items[i]).at < (#[trigger] items[j]).at
}

/// Two items have the same pair of shards.
pub open spec fn same_shards(a: Placed, b: Placed) -> bool {
    a.from_shard_id == b.from_shard_id && a.to_shard_id == b.to_shard_id
}

/// The list without the items whose pair of shards stands in it before.
pub open spec fn first_of_each(items: Seq<Placed>) -> Seq<Placed>
    decreases items.len(),
{
    if items.len() == 0 {
        Seq::empty()
    } else if exists|i: int|
        0 <= i < items.len() - 1 && same_shards(#[trigger] items[i], items.last()) {
        first_of_each(items.drop_last())
    } else {
        first_of_each(items.drop_last()).push(items.last())
    }
}

/// Calls `itertools::Itertools::unique_by` with the pair of shards as key: of
/// the items with one pair the first is kept, and what is kept stays in order.
#[verifier::external_body]
fn unique_by_shards(items: Vec<Placed>) -> (r: Vec<Placed>)
    ensures
        r@ == first_of_each(items@),
{
    items.into_iter().unique_by(|item| (item.from_shard_id, item.to_shard_id)).collect()
}

/// An item with the same pair of shards stands in the list.
pub open spec fn represented(items: Seq<Placed>, x: Placed) -> bool {
    exists|j: int| 0 <= j < items.len() && same_shards(#[trigger] items[j], x)
}

/// No two items have the same pair of shards.
pub open spec fn one_per_pair(items: Seq<Placed>) -> bool {
    forall|i: int, j: int|
        0 <= i < j < items.len() ==> !same_shards(#[trigger] items[i], #[trigger] items[j])
}

proof fn lemma_in_places_init(items: Seq<Placed>)
    requires
        in_places(items),
        items.len() > 0,
    ensures
        in_places(items.drop_last()),
        forall|x: Placed| items.drop_last().contains(x) ==> x.at < items.last().at,
        forall|x: Placed| items.drop_last().contains(x) ==> items.contains(x),
{
    let init = items.drop_last();
    assert forall|i: int, j: int| 0 <= i < j < init.len() implies (#[trigger] init[i]).at < (
    #[trigger] init[j]).at by {
        assert(items[i].at < items[j].at);
    }
    assert forall|x: Placed| init.contains(x) implies x.at < items.last().at && items.contains(
        x,
    ) by {
        let i = choose|i: int| 0 <= i < init.len() && init[i] == x;
        assert(items[i] == x);
        assert(items[i].at < items[items.len() - 1].at);
    }
}

/// What is kept stood in the list, keeps its order, and has each pair of shards
/// once.
pub proof fn lemma_first_of_each(items: Seq<Placed>)
    requires
        in_places(items),
    ensures
        in_places(first_of_each(items)),
        one_per_pair(first_of_each(items)),
        first_of_each(items).len() <= items.len(),
        forall|x: Placed| first_of_each(items).contains(x) ==> items.contains(x),
        forall|x: Placed| #[trigger] represented(first_of_each(items), x) ==> represented(items, x),
    decreases items.len(),
{
    let r = first_of_each(items);
    if items.len() > 0 {
        let init = items.drop_last();
        let last = items.last();
        let kept = first_of_each(init);
        lemma_in_places_init(items);
        lemma_first_of_each(init);
        if exists|i: int| 0 <= i < items.len() - 1 && same_shards(#[trigger] items[i], last) {
            assert forall|x: Placed| r.contains(x) implies items.contains(x) by {
                assert(init.contains(x));
            }
        } else {
            assert(r == kept.push(last));
            assert forall|x: Placed| r.contains(x) implies items.contains(x) by {
                let i = choose|i: int| 0 <= i < r.len() && r[i] == x;
                if i < kept.len() {
                    assert(kept[i] == x);
                    assert(kept.contains(x));
                } else {
                    assert(items[items.len() - 1] == x);
                }
            }
            assert forall|i: int, j: int| 0 <= i < j < r.len() implies (#[trigger] r[i]).at < (
            #[trigger] r[j]).at && !same_shards(r[i], r[j]) by {
                assert(r[i] == kept[i]);
                assert(kept.contains(kept[i]));
                if j < kept.len() {
                    assert(r[j] == kept[j]);
                    assert(kept[i].at < kept[j].at);
                    assert(!same_shards(kept[i], kept[j]));
                } else {
                    assert(init.contains(kept[i]));
                    let k = choose|k: int| 0 <= k < init.len() && init[k] == kept[i];
                    assert(items[k] == kept[i]);
                }
            }
        }
    }
    assert forall|x: Placed| #[trigger] represented(r, x) implies represented(items, x) by {
        let j = choose|j: int| 0 <= j < r.len() && same_shards(#[trigger] r[j], x);
        assert(r.contains(r[j]));
        let i = choose|i: int| 0 <= i < items.len() && items[i] == r[j];
        assert(same_shards(items[i], x));
    }
}

/// What is kept has every pair of shards of the list.
pub proof fn lemma_first_of_each_covers(items: Seq<Placed>, x: Placed)
    requires
        represented(items, x),
    ensures
        represented(first_of_each(items), x),
    decreases items.len(),
{
    let init = items.drop_last();
    let last = items.last();
    let kept = first_of_each(init);
    let r = first_of_each(items);
    let i = choose|i: int| 0 <= i < items.len() && same_shards(#[trigger] items[i], x);
    if represented(init, x) {
        lemma_first_of_each_covers(init, x);
        let j = choose|j: int| 0 <= j < kept.len() && same_shards(#[trigger] kept[j], x);
        assert(r[j] == kept[j]);
    } else {
        if i < init.len() {
            assert(same_shards(init[i], x));
        }
        assert(items[i] == last);
        if exists|k: int| 0 <= k < items.len() - 1 && same_shards(#[trigger] items[k], last) {
            let k = choose|k: int|
                0 <= k < items.len() - 1 && same_shards(#[trigger] items[k], last);
            assert(same_shards(init[k], x));
        }
        assert(same_shards(r[r.len() - 1], x));
    }
}

/// Whether an item stands before another, or is it: by the shard that it comes
/// from, then by its place.
pub open spec fn stands_before(a: Placed, b: Placed) -> bool {
    a.from_shard_id < b.from_shard_id || (a.from_shard_id == b.from_shard_id && (a.at < b.at || (
    a.at == b.at && a.to_shard_id <= b.to_shard_id)))
}

/// The items, sorted by the shard that they come from; those of one shard keep
/// their places.
pub open spec fn by_from_shard(items: Seq<Placed>) -> Seq<Placed> {
    items.sort_by(|a: Placed, b: Placed| stands_before(a, b))
}

proof fn lemma_stands_before_total()
    ensures
        total_ordering(|a: Placed, b: Placed| stands_before(a, b)),
{
}

/// Sorting keeps the items.
pub proof fn lemma_by_from_shard(items: Seq<Placed>)
    ensures
        by_from_shard(items).len() == items.len(),
        by_from_shard(items).to_multiset() == items.to_multiset(),
        forall|x: Placed| by_from_shard(items).contains(x) <==> items.contains(x),
        forall|i: int, j: int|
            0 <= i < j < items.len() ==> stands_before(
                #[trigger] by_from_shard(items)[i],
                #[trigger] by_from_shard(items)[j],
            ),
{
    let leq = |a: Placed, b: Placed| stands_before(a, b);
    lemma_stands_before_total();
    items.lemma_sort_by_ensures(leq);
    let r = by_from_shard(items);
    items.to_multiset_ensures();
    r.to_multiset_ensures();
    assert forall|x: Placed| r.contains(x) <==> items.contains(x) by {
        assert(r.contains(x) <==> r.to_multiset().count(x) > 0);
        assert(items.contains(x) <==> items.to_multiset().count(x) > 0);
    }
    assert forall|i: int, j: int| 0 <= i < j < items.len() implies stands_before(
        #[trigger] r[i],
        #[trigger] r[j],
    ) by {
        assert(leq(r[i], r[j]));
    }
}

/// Calls `sort_by_key` of a std slice with the shard that an item comes from as
/// key: the items stay the same, they end up sorted by that shard, and the sort
/// is stable.
#[verifier::external_body]
fn sort_by_from_shard_id(items: &mut Vec<Placed>)
    ensures
        final(items)@.to_multiset() == old(items)@.to_multiset(),
        forall|i: int, j: int|
            0 <= i < j < final(items)@.len() ==> (#[trigger] final(items)@[i]).from_shard_id <= (
            #[trigger] final(items)@[j]).from_shard_id,
        forall|i: int, j: int|
            0 <= i < j < final(items)@.len() && (#[trigger] final(items)@[i]).from_shard_id == (
            #[trigger] final(items)@[j]).from_shard_id ==> exists|a: int, b: int|
                0 <= a < b < old(items)@.len() && #[trigger] old(items)@[a] == final(items)@[i]
                    && #[trigger] old(items)@[b] == final(items)@[j],
{
    items.sort_by_key(|item| item.from_shard_id)
}

/// Sorts items by the shard that they come from.
pub fn sort_placed(items: &mut Vec<Placed>)
    requires
        in_places(old(items)@),
    ensures
        final(items)@ == by_from_shard(old(items)@),
{
    let ghost before = items@;
    sort_by_from_shard_id(items);
    proof {
        let leq = |a: Placed, b: Placed| stands_before(a, b);
        lemma_stands_before_total();
        before.lemma_sort_by_ensures(leq);
        assert forall|i: int, j: int| 0 <= i < j < items@.len() implies #[trigger] leq(
            items@[i],
            items@[j],
        ) by {
            if items@[i].from_shard_id == items@[j].from_shard_id {
                let (a, b) = choose|a: int, b: int|
                    0 <= a < b < before.len() && #[trigger] before[a] == items@[i]
                        && #[trigger] before[b] == items@[j];
                assert(before[a].at < before[b].at);
            }
        }
        assert(sorted_by(items@, leq));
        lemma_sorted_unique(items@, by_from_shard(before), leq);
    }
}

/// The list holds each place below `n` once.
pub open spec fn spec_is_shuffle(order: Seq<usize>, n: int) -> bool {
    &&& order.len() == n
    &&& forall|k: int| 0 <= k < n ==> (#[trigger] order[k]) < n
    &&& forall|i: int, j: int|
        0 <= i < j < n ==> (#[trigger] order[i]) != (#[trigger] order[j])
}

/// Whether a list holds each place below `n` once.
pub fn is_shuffle(order: &Vec<usize>, n: usize) -> (r: bool)
    ensures
        r == spec_is_shuffle(order@, n as int),
{
    if order.len() != n {
        return false;
    }
    let mut i: usize = 0;
    while i < n
        invariant
            i <= n,
            order@.len() == n,
            forall|k: int| 0 <= k < i ==> (#[trigger] order@[k]) < n,
            forall|k: int, j: int|
                0 <= k < j < i ==> (#[trigger] order@[k]) != (#[trigger] order@[j]),
        decreases n - i,
    {
        if order[i] >= n {
            return false;
        }
        let mut k: usize = 0;
        while k < i
            invariant
                k <= i,
                i < n,
                order@.len() == n,
                forall|a: int| 0 <= a < k ==> (#[trigger] order@[a]) != order@[i as int],
            decreases i - k,
        {
            if order[k] == order[i] {
                return false;
            }
            k = k + 1;
        }
        i = i + 1;
    }
    true
}

/// The places of the items in the order in which they are applied: sorted by
/// the shard that they come from, then shuffled.
pub open spec fn arrangement(items: Seq<Placed>, order: Seq<usize>) -> Seq<usize> {
    Seq::new(order.len(), |k: int| by_from_shard(items)[order[k] as int].at)
}

/// The places of the items in the order in which they are applied.
pub fn arrange(items: Vec<Placed>, order: &Vec<usize>) -> (r: Vec<usize>)
    requires
        in_places(items@),
        spec_is_shuffle(order@, items@.len() as int),
    ensures
        r@ == arrangement(items@, order@),
{
    let mut sorted: Vec<Placed> = items;
    sort_placed(&mut sorted);
    proof {
        lemma_by_from_shard(items@);
    }
    let mut r: Vec<usize> = Vec::new();
    let mut k: usize = 0;
    while k < order.len()
        invariant
            k <= order.len(),
            r@.len() == k,
            sorted@ == by_from_shard(items@),
            spec_is_shuffle(order@, sorted@.len() as int),
            forall|j: int| 0 <= j < k ==> #[trigger] r@[j] == arrangement(items@, order@)[j],
        decreases order.len() - k,
    {
        r.push(sorted[order[k]].at);
        k = k + 1;
    }
    assert(r@ =~= arrangement(items@, order@));
    r
}

/// The proofs at some places of a list.
pub open spec fn proofs_at(proofs: Seq<ReceiptProof>, places: Seq<usize>) -> Seq<ReceiptProof> {
    Seq::new(places.len(), |k: int| proofs[places[k] as int])
}

/// An item of the list has this place.
pub open spec fn is_place(items: Seq<Placed>, at: usize) -> bool {
    exists|i: int| 0 <= i < items.len() && (#[trigger] items[i]).at == at
}

/// Every place of an arrangement is the place of an item.
pub proof fn lemma_arrangement(items: Seq<Placed>, order: Seq<usize>)
    requires
        spec_is_shuffle(order, items.len() as int),
    ensures
        arrangement(items, order).len() == items.len(),
        forall|k: int|
            0 <= k < items.len() ==> is_place(items, #[trigger] arrangement(items, order)[k]),
{
    lemma_by_from_shard(items);
    let sorted = by_from_shard(items);
    assert forall|k: int| 0 <= k < items.len() implies is_place(
        items,
        #[trigger] arrangement(items, order)[k],
    ) by {
        assert(order[k] < items.len());
        let x = sorted[order[k] as int];
        assert(by_from_shard(items).contains(x));
        assert(items.contains(x));
        let i = choose|i: int| 0 <= i < items.len() && items[i] == x;
        assert(items[i].at == arrangement(items, order)[k]);
    }
}

/// The proofs at some places of a list.
pub fn pick<'a>(proofs: &Vec<&'a ReceiptProof>, places: &Vec<usize>) -> (r: Vec<&'a ReceiptProof>)
    requires
        forall|k: int| 0 <= k < places@.len() ==> (#[trigger] places@[k]) < proofs@.len(),
    ensures
        r@.unref() == proofs_at(proofs@.unref(), places@),
{
    let mut r: Vec<&'a ReceiptProof> = Vec::new();
    let mut k: usize = 0;
    while k < places.len()
        invariant
            k <= places.len(),
            r@.len() == k,
            forall|j: int| 0 <= j < places@.len() ==> (#[trigger] places@[j]) < proofs@.len(),
            forall|j: int| 0 <= j < k ==> #[trigger] r@[j] == proofs@[places@[j] as int],
        decreases places.len() - k,
    {
        r.push(proofs[places[k]]);
        k = k + 1;
    }
    assert(r@.unref() =~= proofs_at(proofs@.unref(), places@));
    r
}

/// The proofs of a list in the order in which they are applied.
pub open spec fn applied_order(proofs: Seq<ReceiptProof>, order: Seq<usize>) -> Seq<ReceiptProof> {
    proofs_at(proofs, arrangement(placed(proofs), order))
}

/// The proofs of a list in the order in which they are applied.
pub fn apply_order<'a>(proofs: &Vec<&'a ReceiptProof>, order: &Vec<usize>) -> (r: Vec<
    &'a ReceiptProof,
>)
    requires
        spec_is_shuffle(order@, proofs@.len() as int),
    ensures
        r@.unref() == applied_order(proofs@.unref(), order@),
{
    let items: Vec<Placed> = place_all(proofs);
    let ghost listed = items@;
    proof {
        lemma_arrangement(listed, order@);
    }
    let places: Vec<usize> = arrange(items, order);
    proof {
        assert forall|k: int| 0 <= k < places@.len() implies (#[trigger] places@[k])
            < proofs@.len() by {
            assert(is_place(listed, arrangement(listed, order@)[k]));
            let i = choose|i: int|
                0 <= i < listed.len() && (#[trigger] listed[i]).at == places@[k];
            assert(listed[i].at == i as usize);
        }
    }
    pick(proofs, &places)
}

/// The first items of each pair of shards.
pub fn keep_first_of_each(items: Vec<Placed>) -> (r: Vec<Placed>)
    requires
        in_places(items@),
    ensures
        r@ == first_of_each(items@),
        in_places(r@),
{
    proof {
        lemma_first_of_each(items@);
    }
    unique_by_shards(items)
}

} // verus!
