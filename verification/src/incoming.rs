//! Which of the receipts received for a block are saved, and in which order.
use vstd::prelude::*;
use crate::hash::{CryptoHash, EpochId};
use crate::order::{
    arrange, arrangement, first_of_each, in_places, is_place, keep_first_of_each,
    lemma_arrangement, lemma_first_of_each, pick, place_all, placed, proofs_at, Placed,
};
use crate::receipts::{each_of, ReceiptProof};
use crate::view::{ChainView, Query, Stop};

verus! {

/// One of the proofs brings the receipts of one shard for another.
pub open spec fn brings(proofs: Seq<ReceiptProof>, from_shard_id: u64, to_shard_id: u64) -> bool {
    exists|i: int|
        0 <= i < proofs.len() && (#[trigger] proofs[i]).shard_proof.from_shard_id == from_shard_id
            && proofs[i].shard_proof.to_shard_id == to_shard_id
}

/// Whether one of the proofs brings the receipts of one shard for another.
fn has_proof(proofs: &Vec<ReceiptProof>, from_shard_id: u64, to_shard_id: u64) -> (r: bool)
    ensures
        r == brings(proofs@, from_shard_id, to_shard_id),
{
    let mut i: usize = 0;
    while i < proofs.len()
        invariant
            i <= proofs.len(),
            forall|j: int|
                0 <= j < i ==> (#[trigger] proofs@[j]).shard_proof.from_shard_id != from_shard_id
                    || proofs@[j].shard_proof.to_shard_id != to_shard_id,
        decreases proofs.len() - i,
    {
        let shard_proof = &proofs[i].shard_proof;
        if shard_proof.from_shard_id == from_shard_id && shard_proof.to_shard_id == to_shard_id {
            return true;
        }
        i = i + 1;
    }
    false
}

/// The proofs bring the receipts of every shard for one.
pub open spec fn brings_from_all(
    proofs: Seq<ReceiptProof>,
    shard_ids: Seq<u64>,
    to_shard_id: u64,
) -> bool {
    forall|i: int|
        0 <= i < shard_ids.len() ==> brings(proofs, #[trigger] shard_ids[i], to_shard_id)
}

/// Whether the proofs bring the receipts of every shard for one.
fn has_proof_from_all(proofs: &Vec<ReceiptProof>, shard_ids: &Vec<u64>, to_shard_id: u64) -> (r:
    bool)
    ensures
        r == brings_from_all(proofs@, shard_ids@, to_shard_id),
{
    let mut i: usize = 0;
    while i < shard_ids.len()
        invariant
            i <= shard_ids.len(),
            forall|j: int| 0 <= j < i ==> brings(proofs@, #[trigger] shard_ids@[j], to_shard_id),
        decreases shard_ids.len() - i,
    {
        if !has_proof(proofs, shard_ids[i], to_shard_id) {
            assert(!brings(proofs@, shard_ids@[i as int], to_shard_id));
            return false;
        }
        i = i + 1;
    }
    true
}

/// Whether the proofs bring all receipts for the shards, from a place in the
/// list of shards on, that the node cares about.
pub open spec fn complete_from(
    proofs: Seq<ReceiptProof>,
    shard_ids: Seq<u64>,
    i: int,
    block_hash: CryptoHash,
    view: &ChainView,
) -> Result<bool, Stop>
    decreases shard_ids.len() - i,
{
    if i < 0 || i >= shard_ids.len() {
        Ok(true)
    } else {
        match view.flag(Query::CaresThisOrNextEpoch { block_hash, shard_id: shard_ids[i] }) {
            Err(stop) => Err(stop),
            Ok(cares) => if cares && !brings_from_all(proofs, shard_ids, shard_ids[i]) {
                Ok(false)
            } else {
                complete_from(proofs, shard_ids, i + 1, block_hash, view)
            },
        }
    }
}

/// Whether all receipts of a block that the node cares about were received.
pub open spec fn complete(
    proofs: Option<Seq<ReceiptProof>>,
    block_hash: CryptoHash,
    view: &ChainView,
) -> Result<bool, Stop> {
    match proofs {
        None => Ok(false),
        Some(proofs) => match view.digest(Query::EpochId(block_hash)) {
            Err(stop) => Err(stop),
            Ok(epoch_hash) => match view.shard_ids(Query::ShardIds(EpochId(epoch_hash))) {
                Err(stop) => Err(stop),
                Ok(shard_ids) => complete_from(proofs, shard_ids@, 0, block_hash, view),
            },
        },
    }
}

/// Whether all receipts of a block that the node cares about were received.
pub fn is_complete(
    block_receipts: Option<&Vec<ReceiptProof>>,
    block_hash: CryptoHash,
    view: &ChainView,
) -> (r: Result<bool, Stop>)
    ensures
        r == complete(
            match block_receipts {
                Some(proofs) => Some(proofs@),
                None => None,
            },
            block_hash,
            view,
        ),
{
    let proofs: &Vec<ReceiptProof> = match block_receipts {
        Some(proofs) => proofs,
        None => {
            return Ok(false);
        },
    };
    let epoch_id: EpochId = EpochId(view.digest(Query::EpochId(block_hash))?);
    let shard_ids: &Vec<u64> = view.shard_ids(Query::ShardIds(epoch_id))?;
    let ghost outcome = complete_from(proofs@, shard_ids@, 0, block_hash, view);
    let mut i: usize = 0;
    while i < shard_ids.len()
        invariant
            i <= shard_ids.len(),
            outcome == complete_from(proofs@, shard_ids@, i as int, block_hash, view),
            outcome == complete(
                match block_receipts {
                    Some(proofs) => Some(proofs@),
                    None => None,
                },
                block_hash,
                view,
            ),
        decreases shard_ids.len() - i,
    {
        let shard_id: u64 = shard_ids[i];
        let cares: bool = view.flag(Query::CaresThisOrNextEpoch { block_hash, shard_id })?;
        if cares && !has_proof_from_all(proofs, shard_ids, shard_id) {
            return Ok(false);
        }
        i = i + 1;
    }
    Ok(true)
}

/// The shards that the node cares about among those that the items go to, each
/// once, in the order in which they appear.
pub open spec fn targets(items: Seq<Placed>, block_hash: CryptoHash, view: &ChainView) -> Result<
    Seq<u64>,
    Stop,
>
    decreases items.len(),
{
    if items.len() == 0 {
        Ok(Seq::empty())
    } else {
        match targets(items.drop_last(), block_hash, view) {
            Err(stop) => Err(stop),
            Ok(found) => {
                let shard_id = items.last().to_shard_id;
                match view.flag(Query::CaresThisOrNextEpoch { block_hash, shard_id }) {
                    Err(stop) => Err(stop),
                    Ok(cares) => if cares && !found.contains(shard_id) {
                        Ok(found.push(shard_id))
                    } else {
                        Ok(found)
                    },
                }
            },
        }
    }
}

proof fn lemma_targets_prefix(items: Seq<Placed>, block_hash: CryptoHash, view: &ChainView, n: int)
    requires
        0 <= n <= items.len(),
        targets(items.take(n), block_hash, view) is Err,
    ensures
        targets(items, block_hash, view) == targets(items.take(n), block_hash, view),
    decreases items.len(),
{
    if n < items.len() {
        assert(items.drop_last().take(n) =~= items.take(n));
        lemma_targets_prefix(items.drop_last(), block_hash, view, n);
    } else {
        assert(items.take(n) =~= items);
    }
}

/// Whether a number stands in a list.
fn holds(list: &Vec<u64>, x: u64) -> (r: bool)
    ensures
        r == list@.contains(x),
{
    let mut i: usize = 0;
    while i < list.len()
        invariant
            i <= list.len(),
            forall|j: int| 0 <= j < i ==> list@[j] != x,
        decreases list.len() - i,
    {
        if list[i] == x {
            return true;
        }
        i = i + 1;
    }
    false
}

/// The shards that the node cares about among those that the items go to.
fn find_targets(items: &Vec<Placed>, block_hash: CryptoHash, view: &ChainView) -> (r: Result<
    Vec<u64>,
    Stop,
>)
    ensures
        match r {
            Ok(found) => targets(items@, block_hash, view) == Ok::<Seq<u64>, Stop>(found@),
            Err(stop) => targets(items@, block_hash, view) == Err::<Seq<u64>, Stop>(stop),
        },
{
    let mut found: Vec<u64> = Vec::new();
    let mut i: usize = 0;
    assert(found@ =~= Seq::<u64>::empty());
    while i < items.len()
        invariant
            i <= items.len(),
            targets(items@.take(i as int), block_hash, view) == Ok::<Seq<u64>, Stop>(found@),
        decreases items.len() - i,
    {
        assert(items@.take(i + 1).drop_last() =~= items@.take(i as int));
        let shard_id: u64 = items[i].to_shard_id;
        let cares: bool = match view.flag(Query::CaresThisOrNextEpoch { block_hash, shard_id }) {
            Ok(cares) => cares,
            Err(stop) => {
                proof {
                    lemma_targets_prefix(items@, block_hash, view, i + 1);
                }
                return Err(stop);
            },
        };
        if cares && !holds(&found, shard_id) {
            found.push(shard_id);
        }
        i = i + 1;
    }
    assert(items@.take(i as int) =~= items@);
    Ok(found)
}

/// The items that go to a shard.
pub open spec fn for_shard(items: Seq<Placed>, shard_id: u64) -> Seq<Placed> {
    items.filter(|item: Placed| item.to_shard_id == shard_id)
}

/// The items that go to a shard stood in the list and keep their order.
pub proof fn lemma_for_shard(items: Seq<Placed>, shard_id: u64)
    requires
        in_places(items),
    ensures
        in_places(for_shard(items, shard_id)),
        for_shard(items, shard_id).len() <= items.len(),
        forall|x: Placed| #[trigger]
            for_shard(items, shard_id).contains(x) <==> items.contains(x) && x.to_shard_id
                == shard_id,
    decreases items.len(),
{
    reveal(Seq::filter);
    let r = for_shard(items, shard_id);
    if items.len() > 0 {
        let init = items.drop_last();
        let kept = for_shard(init, shard_id);
        let last = items.last();
        assert forall|i: int, j: int| 0 <= i < j < init.len() implies (#[trigger] init[i]).at < (
        #[trigger] init[j]).at by {
            assert(items[i].at < items[j].at);
        }
        lemma_for_shard(init, shard_id);
        assert forall|x: Placed| init.contains(x) implies x.at < last.at && items.contains(x) by {
            let i = choose|i: int| 0 <= i < init.len() && init[i] == x;
            assert(items[i] == x);
            assert(items[i].at < items[items.len() - 1].at);
        }
        assert forall|x: Placed| items.contains(x) implies init.contains(x) || x == last by {
            let i = choose|i: int| 0 <= i < items.len() && items[i] == x;
            if i < init.len() {
                assert(init[i] == x);
            }
        }
        assert(items.contains(last)) by {
            assert(items[items.len() - 1] == last);
        }
        if last.to_shard_id == shard_id {
            assert(r == kept.push(last));
            assert forall|i: int, j: int| 0 <= i < j < r.len() implies (#[trigger] r[i]).at < (
            #[trigger] r[j]).at by {
                assert(r[i] == kept[i]);
                assert(kept.contains(kept[i]));
                if j < kept.len() {
                    assert(r[j] == kept[j]);
                }
            }
            assert forall|x: Placed| #[trigger] r.contains(x) <==> items.contains(x)
                && x.to_shard_id == shard_id by {
                if r.contains(x) {
                    let i = choose|i: int| 0 <= i < r.len() && r[i] == x;
                    if i < kept.len() {
                        assert(kept[i] == x);
                        assert(kept.contains(x));
                    }
                }
                if items.contains(x) && x.to_shard_id == shard_id {
                    if x == last {
                        assert(r[r.len() - 1] == x);
                    } else {
                        assert(kept.contains(x));
                        let i = choose|i: int| 0 <= i < kept.len() && kept[i] == x;
                        assert(r[i] == x);
                    }
                }
            }
        } else {
            assert(r == kept);
        }
    }
}

/// The items that go to a shard.
fn select_for_shard(items: &Vec<Placed>, shard_id: u64) -> (r: Vec<Placed>)
    requires
        in_places(items@),
    ensures
        r@ == for_shard(items@, shard_id),
        in_places(r@),
{
    let mut r: Vec<Placed> = Vec::new();
    let mut i: usize = 0;
    proof {
        reveal(Seq::filter);
    }
    assert(r@ =~= for_shard(items@.take(0), shard_id));
    while i < items.len()
        invariant
            i <= items.len(),
            r@ == for_shard(items@.take(i as int), shard_id),
        decreases items.len() - i,
    {
        proof {
            reveal(Seq::filter);
        }
        assert(items@.take(i + 1).drop_last() =~= items@.take(i as int));
        if items[i].to_shard_id == shard_id {
            r.push(items[i]);
        }
        i = i + 1;
    }
    assert(items@.take(i as int) =~= items@);
    proof {
        lemma_for_shard(items@, shard_id);
    }
    r
}

/// For each shard the places of the items that go to it, in the order in which
/// they are applied.
pub open spec fn arranged(
    items: Seq<Placed>,
    shard_ids: Seq<u64>,
    block_hash: CryptoHash,
    view: &ChainView,
) -> Result<Seq<(u64, Seq<usize>)>, Stop>
    decreases shard_ids.len(),
{
    if shard_ids.len() == 0 {
        Ok(Seq::empty())
    } else {
        match arranged(items, shard_ids.drop_last(), block_hash, view) {
            Err(stop) => Err(stop),
            Ok(groups) => {
                let group = for_shard(items, shard_ids.last());
                match view.shuffle(block_hash, group.len() as usize) {
                    Err(stop) => Err(stop),
                    Ok(order) => Ok(groups.push((shard_ids.last(), arrangement(group, order@)))),
                }
            },
        }
    }
}

proof fn lemma_arranged_prefix(
    items: Seq<Placed>,
    shard_ids: Seq<u64>,
    block_hash: CryptoHash,
    view: &ChainView,
    n: int,
)
    requires
        0 <= n <= shard_ids.len(),
        arranged(items, shard_ids.take(n), block_hash, view) is Err,
    ensures
        arranged(items, shard_ids, block_hash, view) == arranged(
            items,
            shard_ids.take(n),
            block_hash,
            view,
        ),
    decreases shard_ids.len(),
{
    if n < shard_ids.len() {
        assert(shard_ids.drop_last().take(n) =~= shard_ids.take(n));
        lemma_arranged_prefix(items, shard_ids.drop_last(), block_hash, view, n);
    } else {
        assert(shard_ids.take(n) =~= shard_ids);
    }
}

/// For each shard to save receipts for, the places of their proofs in the order
/// in which they are applied.
pub open spec fn plan(
    proofs: Seq<ReceiptProof>,
    block_hash: CryptoHash,
    view: &ChainView,
) -> Result<Seq<(u64, Seq<usize>)>, Stop> {
    let items = first_of_each(placed(proofs));
    match targets(items, block_hash, view) {
        Err(stop) => Err(stop),
        Ok(shard_ids) => arranged(items, shard_ids, block_hash, view),
    }
}

/// A plan as it stands in specifications.
pub open spec fn plan_view(groups: Seq<(u64, Vec<usize>)>) -> Seq<(u64, Seq<usize>)> {
    Seq::new(groups.len(), |i: int| (groups[i].0, groups[i].1@))
}

/// All places of a plan are below a number.
pub open spec fn within(groups: Seq<(u64, Vec<usize>)>, n: int) -> bool {
    forall|i: int, k: int|
        #![trigger groups[i].1@[k]]
        0 <= i < groups.len() && 0 <= k < groups[i].1@.len() ==> groups[i].1@[k] < n
}

/// Plans which receipts to save for which shard.
pub fn make_plan(
    proofs: &Vec<ReceiptProof>,
    block_hash: CryptoHash,
    view: &ChainView,
) -> (r: Result<Vec<(u64, Vec<usize>)>, Stop>)
    ensures
        match r {
            Ok(groups) => plan(proofs@, block_hash, view) == Ok::<Seq<(u64, Seq<usize>)>, Stop>(
                plan_view(groups@),
            ) && within(groups@, proofs@.len() as int),
            Err(stop) => plan(proofs@, block_hash, view) == Err::<Seq<(u64, Seq<usize>)>, Stop>(
                stop,
            ),
        },
{
    let refs: Vec<&ReceiptProof> = each_of(proofs);
    let all: Vec<Placed> = place_all(&refs);
    proof {
        lemma_first_of_each(all@);
    }
    let items: Vec<Placed> = keep_first_of_each(all);
    let shard_ids: Vec<u64> = find_targets(&items, block_hash, view)?;
    let mut groups: Vec<(u64, Vec<usize>)> = Vec::new();
    let mut i: usize = 0;
    assert(plan_view(groups@) =~= Seq::<(u64, Seq<usize>)>::empty());
    while i < shard_ids.len()
        invariant
            i <= shard_ids.len(),
            in_places(items@),
            items@ == first_of_each(placed(proofs@)),
            forall|x: Placed| items@.contains(x) ==> placed(proofs@).contains(x),
            targets(items@, block_hash, view) == Ok::<Seq<u64>, Stop>(shard_ids@),
            arranged(items@, shard_ids@.take(i as int), block_hash, view) == Ok::<
                Seq<(u64, Seq<usize>)>,
                Stop,
            >(plan_view(groups@)),
            within(groups@, proofs@.len() as int),
        decreases shard_ids.len() - i,
    {
        assert(shard_ids@.take(i + 1).drop_last() =~= shard_ids@.take(i as int));
        let shard_id: u64 = shard_ids[i];
        let group: Vec<Placed> = select_for_shard(&items, shard_id);
        let ghost group_items = group@;
        let order: &Vec<usize> = match view.shuffle(block_hash, group.len()) {
            Ok(order) => order,
            Err(stop) => {
                proof {
                    lemma_arranged_prefix(items@, shard_ids@, block_hash, view, i + 1);
                }
                return Err(stop);
            },
        };
        let places: Vec<usize> = arrange(group, order);
        proof {
            lemma_arrangement(group_items, order@);
            lemma_for_shard(items@, shard_id);
            assert forall|k: int| 0 <= k < places@.len() implies (#[trigger] places@[k])
                < proofs@.len() by {
                assert(is_place(group_items, arrangement(group_items, order@)[k]));
                let j = choose|j: int|
                    0 <= j < group_items.len() && (#[trigger] group_items[j]).at == places@[k];
                assert(group_items.contains(group_items[j]));
                assert(placed(proofs@).contains(group_items[j]));
            }
        }
        let ghost before = groups@;
        groups.push((shard_id, places));
        proof {
            assert(plan_view(groups@) =~= plan_view(before).push((shard_id, places@)));
            assert forall|a: int, k: int|
                #![trigger groups@[a].1@[k]]
                0 <= a < groups@.len() && 0 <= k < groups@[a].1@.len() implies groups@[a].1@[k]
                < proofs@.len() by {
                if a < before.len() {
                    assert(groups@[a] == before[a]);
                    assert(before[a].1@[k] < proofs@.len());
                }
            }
        }
        i = i + 1;
    }
    assert(shard_ids@.take(i as int) =~= shard_ids@);
    Ok(groups)
}

/// The receipts to be saved for a block.
pub struct IncomingReceipts {
    proofs: Vec<ReceiptProof>,
    groups: Vec<(u64, Vec<usize>)>,
}

/// The proofs that a plan picks for each shard.
pub open spec fn planned(proofs: Seq<ReceiptProof>, groups: Seq<(u64, Seq<usize>)>) -> Seq<
    (u64, Seq<ReceiptProof>),
> {
    Seq::new(groups.len(), |i: int| (groups[i].0, proofs_at(proofs, groups[i].1)))
}

impl View for IncomingReceipts {
    type V = Seq<(u64, Seq<ReceiptProof>)>;

    /// The shards to save receipts for, each with their proofs in order.
    closed spec fn view(&self) -> Seq<(u64, Seq<ReceiptProof>)> {
        planned(self.proofs@, plan_view(self.groups@))
    }
}

impl IncomingReceipts {
    #[verifier::type_invariant]
    spec fn well_formed(&self) -> bool {
        within(self.groups@, self.proofs@.len() as int)
    }

    /// The receipts that a plan picks.
    pub fn new(proofs: Vec<ReceiptProof>, groups: Vec<(u64, Vec<usize>)>) -> (r: Self)
        requires
            within(groups@, proofs@.len() as int),
        ensures
            r@ == planned(proofs@, plan_view(groups@)),
    {
        IncomingReceipts { proofs, groups }
    }

    /// The number of shards to save receipts for.
    pub fn len(&self) -> (r: usize)
        ensures
            r == self@.len(),
    {
        self.groups.len()
    }

    /// One of the shards to save receipts for, and the proofs in order.
    pub fn group(&self, i: usize) -> (r: (u64, Vec<&ReceiptProof>))
        requires
            i < self@.len(),
        ensures
            r.0 == self@[i as int].0,
            r.1@.unref() == self@[i as int].1,
    {
        proof {
            use_type_invariant(self);
        }
        let refs: Vec<&ReceiptProof> = each_of(&self.proofs);
        let (shard_id, places): &(u64, Vec<usize>) = &self.groups[i];
        proof {
            assert forall|k: int| 0 <= k < places@.len() implies (#[trigger] places@[k])
                < refs@.len() by {
                assert(self.groups@[i as int].1@[k] < self.proofs@.len());
                assert(refs@.unref().len() == refs@.len());
            }
        }
        (*shard_id, pick(&refs, places))
    }
}

} // verus!
