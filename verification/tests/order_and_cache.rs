use spice::hash::CryptoHash;
use spice::incoming::{is_complete, make_plan, IncomingReceipts};
use spice::order::{
    apply_order, arrange, is_shuffle, keep_first_of_each, place_all, sort_placed, Placed,
};
use spice::receipts::{each_of, ReceiptProof, ShardProof};
use spice::receipts_cache::BlockReceiptsCache;
use spice::view::{ChainView, Query, Reply, Stop};

fn h(n: u128) -> CryptoHash {
    CryptoHash { hi: n, lo: 1 }
}

// A proof without receipts; the number of steps of its path tells it from others.
fn sent(from_shard_id: u64, to_shard_id: u64, mark: usize) -> ReceiptProof {
    let step = spice::receipts::MerklePathItem {
        hash: h(mark as u128),
        direction: spice::receipts::Direction::Left,
    };
    ReceiptProof {
        receipts: vec![],
        shard_proof: ShardProof { from_shard_id, to_shard_id, proof: vec![step; mark] },
    }
}

fn marks(proofs: &[&ReceiptProof]) -> Vec<usize> {
    proofs.iter().map(|p| p.shard_proof.proof.len()).collect()
}

fn item(from_shard_id: u64, to_shard_id: u64, at: usize) -> Placed {
    Placed { from_shard_id, to_shard_id, at }
}

#[test]
fn the_first_of_each_pair_of_shards_is_kept() {
    let proofs = vec![sent(2, 0, 1), sent(1, 0, 2), sent(2, 0, 3), sent(2, 1, 4)];
    let kept = keep_first_of_each(place_all(&each_of(&proofs)));
    assert_eq!(kept, vec![item(2, 0, 0), item(1, 0, 1), item(2, 1, 3)]);
}

#[test]
fn items_are_sorted_by_shard_and_keep_their_places_otherwise() {
    let mut items = vec![item(3, 0, 0), item(1, 7, 1), item(3, 1, 2), item(1, 2, 3)];
    sort_placed(&mut items);
    assert_eq!(items, vec![item(1, 7, 1), item(1, 2, 3), item(3, 0, 0), item(3, 1, 2)]);
}

#[test]
fn a_shuffle_holds_each_place_once() {
    assert!(is_shuffle(&vec![2, 0, 1], 3));
    assert!(is_shuffle(&vec![], 0));
    assert!(!is_shuffle(&vec![2, 0], 3));
    assert!(!is_shuffle(&vec![0, 0, 1], 3));
    assert!(!is_shuffle(&vec![0, 1, 3], 3));
}

#[test]
fn sorted_items_are_shuffled() {
    let items = vec![item(5, 0, 0), item(4, 0, 1), item(6, 0, 2)];
    assert_eq!(arrange(items, &vec![2, 0, 1]), vec![2, 1, 0]);
}

#[test]
fn the_order_does_not_depend_on_arrival() {
    let one = vec![sent(5, 0, 50), sent(4, 0, 40), sent(6, 0, 60)];
    let other = vec![sent(6, 0, 60), sent(5, 0, 50), sent(4, 0, 40)];
    let order = vec![1, 2, 0];
    let expected = vec![50, 60, 40];
    assert_eq!(marks(&apply_order(&each_of(&one), &order)), expected);
    assert_eq!(marks(&apply_order(&each_of(&other), &order)), expected);
}

const EPOCH: u128 = 900;

fn view(shards: Vec<u64>, cares: Vec<u64>, block_hash: CryptoHash) -> ChainView {
    let mut view = ChainView::new();
    let epoch_id = spice::hash::EpochId(h(EPOCH));
    assert!(view.learn(Query::EpochId(block_hash), Reply::Hash(Ok(h(EPOCH)))));
    assert!(view.learn(Query::ShardIds(epoch_id), Reply::ShardIds(Ok(shards.clone()))));
    for shard_id in 0..10 {
        let cared = cares.contains(&shard_id);
        let q = Query::CaresThisOrNextEpoch { block_hash, shard_id };
        assert!(view.learn(q, Reply::Flag(Ok(cared))));
    }
    view
}

#[test]
fn receipts_are_complete_once_every_shard_sent_to_those_cared_about() {
    let view = view(vec![0, 1], vec![1], h(1));
    assert_eq!(is_complete(None, h(1), &view), Ok(false));
    let mut proofs = vec![sent(0, 1, 1)];
    assert_eq!(is_complete(Some(&proofs), h(1), &view), Ok(false));
    proofs.push(sent(1, 0, 2));
    assert_eq!(is_complete(Some(&proofs), h(1), &view), Ok(false));
    proofs.push(sent(1, 1, 3));
    assert_eq!(is_complete(Some(&proofs), h(1), &view), Ok(true));
}

#[test]
fn a_missing_answer_is_asked_for() {
    let view = ChainView::new();
    let stop = Err(Stop::Need(Query::EpochId(h(1))));
    assert_eq!(is_complete(Some(&vec![]), h(1), &view), stop);
}

fn saved(proofs: Vec<ReceiptProof>, view: &ChainView) -> Vec<(u64, Vec<usize>)> {
    let groups = make_plan(&proofs, h(1), view).unwrap();
    let incoming = IncomingReceipts::new(proofs, groups);
    (0..incoming.len())
        .map(|i| {
            let (shard_id, group) = incoming.group(i);
            (shard_id, marks(&group))
        })
        .collect()
}

#[test]
fn receipts_are_saved_by_shard_in_shuffled_order() {
    let mut view = view(vec![0, 1], vec![0, 1], h(1));
    let q = Query::Shuffle { salt: h(1), len: 2 };
    assert_eq!(make_plan(&vec![sent(1, 0, 1), sent(0, 0, 2)], h(1), &view), Err(Stop::Need(q)));
    assert!(view.learn(q, Reply::Order(vec![1, 0])));
    let proofs = vec![sent(1, 1, 11), sent(0, 0, 20), sent(1, 0, 10), sent(0, 1, 21)];
    assert_eq!(saved(proofs, &view), vec![(1, vec![11, 21]), (0, vec![10, 20])]);
}

#[test]
fn repeated_and_unwanted_receipts_are_not_saved() {
    let mut view = view(vec![0, 1], vec![0], h(1));
    assert!(view.learn(Query::Shuffle { salt: h(1), len: 2 }, Reply::Order(vec![0, 1])));
    let proofs = vec![sent(1, 0, 10), sent(0, 1, 21), sent(1, 0, 99), sent(0, 0, 20)];
    assert_eq!(saved(proofs, &view), vec![(0, vec![20, 10])]);
}

fn held(cache: &mut BlockReceiptsCache, n: u128) -> Option<Vec<usize>> {
    cache.get(h(n)).map(|proofs| marks(&each_of(proofs)))
}

#[test]
fn receipts_of_a_block_add_up() {
    let mut cache = BlockReceiptsCache::new(2);
    assert_eq!(held(&mut cache, 1), None);
    cache.add_receipts(h(1), vec![sent(0, 0, 1)]);
    cache.add_receipts(h(1), vec![sent(0, 0, 2), sent(0, 0, 3)]);
    assert_eq!(held(&mut cache, 1), Some(vec![1, 2, 3]));
    assert_eq!(held(&mut cache, 2), None);
}

#[test]
fn a_full_cache_forgets_the_block_used_longest_ago() {
    let mut cache = BlockReceiptsCache::new(2);
    cache.add_receipts(h(1), vec![sent(0, 0, 1)]);
    cache.add_receipts(h(2), vec![sent(0, 0, 2)]);
    assert_eq!(held(&mut cache, 1), Some(vec![1]));
    cache.add_receipts(h(3), vec![sent(0, 0, 3)]);
    assert_eq!(held(&mut cache, 2), None);
    assert_eq!(held(&mut cache, 1), Some(vec![1]));
    assert_eq!(held(&mut cache, 3), Some(vec![3]));
}

#[test]
fn receipts_that_are_taken_out_are_gone() {
    let mut cache = BlockReceiptsCache::new(2);
    cache.add_receipts(h(1), vec![sent(0, 0, 1)]);
    assert_eq!(cache.pop(h(1)).map(|proofs| proofs.len()), Some(1));
    assert!(cache.pop(h(1)).is_none());
    assert_eq!(held(&mut cache, 1), None);
}

#[test]
fn a_view_learns_each_answer_once_and_only_of_the_right_kind() {
    let mut view = ChainView::new();
    let q = Query::EpochIdFromPrevBlock(h(1));
    assert_eq!(view.digest(q), Err(Stop::Need(q)));
    assert!(!view.learn(q, Reply::Flag(Ok(true))));
    assert!(view.learn(q, Reply::Hash(Ok(h(2)))));
    assert!(!view.learn(q, Reply::Hash(Ok(h(3)))));
    assert_eq!(view.digest(q), Ok(h(2)));
}

#[test]
fn a_view_refuses_an_order_that_is_no_shuffle() {
    let mut view = ChainView::new();
    let q = Query::Shuffle { salt: h(1), len: 2 };
    assert!(!view.learn(q, Reply::Order(vec![0, 0])));
    assert!(view.learn(q, Reply::Order(vec![1, 0])));
    assert_eq!(view.shuffle(h(1), 2), Ok(&vec![1, 0]));
}
