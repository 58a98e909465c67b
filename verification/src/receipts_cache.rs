//! The receipts that were received for blocks, kept until they are complete.
use vstd::prelude::*;
use std::num::NonZeroUsize;
use lru::LruCache;
use crate::hash::CryptoHash;
use crate::receipts::ReceiptProof;

verus! {

/// `lru::LruCache`, a table of limited size that forgets what was not used for
/// the longest time.
#[verifier::external_type_specification]
#[verifier::external_body]
#[verifier::reject_recursive_types(K)]
#[verifier::reject_recursive_types(V)]
#[verifier::reject_recursive_types(S)]
pub struct ExLruCache<K, V, S>(lru::LruCache<K, V, S>);

/// `lru::DefaultHasher`, with which an `lru::LruCache` finds its keys.
#[verifier::external_type_specification]
#[verifier::external_body]
pub struct ExDefaultHasher(lru::DefaultHasher);

/// The entries of a cache, the one used last first.
pub uninterp spec fn cache_entries(cache: LruCache<(u128, u128), Vec<ReceiptProof>>) -> Seq<
    ((u128, u128), Seq<ReceiptProof>),
>;

/// How many entries a cache can hold.
pub uninterp spec fn cache_cap(cache: LruCache<(u128, u128), Vec<ReceiptProof>>) -> nat;

/// What a list of entries holds for a key.
pub open spec fn entry_of(
    entries: Seq<((u128, u128), Seq<ReceiptProof>)>,
    key: (u128, u128),
) -> Option<Seq<ReceiptProof>>
    decreases entries.len(),
{
    if entries.len() == 0 {
        None
    } else if entries.last().0 == key {
        Some(entries.last().1)
    } else {
        entry_of(entries.drop_last(), key)
    }
}

/// A list of entries without those of a key.
pub open spec fn without(
    entries: Seq<((u128, u128), Seq<ReceiptProof>)>,
    key: (u128, u128),
) -> Seq<((u128, u128), Seq<ReceiptProof>)>
    decreases entries.len(),
{
    if entries.len() == 0 {
        Seq::empty()
    } else if entries.last().0 == key {
        without(entries.drop_last(), key)
    } else {
        without(entries.drop_last(), key).push(entries.last())
    }
}

/// What is left out is gone, and the rest is still there.
pub proof fn lemma_without(
    entries: Seq<((u128, u128), Seq<ReceiptProof>)>,
    key: (u128, u128),
    other: (u128, u128),
)
    ensures
        entry_of(without(entries, key), key) is None,
        other != key ==> entry_of(without(entries, key), other) == entry_of(entries, other),
        without(without(entries, key), key) == without(entries, key),
    decreases entries.len(),
{
    if entries.len() > 0 {
        lemma_without(entries.drop_last(), key, other);
        if entries.last().0 != key {
            assert(without(entries, key).drop_last() =~= without(entries.drop_last(), key));
        }
    }
}

/// What is not there cannot be left out.
pub proof fn lemma_without_absent(
    entries: Seq<((u128, u128), Seq<ReceiptProof>)>,
    key: (u128, u128),
)
    requires
        entry_of(entries, key) is None,
    ensures
        without(entries, key) == entries,
    decreases entries.len(),
{
    if entries.len() > 0 {
        lemma_without_absent(entries.drop_last(), key);
        assert(entries.drop_last().push(entries.last()) =~= entries);
    } else {
        assert(without(entries, key) =~= entries);
    }
}

/// What an entry put in front of a list adds to it.
pub proof fn lemma_in_front(
    entry: ((u128, u128), Seq<ReceiptProof>),
    entries: Seq<((u128, u128), Seq<ReceiptProof>)>,
    key: (u128, u128),
)
    ensures
        entry_of(seq![entry] + entries, key) == (match entry_of(entries, key) {
            Some(held) => Some(held),
            None => if entry.0 == key {
                Some(entry.1)
            } else {
                None
            },
        }),
        entry.0 == key ==> without(seq![entry] + entries, key) == without(entries, key),
    decreases entries.len(),
{
    let all = seq![entry] + entries;
    if entries.len() > 0 {
        lemma_in_front(entry, entries.drop_last(), key);
        assert(all.drop_last() =~= seq![entry] + entries.drop_last());
        assert(all.last() == entries.last());
    } else {
        assert(all =~= seq![entry]);
        assert(all.drop_last() =~= Seq::<((u128, u128), Seq<ReceiptProof>)>::empty());
        assert(entry_of(all.drop_last(), key) is None);
        assert(without(all.drop_last(), key) =~= Seq::<
            ((u128, u128), Seq<ReceiptProof>),
        >::empty());
    }
}

/// Calls `lru::LruCache::new`: the cache is empty and can hold so many entries.
#[verifier::external_body]
fn lru_new(capacity: usize) -> (r: LruCache<(u128, u128), Vec<ReceiptProof>>)
    requires
        capacity > 0,
    ensures
        cache_entries(r) == Seq::<((u128, u128), Seq<ReceiptProof>)>::empty(),
        cache_cap(r) == capacity,
{
    LruCache::new(NonZeroUsize::new(capacity).unwrap())
}

/// Calls `lru::LruCache::get`: what the cache holds for the key, which then
/// counts as the one used last.
#[verifier::external_body]
fn lru_get(cache: &mut LruCache<(u128, u128), Vec<ReceiptProof>>, key: (u128, u128)) -> (r: Option<
    &Vec<ReceiptProof>,
>)
    ensures
        cache_cap(*final(cache)) == cache_cap(*old(cache)),
        match entry_of(cache_entries(*old(cache)), key) {
            Some(held) => r is Some && r->0@ == held && cache_entries(*final(cache)) == seq![
                (key, held),
            ] + without(cache_entries(*old(cache)), key),
            None => r is None && cache_entries(*final(cache)) == cache_entries(*old(cache)),
        },
{
    cache.get(&key)
}

/// Calls `lru::LruCache::get_or_insert_mut` with an empty list to be inserted:
/// what the cache holds for the key, to be changed, or the empty list where it
/// held nothing. It then counts as the one used last. A full cache drops the
/// one used first to make room.
#[verifier::external_body]
fn lru_get_or_insert_mut(
    cache: &mut LruCache<(u128, u128), Vec<ReceiptProof>>,
    key: (u128, u128),
) -> (r: &mut Vec<ReceiptProof>)
    ensures
        cache_cap(*final(cache)) == cache_cap(*old(cache)),
        match entry_of(cache_entries(*old(cache)), key) {
            Some(held) => r@ == held && cache_entries(*final(cache)) == seq![(key, final(r)@)]
                + without(cache_entries(*old(cache)), key),
            None => r@ == Seq::<ReceiptProof>::empty() && cache_entries(*final(cache)) == seq![
                (key, final(r)@),
            ] + (if cache_entries(*old(cache)).len() == cache_cap(*old(cache)) {
                cache_entries(*old(cache)).drop_last()
            } else {
                cache_entries(*old(cache))
            }),
        },
{
    cache.get_or_insert_mut(key, || Vec::new())
}

/// Calls `lru::LruCache::pop`: takes out what the cache holds for the key.
#[verifier::external_body]
fn lru_pop(cache: &mut LruCache<(u128, u128), Vec<ReceiptProof>>, key: (u128, u128)) -> (r: Option<
    Vec<ReceiptProof>,
>)
    ensures
        cache_cap(*final(cache)) == cache_cap(*old(cache)),
        cache_entries(*final(cache)) == without(cache_entries(*old(cache)), key),
        match entry_of(cache_entries(*old(cache)), key) {
            Some(held) => r is Some && r->0@ == held,
            None => r is None,
        },
{
    cache.pop(&key)
}

/// The key under which the receipts of a block are kept.
pub open spec fn spec_key(block_hash: CryptoHash) -> (u128, u128) {
    (block_hash.hi, block_hash.lo)
}

/// The key under which the receipts of a block are kept.
#[verifier::when_used_as_spec(spec_key)]
fn key(block_hash: CryptoHash) -> (r: (u128, u128))
    ensures
        r == key(block_hash),
{
    (block_hash.hi, block_hash.lo)
}

/// The receipts of the blocks for which some were received last, as they came.
pub struct BlockReceiptsCache {
    cache: LruCache<(u128, u128), Vec<ReceiptProof>>,
}

impl BlockReceiptsCache {
    /// The receipts of each block, the block used last first.
    pub closed spec fn entries(&self) -> Seq<((u128, u128), Seq<ReceiptProof>)> {
        cache_entries(self.cache)
    }

    /// Of how many blocks receipts are kept at most.
    pub closed spec fn capacity(&self) -> nat {
        cache_cap(self.cache)
    }

    /// The receipts of a block, if some are kept.
    pub open spec fn held(&self, block_hash: CryptoHash) -> Option<Seq<ReceiptProof>> {
        entry_of(self.entries(), spec_key(block_hash))
    }

    /// The entries once the receipts of a block were used.
    pub open spec fn used(&self, block_hash: CryptoHash) -> Seq<((u128, u128), Seq<ReceiptProof>)> {
        match self.held(block_hash) {
            Some(held) => seq![(spec_key(block_hash), held)] + without(
                self.entries(),
                spec_key(block_hash),
            ),
            None => self.entries(),
        }
    }

    /// The entries once receipts of a block were added.
    pub open spec fn extended(&self, block_hash: CryptoHash, added: Seq<ReceiptProof>) -> Seq<
        ((u128, u128), Seq<ReceiptProof>),
    > {
        match self.held(block_hash) {
            Some(held) => seq![(spec_key(block_hash), held + added)] + without(
                self.entries(),
                spec_key(block_hash),
            ),
            None => seq![(spec_key(block_hash), added)] + (if self.entries().len()
                == self.capacity() {
                self.entries().drop_last()
            } else {
                self.entries()
            }),
        }
    }

    /// Receipts that were added are kept behind those that were there, and the
    /// receipts of other blocks are kept as they were, but for those of the block
    /// that was not used for the longest time, which a full cache forgets when
    /// receipts of a further block come.
    pub proof fn added_receipts_are_held(
        before: &BlockReceiptsCache,
        after: &BlockReceiptsCache,
        block_hash: CryptoHash,
        added: Seq<ReceiptProof>,
        other: CryptoHash,
    )
        requires
            before.capacity() > 0,
            after.entries() == before.extended(block_hash, added),
        ensures
            after.held(block_hash) == (match before.held(block_hash) {
                Some(held) => Some(held + added),
                None => Some(added),
            }),
            other != block_hash && (before.held(block_hash) is Some || before.entries().len()
                != before.capacity() || before.entries().last().0 != spec_key(other))
                ==> after.held(other) == before.held(other),
    {
        let key = spec_key(block_hash);
        assert(spec_key(other) == key ==> other == block_hash);
        match before.held(block_hash) {
            Some(held) => {
                lemma_without(before.entries(), key, spec_key(other));
                let rest = without(before.entries(), key);
                lemma_in_front((key, held + added), rest, key);
                lemma_in_front((key, held + added), rest, spec_key(other));
            },
            None => {
                let rest = if before.entries().len() == before.capacity() {
                    before.entries().drop_last()
                } else {
                    before.entries()
                };
                lemma_in_front((key, added), rest, key);
                lemma_in_front((key, added), rest, spec_key(other));
            },
        }
    }

    /// Receipts that come in two messages are kept as if they had come in one.
    pub proof fn receipts_add_up(
        before: &BlockReceiptsCache,
        between: &BlockReceiptsCache,
        after: &BlockReceiptsCache,
        block_hash: CryptoHash,
        first: Seq<ReceiptProof>,
        second: Seq<ReceiptProof>,
    )
        requires
            before.capacity() > 0,
            between.entries() == before.extended(block_hash, first),
            after.entries() == between.extended(block_hash, second),
        ensures
            after.entries() == before.extended(block_hash, first + second),
    {
        let key = spec_key(block_hash);
        Self::added_receipts_are_held(before, between, block_hash, first, block_hash);
        lemma_without(before.entries(), key, key);
        match before.held(block_hash) {
            Some(held) => {
                lemma_in_front((key, held + first), without(before.entries(), key), key);
                assert(held + first + second =~= held + (first + second));
            },
            None => {
                let rest = if before.entries().len() == before.capacity() {
                    before.entries().drop_last()
                } else {
                    before.entries()
                };
                lemma_in_front((key, first), rest, key);
                lemma_without_absent(rest, key);
            },
        }
    }

    /// Using the receipts of a block changes neither them nor those of another.
    pub proof fn lemma_used(
        before: &BlockReceiptsCache,
        after: &BlockReceiptsCache,
        block_hash: CryptoHash,
        other: CryptoHash,
    )
        requires
            after.entries() == before.used(block_hash),
        ensures
            after.held(block_hash) == before.held(block_hash),
            after.held(other) == before.held(other),
            after.used(block_hash) == before.used(block_hash),
            without(after.entries(), spec_key(block_hash)) == without(
                before.entries(),
                spec_key(block_hash),
            ),
    {
        let key = spec_key(block_hash);
        lemma_without(before.entries(), key, spec_key(other));
        if before.held(block_hash) is Some {
            let entry = (key, before.held(block_hash)->0);
            lemma_in_front(entry, without(before.entries(), key), key);
            lemma_in_front(entry, without(before.entries(), key), spec_key(other));
            assert(spec_key(other) == key ==> other == block_hash);
        }
    }

    /// A cache for the receipts of so many blocks.
    pub fn new(capacity: usize) -> (r: Self)
        requires
            capacity > 0,
        ensures
            r.entries() == Seq::<((u128, u128), Seq<ReceiptProof>)>::empty(),
            r.capacity() == capacity,
    {
        BlockReceiptsCache { cache: lru_new(capacity) }
    }

    /// Adds receipts of a block to those kept of it.
    pub fn add_receipts(&mut self, block_hash: CryptoHash, receipt_proofs: Vec<ReceiptProof>)
        ensures
            final(self).entries() == old(self).extended(block_hash, receipt_proofs@),
            final(self).capacity() == old(self).capacity(),
    {
        let mut added: Vec<ReceiptProof> = receipt_proofs;
        let block_receipts: &mut Vec<ReceiptProof> = lru_get_or_insert_mut(
            &mut self.cache,
            key(block_hash),
        );
        block_receipts.append(&mut added);
        assert(Seq::<ReceiptProof>::empty() + receipt_proofs@ =~= receipt_proofs@);
    }

    /// The receipts of a block.
    pub fn get(&mut self, block_hash: CryptoHash) -> (r: Option<&Vec<ReceiptProof>>)
        ensures
            final(self).entries() == old(self).used(block_hash),
            final(self).capacity() == old(self).capacity(),
            match r {
                Some(proofs) => old(self).held(block_hash) == Some(proofs@),
                None => old(self).held(block_hash) is None,
            },
    {
        lru_get(&mut self.cache, key(block_hash))
    }

    /// Takes out the receipts of a block.
    pub fn pop(&mut self, block_hash: CryptoHash) -> (r: Option<Vec<ReceiptProof>>)
        ensures
            final(self).entries() == without(old(self).entries(), spec_key(block_hash)),
            final(self).capacity() == old(self).capacity(),
            match r {
                Some(proofs) => old(self).held(block_hash) == Some(proofs@),
                None => old(self).held(block_hash) is None,
            },
    {
        lru_pop(&mut self.cache, key(block_hash))
    }
}

} // verus!
