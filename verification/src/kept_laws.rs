//! What is kept: the receipts that came in, the results on record, and the answers
//! that were learned.
use vstd::prelude::*;
use crate::core_statements::recorded;
use crate::hash::CryptoHash;
use crate::receipts::ReceiptProof;
use crate::receipts_cache::{
    entry_of, lemma_without, spec_key, without, BlockReceiptsCache,
};
use crate::statements::ExecutionResult;
use crate::view::{fits, Query, Reply};

verus! {

/// A block is found again under its hash, and no other block is.
pub proof fn blocks_have_keys_of_their_own(one: CryptoHash, other: CryptoHash)
    ensures
        spec_key(one) == spec_key(other) <==> one == other,
{
}

/// What a list of entries holds for a key is the last entry of that key, if there is
/// one.
pub proof fn entry_is_the_last_of_its_key(
    entries: Seq<((u128, u128), Seq<ReceiptProof>)>,
    key: (u128, u128),
)
    ensures
        match entry_of(entries, key) {
            Some(held) => exists|i: int|
                0 <= i < entries.len() && #[trigger] entries[i] == (key, held) && forall|j: int|
                    i < j < entries.len() ==> (#[trigger] entries[j]).0 != key,
            None => forall|i: int| 0 <= i < entries.len() ==> (#[trigger] entries[i]).0 != key,
        },
    decreases entries.len(),
{
    if entries.len() > 0 {
        let n = entries.len() - 1;
        let init = entries.drop_last();
        assert(entries[n] == entries.last());
        if entries.last().0 == key {
            assert(entries[n] == (key, entries.last().1));
        } else {
            entry_is_the_last_of_its_key(init, key);
            match entry_of(init, key) {
                Some(held) => {
                    let i = choose|i: int|
                        0 <= i < init.len() && #[trigger] init[i] == (key, held) && forall|j: int|
                            i < j < init.len() ==> (#[trigger] init[j]).0 != key;
                    assert(entries[i] == (key, held));
                    assert forall|j: int| i < j < entries.len() implies (#[trigger] entries[j]).0
                        != key by {
                        if j < n {
                            assert(init[j] == entries[j]);
                        }
                    }
                },
                None => {
                    assert forall|i: int| 0 <= i < entries.len() implies (#[trigger] entries[i]).0
                        != key by {
                        if i < n {
                            assert(init[i] == entries[i]);
                        }
                    }
                },
            }
        }
    }
}

/// A list without a key has the entries of all other keys, in their order.
pub proof fn others_stay_in_order(
    entries: Seq<((u128, u128), Seq<ReceiptProof>)>,
    key: (u128, u128),
)
    ensures
        without(entries, key) == entries.filter(
            |entry: ((u128, u128), Seq<ReceiptProof>)| entry.0 != key,
        ),
        without(entries, key).len() <= entries.len(),
        entry_of(entries, key) is Some ==> without(entries, key).len() < entries.len(),
    decreases entries.len(),
{
    reveal(Seq::filter);
    if entries.len() > 0 {
        others_stay_in_order(entries.drop_last(), key);
    }
}

/// To use the receipts of a block puts the block in front of all others, which stay
/// in their order; to use receipts that are not kept changes nothing.
pub proof fn used_block_comes_first(
    before: &BlockReceiptsCache,
    after: &BlockReceiptsCache,
    block_hash: CryptoHash,
)
    requires
        after.entries() == before.used(block_hash),
    ensures
        match before.held(block_hash) {
            Some(held) => after.entries().len() > 0 && after.entries()[0] == (
                (block_hash.hi, block_hash.lo),
                held,
            ) && after.entries().skip(1) == before.entries().filter(
                |entry: ((u128, u128), Seq<ReceiptProof>)|
                    entry.0 != (block_hash.hi, block_hash.lo),
            ),
            None => after.entries() == before.entries(),
        },
        after.entries().len() <= before.entries().len(),
{
    let key = spec_key(block_hash);
    others_stay_in_order(before.entries(), key);
    if before.held(block_hash) is Some {
        assert(after.entries().skip(1) =~= without(before.entries(), key));
    }
}

/// Receipts that come in put their block in front of all others, which stay in their
/// order. Only a block of which none were kept takes the room of another, and only
/// in a full cache: the last one then goes.
pub proof fn extended_block_comes_first(
    before: &BlockReceiptsCache,
    after: &BlockReceiptsCache,
    block_hash: CryptoHash,
    added: Seq<ReceiptProof>,
)
    requires
        after.entries() == before.extended(block_hash, added),
    ensures
        after.entries().len() > 0,
        after.entries()[0] == (
            (block_hash.hi, block_hash.lo),
            match before.held(block_hash) {
                Some(held) => held + added,
                None => added,
            },
        ),
        match before.held(block_hash) {
            Some(held) => after.entries().skip(1) == before.entries().filter(
                |entry: ((u128, u128), Seq<ReceiptProof>)|
                    entry.0 != (block_hash.hi, block_hash.lo),
            ),
            None => if before.entries().len() == before.capacity() {
                after.entries().skip(1) == before.entries().drop_last()
            } else {
                after.entries().skip(1) == before.entries()
            },
        },
        before.capacity() > 0 && before.entries().len() <= before.capacity()
            ==> after.entries().len() <= before.capacity(),
{
    let key = spec_key(block_hash);
    others_stay_in_order(before.entries(), key);
    match before.held(block_hash) {
        Some(_) => {
            assert(after.entries().skip(1) =~= without(before.entries(), key));
        },
        None => {
            if before.entries().len() == before.capacity() {
                assert(after.entries().skip(1) =~= before.entries().drop_last());
            } else {
                assert(after.entries().skip(1) =~= before.entries());
            }
        },
    }
}

/// Receipts that were taken out are no longer kept, and those of all other blocks
/// are kept as they were.
pub proof fn taken_receipts_are_gone(
    before: &BlockReceiptsCache,
    after: &BlockReceiptsCache,
    block_hash: CryptoHash,
    other: CryptoHash,
)
    requires
        after.entries() == without(before.entries(), spec_key(block_hash)),
    ensures
        after.held(block_hash) is None,
        other != block_hash ==> after.held(other) == before.held(other),
        after.entries() == before.entries().filter(
            |entry: ((u128, u128), Seq<ReceiptProof>)| entry.0 != (block_hash.hi, block_hash.lo),
        ),
{
    lemma_without(before.entries(), spec_key(block_hash), spec_key(other));
    others_stay_in_order(before.entries(), spec_key(block_hash));
}

/// To record a result adds it under its block and chunk, and adds nothing else.
pub proof fn nothing_else_is_recorded(
    known: Map<CryptoHash, Map<CryptoHash, ExecutionResult>>,
    result: ExecutionResult,
    block_hash: CryptoHash,
    chunk_hash: CryptoHash,
)
    ensures
        recorded(known, result).contains_key(block_hash) <==> block_hash == result.block_hash
            || known.contains_key(block_hash),
        recorded(known, result).contains_key(block_hash) ==> (recorded(
            known,
            result,
        )[block_hash].contains_key(chunk_hash) <==> block_hash == result.block_hash && chunk_hash
            == result.chunk_hash.0 || known.contains_key(block_hash)
            && known[block_hash].contains_key(chunk_hash)),
{
}

/// A question for a shuffle is answered by any list of all places, each once, and by
/// nothing else.
pub proof fn shuffles_are_of_all_places(salt: CryptoHash, len: usize, order: Vec<usize>)
    ensures
        fits(Query::Shuffle { salt, len }, &Reply::Order(order)) <==> {
            &&& order@.len() == len
            &&& order@.no_duplicates()
            &&& forall|k: int| 0 <= k < order@.len() ==> #[trigger] order@[k] < len
        },
{
    if fits(Query::Shuffle { salt, len }, &Reply::Order(order)) {
        assert forall|i: int, j: int|
            0 <= i < order@.len() && 0 <= j < order@.len() && i != j implies order@[i]
            != order@[j] by {
            if i < j {
                assert(order@[i] != order@[j]);
            } else {
                assert(order@[j] != order@[i]);
            }
        }
    }
}

/// A question is answered by a reply of the kind that it asks for, and by no other.
pub proof fn replies_are_of_the_kind_asked_for(q: Query, reply: &Reply)
    ensures
        q is Block ==> (fits(q, reply) <==> reply is Block),
        q is BlockHeader ==> (fits(q, reply) <==> reply is Header),
        q is EpochId || q is EpochIdFromPrevBlock ==> (fits(q, reply) <==> reply is Hash),
        q is ProtocolVersion || q is EpochInfoVersion ==> (fits(q, reply) <==> reply is Version),
        q is ShardIds ==> (fits(q, reply) <==> reply is ShardIds),
        q is ShardLayout ==> (fits(q, reply) <==> reply is Layout),
        q is ShardUid ==> (fits(q, reply) <==> reply is Uid),
        q is AllValidators ==> (fits(q, reply) <==> reply is Accounts),
        q is ReshardingTransition ==> (fits(q, reply) <==> reply is Transition),
        q is PrevShardId || q is PrevChunkCount || q is PrevChunkHeightIncluded
            || q is OutgoingReceipts || q is BlockContext || q is WitnessBlockContext
            || q is CachedUpdateKey ==> (fits(q, reply) <==> reply is Number),
        q is IncomingReceiptsExist || q is TransactionValid || q is CaresThisOrNextEpoch
            || q is CaresThisEpoch || q is CaresNextEpoch || q is CaredPrevEpoch
            || q is ShouldApplyChunk ==> (fits(q, reply) <==> reply is Flag),
        q is IncomingReceipts || q is OutgoingReceiptProofs ==> (fits(q, reply)
            <==> reply is Proofs),
        q is ReceiptsHashes ==> (fits(q, reply) <==> reply is Hashes),
        q is ChunkExtra ==> (fits(q, reply) <==> reply is Extra),
        q is ChunkTransactions ==> (fits(q, reply) <==> reply is Transactions),
        q is ChunkTransactionsValid ==> (fits(q, reply) <==> reply is Flags),
        q is GenesisStateRoots ==> (fits(q, reply) <==> reply is Roots),
        q is StateTransition ==> (fits(q, reply) <==> reply is StoredTransition),
        q is Shuffle && fits(q, reply) ==> reply is Order,
{
}

} // verus!
