//! What was learned is what an operation is told.
use std::sync::Arc;
use vstd::prelude::*;
use crate::block::{AccountId, Block, BlockHeader, ChunkExtra, ShardLayout, ShardUId};
use crate::error::Error;
use crate::hash::CryptoHash;
use crate::receipts::{ReceiptProof, SignedTransaction};
use crate::view::{fits, or_fail, seen, ChainView, Query, Reply, Stop, StoredTransition};

verus! {

/// An outcome tells of a reply: a value as it is, a failure as such, and what is
/// not known as a question.
pub open spec fn tells<T>(
    outcome: Result<T, Stop>,
    reply: Option<Result<T, Error>>,
    q: Query,
) -> bool {
    match reply {
        Some(Ok(value)) => outcome == Ok::<T, Stop>(value),
        Some(Err(e)) => outcome == Err::<T, Stop>(Stop::Fail(e)),
        None => outcome == Err::<T, Stop>(Stop::Need(q)),
    }
}

/// The block asked for, as learned.
pub open spec fn learned_block(view: &ChainView, q: Query) -> Option<Result<&Block, Error>> {
    match view.answer(q) {
        Some(Reply::Block(Ok(x))) => Some(Ok(&x)),
        Some(Reply::Block(Err(e))) => Some(Err(e)),
        _ => None,
    }
}

/// The shard ids asked for, as learned.
pub open spec fn learned_shard_ids(view: &ChainView, q: Query) -> Option<Result<&Vec<u64>, Error>> {
    match view.answer(q) {
        Some(Reply::ShardIds(Ok(x))) => Some(Ok(&x)),
        Some(Reply::ShardIds(Err(e))) => Some(Err(e)),
        _ => None,
    }
}

/// The layout asked for, as learned.
pub open spec fn learned_layout(view: &ChainView, q: Query) -> Option<Result<&ShardLayout, Error>> {
    match view.answer(q) {
        Some(Reply::Layout(Ok(x))) => Some(Ok(&x)),
        Some(Reply::Layout(Err(e))) => Some(Err(e)),
        _ => None,
    }
}

/// The accounts asked for, as learned.
pub open spec fn learned_accounts(view: &ChainView, q: Query) -> Option<
    Result<&Vec<AccountId>, Error>,
> {
    match view.answer(q) {
        Some(Reply::Accounts(Ok(x))) => Some(Ok(&x)),
        Some(Reply::Accounts(Err(e))) => Some(Err(e)),
        _ => None,
    }
}

/// The proofs asked for, as learned.
pub open spec fn learned_proofs(view: &ChainView, q: Query) -> Option<
    Result<&Vec<ReceiptProof>, Error>,
> {
    match view.answer(q) {
        Some(Reply::Proofs(Ok(x))) => Some(Ok(&x)),
        Some(Reply::Proofs(Err(e))) => Some(Err(e)),
        _ => None,
    }
}

/// The hashes asked for, as learned.
pub open spec fn learned_hashes(view: &ChainView, q: Query) -> Option<
    Result<&Vec<CryptoHash>, Error>,
> {
    match view.answer(q) {
        Some(Reply::Hashes(Ok(x))) => Some(Ok(&x)),
        Some(Reply::Hashes(Err(e))) => Some(Err(e)),
        _ => None,
    }
}

/// The roots asked for, as learned.
pub open spec fn learned_roots(view: &ChainView, q: Query) -> Option<
    Result<&Option<Vec<CryptoHash>>, Error>,
> {
    match view.answer(q) {
        Some(Reply::Roots(Ok(x))) => Some(Ok(&x)),
        Some(Reply::Roots(Err(e))) => Some(Err(e)),
        _ => None,
    }
}

/// The extra asked for, as learned.
pub open spec fn learned_extra(view: &ChainView, q: Query) -> Option<
    Result<&Arc<ChunkExtra>, Error>,
> {
    match view.answer(q) {
        Some(Reply::Extra(Ok(x))) => Some(Ok(&x)),
        Some(Reply::Extra(Err(e))) => Some(Err(e)),
        _ => None,
    }
}

/// The transactions asked for, as learned.
pub open spec fn learned_transactions(view: &ChainView, q: Query) -> Option<
    Result<&Vec<SignedTransaction>, Error>,
> {
    match view.answer(q) {
        Some(Reply::Transactions(Ok(x))) => Some(Ok(&x)),
        Some(Reply::Transactions(Err(e))) => Some(Err(e)),
        _ => None,
    }
}

/// The flags asked for, as learned.
pub open spec fn learned_flags(view: &ChainView, q: Query) -> Option<Result<&Vec<bool>, Error>> {
    match view.answer(q) {
        Some(Reply::Flags(Ok(x))) => Some(Ok(&x)),
        Some(Reply::Flags(Err(e))) => Some(Err(e)),
        _ => None,
    }
}

/// The stored transition asked for, as learned.
pub open spec fn learned_stored_transition(view: &ChainView, q: Query) -> Option<
    Result<&Option<StoredTransition>, Error>,
> {
    match view.answer(q) {
        Some(Reply::StoredTransition(Ok(x))) => Some(Ok(&x)),
        Some(Reply::StoredTransition(Err(e))) => Some(Err(e)),
        _ => None,
    }
}

/// The flag asked for, as learned.
pub open spec fn learned_flag(view: &ChainView, q: Query) -> Option<Result<bool, Error>> {
    match view.answer(q) {
        Some(Reply::Flag(r)) => Some(r),
        _ => None,
    }
}

/// The number asked for, as learned.
pub open spec fn learned_number(view: &ChainView, q: Query) -> Option<Result<u64, Error>> {
    match view.answer(q) {
        Some(Reply::Number(r)) => Some(r),
        _ => None,
    }
}

/// The version asked for, as learned.
pub open spec fn learned_version(view: &ChainView, q: Query) -> Option<Result<u32, Error>> {
    match view.answer(q) {
        Some(Reply::Version(r)) => Some(r),
        _ => None,
    }
}

/// The digest asked for, as learned.
pub open spec fn learned_digest(view: &ChainView, q: Query) -> Option<Result<CryptoHash, Error>> {
    match view.answer(q) {
        Some(Reply::Hash(r)) => Some(r),
        _ => None,
    }
}

/// The uid asked for, as learned.
pub open spec fn learned_uid(view: &ChainView, q: Query) -> Option<Result<ShardUId, Error>> {
    match view.answer(q) {
        Some(Reply::Uid(r)) => Some(r),
        _ => None,
    }
}

/// The header asked for, as learned.
pub open spec fn learned_header(view: &ChainView, q: Query) -> Option<Result<BlockHeader, Error>> {
    match view.answer(q) {
        Some(Reply::Header(r)) => Some(r),
        _ => None,
    }
}

/// The transition asked for, as learned.
pub open spec fn learned_transition(view: &ChainView, q: Query) -> Option<
    Result<Option<u64>, Error>,
> {
    match view.answer(q) {
        Some(Reply::Transition(r)) => Some(r),
        _ => None,
    }
}

/// Whatever was learned of a question is what is told of it, and of what was not
/// learned it is told that it is missing.
pub proof fn learned_is_told(view: &ChainView, q: Query)
    ensures
        tells(view.block(q), learned_block(view, q), q),
        tells(view.shard_ids(q), learned_shard_ids(view, q), q),
        tells(view.layout(q), learned_layout(view, q), q),
        tells(view.accounts(q), learned_accounts(view, q), q),
        tells(view.proofs(q), learned_proofs(view, q), q),
        tells(view.hashes(q), learned_hashes(view, q), q),
        tells(view.roots(q), learned_roots(view, q), q),
        tells(view.extra(q), learned_extra(view, q), q),
        tells(view.transactions(q), learned_transactions(view, q), q),
        tells(view.flags(q), learned_flags(view, q), q),
        tells(view.stored_transition(q), learned_stored_transition(view, q), q),
        tells(view.flag(q), learned_flag(view, q), q),
        tells(view.number(q), learned_number(view, q), q),
        tells(view.version(q), learned_version(view, q), q),
        tells(view.digest(q), learned_digest(view, q), q),
        tells(view.uid(q), learned_uid(view, q), q),
        tells(view.header(q), learned_header(view, q), q),
        tells(view.transition(q), learned_transition(view, q), q),
{
}

/// How a list is shuffled is told as it was learned, and it is learned only if it
/// holds each place once.
pub proof fn learned_shuffle_is_told(view: &ChainView, salt: CryptoHash, len: usize)
    requires
        view.consistent(),
    ensures
        match view.answer(Query::Shuffle { salt, len }) {
            Some(Reply::Order(order)) => view.shuffle(salt, len) == Ok::<&Vec<usize>, Stop>(&order)
                && order@.len() == len && order@.no_duplicates() && (forall|k: int|
                0 <= k < len ==> #[trigger] order@[k] < len),
            _ => view.shuffle(salt, len) == Err::<&Vec<usize>, Stop>(
                Stop::Need(Query::Shuffle { salt, len }),
            ),
        },
{
    if let Some(Reply::Order(order)) = view.answer(Query::Shuffle { salt, len }) {
        assert(fits(Query::Shuffle { salt, len }, &view.answer(Query::Shuffle { salt, len })->0));
        assert forall|i: int, j: int|
            0 <= i < order@.len() && 0 <= j < order@.len() && i != j implies order@[i]
            != order@[j] by {
            if i < j {
                assert(order@[i] != order@[j]);
            } else {
                assert(order@[j] != order@[i]);
            }
        }
    }
}

/// What an operation came to is shown as it is, a value by its view.
pub proof fn outcome_is_shown<T: View>(outcome: Result<T, Stop>)
    ensures
        match outcome {
            Ok(value) => seen(outcome) == Ok::<T::V, Stop>(value@),
            Err(stop) => seen(outcome) == Err::<T::V, Stop>(stop),
        },
{
}

/// A failure stops an operation as that failure, and a value does not.
pub proof fn failure_stops<T>(outcome: Result<T, Error>)
    ensures
        match outcome {
            Ok(value) => or_fail(outcome) == Ok::<T, Stop>(value),
            Err(e) => or_fail(outcome) == Err::<T, Stop>(Stop::Fail(e)),
        },
{
}

} // verus!
