//! What a node makes of the execution of a chunk: the result that it records,
//! the receipts that it sends out and the witness that it hands to others.
use std::sync::Arc;
use vstd::prelude::*;
use crate::block::{AccountId, Block, ChunkExtra, ShardChunkHeader, ShardLayout, ShardUId};
use crate::by_hash::ByHash;
use crate::error::Error;
use crate::hash::CryptoHash;
use crate::jobs::{
    calculate_receipts_root, get_prev_outgoing_receipts, prev_outgoing_receipts, receipts_root,
};
use crate::receipts::{
    each_of, hash_receipts, receipts_digest, Receipt, ReceiptProof, SignedTransaction,
};
use crate::statements::{share, ExecutionResult};
use crate::view::{or_fail, seen, Assumption, ChainView, Query, Stop, StoredTransition};
use crate::witness::{
    ChunkStateTransition, ChunkStateTransitionView, ChunkStateWitness, ChunkStateWitnessView,
    ContractUpdates, ContractUpdatesView,
};

verus! {

/// What executing a chunk brought about.
#[derive(Clone, Copy, PartialEq, Eq, Structural, Debug)]
pub struct ApplyResult {
    pub new_root: CryptoHash,
    /// The number under which the caller keeps the receipts that were sent out.
    pub outgoing_receipts: u64,
}

/// What was done for a shard.
#[derive(Clone, Copy, PartialEq, Eq, Structural, Debug)]
pub enum ShardUpdateResult {
    NewChunk { shard_uid: ShardUId, gas_limit: u64, apply_result: ApplyResult },
    OldChunk { shard_uid: ShardUId, apply_result: ApplyResult },
}

impl ShardUpdateResult {
    /// The shard, and what executing its chunk brought about.
    pub open spec fn spec_parts(self) -> (ShardUId, ApplyResult) {
        match self {
            ShardUpdateResult::NewChunk { shard_uid, apply_result, .. } => (
                shard_uid,
                apply_result,
            ),
            ShardUpdateResult::OldChunk { shard_uid, apply_result } => (shard_uid, apply_result),
        }
    }

    /// The shard, and what executing its chunk brought about.
    #[verifier::when_used_as_spec(spec_parts)]
    pub fn parts(self) -> (r: (ShardUId, ApplyResult))
        ensures
            r == self.parts(),
    {
        match self {
            ShardUpdateResult::NewChunk { shard_uid, gas_limit: _, apply_result } => (
                shard_uid,
                apply_result,
            ),
            ShardUpdateResult::OldChunk { shard_uid, apply_result } => (shard_uid, apply_result),
        }
    }
}

/// What [`collect_results`] returns: the first failure, or all results.
pub open spec fn collected(results: Seq<Result<ShardUpdateResult, Error>>) -> Result<
    Seq<ShardUpdateResult>,
    Error,
>
    decreases results.len(),
{
    if results.len() == 0 {
        Ok(Seq::empty())
    } else {
        match (collected(results.drop_last()), results.last()) {
            (Err(e), _) => Err(e),
            (Ok(_), Err(e)) => Err(e),
            (Ok(list), Ok(result)) => Ok(list.push(result)),
        }
    }
}

proof fn lemma_collected_prefix(results: Seq<Result<ShardUpdateResult, Error>>, n: int)
    requires
        0 <= n <= results.len(),
        collected(results.take(n)) is Err,
    ensures
        collected(results) == collected(results.take(n)),
    decreases results.len(),
{
    if n < results.len() {
        assert(results.drop_last().take(n) =~= results.take(n));
        lemma_collected_prefix(results.drop_last(), n);
    } else {
        assert(results.take(n) =~= results);
    }
}

/// The results of the work for the shards of a block, unless some of it failed.
pub fn collect_results(results: &Vec<Result<ShardUpdateResult, Error>>) -> (r: Result<
    Vec<ShardUpdateResult>,
    Error,
>)
    ensures
        match r {
            Ok(list) => collected(results@) == Ok::<Seq<ShardUpdateResult>, Error>(list@),
            Err(e) => collected(results@) == Err::<Seq<ShardUpdateResult>, Error>(e),
        },
{
    let mut list: Vec<ShardUpdateResult> = Vec::new();
    let mut i: usize = 0;
    assert(list@ =~= Seq::<ShardUpdateResult>::empty());
    while i < results.len()
        invariant
            i <= results.len(),
            collected(results@.take(i as int)) == Ok::<Seq<ShardUpdateResult>, Error>(list@),
        decreases results.len() - i,
    {
        assert(results@.take(i + 1).drop_last() =~= results@.take(i as int));
        match &results[i] {
            Ok(result) => {
                list.push(*result);
            },
            Err(e) => {
                proof {
                    lemma_collected_prefix(results@, i + 1);
                }
                return Err(*e);
            },
        }
        i = i + 1;
    }
    assert(results@.take(i as int) =~= results@);
    Ok(list)
}

/// The result of executing a chunk, and the receipts to send out.
pub struct ChunkOutcome<'a> {
    pub execution_result: ExecutionResult,
    pub receipt_proofs: &'a Vec<ReceiptProof>,
}

/// The header of the chunk of a shard in a block.
pub open spec fn header_of(block: &Block, shard_id: u64, view: &ChainView) -> Result<
    ShardChunkHeader,
    Stop,
> {
    match view.layout(Query::ShardLayout(block.header.epoch_id)) {
        Err(stop) => Err(stop),
        Ok(layout) => match layout.shard_index_of(shard_id) {
            Err(e) => Err(Stop::Fail(e)),
            Ok(shard_index) => or_fail(block.chunk_of(shard_index, shard_id)),
        },
    }
}

/// The header of the chunk of a shard in a block.
fn get_header_of<'a>(block: &'a Block, shard_id: u64, view: &ChainView) -> (r: Result<
    &'a ShardChunkHeader,
    Stop,
>)
    ensures
        match r {
            Ok(header) => header_of(block, shard_id, view) == Ok::<ShardChunkHeader, Stop>(*header),
            Err(stop) => header_of(block, shard_id, view) == Err::<ShardChunkHeader, Stop>(stop),
        },
{
    let layout: &ShardLayout = view.layout(Query::ShardLayout(block.header.epoch_id))?;
    let shard_index: u64 = or_fail(layout.get_shard_index(shard_id))?;
    or_fail(block.chunk(shard_index, shard_id))
}

/// The proofs of the receipts that an execution sent out.
pub open spec fn outgoing_proofs<'a>(
    block: &Block,
    prev_block: &Block,
    chunk_header: &ShardChunkHeader,
    shard_uid: ShardUId,
    outgoing_receipts: u64,
    view: &'a ChainView,
) -> Result<&'a Vec<ReceiptProof>, Stop> {
    let prev_block_hash = prev_block.header.hash;
    match prev_outgoing_receipts(prev_block, shard_uid.shard_id as u64, view) {
        Err(stop) => Err(stop),
        Ok(prev_outgoing) => match view.extra(
            Query::ChunkExtra { block_hash: prev_block_hash, shard_uid },
        ) {
            Err(stop) => Err(stop),
            Ok(_) => match receipts_root(prev_outgoing, block.header.epoch_id, view) {
                Err(stop) => Err(stop),
                Ok(prev_outgoing_receipts_root) => view.proofs(
                    Query::OutgoingReceiptProofs {
                        block_hash: block.header.hash,
                        chunk_hash: chunk_header.chunk_hash,
                        prev_block_hash,
                        shard_uid,
                        prev_outgoing_receipts_root,
                        receipts: outgoing_receipts,
                    },
                ),
            },
        },
    }
}

/// The proofs of the receipts that an execution sent out.
fn get_outgoing_proofs<'a>(
    block: &Block,
    prev_block: &Block,
    chunk_header: &ShardChunkHeader,
    shard_uid: ShardUId,
    outgoing_receipts: u64,
    view: &'a ChainView,
) -> (r: Result<&'a Vec<ReceiptProof>, Stop>)
    ensures
        r == outgoing_proofs(block, prev_block, chunk_header, shard_uid, outgoing_receipts, view),
{
    let prev_block_hash: CryptoHash = prev_block.header.hash;
    let prev_outgoing: u64 = get_prev_outgoing_receipts(
        prev_block,
        shard_uid.shard_id as u64,
        view,
    )?;
    view.extra(Query::ChunkExtra { block_hash: prev_block_hash, shard_uid })?;
    let prev_outgoing_receipts_root: CryptoHash = calculate_receipts_root(
        prev_outgoing,
        block.header.epoch_id,
        view,
    )?;
    view.proofs(
        Query::OutgoingReceiptProofs {
            block_hash: block.header.hash,
            chunk_hash: chunk_header.chunk_hash,
            prev_block_hash,
            shard_uid,
            prev_outgoing_receipts_root,
            receipts: outgoing_receipts,
        },
    )
}

/// What [`chunk_outcome`] returns.
pub open spec fn outcome_of<'a>(
    block: &Block,
    result: ShardUpdateResult,
    view: &'a ChainView,
) -> Result<ChunkOutcome<'a>, Stop> {
    match view.block(Query::Block(block.header.prev_hash)) {
        Err(stop) => Err(stop),
        Ok(prev_block) => outcome_after(block, prev_block, result, view),
    }
}

/// What to record of the execution of a chunk, and which receipts to send out,
/// the previous block being this.
pub open spec fn outcome_after<'a>(
    block: &Block,
    prev_block: &Block,
    result: ShardUpdateResult,
    view: &'a ChainView,
) -> Result<ChunkOutcome<'a>, Stop> {
    let (shard_uid, apply_result) = result.parts();
    let shard_id = shard_uid.shard_id as u64;
    match header_of(block, shard_id, view) {
        Err(stop) => Err(stop),
        Ok(chunk_header) => match outgoing_proofs(
            block,
            prev_block,
            &chunk_header,
            shard_uid,
            apply_result.outgoing_receipts,
            view,
        ) {
            Err(stop) => Err(stop),
            Ok(receipt_proofs) => match view.extra(
                Query::ChunkExtra { block_hash: block.header.hash, shard_uid },
            ) {
                Err(stop) => Err(stop),
                Ok(chunk_extra) => match receipts_root(
                    apply_result.outgoing_receipts,
                    block.header.epoch_id,
                    view,
                ) {
                    Err(stop) => Err(stop),
                    Ok(outgoing_receipts_root) => Ok(
                        ChunkOutcome {
                            execution_result: ExecutionResult {
                                block_hash: block.header.hash,
                                chunk_hash: chunk_header.chunk_hash,
                                shard_id,
                                chunk_extra: *chunk_extra,
                                outgoing_receipts_root,
                            },
                            receipt_proofs,
                        },
                    ),
                },
            },
        },
    }
}

/// What to record of the execution of a chunk, and which receipts to send out.
pub fn chunk_outcome<'a>(
    block: &Block,
    result: ShardUpdateResult,
    view: &'a ChainView,
) -> (r: Result<ChunkOutcome<'a>, Stop>)
    ensures
        r == outcome_of(block, result, view),
{
    let prev_block: &Block = view.block(Query::Block(block.header.prev_hash))?;
    let (shard_uid, apply_result) = result.parts();
    let shard_id: u64 = shard_uid.shard_id as u64;
    let chunk_header: &ShardChunkHeader = get_header_of(block, shard_id, view)?;
    let receipt_proofs: &'a Vec<ReceiptProof> = get_outgoing_proofs(
        block,
        prev_block,
        chunk_header,
        shard_uid,
        apply_result.outgoing_receipts,
        view,
    )?;
    let chunk_extra: &'a Arc<ChunkExtra> = view.extra(
        Query::ChunkExtra { block_hash: block.header.hash, shard_uid },
    )?;
    let outgoing_receipts_root: CryptoHash = calculate_receipts_root(
        apply_result.outgoing_receipts,
        block.header.epoch_id,
        view,
    )?;
    Ok(
        ChunkOutcome {
            execution_result: ExecutionResult {
                block_hash: block.header.hash,
                chunk_hash: chunk_header.chunk_hash,
                shard_id,
                chunk_extra: share(chunk_extra),
                outgoing_receipts_root,
            },
            receipt_proofs,
        },
    )
}

/// The hash of the chunk that a block holds for a shard.
#[verifier::opaque]
pub open spec fn chunk_of_shard(layout: &ShardLayout, block: &Block, shard_id: u64) -> Result<
    CryptoHash,
    Error,
> {
    match layout.shard_index_of(shard_id) {
        Err(e) => Err(e),
        Ok(shard_index) => match block.chunk_of(shard_index, shard_id) {
            Err(e) => Err(e),
            Ok(header) => Ok(header.chunk_hash.0),
        },
    }
}

/// The chunk of the previous block that sent the receipts of a proof.
pub open spec fn source_of(
    receipt_proof: &ReceiptProof,
    layout: &ShardLayout,
    prev_block: &Block,
) -> Result<CryptoHash, Error> {
    chunk_of_shard(layout, prev_block, receipt_proof.shard_proof.from_shard_id)
}

/// The chunk of the previous block that sent the receipts of a proof.
fn find_source(
    receipt_proof: &ReceiptProof,
    layout: &ShardLayout,
    prev_block: &Block,
) -> (r: Result<CryptoHash, Error>)
    ensures
        r == source_of(receipt_proof, layout, prev_block),
{
    proof {
        reveal(chunk_of_shard);
    }
    let from_shard_id: u64 = receipt_proof.shard_proof.from_shard_id;
    let shard_index: u64 = layout.get_shard_index(from_shard_id)?;
    let header: &ShardChunkHeader = prev_block.chunk(shard_index, from_shard_id)?;
    Ok(header.chunk_hash.0)
}

/// The proofs by the chunk of the previous block that sent their receipts, a
/// later proof of a chunk in place of an earlier one.
pub open spec fn by_source<'a>(
    proofs: &'a Vec<ReceiptProof>,
    n: int,
    layout: &ShardLayout,
    prev_block: &Block,
) -> Result<Map<CryptoHash, &'a ReceiptProof>, Error>
    decreases n,
{
    if n <= 0 {
        Ok(Map::empty())
    } else {
        match by_source(proofs, n - 1, layout, prev_block) {
            Err(e) => Err(e),
            Ok(table) => match source_of(&proofs@[n - 1], layout, prev_block) {
                Err(e) => Err(e),
                Ok(chunk_hash) => Ok(table.insert(chunk_hash, &proofs@[n - 1])),
            },
        }
    }
}

proof fn lemma_by_source_prefix(
    proofs: &Vec<ReceiptProof>,
    m: int,
    n: int,
    layout: &ShardLayout,
    prev_block: &Block,
)
    requires
        m <= n,
        by_source(proofs, m, layout, prev_block) is Err,
    ensures
        by_source(proofs, n, layout, prev_block) == by_source(proofs, m, layout, prev_block),
    decreases n - m,
{
    if m < n {
        lemma_by_source_prefix(proofs, m, n - 1, layout, prev_block);
    }
}

/// Files the proofs by the chunk of the previous block that sent their receipts.
fn file_by_source<'a>(
    proofs: &'a Vec<ReceiptProof>,
    layout: &ShardLayout,
    prev_block: &Block,
) -> (r: Result<ByHash<&'a ReceiptProof>, Error>)
    ensures
        match r {
            Ok(table) => by_source(proofs, proofs@.len() as int, layout, prev_block) == Ok::<
                Map<CryptoHash, &'a ReceiptProof>,
                Error,
            >(table@),
            Err(e) => by_source(proofs, proofs@.len() as int, layout, prev_block) == Err::<
                Map<CryptoHash, &'a ReceiptProof>,
                Error,
            >(e),
        },
{
    let mut table: ByHash<&'a ReceiptProof> = ByHash::new();
    let mut i: usize = 0;
    while i < proofs.len()
        invariant
            i <= proofs.len(),
            by_source(proofs, i as int, layout, prev_block) == Ok::<
                Map<CryptoHash, &'a ReceiptProof>,
                Error,
            >(table@),
        decreases proofs.len() - i,
    {
        let receipt_proof: &'a ReceiptProof = &proofs[i];
        let chunk_hash: CryptoHash = match find_source(receipt_proof, layout, prev_block) {
            Ok(chunk_hash) => chunk_hash,
            Err(e) => {
                proof {
                    lemma_by_source_prefix(proofs, i + 1, proofs@.len() as int, layout, prev_block);
                }
                return Err(e);
            },
        };
        table.insert(chunk_hash, receipt_proof);
        i = i + 1;
    }
    Ok(table)
}

/// The transition of a chunk with the digest of the receipts that were applied
/// and the contracts that were called and deployed.
pub open spec fn witnessed_transition(
    block_hash: CryptoHash,
    chunk_header: &ShardChunkHeader,
    shard_uid: ShardUId,
    apply_result: ApplyResult,
    view: &ChainView,
) -> Result<(ChunkStateTransitionView, CryptoHash, ContractUpdatesView), Stop> {
    let shard_id = shard_uid.shard_id as u64;
    if chunk_header.is_genesis() {
        Ok(
            (
                ChunkStateTransitionView {
                    block_hash,
                    base_state: Seq::empty(),
                    post_state_root: apply_result.new_root,
                },
                receipts_digest(Seq::empty()),
                ContractUpdatesView {
                    contract_accesses: Set::empty(),
                    contract_deploys: Seq::empty(),
                },
            ),
        )
    } else {
        match view.stored_transition(Query::StateTransition { block_hash, shard_id }) {
            Err(stop) => Err(stop),
            Ok(None) => Err(Stop::Fail(Error::NoStateTransition { block_hash, shard_id })),
            Ok(Some(stored)) => match view.extra(Query::ChunkExtra { block_hash, shard_uid }) {
                Err(stop) => Err(stop),
                Ok(chunk_extra) => Ok(
                    (
                        ChunkStateTransitionView {
                            block_hash,
                            base_state: stored.base_state@,
                            post_state_root: chunk_extra.state_root,
                        },
                        stored.receipts_hash,
                        ContractUpdatesView {
                            contract_accesses: stored.contract_accesses@.to_set(),
                            contract_deploys: stored.contract_deploys@,
                        },
                    ),
                ),
            },
        }
    }
}

/// Whether a digest stands in a list.
fn holds_digest(digests: &Vec<CryptoHash>, digest: CryptoHash) -> (r: bool)
    ensures
        r == digests@.contains(digest),
{
    let mut i: usize = 0;
    while i < digests.len()
        invariant
            i <= digests.len(),
            forall|j: int| 0 <= j < i ==> digests@[j] != digest,
        decreases digests.len() - i,
    {
        if digests[i] == digest {
            return true;
        }
        i = i + 1;
    }
    false
}

/// The digests of a list, each once.
fn distinct_digests(digests: &Vec<CryptoHash>) -> (r: Vec<CryptoHash>)
    ensures
        r@.to_set() == digests@.to_set(),
        r@.no_duplicates(),
{
    let mut r: Vec<CryptoHash> = Vec::new();
    let mut i: usize = 0;
    while i < digests.len()
        invariant
            i <= digests.len(),
            r@.no_duplicates(),
            forall|x: CryptoHash|
                #[trigger] r@.contains(x) <==> exists|j: int| 0 <= j < i && digests@[j] == x,
        decreases digests.len() - i,
    {
        let ghost before = r@;
        let digest: CryptoHash = digests[i];
        if !holds_digest(&r, digest) {
            r.push(digest);
        }
        proof {
            assert forall|x: CryptoHash| #[trigger] r@.contains(x) <==> exists|j: int|
                0 <= j < i + 1 && digests@[j] == x by {
                if before.contains(x) {
                    let k = choose|k: int| 0 <= k < before.len() && before[k] == x;
                    assert(r@[k] == x);
                }
                if x == digest && !before.contains(x) {
                    assert(r@[before.len() as int] == x);
                }
                if r@.contains(x) {
                    let k = choose|k: int| 0 <= k < r@.len() && r@[k] == x;
                    if k < before.len() {
                        assert(before[k] == x);
                    }
                    if x == digest {
                        assert(digests@[i as int] == x);
                    }
                }
            }
        }
        i = i + 1;
    }
    assert(r@.to_set() =~= digests@.to_set()) by {
        assert forall|x: CryptoHash| r@.to_set().contains(x) == digests@.to_set().contains(x) by {
            assert(r@.contains(x) <==> digests@.contains(x));
        }
    }
    r
}

/// The transition of a chunk with the digest of the receipts that were applied
/// and the contracts that were called and deployed.
fn get_witnessed_transition<'a>(
    block_hash: CryptoHash,
    chunk_header: &ShardChunkHeader,
    shard_uid: ShardUId,
    apply_result: ApplyResult,
    view: &'a ChainView,
) -> (r: Result<(ChunkStateTransition<'a>, CryptoHash, ContractUpdates<'a>), Stop>)
    ensures
        ({
            let expected = witnessed_transition(
                block_hash,
                chunk_header,
                shard_uid,
                apply_result,
                view,
            );
            match r {
                Ok((transition, receipts_hash, updates)) => expected == Ok::<
                    (ChunkStateTransitionView, CryptoHash, ContractUpdatesView),
                    Stop,
                >((transition@, receipts_hash, updates@))
                    && updates.contract_accesses@.no_duplicates(),
                Err(stop) => expected == Err::<
                    (ChunkStateTransitionView, CryptoHash, ContractUpdatesView),
                    Stop,
                >(stop),
            }
        }),
{
    let shard_id: u64 = shard_uid.shard_id as u64;
    if chunk_header.is_genesis() {
        let no_receipts: Vec<&Receipt> = Vec::new();
        let transition = ChunkStateTransition {
            block_hash,
            base_state: Vec::new(),
            post_state_root: apply_result.new_root,
        };
        let updates = ContractUpdates {
            contract_accesses: Vec::new(),
            contract_deploys: Vec::new(),
        };
        assert(no_receipts@.unref() =~= Seq::<Receipt>::empty());
        assert(transition.base_state@.unref() =~= Seq::<Vec<u8>>::empty());
        assert(updates.contract_accesses@.to_set() =~= Set::<CryptoHash>::empty());
        assert(updates.contract_deploys@.unref() =~= Seq::<Vec<u8>>::empty());
        return Ok((transition, hash_receipts(&no_receipts), updates));
    }
    let stored: &'a StoredTransition = match view.stored_transition(
        Query::StateTransition { block_hash, shard_id },
    )? {
        Some(stored) => stored,
        None => {
            return Err(Stop::Fail(Error::NoStateTransition { block_hash, shard_id }));
        },
    };
    let chunk_extra: &Arc<ChunkExtra> = view.extra(Query::ChunkExtra { block_hash, shard_uid })?;
    Ok(
        (
            ChunkStateTransition {
                block_hash,
                base_state: each_of(&stored.base_state),
                post_state_root: chunk_extra.state_root,
            },
            stored.receipts_hash,
            ContractUpdates {
                contract_accesses: distinct_digests(&stored.contract_accesses),
                contract_deploys: each_of(&stored.contract_deploys),
            },
        ),
    )
}

/// A witness to be handed to the validators of its chunk.
pub struct DistributeStateWitnessRequest<'a> {
    pub state_witness: ChunkStateWitness<'a>,
    pub contract_updates: ContractUpdates<'a>,
    pub main_transition_shard_id: u64,
}

/// [`DistributeStateWitnessRequest`] as it stands in specifications.
pub struct DistributeStateWitnessRequestView<'a> {
    pub state_witness: ChunkStateWitnessView<'a>,
    pub contract_updates: ContractUpdatesView,
    pub main_transition_shard_id: u64,
}

impl<'a> View for DistributeStateWitnessRequest<'a> {
    type V = DistributeStateWitnessRequestView<'a>;

    open spec fn view(&self) -> DistributeStateWitnessRequestView<'a> {
        DistributeStateWitnessRequestView {
            state_witness: self.state_witness@,
            contract_updates: self.contract_updates@,
            main_transition_shard_id: self.main_transition_shard_id,
        }
    }
}

/// The proofs of the receipts that a chunk applied, by the chunk that sent them.
pub open spec fn source_proofs<'a>(
    block: &Block,
    prev_block: &Block,
    shard_id: u64,
    view: &'a ChainView,
) -> Result<Map<CryptoHash, &'a ReceiptProof>, Stop> {
    match view.proofs(Query::IncomingReceipts { block_hash: block.header.prev_hash, shard_id }) {
        Err(stop) => Err(stop),
        Ok(proofs) => match view.layout(Query::ShardLayout(prev_block.header.epoch_id)) {
            Err(stop) => Err(stop),
            Ok(layout) => or_fail(by_source(proofs, proofs@.len() as int, layout, prev_block)),
        },
    }
}

/// What [`make_state_witness`] returns.
pub open spec fn state_witness<'a>(
    me: Option<&'a AccountId>,
    block: &'a Block,
    result: ShardUpdateResult,
    view: &'a ChainView,
) -> Result<DistributeStateWitnessRequestView<'a>, Stop> {
    match view.block(Query::Block(block.header.prev_hash)) {
        Err(stop) => Err(stop),
        Ok(prev_block) => state_witness_after(me, block, prev_block, result, view),
    }
}

/// The witness of the execution of a chunk, the previous block being this.
pub open spec fn state_witness_after<'a>(
    me: Option<&'a AccountId>,
    block: &'a Block,
    prev_block: &Block,
    result: ShardUpdateResult,
    view: &'a ChainView,
) -> Result<DistributeStateWitnessRequestView<'a>, Stop> {
    let (shard_uid, apply_result) = result.parts();
    let shard_id = shard_uid.shard_id as u64;
    match header_of(block, shard_id, view) {
        Err(stop) => Err(stop),
        Ok(chunk_header) => match witnessed_transition(
            block.header.hash,
            &chunk_header,
            shard_uid,
            apply_result,
            view,
        ) {
            Err(stop) => Err(stop),
            Ok((main_state_transition, applied_receipts_hash, contract_updates)) => {
                match source_proofs(block, prev_block, shard_id, view) {
                    Err(stop) => Err(stop),
                    Ok(source_receipt_proofs) => match view.transactions(
                        Query::ChunkTransactions(chunk_header.chunk_hash),
                    ) {
                        Err(stop) => Err(stop),
                        Ok(transactions) => match me {
                            None => Err(Stop::Broken(Assumption::Signer)),
                            Some(chunk_producer) => Ok(
                                DistributeStateWitnessRequestView {
                                    state_witness: ChunkStateWitnessView {
                                        chunk_producer,
                                        epoch_id: block.header.epoch_id,
                                        chunk_header: &chunk_header,
                                        main_state_transition,
                                        source_receipt_proofs,
                                        applied_receipts_hash,
                                        transactions,
                                        implicit_transitions: Seq::empty(),
                                    },
                                    contract_updates,
                                    main_transition_shard_id: shard_id,
                                },
                            ),
                        },
                    },
                }
            },
        },
    }
}

/// Makes the witness of the execution of a chunk.
pub fn make_state_witness<'a>(
    me: Option<&'a AccountId>,
    block: &'a Block,
    result: ShardUpdateResult,
    view: &'a ChainView,
) -> (r: Result<DistributeStateWitnessRequest<'a>, Stop>)
    ensures
        seen(r) == state_witness(me, block, result, view),
        r matches Ok(request) ==> request.contract_updates.contract_accesses@.no_duplicates(),
{
    let prev_block: &Block = view.block(Query::Block(block.header.prev_hash))?;
    let (shard_uid, apply_result) = result.parts();
    let shard_id: u64 = shard_uid.shard_id as u64;
    let chunk_header: &'a ShardChunkHeader = get_header_of(block, shard_id, view)?;
    let (main_state_transition, applied_receipts_hash, contract_updates) = get_witnessed_transition(
        block.header.hash,
        chunk_header,
        shard_uid,
        apply_result,
        view,
    )?;
    let proofs: &'a Vec<ReceiptProof> = view.proofs(
        Query::IncomingReceipts { block_hash: block.header.prev_hash, shard_id },
    )?;
    let layout: &ShardLayout = view.layout(Query::ShardLayout(prev_block.header.epoch_id))?;
    let source_receipt_proofs: ByHash<&'a ReceiptProof> = or_fail(
        file_by_source(proofs, layout, prev_block),
    )?;
    let transactions: &'a Vec<SignedTransaction> = view.transactions(
        Query::ChunkTransactions(chunk_header.chunk_hash),
    )?;
    let chunk_producer: &'a AccountId = match me {
        Some(me) => me,
        None => {
            return Err(Stop::Broken(Assumption::Signer));
        },
    };
    let implicit_transitions: Vec<ChunkStateTransition<'a>> = Vec::new();
    let request = DistributeStateWitnessRequest {
        state_witness: ChunkStateWitness {
            chunk_producer,
            epoch_id: block.header.epoch_id,
            chunk_header,
            main_state_transition,
            source_receipt_proofs,
            applied_receipts_hash,
            transactions,
            implicit_transitions,
        },
        contract_updates,
        main_transition_shard_id: shard_id,
    };
    assert(request@.state_witness.implicit_transitions =~= Seq::<
        ChunkStateTransitionView,
    >::empty());
    Ok(request)
}

} // verus!
