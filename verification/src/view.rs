//! What a node knows of its chain.
//!
//! An operation of this crate reads the chain through a [`ChainView`], which
//! holds the answers to the questions that were asked so far. Where an answer is
//! missing the operation stops with the question ([`Stop::Need`]) and changes
//! nothing that a second attempt would notice; once the answer was looked up and
//! learned, the operation is started again. Whoever runs the operations so
//! needs no knowledge of what they read, and in which order.
use std::sync::Arc;
use vstd::prelude::*;
use crate::block::{AccountId, Block, BlockHeader, ChunkExtra, ShardLayout, ShardUId};
use crate::error::Error;
use crate::hash::{ChunkHash, CryptoHash, EpochId};
use crate::order::{is_shuffle, spec_is_shuffle};
use crate::receipts::{ReceiptProof, SignedTransaction};

verus! {

/// A question about the chain. "Cares" speaks of this node.
#[derive(Clone, Copy, PartialEq, Eq, Structural, Debug)]
pub enum Query {
    /// The block with this hash.
    Block(CryptoHash),
    /// The header of the block with this hash.
    BlockHeader(CryptoHash),
    /// The epoch of this block.
    EpochId(CryptoHash),
    /// The epoch of the block after this one.
    EpochIdFromPrevBlock(CryptoHash),
    /// The protocol version of an epoch.
    ProtocolVersion(EpochId),
    /// The protocol version that the information on an epoch holds.
    EpochInfoVersion(EpochId),
    /// The shards of an epoch.
    ShardIds(EpochId),
    /// The shard layout of an epoch.
    ShardLayout(EpochId),
    /// The shard of an epoch that has this identifier.
    ShardUid { shard_id: u64, epoch_id: EpochId },
    /// The shard of the previous block from which a shard of the block after it stems.
    PrevShardId { prev_block_hash: CryptoHash, shard_id: u64 },
    /// All validators of an epoch.
    AllValidators(EpochId),
    /// The resharding that this block brings for a shard, if it brings one.
    ReshardingTransition { block_hash: CryptoHash, shard_uid: ShardUId },
    /// How many chunks the next block has, as far as this one tells.
    PrevChunkCount(CryptoHash),
    /// The height at which the chunk was included that a shard of the next block follows.
    PrevChunkHeightIncluded { prev_block_hash: CryptoHash, shard_id: u64 },
    /// Whether the receipts that this block sends to a shard were stored.
    IncomingReceiptsExist { block_hash: CryptoHash, shard_id: u64 },
    /// The stored receipts that this block sends to a shard.
    IncomingReceipts { block_hash: CryptoHash, shard_id: u64 },
    /// The receipts that a shard sent out up to a block, since the height at which its chunk was
    /// included. The answer is the number under which the caller keeps them.
    OutgoingReceipts { block_hash: CryptoHash, shard_id: u64, last_height_included: u64 },
    /// The digests, one per shard of an epoch, of the receipts kept under a number.
    ReceiptsHashes { receipts: u64, epoch_id: EpochId },
    /// What executing the chunk of a shard in a block left behind.
    ChunkExtra { block_hash: CryptoHash, shard_uid: ShardUId },
    /// The transactions of a chunk.
    ChunkTransactions(ChunkHash),
    /// Whether a transaction based on one block can still go into the block after another.
    TransactionValid { prev_block_hash: CryptoHash, base_block_hash: CryptoHash },
    /// For each transaction of a chunk, whether it can still go into the block after this one.
    ChunkTransactionsValid { prev_block_hash: CryptoHash, chunk_hash: ChunkHash },
    /// The state roots of genesis.
    GenesisStateRoots,
    /// The state transition that was stored when the chunk of a shard was executed.
    StateTransition { block_hash: CryptoHash, shard_id: u64 },
    /// Whether the node cares about a shard in the epoch of a block or the next.
    CaresThisOrNextEpoch { block_hash: CryptoHash, shard_id: u64 },
    /// Whether the node cares about a shard in the epoch of the block after this one.
    CaresThisEpoch { prev_block_hash: CryptoHash, shard_id: u64 },
    /// Whether the node cares about a shard in the epoch after that.
    CaresNextEpoch { prev_block_hash: CryptoHash, shard_id: u64 },
    /// Whether the node cared about a shard in the epoch before that.
    CaredPrevEpoch { prev_block_hash: CryptoHash, shard_id: u64 },
    /// Whether a chunk is executed by a caught-up node that cares, will care and cared so.
    ShouldApplyChunk { cares_this: bool, cares_next: bool, cared_prev: bool },
    /// The context in which a chunk of a block is executed, for a new chunk or an old one. The
    /// answer is the number under which the caller keeps it.
    BlockContext { block_hash: CryptoHash, prev_block_hash: CryptoHash, is_new_chunk: bool },
    /// The context in which a chunk of a block is executed again to check its witness. The answer
    /// is the number under which the caller keeps it.
    WitnessBlockContext { block_hash: CryptoHash, prev_block_hash: CryptoHash },
    /// The key under which the execution of the chunk of a shard is cached, in a context. The
    /// answer is the number under which the caller keeps it.
    CachedUpdateKey { context: u64, block_hash: CryptoHash, shard_id: u64 },
    /// The proofs of the receipts kept under a number, which a chunk sent out when executed. They
    /// are made for the header of the chunk as it stands in a block, completed by the chunk extra
    /// of a shard and the outgoing receipts root that the previous execution left.
    OutgoingReceiptProofs {
        block_hash: CryptoHash,
        chunk_hash: ChunkHash,
        prev_block_hash: CryptoHash,
        shard_uid: ShardUId,
        prev_outgoing_receipts_root: CryptoHash,
        receipts: u64,
    },
    /// How a list of this length is shuffled under this salt.
    Shuffle { salt: CryptoHash, len: usize },
}

/// The state transition that is stored when a chunk is executed.
pub struct StoredTransition {
    /// The nodes of the state that the execution touched.
    pub base_state: Vec<Vec<u8>>,
    /// The digest of the receipts that were applied.
    pub receipts_hash: CryptoHash,
    /// The digests of the contracts that were called.
    pub contract_accesses: Vec<CryptoHash>,
    /// The contracts that were deployed.
    pub contract_deploys: Vec<Vec<u8>>,
}

/// An answer.
pub enum Reply {
    Flag(Result<bool, Error>),
    Number(Result<u64, Error>),
    Version(Result<u32, Error>),
    Hash(Result<CryptoHash, Error>),
    Uid(Result<ShardUId, Error>),
    Header(Result<BlockHeader, Error>),
    Transition(Result<Option<u64>, Error>),
    Block(Result<Block, Error>),
    ShardIds(Result<Vec<u64>, Error>),
    Layout(Result<ShardLayout, Error>),
    Accounts(Result<Vec<AccountId>, Error>),
    Proofs(Result<Vec<ReceiptProof>, Error>),
    Hashes(Result<Vec<CryptoHash>, Error>),
    Roots(Result<Option<Vec<CryptoHash>>, Error>),
    Extra(Result<Arc<ChunkExtra>, Error>),
    Transactions(Result<Vec<SignedTransaction>, Error>),
    Flags(Result<Vec<bool>, Error>),
    StoredTransition(Result<Option<StoredTransition>, Error>),
    Order(Vec<usize>),
}

/// What a node takes for granted. Where it does not hold, the node cannot go on.
#[derive(Clone, Copy, PartialEq, Eq, Structural, Debug)]
pub enum Assumption {
    /// A block of which all chunks have an execution result has no other results.
    NoSurplusResults,
    /// A witness names the epoch of its block.
    WitnessEpoch,
    /// The chunk header of a witness stands in the block of the witness.
    WitnessChunkInBlock,
    /// Of the previous block, the shard that a chunk stems from has an execution result.
    PreviousShardResult,
    /// The epoch of the block after a chunk's previous block is known.
    EpochOfChunk(Error),
    /// The chunk that a chunk follows is known.
    PreviousChunk(Error),
    /// The work of executing a chunk can be laid out.
    ShardJob(Error),
    /// The block after one whose execution is known can be loaded.
    NextBlock(Error),
    /// The node finds its own witness to be right.
    OwnWitness(Error),
    /// The node has a name to sign as.
    Signer,
    /// Receipts of one shard can be counted in 32 bits.
    ReceiptCount,
}

/// Why an operation stopped before its end.
#[derive(Clone, Copy, PartialEq, Eq, Structural, Debug)]
pub enum Stop {
    /// The answer to this question is missing.
    Need(Query),
    /// The operation failed.
    Fail(Error),
    /// Something does not hold that is taken for granted. Whoever runs the operation has to halt
    /// the node.
    Broken(Assumption),
}

/// An outcome as it stands in specifications.
pub open spec fn seen<T: View>(outcome: Result<T, Stop>) -> Result<T::V, Stop> {
    match outcome {
        Ok(x) => Ok(x@),
        Err(stop) => Err(stop),
    }
}

/// A failure as a reason to stop.
pub open spec fn spec_or_fail<T>(outcome: Result<T, Error>) -> Result<T, Stop> {
    match outcome {
        Ok(x) => Ok(x),
        Err(e) => Err(Stop::Fail(e)),
    }
}

/// A failure as a reason to stop.
#[verifier::when_used_as_spec(spec_or_fail)]
pub fn or_fail<T>(outcome: Result<T, Error>) -> (r: Result<T, Stop>)
    ensures
        r == or_fail(outcome),
{
    match outcome {
        Ok(x) => Ok(x),
        Err(e) => Err(Stop::Fail(e)),
    }
}

/// Whether a reply is of the kind that a question asks for.
pub open spec fn spec_fits(q: Query, reply: &Reply) -> bool {
    match q {
        Query::Block(_) => reply is Block,
        Query::BlockHeader(_) => reply is Header,
        Query::EpochId(_) => reply is Hash,
        Query::EpochIdFromPrevBlock(_) => reply is Hash,
        Query::ProtocolVersion(_) => reply is Version,
        Query::EpochInfoVersion(_) => reply is Version,
        Query::ShardIds(_) => reply is ShardIds,
        Query::ShardLayout(_) => reply is Layout,
        Query::ShardUid { .. } => reply is Uid,
        Query::PrevShardId { .. } => reply is Number,
        Query::AllValidators(_) => reply is Accounts,
        Query::ReshardingTransition { .. } => reply is Transition,
        Query::PrevChunkCount(_) => reply is Number,
        Query::PrevChunkHeightIncluded { .. } => reply is Number,
        Query::IncomingReceiptsExist { .. } => reply is Flag,
        Query::IncomingReceipts { .. } => reply is Proofs,
        Query::OutgoingReceipts { .. } => reply is Number,
        Query::ReceiptsHashes { .. } => reply is Hashes,
        Query::ChunkExtra { .. } => reply is Extra,
        Query::ChunkTransactions(_) => reply is Transactions,
        Query::TransactionValid { .. } => reply is Flag,
        Query::ChunkTransactionsValid { .. } => reply is Flags,
        Query::GenesisStateRoots => reply is Roots,
        Query::StateTransition { .. } => reply is StoredTransition,
        Query::CaresThisOrNextEpoch { .. } => reply is Flag,
        Query::CaresThisEpoch { .. } => reply is Flag,
        Query::CaresNextEpoch { .. } => reply is Flag,
        Query::CaredPrevEpoch { .. } => reply is Flag,
        Query::ShouldApplyChunk { .. } => reply is Flag,
        Query::BlockContext { .. } => reply is Number,
        Query::WitnessBlockContext { .. } => reply is Number,
        Query::CachedUpdateKey { .. } => reply is Number,
        Query::OutgoingReceiptProofs { .. } => reply is Proofs,
        Query::Shuffle { len, .. } => match reply {
            Reply::Order(order) => spec_is_shuffle(order@, len as int),
            _ => false,
        },
    }
}

/// Whether a reply is of the kind that a question asks for.
#[verifier::when_used_as_spec(spec_fits)]
pub fn fits(q: Query, reply: &Reply) -> (r: bool)
    ensures
        r == fits(q, reply),
{
    match q {
        Query::Block(_) => matches!(reply, Reply::Block(_)),
        Query::BlockHeader(_) => matches!(reply, Reply::Header(_)),
        Query::EpochId(_) => matches!(reply, Reply::Hash(_)),
        Query::EpochIdFromPrevBlock(_) => matches!(reply, Reply::Hash(_)),
        Query::ProtocolVersion(_) => matches!(reply, Reply::Version(_)),
        Query::EpochInfoVersion(_) => matches!(reply, Reply::Version(_)),
        Query::ShardIds(_) => matches!(reply, Reply::ShardIds(_)),
        Query::ShardLayout(_) => matches!(reply, Reply::Layout(_)),
        Query::ShardUid { .. } => matches!(reply, Reply::Uid(_)),
        Query::PrevShardId { .. } => matches!(reply, Reply::Number(_)),
        Query::AllValidators(_) => matches!(reply, Reply::Accounts(_)),
        Query::ReshardingTransition { .. } => matches!(reply, Reply::Transition(_)),
        Query::PrevChunkCount(_) => matches!(reply, Reply::Number(_)),
        Query::PrevChunkHeightIncluded { .. } => matches!(reply, Reply::Number(_)),
        Query::IncomingReceiptsExist { .. } => matches!(reply, Reply::Flag(_)),
        Query::IncomingReceipts { .. } => matches!(reply, Reply::Proofs(_)),
        Query::OutgoingReceipts { .. } => matches!(reply, Reply::Number(_)),
        Query::ReceiptsHashes { .. } => matches!(reply, Reply::Hashes(_)),
        Query::ChunkExtra { .. } => matches!(reply, Reply::Extra(_)),
        Query::ChunkTransactions(_) => matches!(reply, Reply::Transactions(_)),
        Query::TransactionValid { .. } => matches!(reply, Reply::Flag(_)),
        Query::ChunkTransactionsValid { .. } => matches!(reply, Reply::Flags(_)),
        Query::GenesisStateRoots => matches!(reply, Reply::Roots(_)),
        Query::StateTransition { .. } => matches!(reply, Reply::StoredTransition(_)),
        Query::CaresThisOrNextEpoch { .. } => matches!(reply, Reply::Flag(_)),
        Query::CaresThisEpoch { .. } => matches!(reply, Reply::Flag(_)),
        Query::CaresNextEpoch { .. } => matches!(reply, Reply::Flag(_)),
        Query::CaredPrevEpoch { .. } => matches!(reply, Reply::Flag(_)),
        Query::ShouldApplyChunk { .. } => matches!(reply, Reply::Flag(_)),
        Query::BlockContext { .. } => matches!(reply, Reply::Number(_)),
        Query::WitnessBlockContext { .. } => matches!(reply, Reply::Number(_)),
        Query::CachedUpdateKey { .. } => matches!(reply, Reply::Number(_)),
        Query::OutgoingReceiptProofs { .. } => matches!(reply, Reply::Proofs(_)),
        Query::Shuffle { salt: _, len } => match reply {
            Reply::Order(order) => is_shuffle(order, len),
            _ => false,
        },
    }
}

/// The answer to a question in a list of answers.
pub open spec fn answer_in(answers: Seq<(Query, Reply)>, q: Query) -> Option<Reply>
    decreases answers.len(),
{
    if answers.len() == 0 {
        None
    } else if answers.last().0 == q {
        Some(answers.last().1)
    } else {
        answer_in(answers.drop_last(), q)
    }
}

proof fn lemma_answer_fits(answers: Seq<(Query, Reply)>, q: Query)
    requires
        forall|i: int|
            0 <= i < answers.len() ==> fits((#[trigger] answers[i]).0, &answers[i].1),
    ensures
        answer_in(answers, q) matches Some(reply) ==> fits(q, &reply),
    decreases answers.len(),
{
    if answers.len() > 0 && answers.last().0 != q {
        lemma_answer_fits(answers.drop_last(), q);
    }
}

/// The answers to the questions that were asked so far.
pub struct ChainView {
    answers: Vec<(Query, Reply)>,
}

impl ChainView {
    #[verifier::type_invariant]
    spec fn all_fit(&self) -> bool {
        forall|i: int|
            0 <= i < self.answers@.len() ==> fits(
                (#[trigger] self.answers@[i]).0,
                &self.answers@[i].1,
            )
    }

    /// The answer to a question, if it is known.
    pub closed spec fn answer(&self, q: Query) -> Option<Reply> {
        answer_in(self.answers@, q)
    }

    /// A view that holds no answer.
    pub fn new() -> (r: Self)
        ensures
            forall|q: Query| r.answer(q) is None,
            r.consistent(),
    {
        ChainView { answers: Vec::new() }
    }

    /// Adds the answer to a question, unless there is one already or the reply
    /// is not of the kind that the question asks for.
    pub fn learn(&mut self, q: Query, reply: Reply) -> (r: bool)
        ensures
            r == (old(self).answer(q) is None && fits(q, &reply)),
            r ==> final(self).answer(q) == Some(reply),
            forall|p: Query|
                p != q || !r ==> #[trigger] final(self).answer(p) == old(self).answer(p),
            old(self).consistent() ==> final(self).consistent(),
            old(self).extends_to(final(self)),
    {
        if self.find(q).is_some() || !fits(q, &reply) {
            return false;
        }
        proof {
            use_type_invariant(&*self);
        }
        let mut answers: Vec<(Query, Reply)> = Vec::new();
        std::mem::swap(&mut answers, &mut self.answers);
        let ghost before = answers@;
        answers.push((q, reply));
        assert(answers@.drop_last() =~= before);
        self.answers = answers;
        proof {
            assert forall|p: Query| old(self).consistent() && (#[trigger] self.answer(
                p,
            )) is Some implies fits(p, &self.answer(p)->0) by {
                assert(p != q ==> self.answer(p) == old(self).answer(p));
            }
        }
        true
    }

    fn find(&self, q: Query) -> (r: Option<&Reply>)
        ensures
            match r {
                Some(reply) => self.answer(q) == Some(*reply),
                None => self.answer(q) is None,
            },
    {
        let mut i: usize = self.answers.len();
        assert(self.answers@.take(i as int) =~= self.answers@);
        while i > 0
            invariant
                i <= self.answers.len(),
                self.answer(q) == answer_in(self.answers@.take(i as int), q),
            decreases i,
        {
            assert(self.answers@.take(i as int).drop_last() =~= self.answers@.take(i - 1));
            i = i - 1;
            let entry: &(Query, Reply) = &self.answers[i];
            if entry.0 == q {
                return Some(&entry.1);
            }
        }
        None
    }

    /// The block that answers a question.
    pub open spec fn spec_block(&self, q: Query) -> Result<&Block, Stop> {
        match self.answer(q) {
            Some(Reply::Block(Ok(x))) => Ok(&x),
            Some(Reply::Block(Err(e))) => Err(Stop::Fail(e)),
            _ => Err(Stop::Need(q)),
        }
    }

    /// The block that answers a question.
    #[verifier::when_used_as_spec(spec_block)]
    pub fn block(&self, q: Query) -> (r: Result<&Block, Stop>)
        ensures
            r == self.block(q),
    {
        match self.find(q) {
            Some(Reply::Block(Ok(x))) => Ok(x),
            Some(Reply::Block(Err(e))) => Err(Stop::Fail(*e)),
            _ => Err(Stop::Need(q)),
        }
    }

    /// The shards that answer a question.
    pub open spec fn spec_shard_ids(&self, q: Query) -> Result<&Vec<u64>, Stop> {
        match self.answer(q) {
            Some(Reply::ShardIds(Ok(x))) => Ok(&x),
            Some(Reply::ShardIds(Err(e))) => Err(Stop::Fail(e)),
            _ => Err(Stop::Need(q)),
        }
    }

    /// The shards that answer a question.
    #[verifier::when_used_as_spec(spec_shard_ids)]
    pub fn shard_ids(&self, q: Query) -> (r: Result<&Vec<u64>, Stop>)
        ensures
            r == self.shard_ids(q),
    {
        match self.find(q) {
            Some(Reply::ShardIds(Ok(x))) => Ok(x),
            Some(Reply::ShardIds(Err(e))) => Err(Stop::Fail(*e)),
            _ => Err(Stop::Need(q)),
        }
    }

    /// The shard layout that answers a question.
    pub open spec fn spec_layout(&self, q: Query) -> Result<&ShardLayout, Stop> {
        match self.answer(q) {
            Some(Reply::Layout(Ok(x))) => Ok(&x),
            Some(Reply::Layout(Err(e))) => Err(Stop::Fail(e)),
            _ => Err(Stop::Need(q)),
        }
    }

    /// The shard layout that answers a question.
    #[verifier::when_used_as_spec(spec_layout)]
    pub fn layout(&self, q: Query) -> (r: Result<&ShardLayout, Stop>)
        ensures
            r == self.layout(q),
    {
        match self.find(q) {
            Some(Reply::Layout(Ok(x))) => Ok(x),
            Some(Reply::Layout(Err(e))) => Err(Stop::Fail(*e)),
            _ => Err(Stop::Need(q)),
        }
    }

    /// The accounts that answer a question.
    pub open spec fn spec_accounts(&self, q: Query) -> Result<&Vec<AccountId>, Stop> {
        match self.answer(q) {
            Some(Reply::Accounts(Ok(x))) => Ok(&x),
            Some(Reply::Accounts(Err(e))) => Err(Stop::Fail(e)),
            _ => Err(Stop::Need(q)),
        }
    }

    /// The accounts that answer a question.
    #[verifier::when_used_as_spec(spec_accounts)]
    pub fn accounts(&self, q: Query) -> (r: Result<&Vec<AccountId>, Stop>)
        ensures
            r == self.accounts(q),
    {
        match self.find(q) {
            Some(Reply::Accounts(Ok(x))) => Ok(x),
            Some(Reply::Accounts(Err(e))) => Err(Stop::Fail(*e)),
            _ => Err(Stop::Need(q)),
        }
    }

    /// The receipt proofs that answer a question.
    pub open spec fn spec_proofs(&self, q: Query) -> Result<&Vec<ReceiptProof>, Stop> {
        match self.answer(q) {
            Some(Reply::Proofs(Ok(x))) => Ok(&x),
            Some(Reply::Proofs(Err(e))) => Err(Stop::Fail(e)),
            _ => Err(Stop::Need(q)),
        }
    }

    /// The receipt proofs that answer a question.
    #[verifier::when_used_as_spec(spec_proofs)]
    pub fn proofs(&self, q: Query) -> (r: Result<&Vec<ReceiptProof>, Stop>)
        ensures
            r == self.proofs(q),
    {
        match self.find(q) {
            Some(Reply::Proofs(Ok(x))) => Ok(x),
            Some(Reply::Proofs(Err(e))) => Err(Stop::Fail(*e)),
            _ => Err(Stop::Need(q)),
        }
    }

    /// The digests that answer a question.
    pub open spec fn spec_hashes(&self, q: Query) -> Result<&Vec<CryptoHash>, Stop> {
        match self.answer(q) {
            Some(Reply::Hashes(Ok(x))) => Ok(&x),
            Some(Reply::Hashes(Err(e))) => Err(Stop::Fail(e)),
            _ => Err(Stop::Need(q)),
        }
    }

    /// The digests that answer a question.
    #[verifier::when_used_as_spec(spec_hashes)]
    pub fn hashes(&self, q: Query) -> (r: Result<&Vec<CryptoHash>, Stop>)
        ensures
            r == self.hashes(q),
    {
        match self.find(q) {
            Some(Reply::Hashes(Ok(x))) => Ok(x),
            Some(Reply::Hashes(Err(e))) => Err(Stop::Fail(*e)),
            _ => Err(Stop::Need(q)),
        }
    }

    /// The state roots that answer a question.
    pub open spec fn spec_roots(&self, q: Query) -> Result<&Option<Vec<CryptoHash>>, Stop> {
        match self.answer(q) {
            Some(Reply::Roots(Ok(x))) => Ok(&x),
            Some(Reply::Roots(Err(e))) => Err(Stop::Fail(e)),
            _ => Err(Stop::Need(q)),
        }
    }

    /// The state roots that answer a question.
    #[verifier::when_used_as_spec(spec_roots)]
    pub fn roots(&self, q: Query) -> (r: Result<&Option<Vec<CryptoHash>>, Stop>)
        ensures
            r == self.roots(q),
    {
        match self.find(q) {
            Some(Reply::Roots(Ok(x))) => Ok(x),
            Some(Reply::Roots(Err(e))) => Err(Stop::Fail(*e)),
            _ => Err(Stop::Need(q)),
        }
    }

    /// The chunk extra that answers a question.
    pub open spec fn spec_extra(&self, q: Query) -> Result<&Arc<ChunkExtra>, Stop> {
        match self.answer(q) {
            Some(Reply::Extra(Ok(x))) => Ok(&x),
            Some(Reply::Extra(Err(e))) => Err(Stop::Fail(e)),
            _ => Err(Stop::Need(q)),
        }
    }

    /// The chunk extra that answers a question.
    #[verifier::when_used_as_spec(spec_extra)]
    pub fn extra(&self, q: Query) -> (r: Result<&Arc<ChunkExtra>, Stop>)
        ensures
            r == self.extra(q),
    {
        match self.find(q) {
            Some(Reply::Extra(Ok(x))) => Ok(x),
            Some(Reply::Extra(Err(e))) => Err(Stop::Fail(*e)),
            _ => Err(Stop::Need(q)),
        }
    }

    /// The transactions that answer a question.
    pub open spec fn spec_transactions(&self, q: Query) -> Result<&Vec<SignedTransaction>, Stop> {
        match self.answer(q) {
            Some(Reply::Transactions(Ok(x))) => Ok(&x),
            Some(Reply::Transactions(Err(e))) => Err(Stop::Fail(e)),
            _ => Err(Stop::Need(q)),
        }
    }

    /// The transactions that answer a question.
    #[verifier::when_used_as_spec(spec_transactions)]
    pub fn transactions(&self, q: Query) -> (r: Result<&Vec<SignedTransaction>, Stop>)
        ensures
            r == self.transactions(q),
    {
        match self.find(q) {
            Some(Reply::Transactions(Ok(x))) => Ok(x),
            Some(Reply::Transactions(Err(e))) => Err(Stop::Fail(*e)),
            _ => Err(Stop::Need(q)),
        }
    }

    /// The flags that answer a question.
    pub open spec fn spec_flags(&self, q: Query) -> Result<&Vec<bool>, Stop> {
        match self.answer(q) {
            Some(Reply::Flags(Ok(x))) => Ok(&x),
            Some(Reply::Flags(Err(e))) => Err(Stop::Fail(e)),
            _ => Err(Stop::Need(q)),
        }
    }

    /// The flags that answer a question.
    #[verifier::when_used_as_spec(spec_flags)]
    pub fn flags(&self, q: Query) -> (r: Result<&Vec<bool>, Stop>)
        ensures
            r == self.flags(q),
    {
        match self.find(q) {
            Some(Reply::Flags(Ok(x))) => Ok(x),
            Some(Reply::Flags(Err(e))) => Err(Stop::Fail(*e)),
            _ => Err(Stop::Need(q)),
        }
    }

    /// The stored state transition that answers a question.
    pub open spec fn spec_stored_transition(&self, q: Query) -> Result<
        &Option<StoredTransition>,
        Stop,
    > {
        match self.answer(q) {
            Some(Reply::StoredTransition(Ok(x))) => Ok(&x),
            Some(Reply::StoredTransition(Err(e))) => Err(Stop::Fail(e)),
            _ => Err(Stop::Need(q)),
        }
    }

    /// The stored state transition that answers a question.
    #[verifier::when_used_as_spec(spec_stored_transition)]
    pub fn stored_transition(&self, q: Query) -> (r: Result<&Option<StoredTransition>, Stop>)
        ensures
            r == self.stored_transition(q),
    {
        match self.find(q) {
            Some(Reply::StoredTransition(Ok(x))) => Ok(x),
            Some(Reply::StoredTransition(Err(e))) => Err(Stop::Fail(*e)),
            _ => Err(Stop::Need(q)),
        }
    }

    /// The flag that answers a question.
    pub open spec fn spec_flag(&self, q: Query) -> Result<bool, Stop> {
        match self.answer(q) {
            Some(Reply::Flag(Ok(x))) => Ok(x),
            Some(Reply::Flag(Err(e))) => Err(Stop::Fail(e)),
            _ => Err(Stop::Need(q)),
        }
    }

    /// The flag that answers a question.
    #[verifier::when_used_as_spec(spec_flag)]
    pub fn flag(&self, q: Query) -> (r: Result<bool, Stop>)
        ensures
            r == self.flag(q),
    {
        match self.find(q) {
            Some(Reply::Flag(Ok(x))) => Ok(*x),
            Some(Reply::Flag(Err(e))) => Err(Stop::Fail(*e)),
            _ => Err(Stop::Need(q)),
        }
    }

    /// The number that answers a question.
    pub open spec fn spec_number(&self, q: Query) -> Result<u64, Stop> {
        match self.answer(q) {
            Some(Reply::Number(Ok(x))) => Ok(x),
            Some(Reply::Number(Err(e))) => Err(Stop::Fail(e)),
            _ => Err(Stop::Need(q)),
        }
    }

    /// The number that answers a question.
    #[verifier::when_used_as_spec(spec_number)]
    pub fn number(&self, q: Query) -> (r: Result<u64, Stop>)
        ensures
            r == self.number(q),
    {
        match self.find(q) {
            Some(Reply::Number(Ok(x))) => Ok(*x),
            Some(Reply::Number(Err(e))) => Err(Stop::Fail(*e)),
            _ => Err(Stop::Need(q)),
        }
    }

    /// The protocol version that answers a question.
    pub open spec fn spec_version(&self, q: Query) -> Result<u32, Stop> {
        match self.answer(q) {
            Some(Reply::Version(Ok(x))) => Ok(x),
            Some(Reply::Version(Err(e))) => Err(Stop::Fail(e)),
            _ => Err(Stop::Need(q)),
        }
    }

    /// The protocol version that answers a question.
    #[verifier::when_used_as_spec(spec_version)]
    pub fn version(&self, q: Query) -> (r: Result<u32, Stop>)
        ensures
            r == self.version(q),
    {
        match self.find(q) {
            Some(Reply::Version(Ok(x))) => Ok(*x),
            Some(Reply::Version(Err(e))) => Err(Stop::Fail(*e)),
            _ => Err(Stop::Need(q)),
        }
    }

    /// The digest that answers a question.
    pub open spec fn spec_digest(&self, q: Query) -> Result<CryptoHash, Stop> {
        match self.answer(q) {
            Some(Reply::Hash(Ok(x))) => Ok(x),
            Some(Reply::Hash(Err(e))) => Err(Stop::Fail(e)),
            _ => Err(Stop::Need(q)),
        }
    }

    /// The digest that answers a question.
    #[verifier::when_used_as_spec(spec_digest)]
    pub fn digest(&self, q: Query) -> (r: Result<CryptoHash, Stop>)
        ensures
            r == self.digest(q),
    {
        match self.find(q) {
            Some(Reply::Hash(Ok(x))) => Ok(*x),
            Some(Reply::Hash(Err(e))) => Err(Stop::Fail(*e)),
            _ => Err(Stop::Need(q)),
        }
    }

    /// The shard that answers a question.
    pub open spec fn spec_uid(&self, q: Query) -> Result<ShardUId, Stop> {
        match self.answer(q) {
            Some(Reply::Uid(Ok(x))) => Ok(x),
            Some(Reply::Uid(Err(e))) => Err(Stop::Fail(e)),
            _ => Err(Stop::Need(q)),
        }
    }

    /// The shard that answers a question.
    #[verifier::when_used_as_spec(spec_uid)]
    pub fn uid(&self, q: Query) -> (r: Result<ShardUId, Stop>)
        ensures
            r == self.uid(q),
    {
        match self.find(q) {
            Some(Reply::Uid(Ok(x))) => Ok(*x),
            Some(Reply::Uid(Err(e))) => Err(Stop::Fail(*e)),
            _ => Err(Stop::Need(q)),
        }
    }

    /// The block header that answers a question.
    pub open spec fn spec_header(&self, q: Query) -> Result<BlockHeader, Stop> {
        match self.answer(q) {
            Some(Reply::Header(Ok(x))) => Ok(x),
            Some(Reply::Header(Err(e))) => Err(Stop::Fail(e)),
            _ => Err(Stop::Need(q)),
        }
    }

    /// The block header that answers a question.
    #[verifier::when_used_as_spec(spec_header)]
    pub fn header(&self, q: Query) -> (r: Result<BlockHeader, Stop>)
        ensures
            r == self.header(q),
    {
        match self.find(q) {
            Some(Reply::Header(Ok(x))) => Ok(*x),
            Some(Reply::Header(Err(e))) => Err(Stop::Fail(*e)),
            _ => Err(Stop::Need(q)),
        }
    }

    /// The resharding transition that answers a question.
    pub open spec fn spec_transition(&self, q: Query) -> Result<Option<u64>, Stop> {
        match self.answer(q) {
            Some(Reply::Transition(Ok(x))) => Ok(x),
            Some(Reply::Transition(Err(e))) => Err(Stop::Fail(e)),
            _ => Err(Stop::Need(q)),
        }
    }

    /// The resharding transition that answers a question.
    #[verifier::when_used_as_spec(spec_transition)]
    pub fn transition(&self, q: Query) -> (r: Result<Option<u64>, Stop>)
        ensures
            r == self.transition(q),
    {
        match self.find(q) {
            Some(Reply::Transition(Ok(x))) => Ok(*x),
            Some(Reply::Transition(Err(e))) => Err(Stop::Fail(*e)),
            _ => Err(Stop::Need(q)),
        }
    }

    /// How a list is shuffled under a salt.
    pub open spec fn spec_shuffle(&self, salt: CryptoHash, len: usize) -> Result<
        &Vec<usize>,
        Stop,
    > {
        let q = Query::Shuffle { salt, len };
        match self.answer(q) {
            Some(Reply::Order(order)) => Ok(&order),
            _ => Err(Stop::Need(q)),
        }
    }

    /// How a list is shuffled under a salt.
    #[verifier::when_used_as_spec(spec_shuffle)]
    pub fn shuffle(&self, salt: CryptoHash, len: usize) -> (r: Result<&Vec<usize>, Stop>)
        ensures
            r == self.shuffle(salt, len),
            r matches Ok(order) ==> spec_is_shuffle(order@, len as int),
    {
        proof {
            use_type_invariant(self);
            lemma_answer_fits(self.answers@, Query::Shuffle { salt, len });
        }
        match self.find(Query::Shuffle { salt, len }) {
            Some(Reply::Order(order)) => Ok(order),
            _ => Err(Stop::Need(Query::Shuffle { salt, len })),
        }
    }

    /// Every answer is of the kind that its question asks for. A view that is
    /// made by learning answers is always so.
    pub open spec fn consistent(&self) -> bool {
        forall|q: Query| (#[trigger] self.answer(q)) matches Some(reply) ==> fits(q, &reply)
    }

    /// Everything that this view knows, the other knows too.
    pub open spec fn extends_to(&self, other: &ChainView) -> bool {
        forall|q: Query| (#[trigger] self.answer(q)) is Some ==> other.answer(q) == self.answer(q)
    }
}

} // verus!
