//! What a node knows of the execution of blocks, and what it makes of it.
use std::collections::HashMap;
use std::sync::Arc;
use vstd::prelude::*;
use crate::block::{AccountId, Block, BlockHeader, ChunkExtra, ShardChunkHeader};
use crate::by_hash::ByHash;
use crate::error::Error;
use crate::hash::{ChunkHash, CryptoHash, EpochId};
use crate::messages::{
    EndorsementRequest, EndorsementRequestView, ExecutorAllExecutionResultsAvailable,
};
use crate::statements::{ChunkEndorsement, ExecutionResult};
use crate::validation::{pre_validate_chunk_state_witness, pre_validation};
use crate::view::{or_fail, seen, Assumption, ChainView, Query, Stop};
use crate::witness::{ChunkStateWitness, PreValidationOutput, PreValidationOutputView};

verus! {

/// The execution results that a node knows of, by block and chunk. Blocks are
/// found by the second half of their hash, and then among those that share it.
pub struct CoreStatementsTracker {
    block_execution_results: HashMap<u128, ByHash<ByHash<ExecutionResult>>>,
}

/// Every result stands under its own block and chunk.
spec fn keyed(results: Map<u128, ByHash<ByHash<ExecutionResult>>>) -> bool {
    forall|k: u128, b: CryptoHash, c: CryptoHash|
        #![trigger results[k]@[b]@[c]]
        results.contains_key(k) && results[k]@.contains_key(b) && results[k]@[b]@.contains_key(c)
            ==> results[k]@[b]@[c].block_hash == b && results[k]@[b]@[c].chunk_hash == ChunkHash(c)
}

impl View for CoreStatementsTracker {
    type V = Map<CryptoHash, Map<CryptoHash, ExecutionResult>>;

    /// The results of each block of which one is known, by chunk hash.
    open spec fn view(&self) -> Map<CryptoHash, Map<CryptoHash, ExecutionResult>> {
        Map::new(
            |b: CryptoHash| self.results(b) is Some,
            |b: CryptoHash| self.results(b)->0@,
        )
    }
}

impl CoreStatementsTracker {
    #[verifier::type_invariant]
    spec fn well_formed(&self) -> bool {
        keyed(self.block_execution_results@)
    }

    /// The table of the results of a block, if one is known.
    pub closed spec fn results(&self, block_hash: CryptoHash) -> Option<&ByHash<ExecutionResult>> {
        let all = self.block_execution_results@;
        if all.contains_key(block_hash.lo) && all[block_hash.lo]@.contains_key(block_hash) {
            Some(&all[block_hash.lo]@[block_hash])
        } else {
            None
        }
    }

    /// A tracker that knows of no result.
    pub fn new() -> (r: Self)
        ensures
            r@ == Map::<CryptoHash, Map<CryptoHash, ExecutionResult>>::empty(),
    {
        let r = CoreStatementsTracker { block_execution_results: HashMap::new() };
        assert(r@ =~= Map::<CryptoHash, Map<CryptoHash, ExecutionResult>>::empty());
        r
    }

    /// Adds a result, in place of the one that its chunk had in its block.
    pub fn record_execution_result(&mut self, execution_result: ExecutionResult)
        ensures
            final(self)@ == recorded(old(self)@, execution_result),
            forall|b: CryptoHash|
                b != execution_result.block_hash ==> #[trigger] final(self).results(b) == old(
                    self,
                ).results(b),
    {
        proof {
            use_type_invariant(&*self);
        }
        let ghost before = self.block_execution_results@;
        let block_hash: CryptoHash = execution_result.block_hash;
        let chunk_hash: CryptoHash = execution_result.chunk_hash.0;
        let mut all: HashMap<u128, ByHash<ByHash<ExecutionResult>>> = HashMap::new();
        std::mem::swap(&mut all, &mut self.block_execution_results);
        let mut blocks: ByHash<ByHash<ExecutionResult>> = match all.remove(&block_hash.lo) {
            Some(blocks) => blocks,
            None => ByHash::new(),
        };
        let mut results: ByHash<ExecutionResult> = match blocks.take(block_hash) {
            Some(results) => results,
            None => ByHash::new(),
        };
        results.insert(chunk_hash, execution_result);
        blocks.insert(block_hash, results);
        all.insert(block_hash.lo, blocks);
        proof {
            assert forall|k: u128, b: CryptoHash, c: CryptoHash|
                #![trigger all@[k]@[b]@[c]]
                all@.contains_key(k) && all@[k]@.contains_key(b) && all@[k]@[b]@.contains_key(
                    c,
                ) implies all@[k]@[b]@[c].block_hash == b && all@[k]@[b]@[c].chunk_hash
                == ChunkHash(c) by {
                if k != block_hash.lo {
                    assert(before.contains_key(k) && all@[k] == before[k]);
                    assert(before[k]@[b]@[c].block_hash == b);
                } else if b != block_hash {
                    assert(before.contains_key(k) && before[k]@.contains_key(b));
                    assert(before[k]@[b]@[c].block_hash == b);
                } else if c != chunk_hash {
                    assert(before.contains_key(k) && before[k]@.contains_key(b));
                    assert(before[k]@[b]@[c].block_hash == b);
                }
            }
        }
        self.block_execution_results = all;
        assert(self@ =~= recorded(old(self)@, execution_result));
    }

    /// What [`CoreStatementsTracker::get_execution_results`] returns.
    pub open spec fn known_results(&self, block_hash: CryptoHash) -> Result<
        &ByHash<ExecutionResult>,
        Error,
    > {
        match self.results(block_hash) {
            Some(results) => Ok(results),
            None => Err(Error::NoExecutionResults(block_hash)),
        }
    }

    /// The results of a block, by chunk hash.
    pub fn get_execution_results(&self, block_hash: CryptoHash) -> (r: Result<
        &ByHash<ExecutionResult>,
        Error,
    >)
        ensures
            r == self.known_results(block_hash),
            match r {
                Ok(results) => self@.contains_key(block_hash) && results@ == self@[block_hash],
                Err(_) => !self@.contains_key(block_hash),
            },
            r matches Ok(results) ==> forall|c: CryptoHash| #[trigger]
                results@.contains_key(c) ==> results@[c].block_hash == block_hash
                    && results@[c].chunk_hash == ChunkHash(c),
    {
        proof {
            use_type_invariant(self);
        }
        let blocks: &ByHash<ByHash<ExecutionResult>> =
            match self.block_execution_results.get(&block_hash.lo) {
            Some(blocks) => blocks,
            None => {
                return Err(Error::NoExecutionResults(block_hash));
            },
        };
        match blocks.get(block_hash) {
            Some(results) => {
                proof {
                    let all = self.block_execution_results@;
                    assert forall|c: CryptoHash| #[trigger] results@.contains_key(c) implies
                        results@[c].block_hash == block_hash && results@[c].chunk_hash == ChunkHash(
                        c,
                    ) by {
                        assert(all[block_hash.lo]@[block_hash]@[c] == results@[c]);
                    }
                }
                Ok(results)
            },
            None => Err(Error::NoExecutionResults(block_hash)),
        }
    }
}

/// What is known of the execution of blocks once a result was added.
pub open spec fn recorded(
    known: Map<CryptoHash, Map<CryptoHash, ExecutionResult>>,
    result: ExecutionResult,
) -> Map<CryptoHash, Map<CryptoHash, ExecutionResult>> {
    let of_block = if known.contains_key(result.block_hash) {
        known[result.block_hash]
    } else {
        Map::empty()
    };
    known.insert(result.block_hash, of_block.insert(result.chunk_hash.0, result))
}

/// Every chunk of a block has a result.
pub open spec fn all_executed(block: &Block, results: Map<CryptoHash, ExecutionResult>) -> bool {
    forall|i: int|
        0 <= i < block.chunks@.len() ==> results.contains_key(
            (#[trigger] block.chunks@[i]).chunk_hash.0,
        )
}

/// What executing the chunk of a witness came to.
pub struct AppliedWitness {
    pub chunk_extra: Arc<ChunkExtra>,
    pub outgoing_receipts_root: CryptoHash,
}

/// A witness that was found to be right, and what its execution came to.
pub struct ValidatedWitness<'a> {
    pub chunk_header: &'a ShardChunkHeader,
    pub chunk_extra: Arc<ChunkExtra>,
    pub outgoing_receipts_root: CryptoHash,
}

/// How far the validation of a witness came.
pub enum Validation<'a> {
    /// The witness passed the checks; next it has to be executed.
    Apply(PreValidationOutput<'a>),
    /// The witness is right.
    Valid(ValidatedWitness<'a>),
}

/// [`Validation`] as it stands in specifications.
pub enum ValidationView<'a> {
    Apply(PreValidationOutputView<'a>),
    Valid(ValidatedWitness<'a>),
}

impl<'a> View for Validation<'a> {
    type V = ValidationView<'a>;

    open spec fn view(&self) -> ValidationView<'a> {
        match *self {
            Validation::Apply(output) => ValidationView::Apply(output@),
            Validation::Valid(validated) => ValidationView::Valid(validated),
        }
    }
}

/// How far the endorsement of a witness came.
pub enum Endorsing<'a> {
    /// The witness passed the checks; next it has to be executed.
    Apply(PreValidationOutput<'a>),
    /// The witness is right and is to be endorsed.
    Send(EndorsementRequest<'a>),
}

/// [`Endorsing`] as it stands in specifications.
pub enum EndorsingView<'a> {
    Apply(PreValidationOutputView<'a>),
    Send(EndorsementRequestView<'a>),
}

impl<'a> View for Endorsing<'a> {
    type V = EndorsingView<'a>;

    open spec fn view(&self) -> EndorsingView<'a> {
        match *self {
            Endorsing::Apply(output) => EndorsingView::Apply(output@),
            Endorsing::Send(request) => EndorsingView::Send(request@),
        }
    }
}

/// Keeps the execution results that the node knows of, and decides what they
/// allow.
pub struct CoreStatementsProcessor(CoreStatementsTracker);

impl CoreStatementsProcessor {
    /// What the node knows of.
    pub closed spec fn statements(&self) -> CoreStatementsTracker {
        self.0
    }

    /// A processor that knows of no result.
    pub fn new() -> (r: Self)
        ensures
            r.statements()@ == Map::<CryptoHash, Map<CryptoHash, ExecutionResult>>::empty(),
    {
        CoreStatementsProcessor(CoreStatementsTracker::new())
    }

    /// What the node knows of, to be added to.
    pub fn write(&mut self) -> (r: &mut CoreStatementsTracker)
        ensures
            *r == old(self).statements(),
            final(self).statements() == *final(r),
    {
        &mut self.0
    }

    /// What the node knows of.
    pub fn read(&self) -> (r: &CoreStatementsTracker)
        ensures
            *r == self.statements(),
    {
        &self.0
    }

    /// Adds what an endorsement says of an execution. Whether the endorsement
    /// is valid is for the chain to say.
    pub fn process_chunk_endorsement(
        &mut self,
        endorsement: ChunkEndorsement,
        validity: Result<bool, Error>,
    ) -> (r: Result<ExecutorAllExecutionResultsAvailable, Error>)
        ensures
            match (validity, endorsement) {
                (Err(e), _) => r == Err::<ExecutorAllExecutionResultsAvailable, Error>(e),
                (Ok(false), _) => r == Err::<ExecutorAllExecutionResultsAvailable, Error>(
                    Error::InvalidEndorsement,
                ),
                (Ok(true), ChunkEndorsement::V3(result)) => r == Ok::<
                    ExecutorAllExecutionResultsAvailable,
                    Error,
                >(ExecutorAllExecutionResultsAvailable { block_hash: result.block_hash })
                    && final(self).statements()@ == recorded(old(self).statements()@, result),
                (Ok(true), _) => r == Err::<ExecutorAllExecutionResultsAvailable, Error>(
                    Error::NonSpiceEndorsement,
                ),
            },
            r is Err ==> *final(self) == *old(self),
            r matches Ok(message) ==> forall|b: CryptoHash|
                b != message.block_hash ==> #[trigger] final(self).statements().results(b) == old(
                    self,
                ).statements().results(b),
    {
        match validity {
            Err(e) => {
                return Err(e);
            },
            Ok(valid) => {
                if !valid {
                    return Err(Error::InvalidEndorsement);
                }
            },
        }
        match endorsement {
            ChunkEndorsement::V3(result) => Ok(self.record_execution_result(result)),
            _ => Err(Error::NonSpiceEndorsement),
        }
    }

    /// Adds a result, and says what to tell the executor.
    pub fn record_execution_result(&mut self, execution_result: ExecutionResult) -> (r:
        ExecutorAllExecutionResultsAvailable)
        ensures
            r.block_hash == execution_result.block_hash,
            final(self).statements()@ == recorded(old(self).statements()@, execution_result),
            forall|b: CryptoHash|
                b != execution_result.block_hash ==> #[trigger] final(self).statements().results(b)
                    == old(self).statements().results(b),
    {
        let block_hash: CryptoHash = execution_result.block_hash;
        self.0.record_execution_result(execution_result);
        ExecutorAllExecutionResultsAvailable { block_hash }
    }

    /// What [`CoreStatementsProcessor::do_all_execution_results_exist`] returns.
    pub open spec fn results_exist(&self, block_hash: CryptoHash, view: &ChainView) -> Result<
        bool,
        Stop,
    > {
        match view.block(Query::Block(block_hash)) {
            Err(stop) => Err(stop),
            Ok(block) => if block.header.is_genesis() {
                Ok(true)
            } else {
                match self.statements().known_results(block_hash) {
                    Err(e) => Err(Stop::Fail(e)),
                    Ok(results) => if !all_executed(block, results@) {
                        Ok(false)
                    } else if results@.dom().len() != block.chunks@.len() {
                        Err(Stop::Broken(Assumption::NoSurplusResults))
                    } else {
                        Ok(true)
                    },
                }
            },
        }
    }

    /// Whether the results of all chunks of a block are known. Genesis needs none.
    pub fn do_all_execution_results_exist(&self, block_hash: CryptoHash, view: &ChainView) -> (r:
        Result<bool, Stop>)
        ensures
            r == self.results_exist(block_hash, view),
    {
        let block: &Block = view.block(Query::Block(block_hash))?;
        if block.header.is_genesis() {
            return Ok(true);
        }
        let results: &ByHash<ExecutionResult> = or_fail(
            self.read().get_execution_results(block_hash),
        )?;
        let mut i: usize = 0;
        while i < block.chunks.len()
            invariant
                i <= block.chunks.len(),
                forall|j: int|
                    0 <= j < i ==> results@.contains_key(
                        (#[trigger] block.chunks@[j]).chunk_hash.0,
                    ),
                view.block(Query::Block(block_hash)) == Ok::<&Block, Stop>(block),
                !block.header.is_genesis(),
                self.statements().known_results(block_hash) == Ok::<
                    &ByHash<ExecutionResult>,
                    Error,
                >(results),
            decreases block.chunks.len() - i,
        {
            if results.get(block.chunks[i].chunk_hash.0).is_none() {
                return Ok(false);
            }
            i = i + 1;
        }
        if results.len() != block.chunks.len() {
            return Err(Stop::Broken(Assumption::NoSurplusResults));
        }
        Ok(true)
    }

    /// The results that the chunks after a block build on; after genesis they
    /// build on none.
    pub open spec fn results_before<'a>(
        &'a self,
        prev_hash: CryptoHash,
        prev_block_header: BlockHeader,
    ) -> Result<Option<&'a ByHash<ExecutionResult>>, Error> {
        if prev_block_header.is_genesis() {
            Ok(None)
        } else {
            match self.statements().known_results(prev_hash) {
                Ok(results) => Ok(Some(results)),
                Err(e) => Err(e),
            }
        }
    }

    /// What has to be executed to check a witness, if it passes the checks that
    /// come before. Unless all chunks of the previous block have a result, be it
    /// that none has, the witness cannot be checked yet.
    pub open spec fn prepared<'a>(
        &'a self,
        witness: &'a ChunkStateWitness<'a>,
        view: &ChainView,
    ) -> Result<PreValidationOutputView<'a>, Stop> {
        match view.block(Query::Block(witness.main_state_transition.block_hash)) {
            Err(stop) => Err(stop),
            Ok(block) => {
                let prev_hash = block.header.prev_hash;
                match view.header(Query::BlockHeader(prev_hash)) {
                    Err(stop) => Err(stop),
                    Ok(prev_block_header) => match self.results_before(
                        prev_hash,
                        prev_block_header,
                    ) {
                        Err(_) => Err(
                            Stop::Fail(Error::MissingPreviousExecutionResults(prev_hash)),
                        ),
                        Ok(prev_execution_results) => match self.results_exist(prev_hash, view) {
                            Err(stop) => Err(stop),
                            Ok(false) => Err(
                                Stop::Fail(Error::MissingPreviousExecutionResults(prev_hash)),
                            ),
                            Ok(true) => pre_validation(
                                witness,
                                block,
                                prev_execution_results,
                                view,
                            ),
                        },
                    },
                }
            },
        }
    }

    /// Checks a witness and lays out what has to be executed.
    fn prepare<'a>(&'a self, witness: &'a ChunkStateWitness<'a>, view: &'a ChainView) -> (r: Result<
        PreValidationOutput<'a>,
        Stop,
    >)
        ensures
            seen(r) == self.prepared(witness, view),
    {
        let block: &Block = view.block(Query::Block(witness.main_state_transition.block_hash))?;
        let prev_hash: CryptoHash = block.header.prev_hash;
        let prev_block_header: BlockHeader = view.header(Query::BlockHeader(prev_hash))?;
        let prev_execution_results: Option<&'a ByHash<ExecutionResult>> =
            if prev_block_header.is_genesis() {
            None
        } else {
            match self.read().get_execution_results(prev_hash) {
                Ok(results) => Some(results),
                Err(_) => {
                    return Err(Stop::Fail(Error::MissingPreviousExecutionResults(prev_hash)));
                },
            }
        };
        if !self.do_all_execution_results_exist(prev_hash, view)? {
            return Err(Stop::Fail(Error::MissingPreviousExecutionResults(prev_hash)));
        }
        pre_validate_chunk_state_witness(witness, block, prev_execution_results, view)
    }

    /// What [`CoreStatementsProcessor::validate_state_witness`] returns.
    pub open spec fn validation<'a>(
        &'a self,
        witness: &'a ChunkStateWitness<'a>,
        view: &ChainView,
        applied: Option<Result<AppliedWitness, Error>>,
    ) -> Result<ValidationView<'a>, Stop> {
        match self.prepared(witness, view) {
            Err(stop) => Err(stop),
            Ok(output) => match applied {
                None => Ok(ValidationView::Apply(output)),
                Some(Err(e)) => Err(Stop::Fail(e)),
                Some(Ok(applied)) => Ok(
                    ValidationView::Valid(
                        ValidatedWitness {
                            chunk_header: witness.chunk_header,
                            chunk_extra: applied.chunk_extra,
                            outgoing_receipts_root: applied.outgoing_receipts_root,
                        },
                    ),
                ),
            },
        }
    }

    /// Validates a witness. Without an outcome of its execution, says what has
    /// to be executed; with one, says what it came to.
    pub fn validate_state_witness<'a>(
        &'a self,
        witness: &'a ChunkStateWitness<'a>,
        view: &'a ChainView,
        applied: Option<Result<AppliedWitness, Error>>,
    ) -> (r: Result<Validation<'a>, Stop>)
        ensures
            seen(r) == self.validation(witness, view, applied),
    {
        let output: PreValidationOutput<'a> = self.prepare(witness, view)?;
        match applied {
            None => Ok(Validation::Apply(output)),
            Some(Err(e)) => Err(Stop::Fail(e)),
            Some(Ok(applied)) => Ok(
                Validation::Valid(
                    ValidatedWitness {
                        chunk_header: witness.chunk_header,
                        chunk_extra: applied.chunk_extra,
                        outgoing_receipts_root: applied.outgoing_receipts_root,
                    },
                ),
            ),
        }
    }

    /// What [`CoreStatementsProcessor::validate_state_witness_and_send_endorsements`] returns.
    pub open spec fn endorsing<'a>(
        &'a self,
        witness: &'a ChunkStateWitness<'a>,
        view: &'a ChainView,
        applied: Option<Result<AppliedWitness, Error>>,
        validator_id: &AccountId,
    ) -> Result<EndorsingView<'a>, Stop> {
        match self.validation(witness, view, applied) {
            Err(stop) => Err(stop),
            Ok(ValidationView::Apply(output)) => Ok(EndorsingView::Apply(output)),
            Ok(ValidationView::Valid(validated)) => match endorsement_request(
                validated.chunk_header,
                ExecutionResult {
                    block_hash: witness.main_state_transition.block_hash,
                    chunk_hash: validated.chunk_header.chunk_hash,
                    shard_id: validated.chunk_header.shard_id,
                    chunk_extra: validated.chunk_extra,
                    outgoing_receipts_root: validated.outgoing_receipts_root,
                },
                validator_id,
                view,
            ) {
                Err(stop) => Err(stop),
                Ok(request) => Ok(EndorsingView::Send(request)),
            },
        }
    }

    /// Validates a witness and, where it is right, says whom to send an
    /// endorsement of what. Without an outcome of its execution, says what has
    /// to be executed.
    pub fn validate_state_witness_and_send_endorsements<'a>(
        &'a self,
        witness: &'a ChunkStateWitness<'a>,
        view: &'a ChainView,
        applied: Option<Result<AppliedWitness, Error>>,
        validator_id: &AccountId,
    ) -> (r: Result<Endorsing<'a>, Stop>)
        ensures
            seen(r) == self.endorsing(witness, view, applied, validator_id),
    {
        match self.validate_state_witness(witness, view, applied)? {
            Validation::Apply(output) => Ok(Endorsing::Apply(output)),
            Validation::Valid(validated) => {
                let request: EndorsementRequest<'a> = send_chunk_endorsement(
                    validated.chunk_header,
                    ExecutionResult {
                        block_hash: witness.main_state_transition.block_hash,
                        chunk_hash: validated.chunk_header.chunk_hash,
                        shard_id: validated.chunk_header.shard_id,
                        chunk_extra: validated.chunk_extra,
                        outgoing_receipts_root: validated.outgoing_receipts_root,
                    },
                    validator_id,
                    view,
                )?;
                Ok(Endorsing::Send(request))
            },
        }
    }
}

/// The accounts of a list but for one.
pub open spec fn others(accounts: Seq<AccountId>, one: &AccountId) -> Seq<AccountId> {
    accounts.filter(|account: AccountId| account.0@ != one.0@)
}

/// The accounts of a list but for one.
fn all_but<'a>(accounts: &'a Vec<AccountId>, one: &AccountId) -> (r: Vec<&'a AccountId>)
    ensures
        r@.unref() == others(accounts@, one),
{
    let mut r: Vec<&'a AccountId> = Vec::new();
    let mut i: usize = 0;
    proof {
        reveal(Seq::filter);
    }
    assert(r@.unref() =~= others(accounts@.take(0), one));
    while i < accounts.len()
        invariant
            i <= accounts.len(),
            r@.unref() == others(accounts@.take(i as int), one),
        decreases accounts.len() - i,
    {
        proof {
            reveal(Seq::filter);
        }
        assert(accounts@.take(i + 1).drop_last() =~= accounts@.take(i as int));
        let ghost before = r@;
        if !accounts[i].same(one) {
            r.push(&accounts[i]);
            assert(r@.unref() =~= before.unref().push(accounts@[i as int]));
        }
        i = i + 1;
    }
    assert(accounts@.take(i as int) =~= accounts@);
    r
}

/// What [`send_chunk_endorsement`] returns.
pub open spec fn endorsement_request<'a>(
    chunk_header: &'a ShardChunkHeader,
    execution_result: ExecutionResult,
    validator_id: &AccountId,
    view: &'a ChainView,
) -> Result<EndorsementRequestView<'a>, Stop> {
    match view.digest(Query::EpochIdFromPrevBlock(chunk_header.prev_block_hash)) {
        Err(Stop::Fail(e)) => Err(Stop::Broken(Assumption::EpochOfChunk(e))),
        Err(stop) => Err(stop),
        Ok(epoch_hash) => match view.accounts(Query::AllValidators(EpochId(epoch_hash))) {
            Err(stop) => Err(stop),
            Ok(validators) => Ok(
                EndorsementRequestView {
                    epoch_id: EpochId(epoch_hash),
                    chunk_header,
                    execution_result,
                    recipients: others(validators@, validator_id),
                },
            ),
        },
    }
}

/// Says whom to send an endorsement of an execution: all validators of the
/// epoch of the chunk but for the one who sends it.
pub fn send_chunk_endorsement<'a>(
    chunk_header: &'a ShardChunkHeader,
    execution_result: ExecutionResult,
    validator_id: &AccountId,
    view: &'a ChainView,
) -> (r: Result<EndorsementRequest<'a>, Stop>)
    ensures
        seen(r) == endorsement_request(chunk_header, execution_result, validator_id, view),
{
    let epoch_id: EpochId = match view.digest(
        Query::EpochIdFromPrevBlock(chunk_header.prev_block_hash),
    ) {
        Ok(epoch_hash) => EpochId(epoch_hash),
        Err(Stop::Fail(e)) => {
            return Err(Stop::Broken(Assumption::EpochOfChunk(e)));
        },
        Err(stop) => {
            return Err(stop);
        },
    };
    let validators: &'a Vec<AccountId> = view.accounts(Query::AllValidators(epoch_id))?;
    let recipients: Vec<&'a AccountId> = all_but(validators, validator_id);
    Ok(EndorsementRequest { epoch_id, chunk_header, execution_result, recipients })
}

} // verus!
