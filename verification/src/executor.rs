//! The executor of a node.
//!
//! It keeps the receipts that come in until a block can build on them, executes
//! the chunks that the node cares about, and checks the witnesses of others.
use vstd::prelude::*;
use crate::block::{AccountId, Block};
use crate::core_statements::{AppliedWitness, CoreStatementsProcessor, Endorsing, EndorsingView};
use crate::error::Error;
use crate::flow::Verdict;
use crate::hash::{ChunkHash, CryptoHash, EpochId};
use crate::incoming::{complete, is_complete, make_plan, plan, planned, IncomingReceipts};
use crate::jobs::{apply_chunks, chunk_jobs, jobs_view, UpdateShardJob, UpdateShardJobView};
use crate::messages::{EndorsementRequest, EndorsementRequestView, ExecutorIncomingReceipt};
use crate::receipts::ReceiptProof;
use crate::receipts_cache::{spec_key, without, BlockReceiptsCache};
use crate::view::{or_fail, seen, ChainView, Query, Stop};
use crate::witness::{ChunkStateWitness, PreValidationOutput, PreValidationOutputView};

verus! {

/// How many witnesses are kept that cannot be checked yet.
pub const ORPHAN_WITNESS_POOL_SIZE: usize = 1000;

/// What is to be saved of the receipts held for a block.
pub open spec fn saving(
    held: Option<Seq<ReceiptProof>>,
    block_hash: CryptoHash,
    view: &ChainView,
) -> Result<Option<Seq<(u64, Seq<ReceiptProof>)>>, Stop> {
    match complete(held, block_hash, view) {
        Err(stop) => Err(stop),
        Ok(false) => Ok(None),
        Ok(true) => match plan(held->0, block_hash, view) {
            Err(stop) => Err(stop),
            Ok(groups) => Ok(Some(planned(held->0, groups))),
        },
    }
}

/// Whether the receipts were saved for all shards, from a place in the list of
/// shards on, that the node cares about.
pub open spec fn receipts_saved(
    shard_ids: Seq<u64>,
    i: int,
    block_hash: CryptoHash,
    prev_block_hash: CryptoHash,
    view: &ChainView,
) -> Result<bool, Stop>
    decreases shard_ids.len() - i,
{
    if i < 0 || i >= shard_ids.len() {
        Ok(true)
    } else {
        let shard_id = shard_ids[i];
        match view.flag(Query::CaresThisOrNextEpoch { block_hash, shard_id }) {
            Err(stop) => Err(stop),
            Ok(false) => receipts_saved(shard_ids, i + 1, block_hash, prev_block_hash, view),
            Ok(true) => match view.flag(
                Query::IncomingReceiptsExist { block_hash: prev_block_hash, shard_id },
            ) {
                Err(stop) => Err(stop),
                Ok(false) => Ok(false),
                Ok(true) => receipts_saved(shard_ids, i + 1, block_hash, prev_block_hash, view),
            },
        }
    }
}

/// Whether the receipts were saved for all shards that the node cares about.
fn are_receipts_saved(
    shard_ids: &Vec<u64>,
    block_hash: CryptoHash,
    prev_block_hash: CryptoHash,
    view: &ChainView,
) -> (r: Result<bool, Stop>)
    ensures
        r == receipts_saved(shard_ids@, 0, block_hash, prev_block_hash, view),
{
    let mut i: usize = 0;
    while i < shard_ids.len()
        invariant
            i <= shard_ids.len(),
            receipts_saved(shard_ids@, 0, block_hash, prev_block_hash, view) == receipts_saved(
                shard_ids@,
                i as int,
                block_hash,
                prev_block_hash,
                view,
            ),
        decreases shard_ids.len() - i,
    {
        let shard_id: u64 = shard_ids[i];
        if view.flag(Query::CaresThisOrNextEpoch { block_hash, shard_id })? {
            if !view.flag(Query::IncomingReceiptsExist { block_hash: prev_block_hash, shard_id })? {
                return Ok(false);
            }
        }
        i = i + 1;
    }
    Ok(true)
}

/// That a witness was received, to be told to the node that made it.
pub struct ChunkStateWitnessAck<'a> {
    pub chunk_producer: &'a AccountId,
    pub chunk_hash: ChunkHash,
}

/// A witness to be kept until it can be checked.
#[derive(Clone, Copy)]
pub struct OrphanStateWitness<'a> {
    pub witness: &'a ChunkStateWitness<'a>,
    pub witness_size: usize,
}

/// What to do next about a witness.
pub enum WitnessStep<'a> {
    /// It passed the checks and has to be executed.
    Apply(PreValidationOutput<'a>),
    /// It is right and is to be endorsed.
    Endorse(EndorsementRequest<'a>),
    /// It cannot be checked yet and is to be kept.
    Keep(OrphanStateWitness<'a>),
}

/// [`WitnessStep`] as it stands in specifications.
pub enum WitnessStepView<'a> {
    Apply(PreValidationOutputView<'a>),
    Endorse(EndorsementRequestView<'a>),
    Keep(OrphanStateWitness<'a>),
}

impl<'a> View for WitnessStep<'a> {
    type V = WitnessStepView<'a>;

    open spec fn view(&self) -> WitnessStepView<'a> {
        match *self {
            WitnessStep::Apply(output) => WitnessStepView::Apply(output@),
            WitnessStep::Endorse(request) => WitnessStepView::Endorse(request@),
            WitnessStep::Keep(orphan) => WitnessStepView::Keep(orphan),
        }
    }
}

/// What [`verdict`] returns.
pub open spec fn spec_verdict(step: Result<WitnessStepView, Stop>) -> Option<Verdict> {
    match step {
        Ok(WitnessStepView::Endorse(_)) => Some(Verdict::Valid),
        Ok(WitnessStepView::Keep(_)) => Some(Verdict::Early),
        Err(Stop::Fail(e)) => Some(Verdict::Refused(e)),
        _ => None,
    }
}

/// What the check of a witness came to, unless it has to go on: the witness has
/// to be executed, an answer is missing or the node has to halt.
pub fn verdict(step: &Result<WitnessStep, Stop>) -> (r: Option<Verdict>)
    ensures
        r == spec_verdict(seen(*step)),
{
    match step {
        Ok(WitnessStep::Endorse(_)) => Some(Verdict::Valid),
        Ok(WitnessStep::Keep(_)) => Some(Verdict::Early),
        Ok(WitnessStep::Apply(_)) => None,
        Err(Stop::Fail(e)) => Some(Verdict::Refused(*e)),
        Err(_) => None,
    }
}

/// What to do next about a witness, by how far its endorsement came.
pub open spec fn witness_step<'a>(endorsing: EndorsingView<'a>) -> WitnessStepView<'a> {
    match endorsing {
        EndorsingView::Apply(output) => WitnessStepView::Apply(output),
        EndorsingView::Send(request) => WitnessStepView::Endorse(request),
    }
}

/// What to do next about a witness, by how far its endorsement came.
fn to_witness_step<'a>(endorsing: Endorsing<'a>) -> (r: WitnessStep<'a>)
    ensures
        r@ == witness_step(endorsing@),
{
    match endorsing {
        Endorsing::Apply(output) => WitnessStep::Apply(output),
        Endorsing::Send(request) => WitnessStep::Endorse(request),
    }
}

/// The executor.
pub struct ChunkExecutorActor {
    block_receipts_cache: BlockReceiptsCache,
    core_processor: CoreStatementsProcessor,
}

impl ChunkExecutorActor {
    /// The receipts that are kept until they are complete.
    pub closed spec fn receipts(&self) -> BlockReceiptsCache {
        self.block_receipts_cache
    }

    /// What the node knows of the execution of blocks.
    pub closed spec fn processor(&self) -> CoreStatementsProcessor {
        self.core_processor
    }

    /// An executor that keeps the receipts of so many blocks at most.
    pub fn new(
        block_receipts_cache_capacity: usize,
        core_processor: CoreStatementsProcessor,
    ) -> (r: Self)
        requires
            block_receipts_cache_capacity > 0,
        ensures
            r.receipts().entries() == Seq::<((u128, u128), Seq<ReceiptProof>)>::empty(),
            r.receipts().capacity() == block_receipts_cache_capacity,
            r.processor() == core_processor,
    {
        ChunkExecutorActor {
            block_receipts_cache: BlockReceiptsCache::new(block_receipts_cache_capacity),
            core_processor,
        }
    }

    /// What the node knows of the execution of blocks.
    pub fn core_processor(&self) -> (r: &CoreStatementsProcessor)
        ensures
            *r == self.processor(),
    {
        &self.core_processor
    }

    /// What the node knows of the execution of blocks, to be added to.
    pub fn core_processor_mut(&mut self) -> (r: &mut CoreStatementsProcessor)
        ensures
            *r == old(self).processor(),
            final(self).processor() == *final(r),
            final(self).receipts() == old(self).receipts(),
    {
        &mut self.core_processor
    }

    /// Keeps receipts that were received.
    pub fn add_incoming_receipts(&mut self, message: ExecutorIncomingReceipt)
        ensures
            final(self).receipts().entries() == old(self).receipts().extended(
                message.block_hash,
                message.receipt_proofs@,
            ),
            final(self).receipts().capacity() == old(self).receipts().capacity(),
            final(self).processor() == old(self).processor(),
    {
        self.block_receipts_cache.add_receipts(message.block_hash, message.receipt_proofs);
    }

    /// Whether all receipts of a block were received that the node cares about.
    pub fn have_all_receipts(&mut self, block_hash: CryptoHash, view: &ChainView) -> (r: Result<
        bool,
        Stop,
    >)
        ensures
            r == complete(old(self).receipts().held(block_hash), block_hash, view),
            final(self).receipts().entries() == old(self).receipts().used(block_hash),
            final(self).receipts().capacity() == old(self).receipts().capacity(),
            final(self).processor() == old(self).processor(),
    {
        is_complete(self.block_receipts_cache.get(block_hash), block_hash, view)
    }

    /// Gives out the receipts of a block to be saved, once all were received
    /// that the node cares about.
    pub fn try_save_incoming_receipts(&mut self, block_hash: CryptoHash, view: &ChainView) -> (r:
        Result<Option<IncomingReceipts>, Stop>)
        ensures
            match r {
                Ok(Some(saved)) => saving(old(self).receipts().held(block_hash), block_hash, view)
                    == Ok::<Option<Seq<(u64, Seq<ReceiptProof>)>>, Stop>(Some(saved@)),
                Ok(None) => saving(old(self).receipts().held(block_hash), block_hash, view) == Ok::<
                    Option<Seq<(u64, Seq<ReceiptProof>)>>,
                    Stop,
                >(None),
                Err(stop) => saving(old(self).receipts().held(block_hash), block_hash, view)
                    == Err::<Option<Seq<(u64, Seq<ReceiptProof>)>>, Stop>(stop),
            },
            final(self).receipts().entries() == (if r matches Ok(Some(_)) {
                without(old(self).receipts().entries(), spec_key(block_hash))
            } else {
                old(self).receipts().used(block_hash)
            }),
            final(self).receipts().capacity() == old(self).receipts().capacity(),
            final(self).processor() == old(self).processor(),
    {
        if !self.have_all_receipts(block_hash, view)? {
            return Ok(None);
        }
        proof {
            BlockReceiptsCache::lemma_used(
                &old(self).receipts(),
                &self.receipts(),
                block_hash,
                block_hash,
            );
        }
        let ghost asked = self.receipts();
        let groups: Vec<(u64, Vec<usize>)> = match self.block_receipts_cache.get(block_hash) {
            Some(proofs) => match make_plan(proofs, block_hash, view) {
                Ok(groups) => groups,
                Err(stop) => {
                    return Err(stop);
                },
            },
            None => {
                return Ok(None);
            },
        };
        proof {
            BlockReceiptsCache::lemma_used(&asked, &self.receipts(), block_hash, block_hash);
        }
        match self.block_receipts_cache.pop(block_hash) {
            Some(proofs) => Ok(Some(IncomingReceipts::new(proofs, groups))),
            None => Ok(None),
        }
    }

    /// What [`ChunkExecutorActor::try_apply_chunks`] returns.
    pub open spec fn applying<'a>(&self, block_hash: CryptoHash, view: &'a ChainView) -> Result<
        Option<Seq<UpdateShardJobView<'a>>>,
        Stop,
    > {
        match view.digest(Query::EpochId(block_hash)) {
            Err(stop) => Err(stop),
            Ok(epoch_hash) => match view.block(Query::Block(block_hash)) {
                Err(stop) => Err(stop),
                Ok(block) => match view.shard_ids(Query::ShardIds(EpochId(epoch_hash))) {
                    Err(stop) => Err(stop),
                    Ok(shard_ids) => match receipts_saved(
                        shard_ids@,
                        0,
                        block_hash,
                        block.header.prev_hash,
                        view,
                    ) {
                        Err(stop) => Err(stop),
                        Ok(false) => Ok(None),
                        Ok(true) => match self.processor().results_exist(
                            block.header.prev_hash,
                            view,
                        ) {
                            Err(stop) => Err(stop),
                            Ok(false) => Ok(None),
                            Ok(true) => match chunk_jobs(block, view) {
                                Err(stop) => Err(stop),
                                Ok(jobs) => Ok(Some(jobs)),
                            },
                        },
                    },
                },
            },
        }
    }

    /// The work of executing the chunks of a block, once the receipts and the
    /// results of the previous block are there.
    pub fn try_apply_chunks<'a>(&self, block_hash: CryptoHash, view: &'a ChainView) -> (r: Result<
        Option<Vec<UpdateShardJob<'a>>>,
        Stop,
    >)
        ensures
            match r {
                Ok(Some(jobs)) => self.applying(block_hash, view) == Ok::<
                    Option<Seq<UpdateShardJobView<'a>>>,
                    Stop,
                >(Some(jobs_view(jobs@))),
                Ok(None) => self.applying(block_hash, view) == Ok::<
                    Option<Seq<UpdateShardJobView<'a>>>,
                    Stop,
                >(None),
                Err(stop) => self.applying(block_hash, view) == Err::<
                    Option<Seq<UpdateShardJobView<'a>>>,
                    Stop,
                >(stop),
            },
    {
        let epoch_id: EpochId = EpochId(view.digest(Query::EpochId(block_hash))?);
        let block: &'a Block = view.block(Query::Block(block_hash))?;
        let prev_block_hash: CryptoHash = block.header.prev_hash;
        let shard_ids: &Vec<u64> = view.shard_ids(Query::ShardIds(epoch_id))?;
        if !are_receipts_saved(shard_ids, block_hash, prev_block_hash, view)? {
            return Ok(None);
        }
        if !self.core_processor.do_all_execution_results_exist(prev_block_hash, view)? {
            return Ok(None);
        }
        let jobs: Vec<UpdateShardJob<'a>> = apply_chunks(block, view)?;
        Ok(Some(jobs))
    }

    /// The acknowledgement of a witness, unless the node made the witness itself.
    pub open spec fn acknowledgement<'a>(
        witness: &ChunkStateWitness<'a>,
        validator_id: &AccountId,
    ) -> Option<ChunkStateWitnessAck<'a>> {
        if validator_id.0@ == witness.chunk_producer.0@ {
            None
        } else {
            Some(
                ChunkStateWitnessAck {
                    chunk_producer: witness.chunk_producer,
                    chunk_hash: witness.chunk_header.chunk_hash,
                },
            )
        }
    }

    /// The acknowledgement of a witness, unless the node made the witness itself.
    pub fn send_state_witness_ack<'a>(
        witness: &ChunkStateWitness<'a>,
        validator_id: &AccountId,
    ) -> (r: Option<ChunkStateWitnessAck<'a>>)
        ensures
            r == Self::acknowledgement(witness, validator_id),
    {
        if validator_id.same(witness.chunk_producer) {
            return None;
        }
        Some(
            ChunkStateWitnessAck {
                chunk_producer: witness.chunk_producer,
                chunk_hash: witness.chunk_header.chunk_hash,
            },
        )
    }

    /// Has a witness kept until it can be checked.
    pub fn handle_orphan_state_witness<'a>(
        &self,
        witness: &'a ChunkStateWitness<'a>,
        witness_size: usize,
    ) -> (r: Result<OrphanStateWitness<'a>, Error>)
        ensures
            r == Ok::<OrphanStateWitness<'a>, Error>(OrphanStateWitness { witness, witness_size }),
    {
        Ok(OrphanStateWitness { witness, witness_size })
    }

    /// What [`ChunkExecutorActor::process_chunk_state_witness`] returns.
    pub open spec fn witness_processing<'a>(
        &'a self,
        witness: &'a ChunkStateWitness<'a>,
        raw_witness_size: usize,
        validator_id: &AccountId,
        view: &'a ChainView,
        applied: Option<Result<AppliedWitness, Error>>,
    ) -> Result<WitnessStepView<'a>, Stop> {
        match self.processor().endorsing(witness, view, applied, validator_id) {
            Ok(endorsing) => Ok(witness_step(endorsing)),
            Err(Stop::Fail(e)) => if e.is_not_found() {
                Ok(
                    WitnessStepView::Keep(
                        OrphanStateWitness { witness, witness_size: raw_witness_size },
                    ),
                )
            } else {
                Err(Stop::Fail(e))
            },
            Err(stop) => Err(stop),
        }
    }

    /// What to do next about a witness that was received. One for which a block
    /// or execution results are missing is to be kept.
    pub fn process_chunk_state_witness<'a>(
        &'a self,
        witness: &'a ChunkStateWitness<'a>,
        raw_witness_size: usize,
        validator_id: &AccountId,
        view: &'a ChainView,
        applied: Option<Result<AppliedWitness, Error>>,
    ) -> (r: Result<WitnessStep<'a>, Stop>)
        ensures
            seen(r) == self.witness_processing(
                witness,
                raw_witness_size,
                validator_id,
                view,
                applied,
            ),
    {
        match self.core_processor.validate_state_witness_and_send_endorsements(
            witness,
            view,
            applied,
            validator_id,
        ) {
            Ok(endorsing) => Ok(to_witness_step(endorsing)),
            Err(Stop::Fail(e)) => {
                if e.is_not_found() {
                    let orphan: OrphanStateWitness<'a> = or_fail(
                        self.handle_orphan_state_witness(witness, raw_witness_size),
                    )?;
                    Ok(WitnessStep::Keep(orphan))
                } else {
                    Err(Stop::Fail(e))
                }
            },
            Err(stop) => Err(stop),
        }
    }

    /// What [`ChunkExecutorActor::process_ready_orphan_state_witness`] returns.
    pub open spec fn orphan_processing<'a>(
        &'a self,
        witness: &'a ChunkStateWitness<'a>,
        new_block: &Block,
        validator_id: &AccountId,
        view: &'a ChainView,
        applied: Option<Result<AppliedWitness, Error>>,
    ) -> Result<WitnessStepView<'a>, Stop> {
        match self.processor().results_exist(new_block.header.prev_hash, view) {
            Err(stop) => Err(stop),
            Ok(false) => Ok(
                WitnessStepView::Keep(OrphanStateWitness { witness, witness_size: 0 }),
            ),
            Ok(true) => match self.processor().endorsing(witness, view, applied, validator_id) {
                Err(stop) => Err(stop),
                Ok(endorsing) => Ok(witness_step(endorsing)),
            },
        }
    }

    /// What to do next about a witness that was kept for the block before this
    /// one. Where some of the execution results are missing it is to be kept on;
    /// where none is on record at all, the failure to find them is handed on.
    pub fn process_ready_orphan_state_witness<'a>(
        &'a self,
        witness: &'a ChunkStateWitness<'a>,
        new_block: &Block,
        validator_id: &AccountId,
        view: &'a ChainView,
        applied: Option<Result<AppliedWitness, Error>>,
    ) -> (r: Result<WitnessStep<'a>, Stop>)
        ensures
            seen(r) == self.orphan_processing(witness, new_block, validator_id, view, applied),
    {
        if !self.core_processor.do_all_execution_results_exist(new_block.header.prev_hash, view)? {
            return Ok(WitnessStep::Keep(OrphanStateWitness { witness, witness_size: 0 }));
        }
        let endorsing: Endorsing<'a> =
            self.core_processor.validate_state_witness_and_send_endorsements(
            witness,
            view,
            applied,
            validator_id,
        )?;
        Ok(to_witness_step(endorsing))
    }
}

} // verus!
