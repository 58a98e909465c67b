//! What stands in specifications for what an operation hands out: part by part the
//! same.
use vstd::prelude::*;
use crate::core_statements::{Endorsing, EndorsingView, Validation, ValidationView};
use crate::executor::{WitnessStep, WitnessStepView};
use crate::jobs::{
    jobs_view, seen_job, ShardUpdateReason, ShardUpdateReasonView, UpdateShardJob,
};
use crate::messages::EndorsementRequest;
use crate::outcome::DistributeStateWitnessRequest;
use crate::view::Stop;
use crate::witness::{
    ChunkStateTransition, ChunkStateWitness, ContractUpdates, MainTransition, MainTransitionView,
    NewChunkData, PreValidationOutput,
};

verus! {

/// A list of references stands for the list of what they refer to.
pub open spec fn is_list_of<T>(shown: Seq<T>, references: Seq<&T>) -> bool {
    &&& shown.len() == references.len()
    &&& forall|i: int| 0 <= i < shown.len() ==> #[trigger] shown[i] == *references[i]
}

/// What is executed for a new chunk is shown part by part.
pub proof fn new_chunk_is_shown<'a>(data: NewChunkData<'a>)
    ensures
        data@.chunk_header == data.chunk_header,
        data@.transactions == data.transactions,
        data@.transaction_validity_check_results == data.transaction_validity_check_results@,
        is_list_of(data@.receipts, data.receipts@),
        data@.block == data.block,
        data@.storage_data_source == data.storage_data_source,
{
}

/// What is executed to check a witness is shown part by part.
pub proof fn laid_out_execution_is_shown<'a>(output: PreValidationOutput<'a>)
    ensures
        output@.implicit_transition_params == output.implicit_transition_params,
        match output.main_transition_params {
            MainTransition::Genesis { chunk_extra, block_hash, shard_id } => {
                output@.main_transition_params == MainTransitionView::Genesis {
                    chunk_extra,
                    block_hash,
                    shard_id,
                }
            },
            MainTransition::NewChunk(data) => output@.main_transition_params
                == MainTransitionView::NewChunk(data@),
        },
{
}

/// The work for a shard is shown part by part.
pub proof fn job_is_shown<'a>(job: UpdateShardJob<'a>)
    ensures
        job@.shard_id == job.shard_id,
        job@.cached_shard_update_key == job.cached_shard_update_key,
        job@.shard_context == job.shard_context,
        job@.takes_state_patch == job.takes_state_patch,
        match job.shard_update_reason {
            ShardUpdateReason::NewChunk(data) => job@.shard_update_reason
                == ShardUpdateReasonView::NewChunk(data@),
            ShardUpdateReason::OldChunk(data) => job@.shard_update_reason
                == ShardUpdateReasonView::OldChunk(data),
        },
{
}

/// The work for a block is shown job by job, in order, and where there is none, or it
/// cannot be laid out, that is shown.
pub proof fn jobs_are_shown<'a>(
    jobs: Seq<UpdateShardJob<'a>>,
    outcome: Result<Option<UpdateShardJob<'a>>, Stop>,
)
    ensures
        jobs_view(jobs).len() == jobs.len(),
        forall|i: int| 0 <= i < jobs.len() ==> #[trigger] jobs_view(jobs)[i] == jobs[i]@,
        match outcome {
            Ok(Some(job)) => seen_job(outcome) matches Ok(Some(shown)) && shown == job@,
            Ok(None) => seen_job(outcome) matches Ok(None),
            Err(stop) => seen_job(outcome) matches Err(shown) && shown == stop,
        },
{
}

/// How far the work on a witness came is shown, with what it came to.
pub proof fn progress_is_shown<'a>(
    validation: Validation<'a>,
    endorsing: Endorsing<'a>,
    step: WitnessStep<'a>,
)
    ensures
        match validation {
            Validation::Apply(output) => validation@ == ValidationView::Apply(output@),
            Validation::Valid(validated) => validation@ == ValidationView::Valid(validated),
        },
        match endorsing {
            Endorsing::Apply(output) => endorsing@ == EndorsingView::Apply(output@),
            Endorsing::Send(request) => endorsing@ == EndorsingView::Send(request@),
        },
        match step {
            WitnessStep::Apply(output) => step@ == WitnessStepView::Apply(output@),
            WitnessStep::Endorse(request) => step@ == WitnessStepView::Endorse(request@),
            WitnessStep::Keep(orphan) => step@ == WitnessStepView::Keep(orphan),
        },
{
}

/// An endorsement that is to be sent is shown part by part.
pub proof fn endorsement_is_shown<'a>(request: EndorsementRequest<'a>)
    ensures
        request@.epoch_id == request.epoch_id,
        request@.chunk_header == request.chunk_header,
        request@.execution_result == request.execution_result,
        is_list_of(request@.recipients, request.recipients@),
{
}

/// A transition is shown part by part.
pub proof fn transition_is_shown<'a>(transition: ChunkStateTransition<'a>)
    ensures
        transition@.block_hash == transition.block_hash,
        is_list_of(transition@.base_state, transition.base_state@),
        transition@.post_state_root == transition.post_state_root,
{
}

/// A witness is shown part by part.
pub proof fn witness_is_shown<'a>(witness: ChunkStateWitness<'a>)
    ensures
        witness@.chunk_producer == witness.chunk_producer,
        witness@.epoch_id == witness.epoch_id,
        witness@.chunk_header == witness.chunk_header,
        witness@.main_state_transition == witness.main_state_transition@,
        witness@.source_receipt_proofs == witness.source_receipt_proofs@,
        witness@.applied_receipts_hash == witness.applied_receipts_hash,
        witness@.transactions == witness.transactions,
        witness@.implicit_transitions.len() == witness.implicit_transitions@.len(),
        forall|i: int|
            0 <= i < witness.implicit_transitions@.len() ==> #[trigger]
            witness@.implicit_transitions[i] == witness.implicit_transitions@[i]@,
{
}

/// The contracts that an execution called are shown as the set of those listed, and
/// those that it deployed one by one.
pub proof fn contracts_are_shown<'a>(updates: ContractUpdates<'a>)
    ensures
        forall|digest| #[trigger]
            updates@.contract_accesses.contains(digest)
                <==> updates.contract_accesses@.contains(digest),
        is_list_of(updates@.contract_deploys, updates.contract_deploys@),
{
}

/// A witness that is to be handed out is shown part by part.
pub proof fn request_is_shown<'a>(request: DistributeStateWitnessRequest<'a>)
    ensures
        request@.state_witness == request.state_witness@,
        request@.contract_updates == request.contract_updates@,
        request@.main_transition_shard_id == request.main_transition_shard_id,
{
}

} // verus!
