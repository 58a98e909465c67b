//! In which order a node does its work.
//!
//! The work itself is done by the caller, who says how it went and is told what
//! comes next.
use vstd::prelude::*;
use crate::block::BlockHeader;
use crate::error::Error;
use crate::hash::CryptoHash;
use crate::messages::{ExecutorAllExecutionResultsAvailable, ExecutorBlock};
use crate::view::Assumption;

verus! {

/// What made the executor act.
#[derive(Clone, Copy, PartialEq, Eq, Structural, Debug)]
pub enum Trigger {
    /// Receipts of this block were received and are kept.
    IncomingReceipt(CryptoHash),
    /// This block can be executed.
    Block(ExecutorBlock),
    /// A result of executing this block became known.
    AllExecutionResultsAvailable(ExecutorAllExecutionResultsAvailable),
}

/// A piece of work.
#[derive(Clone, Copy, PartialEq, Eq, Structural, Debug)]
pub enum Task {
    /// Save the receipts of this block, if all are there.
    SaveReceipts(CryptoHash),
    /// Find the block after this one.
    FindNextBlock(CryptoHash),
    /// Load this block.
    LoadBlock(CryptoHash),
    /// Look again at the witnesses that were kept for the block before this one.
    ProcessOrphans { block_hash: CryptoHash, header: BlockHeader },
    /// Execute the chunks of this block, if all is there that they build on.
    ApplyChunks(CryptoHash),
}

/// How a piece of work went.
#[derive(Clone, Copy, Debug)]
pub enum Outcome {
    /// Receipts were saved, witnesses looked at or chunks executed.
    Finished(Result<(), Error>),
    /// The next block was looked for.
    NextBlock(Result<CryptoHash, Error>),
    /// The block was loaded.
    Block(Result<BlockHeader, Error>),
}

/// What comes next.
#[derive(Clone, Copy, PartialEq, Eq, Structural, Debug)]
pub enum Next {
    Do(Task),
    /// All is done that can be done now.
    Done,
    /// Something does not hold that is taken for granted. The node has to halt.
    Halt(Assumption),
}

/// The first piece of work.
pub open spec fn spec_first_task(trigger: Trigger) -> Task {
    match trigger {
        Trigger::IncomingReceipt(block_hash) => Task::SaveReceipts(block_hash),
        Trigger::Block(message) => Task::LoadBlock(message.block_hash),
        Trigger::AllExecutionResultsAvailable(message) => Task::FindNextBlock(message.block_hash),
    }
}

/// The first piece of work.
#[verifier::when_used_as_spec(spec_first_task)]
pub fn first_task(trigger: Trigger) -> (r: Task)
    ensures
        r == first_task(trigger),
{
    match trigger {
        Trigger::IncomingReceipt(block_hash) => Task::SaveReceipts(block_hash),
        Trigger::Block(message) => Task::LoadBlock(message.block_hash),
        Trigger::AllExecutionResultsAvailable(message) => Task::FindNextBlock(message.block_hash),
    }
}

/// What comes after a piece of work. Only a validator looks at witnesses.
///
/// On receipts it is of no matter whether they could be saved; on a block
/// nothing is executed unless they could. In neither case does it matter
/// whether the witnesses that were kept could be dealt with.
pub open spec fn spec_next_task(
    trigger: Trigger,
    task: Task,
    outcome: Outcome,
    is_validator: bool,
) -> Next {
    match (trigger, task, outcome) {
        (
            Trigger::IncomingReceipt(block_hash),
            Task::SaveReceipts(_),
            Outcome::Finished(_),
        ) => Next::Do(Task::FindNextBlock(block_hash)),
        (
            Trigger::IncomingReceipt(_),
            Task::FindNextBlock(_),
            Outcome::NextBlock(Ok(next_block_hash)),
        ) => Next::Do(Task::ApplyChunks(next_block_hash)),
        (
            Trigger::Block(_),
            Task::LoadBlock(block_hash),
            Outcome::Block(Ok(header)),
        ) => if is_validator {
            Next::Do(Task::ProcessOrphans { block_hash, header })
        } else {
            Next::Do(Task::SaveReceipts(header.prev_hash))
        },
        (
            Trigger::Block(_),
            Task::ProcessOrphans { header, .. },
            Outcome::Finished(_),
        ) => Next::Do(
            Task::SaveReceipts(header.prev_hash),
        ),
        (
            Trigger::Block(message),
            Task::SaveReceipts(_),
            Outcome::Finished(Ok(_)),
        ) => Next::Do(Task::ApplyChunks(message.block_hash)),
        (
            Trigger::AllExecutionResultsAvailable(_),
            Task::FindNextBlock(_),
            Outcome::NextBlock(Ok(next_block_hash)),
        ) => Next::Do(Task::LoadBlock(next_block_hash)),
        (
            Trigger::AllExecutionResultsAvailable(_),
            Task::LoadBlock(block_hash),
            Outcome::Block(Ok(header)),
        ) => if is_validator {
            Next::Do(Task::ProcessOrphans { block_hash, header })
        } else {
            Next::Do(Task::ApplyChunks(block_hash))
        },
        (
            Trigger::AllExecutionResultsAvailable(_),
            Task::LoadBlock(_),
            Outcome::Block(Err(e)),
        ) => Next::Halt(Assumption::NextBlock(e)),
        (
            Trigger::AllExecutionResultsAvailable(_),
            Task::ProcessOrphans { block_hash, .. },
            Outcome::Finished(_),
        ) => Next::Do(Task::ApplyChunks(block_hash)),
        _ => Next::Done,
    }
}

/// What comes after a piece of work.
#[verifier::when_used_as_spec(spec_next_task)]
pub fn next_task(trigger: Trigger, task: Task, outcome: Outcome, is_validator: bool) -> (r: Next)
    ensures
        r == next_task(trigger, task, outcome, is_validator),
{
    match trigger {
        Trigger::IncomingReceipt(block_hash) => match (task, outcome) {
            (Task::SaveReceipts(_), Outcome::Finished(_)) => Next::Do(
                Task::FindNextBlock(block_hash),
            ),
            (Task::FindNextBlock(_), Outcome::NextBlock(Ok(next_block_hash))) => Next::Do(
                Task::ApplyChunks(next_block_hash),
            ),
            _ => Next::Done,
        },
        Trigger::Block(message) => match (task, outcome) {
            (Task::LoadBlock(block_hash), Outcome::Block(Ok(header))) => if is_validator {
                Next::Do(Task::ProcessOrphans { block_hash, header })
            } else {
                Next::Do(Task::SaveReceipts(header.prev_hash))
            },
            (Task::ProcessOrphans { block_hash: _, header }, Outcome::Finished(_)) => Next::Do(
                Task::SaveReceipts(header.prev_hash),
            ),
            (Task::SaveReceipts(_), Outcome::Finished(Ok(_))) => Next::Do(
                Task::ApplyChunks(message.block_hash),
            ),
            _ => Next::Done,
        },
        Trigger::AllExecutionResultsAvailable(_) => match (task, outcome) {
            (Task::FindNextBlock(_), Outcome::NextBlock(Ok(next_block_hash))) => Next::Do(
                Task::LoadBlock(next_block_hash),
            ),
            (Task::LoadBlock(block_hash), Outcome::Block(Ok(header))) => if is_validator {
                Next::Do(Task::ProcessOrphans { block_hash, header })
            } else {
                Next::Do(Task::ApplyChunks(block_hash))
            },
            (Task::LoadBlock(_), Outcome::Block(Err(e))) => Next::Halt(Assumption::NextBlock(e)),
            (Task::ProcessOrphans { block_hash, header: _ }, Outcome::Finished(_)) => Next::Do(
                Task::ApplyChunks(block_hash),
            ),
            _ => Next::Done,
        },
    }
}

/// How much may still come after a piece of work.
pub open spec fn work_left(trigger: Trigger, task: Task) -> nat {
    match (trigger, task) {
        (_, Task::ApplyChunks(_)) => 0,
        (Trigger::IncomingReceipt(_), Task::SaveReceipts(_)) => 2,
        (Trigger::Block(_), Task::SaveReceipts(_)) => 1,
        (Trigger::AllExecutionResultsAvailable(_), Task::SaveReceipts(_)) => 0,
        (Trigger::AllExecutionResultsAvailable(_), Task::FindNextBlock(_)) => 3,
        (_, Task::FindNextBlock(_)) => 1,
        (Trigger::Block(_), Task::LoadBlock(_)) => 3,
        (_, Task::LoadBlock(_)) => 2,
        (Trigger::Block(_), Task::ProcessOrphans { .. }) => 2,
        (_, Task::ProcessOrphans { .. }) => 1,
    }
}

/// Whatever comes of each piece of work, the work comes to an end.
pub proof fn work_ends(trigger: Trigger, task: Task, outcome: Outcome, is_validator: bool)
    ensures
        next_task(trigger, task, outcome, is_validator) matches Next::Do(next) ==> work_left(
            trigger,
            next,
        ) < work_left(trigger, task),
{
}

/// A piece of the work of executing the chunks of a block, once it is laid out.
#[derive(Clone, Copy, PartialEq, Eq, Structural, Debug)]
pub enum ApplyTask {
    /// Execute the chunks and collect the results.
    RunJobs,
    /// Turn the results into changes of the store.
    Postprocess,
    /// Make the changes.
    Commit,
    /// A step for one of the results.
    OfResult { index: usize, step: ResultStep },
}

/// A step that is taken for each executed chunk.
#[derive(Clone, Copy, PartialEq, Eq, Structural, Debug)]
pub enum ResultStep {
    /// Find out what to record, and which receipts to send out.
    Outcome,
    /// Record the result, and tell the executor.
    Record,
    /// Send out the receipts.
    SendReceipts,
    /// Make the witness.
    MakeWitness,
    /// Save the witness.
    SaveWitness,
    /// Validate the witness.
    ValidateOwn,
    /// Hand the witness to the validators of the chunk.
    Distribute,
}

/// What comes next in executing the chunks of a block.
#[derive(Clone, Copy, PartialEq, Eq, Structural, Debug)]
pub enum ApplyNext {
    Do(ApplyTask),
    Done,
    Failed(Error),
    /// Something does not hold that is taken for granted. The node has to halt.
    Halt(Assumption),
}

/// The step that follows another, for the same result.
pub open spec fn spec_next_step(step: ResultStep) -> Option<ResultStep> {
    match step {
        ResultStep::Outcome => Some(ResultStep::Record),
        ResultStep::Record => Some(ResultStep::SendReceipts),
        ResultStep::SendReceipts => Some(ResultStep::MakeWitness),
        ResultStep::MakeWitness => Some(ResultStep::SaveWitness),
        ResultStep::SaveWitness => Some(ResultStep::ValidateOwn),
        ResultStep::ValidateOwn => Some(ResultStep::Distribute),
        ResultStep::Distribute => None,
    }
}

/// The step that follows another, for the same result.
#[verifier::when_used_as_spec(spec_next_step)]
pub fn next_step(step: ResultStep) -> (r: Option<ResultStep>)
    ensures
        r == next_step(step),
{
    match step {
        ResultStep::Outcome => Some(ResultStep::Record),
        ResultStep::Record => Some(ResultStep::SendReceipts),
        ResultStep::SendReceipts => Some(ResultStep::MakeWitness),
        ResultStep::MakeWitness => Some(ResultStep::SaveWitness),
        ResultStep::SaveWitness => Some(ResultStep::ValidateOwn),
        ResultStep::ValidateOwn => Some(ResultStep::Distribute),
        ResultStep::Distribute => None,
    }
}

/// The first step for a result, if there are that many.
pub open spec fn spec_start_result(index: int, results: usize) -> ApplyNext {
    if index < results {
        ApplyNext::Do(ApplyTask::OfResult { index: index as usize, step: ResultStep::Outcome })
    } else {
        ApplyNext::Done
    }
}

/// What comes after a piece of work, with so many results to go through.
///
/// A failure ends the work where it is; what was recorded and sent until then
/// stays. A witness of its own that the node finds to be wrong halts the node.
pub open spec fn spec_next_apply_task(
    task: ApplyTask,
    outcome: Result<(), Error>,
    results: usize,
) -> ApplyNext {
    match (task, outcome) {
        (ApplyTask::OfResult { step: ResultStep::ValidateOwn, .. }, Err(e)) => ApplyNext::Halt(
            Assumption::OwnWitness(e),
        ),
        (_, Err(e)) => ApplyNext::Failed(e),
        (ApplyTask::RunJobs, Ok(_)) => ApplyNext::Do(ApplyTask::Postprocess),
        (ApplyTask::Postprocess, Ok(_)) => ApplyNext::Do(ApplyTask::Commit),
        (ApplyTask::Commit, Ok(_)) => spec_start_result(0, results),
        (ApplyTask::OfResult { index, step }, Ok(_)) => match next_step(step) {
            Some(step) => ApplyNext::Do(ApplyTask::OfResult { index, step }),
            None => spec_start_result(index + 1, results),
        },
    }
}

/// What comes after a piece of work, with so many results to go through.
#[verifier::when_used_as_spec(spec_next_apply_task)]
pub fn next_apply_task(task: ApplyTask, outcome: Result<(), Error>, results: usize) -> (r:
    ApplyNext)
    ensures
        r == next_apply_task(task, outcome, results),
{
    if let Err(e) = outcome {
        return match task {
            ApplyTask::OfResult { index: _, step: ResultStep::ValidateOwn } => ApplyNext::Halt(
                Assumption::OwnWitness(e),
            ),
            _ => ApplyNext::Failed(e),
        };
    }
    match task {
        ApplyTask::RunJobs => ApplyNext::Do(ApplyTask::Postprocess),
        ApplyTask::Postprocess => ApplyNext::Do(ApplyTask::Commit),
        ApplyTask::Commit => {
            if results > 0 {
                ApplyNext::Do(ApplyTask::OfResult { index: 0, step: ResultStep::Outcome })
            } else {
                ApplyNext::Done
            }
        },
        ApplyTask::OfResult { index, step } => match next_step(step) {
            Some(step) => ApplyNext::Do(ApplyTask::OfResult { index, step }),
            None => {
                if index < results && index + 1 < results {
                    ApplyNext::Do(
                        ApplyTask::OfResult { index: index + 1, step: ResultStep::Outcome },
                    )
                } else {
                    ApplyNext::Done
                }
            },
        },
    }
}

/// Where a step stands among the steps for a result.
pub open spec fn step_rank(step: ResultStep) -> int {
    match step {
        ResultStep::Outcome => 0,
        ResultStep::Record => 1,
        ResultStep::SendReceipts => 2,
        ResultStep::MakeWitness => 3,
        ResultStep::SaveWitness => 4,
        ResultStep::ValidateOwn => 5,
        ResultStep::Distribute => 6,
    }
}

/// Where a piece of work stands in the whole.
pub open spec fn apply_rank(task: ApplyTask) -> int {
    match task {
        ApplyTask::RunJobs => 0,
        ApplyTask::Postprocess => 1,
        ApplyTask::Commit => 2,
        ApplyTask::OfResult { index, step } => 3 + 7 * index + step_rank(step),
    }
}

/// Each piece of work is followed by the one after it, none is left out, and
/// the results are gone through in order to the last: a result is recorded, and
/// its receipts are sent, before its witness is made; a witness is handed out
/// only after the node has validated it; and the node moves on to the next
/// result only after that.
pub proof fn apply_in_order(task: ApplyTask, outcome: Result<(), Error>, results: usize)
    requires
        task matches ApplyTask::OfResult { index, .. } ==> index < results,
    ensures
        next_apply_task(task, outcome, results) matches ApplyNext::Do(next) ==> outcome is Ok
            && apply_rank(next) == apply_rank(task) + 1 && (next matches ApplyTask::OfResult {
            index,
            ..
        } ==> index < results),
        next_apply_task(task, outcome, results) is Done ==> outcome is Ok && apply_rank(task) == 2
            + 7 * results,
{
}

/// What the check of a witness came to.
#[derive(Clone, Copy, PartialEq, Eq, Structural, Debug)]
pub enum Verdict {
    /// The witness is right and is to be endorsed.
    Valid,
    /// The witness cannot be checked yet and is to be kept.
    Early,
    /// The witness is refused, or the check failed.
    Refused(Error),
}

/// How far the work on a witness that was received has come.
#[derive(Clone, Copy, PartialEq, Eq, Structural, Debug)]
pub enum WitnessEvent {
    Received,
    Acknowledged,
    Checked(Verdict),
    /// The witness was endorsed or kept.
    Settled,
}

/// A piece of the work on a witness that was received.
#[derive(Clone, Copy, PartialEq, Eq, Structural, Debug)]
pub enum WitnessTask {
    /// Tell the maker of the witness that it came, unless that is this node.
    Acknowledge,
    /// Check the witness.
    Check,
    /// Send out the endorsement.
    Endorse,
    /// Keep the witness until it can be checked.
    Keep,
}

/// What comes next in the work on a witness that was received.
#[derive(Clone, Copy, PartialEq, Eq, Structural, Debug)]
pub enum WitnessNext {
    Do(WitnessTask),
    Done,
    Failed(Error),
}

/// What comes next in the work on a witness that was received. A node that is no
/// validator drops it.
pub open spec fn spec_next_witness_task(event: WitnessEvent, is_validator: bool) -> WitnessNext {
    if !is_validator {
        WitnessNext::Done
    } else {
        match event {
            WitnessEvent::Received => WitnessNext::Do(WitnessTask::Acknowledge),
            WitnessEvent::Acknowledged => WitnessNext::Do(WitnessTask::Check),
            WitnessEvent::Checked(Verdict::Valid) => WitnessNext::Do(WitnessTask::Endorse),
            WitnessEvent::Checked(Verdict::Early) => WitnessNext::Do(WitnessTask::Keep),
            WitnessEvent::Checked(Verdict::Refused(e)) => WitnessNext::Failed(e),
            WitnessEvent::Settled => WitnessNext::Done,
        }
    }
}

/// What comes next in the work on a witness that was received.
#[verifier::when_used_as_spec(spec_next_witness_task)]
pub fn next_witness_task(event: WitnessEvent, is_validator: bool) -> (r: WitnessNext)
    ensures
        r == next_witness_task(event, is_validator),
{
    if !is_validator {
        return WitnessNext::Done;
    }
    match event {
        WitnessEvent::Received => WitnessNext::Do(WitnessTask::Acknowledge),
        WitnessEvent::Acknowledged => WitnessNext::Do(WitnessTask::Check),
        WitnessEvent::Checked(Verdict::Valid) => WitnessNext::Do(WitnessTask::Endorse),
        WitnessEvent::Checked(Verdict::Early) => WitnessNext::Do(WitnessTask::Keep),
        WitnessEvent::Checked(Verdict::Refused(e)) => WitnessNext::Failed(e),
        WitnessEvent::Settled => WitnessNext::Done,
    }
}

/// How far the walk over the witnesses has come that were kept for a block. They
/// are known by their places in the list that was taken out of the pool.
#[derive(Clone, Copy, PartialEq, Eq, Structural, Debug)]
pub enum OrphanEvent {
    /// The witnesses were taken out of the pool.
    Taken,
    Checked { index: usize, verdict: Verdict },
    /// The witness was endorsed or put back.
    Settled { index: usize },
}

/// A piece of the work on the witnesses that were kept for a block.
#[derive(Clone, Copy, PartialEq, Eq, Structural, Debug)]
pub enum OrphanTask {
    /// Check the witness.
    Check { index: usize },
    /// Send out the endorsement.
    Endorse { index: usize },
    /// Put the witness back into the pool.
    PutBack { index: usize },
}

/// What comes next in the walk over the witnesses that were kept for a block.
#[derive(Clone, Copy, PartialEq, Eq, Structural, Debug)]
pub enum OrphanNext {
    Do(OrphanTask),
    Done,
    Failed(Error),
}

/// The check of the witness at a place, if there are that many.
pub open spec fn spec_check_orphan(index: int, count: usize) -> OrphanNext {
    if index < count {
        OrphanNext::Do(OrphanTask::Check { index: index as usize })
    } else {
        OrphanNext::Done
    }
}

/// What comes next in the walk over so many witnesses. The first that is refused
/// ends the walk.
pub open spec fn spec_next_orphan_task(event: OrphanEvent, count: usize) -> OrphanNext {
    match event {
        OrphanEvent::Taken => spec_check_orphan(0, count),
        OrphanEvent::Checked { index, verdict: Verdict::Valid } => OrphanNext::Do(
            OrphanTask::Endorse { index },
        ),
        OrphanEvent::Checked { index, verdict: Verdict::Early } => OrphanNext::Do(
            OrphanTask::PutBack { index },
        ),
        OrphanEvent::Checked { index: _, verdict: Verdict::Refused(e) } => OrphanNext::Failed(e),
        OrphanEvent::Settled { index } => spec_check_orphan(index + 1, count),
    }
}

/// What comes next in the walk over so many witnesses.
#[verifier::when_used_as_spec(spec_next_orphan_task)]
pub fn next_orphan_task(event: OrphanEvent, count: usize) -> (r: OrphanNext)
    ensures
        r == next_orphan_task(event, count),
{
    match event {
        OrphanEvent::Taken => {
            if count > 0 {
                OrphanNext::Do(OrphanTask::Check { index: 0 })
            } else {
                OrphanNext::Done
            }
        },
        OrphanEvent::Checked { index, verdict } => match verdict {
            Verdict::Valid => OrphanNext::Do(OrphanTask::Endorse { index }),
            Verdict::Early => OrphanNext::Do(OrphanTask::PutBack { index }),
            Verdict::Refused(e) => OrphanNext::Failed(e),
        },
        OrphanEvent::Settled { index } => {
            if index < count && index + 1 < count {
                OrphanNext::Do(OrphanTask::Check { index: index + 1 })
            } else {
                OrphanNext::Done
            }
        },
    }
}

} // verus!
