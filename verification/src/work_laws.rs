//! What the work of the executor comes to as a whole, whatever comes of each piece.
use vstd::prelude::*;
use crate::block::BlockHeader;
use crate::error::Error;
use crate::flow::{
    first_task, next_apply_task, next_orphan_task, next_task, work_left, ApplyNext,
    ApplyTask, Next, OrphanEvent, OrphanNext, OrphanTask, Outcome, ResultStep, Task, Trigger,
    Verdict,
};
use crate::hash::CryptoHash;
use crate::view::Assumption;

verus! {

/// An outcome is one of a piece of work: blocks are found and loaded, and all else is
/// finished.
pub open spec fn is_outcome_of(task: Task, outcome: Outcome) -> bool {
    match task {
        Task::FindNextBlock(_) => outcome is NextBlock,
        Task::LoadBlock(_) => outcome is Block,
        Task::SaveReceipts(_) => outcome is Finished,
        Task::ProcessOrphans { .. } => outcome is Finished,
        Task::ApplyChunks(_) => outcome is Finished,
    }
}

/// Each piece of work has an outcome of its kind.
pub open spec fn are_outcomes(outcomes: spec_fn(Task) -> Outcome) -> bool {
    forall|task: Task| is_outcome_of(task, #[trigger] outcomes(task))
}

/// All the work from a piece on, in order, each piece coming to its outcome; and how
/// it ends.
pub open spec fn executor_work(
    trigger: Trigger,
    task: Task,
    outcomes: spec_fn(Task) -> Outcome,
    is_validator: bool,
) -> (Seq<Task>, Next)
    decreases work_left(trigger, task),
{
    match next_task(trigger, task, outcomes(task), is_validator) {
        Next::Do(next) => {
            let (rest, end) = executor_work(trigger, next, outcomes, is_validator);
            (seq![task] + rest, end)
        },
        end => (seq![task], end),
    }
}

/// How loading a block goes.
pub open spec fn loading(outcomes: spec_fn(Task) -> Outcome, block_hash: CryptoHash) -> Result<
    BlockHeader,
    Error,
> {
    outcomes(Task::LoadBlock(block_hash))->Block_0
}

/// How finding the block after another goes.
pub open spec fn finding(outcomes: spec_fn(Task) -> Outcome, block_hash: CryptoHash) -> Result<
    CryptoHash,
    Error,
> {
    outcomes(Task::FindNextBlock(block_hash))->NextBlock_0
}

/// How saving the receipts of a block goes.
pub open spec fn saving_goes(outcomes: spec_fn(Task) -> Outcome, block_hash: CryptoHash) -> Result<
    (),
    Error,
> {
    outcomes(Task::SaveReceipts(block_hash))->Finished_0
}

/// Only a validator looks at the witnesses that were kept.
pub open spec fn looking_at_orphans(
    block_hash: CryptoHash,
    header: BlockHeader,
    is_validator: bool,
) -> Seq<Task> {
    if is_validator {
        seq![Task::ProcessOrphans { block_hash, header }]
    } else {
        Seq::empty()
    }
}

/// When receipts come in, the executor saves those of the block if it can, and
/// executes the block after it as soon as there is one, whether the receipts could
/// be saved or not.
pub proof fn receipts_lead_to_the_next_block(
    block_hash: CryptoHash,
    outcomes: spec_fn(Task) -> Outcome,
    is_validator: bool,
)
    requires
        are_outcomes(outcomes),
    ensures
        ({
            let trigger = Trigger::IncomingReceipt(block_hash);
            let (work, end) = executor_work(trigger, first_task(trigger), outcomes, is_validator);
            &&& end == Next::Done
            &&& work == seq![Task::SaveReceipts(block_hash), Task::FindNextBlock(block_hash)] + (
            match finding(outcomes, block_hash) {
                Ok(next) => seq![Task::ApplyChunks(next)],
                Err(_) => Seq::empty(),
            })
        }),
{
    let trigger = Trigger::IncomingReceipt(block_hash);
    reveal_with_fuel(executor_work, 4);
    let save = Task::SaveReceipts(block_hash);
    let find = Task::FindNextBlock(block_hash);
    assert(is_outcome_of(save, outcomes(save)));
    assert(is_outcome_of(find, outcomes(find)));
    if let Ok(next) = finding(outcomes, block_hash) {
        let apply = Task::ApplyChunks(next);
        assert(is_outcome_of(apply, outcomes(apply)));
    }
    let (work, end) = executor_work(trigger, save, outcomes, is_validator);
    assert(work =~= seq![save, find] + (match finding(outcomes, block_hash) {
        Ok(next) => seq![Task::ApplyChunks(next)],
        Err(_) => Seq::empty(),
    }));
}

/// When a block comes in, the executor loads it; a validator then looks at the
/// witnesses that were kept; then the receipts of the block before are saved; and
/// the block is executed, unless it could not be loaded or the receipts could not be
/// saved. What comes of the witnesses is of no matter.
pub proof fn block_leads_to_its_execution(
    trigger: Trigger,
    block_hash: CryptoHash,
    outcomes: spec_fn(Task) -> Outcome,
    is_validator: bool,
)
    requires
        are_outcomes(outcomes),
        trigger matches Trigger::Block(message) && message.block_hash == block_hash,
    ensures
        ({
            let (work, end) = executor_work(trigger, first_task(trigger), outcomes, is_validator);
            &&& end == Next::Done
            &&& work == seq![Task::LoadBlock(block_hash)] + (match loading(outcomes, block_hash) {
                Err(_) => Seq::empty(),
                Ok(header) => looking_at_orphans(block_hash, header, is_validator) + seq![
                    Task::SaveReceipts(header.prev_hash),
                ] + (match saving_goes(outcomes, header.prev_hash) {
                    Ok(_) => seq![Task::ApplyChunks(block_hash)],
                    Err(_) => Seq::empty(),
                }),
            })
        }),
{
    reveal_with_fuel(executor_work, 5);
    let load = Task::LoadBlock(block_hash);
    assert(is_outcome_of(load, outcomes(load)));
    let (work, end) = executor_work(trigger, load, outcomes, is_validator);
    match loading(outcomes, block_hash) {
        Err(_) => {
            assert(work =~= seq![load] + Seq::<Task>::empty());
        },
        Ok(header) => {
            let orphans = Task::ProcessOrphans { block_hash, header };
            let save = Task::SaveReceipts(header.prev_hash);
            let apply = Task::ApplyChunks(block_hash);
            assert(is_outcome_of(orphans, outcomes(orphans)));
            assert(is_outcome_of(save, outcomes(save)));
            assert(is_outcome_of(apply, outcomes(apply)));
            let last = match saving_goes(outcomes, header.prev_hash) {
                Ok(_) => seq![apply],
                Err(_) => Seq::empty(),
            };
            let (saving, _) = executor_work(trigger, save, outcomes, is_validator);
            assert(saving =~= seq![save] + last);
            if is_validator {
                assert(work =~= seq![load] + (seq![orphans] + saving));
                assert(seq![orphans] + saving =~= seq![orphans] + seq![save] + last);
            } else {
                assert(work =~= seq![load] + saving);
                assert(saving =~= Seq::<Task>::empty() + seq![save] + last);
            }
        },
    }
}

/// When the results of a block are there, the executor finds and loads the block
/// after it; a validator then looks at the witnesses that were kept; and the block
/// after it is executed, whatever comes of the witnesses. That the block was found
/// and cannot be loaded halts the node.
pub proof fn results_lead_to_the_next_block(
    trigger: Trigger,
    block_hash: CryptoHash,
    outcomes: spec_fn(Task) -> Outcome,
    is_validator: bool,
)
    requires
        are_outcomes(outcomes),
        trigger matches Trigger::AllExecutionResultsAvailable(message) && message.block_hash
            == block_hash,
    ensures
        ({
            let (work, end) = executor_work(trigger, first_task(trigger), outcomes, is_validator);
            match finding(outcomes, block_hash) {
                Err(_) => work == seq![Task::FindNextBlock(block_hash)] && end == Next::Done,
                Ok(next) => match loading(outcomes, next) {
                    Err(e) => work == seq![Task::FindNextBlock(block_hash), Task::LoadBlock(next)]
                        && end == Next::Halt(Assumption::NextBlock(e)),
                    Ok(header) => work == seq![
                        Task::FindNextBlock(block_hash),
                        Task::LoadBlock(next),
                    ] + looking_at_orphans(next, header, is_validator) + seq![
                        Task::ApplyChunks(next),
                    ] && end == Next::Done,
                },
            }
        }),
{
    reveal_with_fuel(executor_work, 5);
    let find = Task::FindNextBlock(block_hash);
    assert(is_outcome_of(find, outcomes(find)));
    let (work, end) = executor_work(trigger, find, outcomes, is_validator);
    match finding(outcomes, block_hash) {
        Err(_) => {},
        Ok(next) => {
            let load = Task::LoadBlock(next);
            assert(is_outcome_of(load, outcomes(load)));
            match loading(outcomes, next) {
                Err(e) => {
                    assert(work =~= seq![find, load]);
                },
                Ok(header) => {
                    let orphans = Task::ProcessOrphans { block_hash: next, header };
                    let apply = Task::ApplyChunks(next);
                    assert(is_outcome_of(orphans, outcomes(orphans)));
                    assert(is_outcome_of(apply, outcomes(apply)));
                    if is_validator {
                        assert(work =~= seq![find, load] + seq![orphans] + seq![apply]);
                    } else {
                        assert(work =~= seq![find, load] + Seq::<Task>::empty() + seq![apply]);
                    }
                },
            }
        },
    }
}

/// The work of executing the chunks of a block from a piece on, so many pieces at
/// most, none of them failing; there are so many results to go through.
pub open spec fn apply_work(task: ApplyTask, results: usize, pieces: nat) -> Seq<ApplyTask>
    decreases pieces,
{
    if pieces == 0 {
        Seq::empty()
    } else {
        match next_apply_task(task, Ok(()), results) {
            ApplyNext::Do(next) => seq![task] + apply_work(next, results, (pieces - 1) as nat),
            _ => seq![task],
        }
    }
}

/// All that is done for a result, in order: it is found out what to record and to
/// send out; the result is recorded; the receipts are sent out; and the witness is
/// made, saved, validated and handed out.
pub open spec fn done_for_result(index: usize) -> Seq<ApplyTask> {
    seq![
        ApplyTask::OfResult { index, step: ResultStep::Outcome },
        ApplyTask::OfResult { index, step: ResultStep::Record },
        ApplyTask::OfResult { index, step: ResultStep::SendReceipts },
        ApplyTask::OfResult { index, step: ResultStep::MakeWitness },
        ApplyTask::OfResult { index, step: ResultStep::SaveWitness },
        ApplyTask::OfResult { index, step: ResultStep::ValidateOwn },
        ApplyTask::OfResult { index, step: ResultStep::Distribute },
    ]
}

/// All that is done for the results from a place on.
pub open spec fn done_from(index: int, results: usize) -> Seq<ApplyTask>
    decreases results - index,
{
    if index < 0 || index >= results {
        Seq::empty()
    } else {
        done_for_result(index as usize) + done_from(index + 1, results)
    }
}

proof fn lemma_steps(index: usize, results: usize, pieces: nat)
    requires
        index < results,
        pieces >= 7,
    ensures
        ({
            let work = apply_work(
                ApplyTask::OfResult { index, step: ResultStep::Outcome },
                results,
                pieces,
            );
            if index + 1 < results {
                work == done_for_result(index) + apply_work(
                    ApplyTask::OfResult { index: (index + 1) as usize, step: ResultStep::Outcome },
                    results,
                    (pieces - 7) as nat,
                )
            } else {
                work == done_for_result(index)
            }
        }),
{
    reveal_with_fuel(apply_work, 8);
    let work = apply_work(
        ApplyTask::OfResult { index, step: ResultStep::Outcome },
        results,
        pieces,
    );
    if index + 1 < results {
        let rest = apply_work(
            ApplyTask::OfResult { index: (index + 1) as usize, step: ResultStep::Outcome },
            results,
            (pieces - 7) as nat,
        );
        assert(work =~= done_for_result(index) + rest);
    } else {
        assert(work =~= done_for_result(index));
    }
}

proof fn lemma_done_from(index: usize, results: usize, pieces: nat)
    requires
        index < results,
        pieces >= 7 * (results - index),
    ensures
        apply_work(
            ApplyTask::OfResult { index, step: ResultStep::Outcome },
            results,
            pieces,
        ) == done_from(index as int, results),
    decreases results - index,
{
    lemma_steps(index, results, pieces);
    if index + 1 < results {
        lemma_done_from((index + 1) as usize, results, (pieces - 7) as nat);
    } else {
        assert(done_from(index + 1, results) =~= Seq::<ApplyTask>::empty());
        assert(done_for_result(index) + Seq::<ApplyTask>::empty() =~= done_for_result(index));
    }
}

/// Where nothing fails, the chunks of a block are executed, what this changes is
/// worked out and made, and then, for each of the results in order, all is done that
/// there is to do for it; and that is all.
pub proof fn all_is_done_for_each_result(results: usize, pieces: nat)
    requires
        pieces >= 3 + 7 * results,
    ensures
        apply_work(ApplyTask::RunJobs, results, pieces) == seq![
            ApplyTask::RunJobs,
            ApplyTask::Postprocess,
            ApplyTask::Commit,
        ] + done_from(0, results),
{
    reveal_with_fuel(apply_work, 4);
    let work = apply_work(ApplyTask::RunJobs, results, pieces);
    let first = seq![ApplyTask::RunJobs, ApplyTask::Postprocess, ApplyTask::Commit];
    if results > 0 {
        lemma_done_from(0, results, (pieces - 3) as nat);
        let rest = apply_work(
            ApplyTask::OfResult { index: 0, step: ResultStep::Outcome },
            results,
            (pieces - 3) as nat,
        );
        assert(work =~= first + rest);
    } else {
        assert(done_from(0, results) =~= Seq::<ApplyTask>::empty());
        assert(work =~= first + Seq::<ApplyTask>::empty());
    }
}

/// A piece of the work that fails ends it with why; only where it is the validation
/// of a witness that the node made itself, the node halts. A piece that does not
/// fail never ends the work but after the last result.
pub proof fn failure_ends_the_work(task: ApplyTask, e: Error, results: usize)
    requires
        task matches ApplyTask::OfResult { index, .. } ==> index < results,
    ensures
        task matches ApplyTask::OfResult { step: ResultStep::ValidateOwn, .. }
            ==> next_apply_task(task, Err(e), results) == ApplyNext::Halt(
            Assumption::OwnWitness(e),
        ),
        !(task matches ApplyTask::OfResult { step: ResultStep::ValidateOwn, .. })
            ==> next_apply_task(task, Err(e), results) == ApplyNext::Failed(e),
        next_apply_task(task, Ok(()), results) is Do || next_apply_task(task, Ok(()), results)
            == ApplyNext::Done,
        next_apply_task(task, Ok(()), results) == ApplyNext::Done <==> (results == 0
            && task is Commit) || (task matches ApplyTask::OfResult {
            index,
            step: ResultStep::Distribute,
        } && index + 1 == results),
{
}

/// The walk over the witnesses that were kept for a block looks at the first, and
/// after one is dealt with at the next; it ends after the last, and with why at one
/// that is refused.
pub proof fn walk_ends_at_the_last_or_refused(index: usize, count: usize, verdict: Verdict)
    requires
        index < count,
    ensures
        next_orphan_task(OrphanEvent::Taken, 0) == OrphanNext::Done,
        next_orphan_task(OrphanEvent::Taken, count) == OrphanNext::Do(
            OrphanTask::Check { index: 0 },
        ),
        next_orphan_task(OrphanEvent::Settled { index }, count) == (if index + 1 < count {
            OrphanNext::Do(OrphanTask::Check { index: (index + 1) as usize })
        } else {
            OrphanNext::Done
        }),
        verdict matches Verdict::Refused(e) ==> next_orphan_task(
            OrphanEvent::Checked { index, verdict },
            count,
        ) == OrphanNext::Failed(e),
        verdict is Valid ==> next_orphan_task(OrphanEvent::Checked { index, verdict }, count)
            == OrphanNext::Do(OrphanTask::Endorse { index }),
        verdict is Early ==> next_orphan_task(OrphanEvent::Checked { index, verdict }, count)
            == OrphanNext::Do(OrphanTask::PutBack { index }),
{
}

} // verus!
