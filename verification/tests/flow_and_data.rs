use spice::block::BlockHeader;
use spice::data_distribution::SpiceDataIdentifier;
use spice::error::Error;
use spice::flow::{
    first_task, next_apply_task, next_orphan_task, next_task, next_witness_task, ApplyNext,
    ApplyTask, Next, OrphanEvent, OrphanNext, OrphanTask, Outcome, ResultStep, Task, Trigger,
    Verdict, WitnessEvent, WitnessNext, WitnessTask,
};
use spice::hash::{CryptoHash, EpochId};
use spice::messages::{ExecutorAllExecutionResultsAvailable, ExecutorBlock};
use spice::view::Assumption;

fn h(n: u128) -> CryptoHash {
    CryptoHash { hi: 0, lo: n }
}

fn header(n: u128) -> BlockHeader {
    BlockHeader { hash: h(n), prev_hash: h(n - 1), epoch_id: EpochId(h(1)), height: n as u64 }
}

const DONE: Outcome = Outcome::Finished(Ok(()));
const FAILED: Outcome = Outcome::Finished(Err(Error::Outside(1)));

#[test]
fn on_receipts_the_next_block_is_tried_even_if_saving_failed() {
    let trigger = Trigger::IncomingReceipt(h(5));
    assert_eq!(first_task(trigger), Task::SaveReceipts(h(5)));
    for outcome in [DONE, FAILED] {
        let next = next_task(trigger, Task::SaveReceipts(h(5)), outcome, true);
        assert_eq!(next, Next::Do(Task::FindNextBlock(h(5))));
    }
    let found = Outcome::NextBlock(Ok(h(6)));
    let next = next_task(trigger, Task::FindNextBlock(h(5)), found, true);
    assert_eq!(next, Next::Do(Task::ApplyChunks(h(6))));
    let missing = Outcome::NextBlock(Err(Error::NotFound(1)));
    assert_eq!(next_task(trigger, Task::FindNextBlock(h(5)), missing, true), Next::Done);
    assert_eq!(next_task(trigger, Task::ApplyChunks(h(6)), FAILED, true), Next::Done);
}

#[test]
fn on_a_block_nothing_is_executed_if_saving_failed() {
    let trigger = Trigger::Block(ExecutorBlock { block_hash: h(6) });
    assert_eq!(first_task(trigger), Task::LoadBlock(h(6)));
    let loaded = Outcome::Block(Ok(header(6)));
    let orphans = Task::ProcessOrphans { block_hash: h(6), header: header(6) };
    assert_eq!(next_task(trigger, Task::LoadBlock(h(6)), loaded, true), Next::Do(orphans));
    let saving = Task::SaveReceipts(h(5));
    assert_eq!(next_task(trigger, Task::LoadBlock(h(6)), loaded, false), Next::Do(saving));
    for outcome in [DONE, FAILED] {
        assert_eq!(next_task(trigger, orphans, outcome, true), Next::Do(saving));
    }
    assert_eq!(next_task(trigger, saving, DONE, true), Next::Do(Task::ApplyChunks(h(6))));
    assert_eq!(next_task(trigger, saving, FAILED, true), Next::Done);
    let missing = Outcome::Block(Err(Error::NotFound(1)));
    assert_eq!(next_task(trigger, Task::LoadBlock(h(6)), missing, true), Next::Done);
}

#[test]
fn on_results_the_next_block_has_to_be_there_once_it_is_known() {
    let message = ExecutorAllExecutionResultsAvailable { block_hash: h(5) };
    let trigger = Trigger::AllExecutionResultsAvailable(message);
    assert_eq!(first_task(trigger), Task::FindNextBlock(h(5)));
    let found = Outcome::NextBlock(Ok(h(6)));
    let next = next_task(trigger, Task::FindNextBlock(h(5)), found, true);
    assert_eq!(next, Next::Do(Task::LoadBlock(h(6))));
    let missing = Outcome::NextBlock(Err(Error::NotFound(1)));
    assert_eq!(next_task(trigger, Task::FindNextBlock(h(5)), missing, true), Next::Done);
    let loaded = Outcome::Block(Ok(header(6)));
    let orphans = Task::ProcessOrphans { block_hash: h(6), header: header(6) };
    let applying = Next::Do(Task::ApplyChunks(h(6)));
    assert_eq!(next_task(trigger, Task::LoadBlock(h(6)), loaded, true), Next::Do(orphans));
    assert_eq!(next_task(trigger, Task::LoadBlock(h(6)), loaded, false), applying);
    assert_eq!(next_task(trigger, orphans, FAILED, true), applying);
    let lost = Outcome::Block(Err(Error::NotFound(2)));
    let halted = Next::Halt(Assumption::NextBlock(Error::NotFound(2)));
    assert_eq!(next_task(trigger, Task::LoadBlock(h(6)), lost, true), halted);
}

#[test]
fn every_result_goes_through_all_steps_in_order() {
    let mut tasks = vec![ApplyTask::RunJobs];
    loop {
        match next_apply_task(*tasks.last().unwrap(), Ok(()), 2) {
            ApplyNext::Do(task) => tasks.push(task),
            ApplyNext::Done => break,
            other => panic!("{other:?}"),
        }
    }
    let steps = [
        ResultStep::Outcome,
        ResultStep::Record,
        ResultStep::SendReceipts,
        ResultStep::MakeWitness,
        ResultStep::SaveWitness,
        ResultStep::ValidateOwn,
        ResultStep::Distribute,
    ];
    let mut expected = vec![ApplyTask::RunJobs, ApplyTask::Postprocess, ApplyTask::Commit];
    for index in 0..2 {
        expected.extend(steps.iter().map(|step| ApplyTask::OfResult { index, step: *step }));
    }
    assert_eq!(tasks, expected);
}

#[test]
fn a_block_without_results_is_done_after_the_commit() {
    assert_eq!(next_apply_task(ApplyTask::Commit, Ok(()), 0), ApplyNext::Done);
}

#[test]
fn a_failure_ends_the_work_and_a_wrong_own_witness_halts_the_node() {
    let e = Error::Outside(3);
    assert_eq!(next_apply_task(ApplyTask::Commit, Err(e), 2), ApplyNext::Failed(e));
    let saving = ApplyTask::OfResult { index: 0, step: ResultStep::SaveWitness };
    assert_eq!(next_apply_task(saving, Err(e), 2), ApplyNext::Failed(e));
    let own = ApplyTask::OfResult { index: 0, step: ResultStep::ValidateOwn };
    assert_eq!(next_apply_task(own, Err(e), 2), ApplyNext::Halt(Assumption::OwnWitness(e)));
}

fn witness_work(verdict: Verdict) -> (Vec<WitnessTask>, WitnessNext) {
    let mut tasks = vec![];
    let mut event = WitnessEvent::Received;
    loop {
        match next_witness_task(event, true) {
            WitnessNext::Do(task) => {
                tasks.push(task);
                event = match task {
                    WitnessTask::Acknowledge => WitnessEvent::Acknowledged,
                    WitnessTask::Check => WitnessEvent::Checked(verdict),
                    WitnessTask::Endorse | WitnessTask::Keep => WitnessEvent::Settled,
                };
            }
            end => return (tasks, end),
        }
    }
}

#[test]
fn a_witness_is_acknowledged_before_it_is_checked_and_settled() {
    let (ack, check) = (WitnessTask::Acknowledge, WitnessTask::Check);
    let endorsed = (vec![ack, check, WitnessTask::Endorse], WitnessNext::Done);
    assert_eq!(witness_work(Verdict::Valid), endorsed);
    let kept = (vec![ack, check, WitnessTask::Keep], WitnessNext::Done);
    assert_eq!(witness_work(Verdict::Early), kept);
    let e = Error::Outside(2);
    assert_eq!(witness_work(Verdict::Refused(e)), (vec![ack, check], WitnessNext::Failed(e)));
}

#[test]
fn a_node_that_is_no_validator_drops_a_witness() {
    assert_eq!(next_witness_task(WitnessEvent::Received, false), WitnessNext::Done);
}

fn orphan_work(verdicts: &[Verdict]) -> (Vec<OrphanTask>, OrphanNext) {
    let mut tasks = vec![];
    let mut event = OrphanEvent::Taken;
    loop {
        match next_orphan_task(event, verdicts.len()) {
            OrphanNext::Do(task) => {
                tasks.push(task);
                event = match task {
                    OrphanTask::Check { index } => {
                        OrphanEvent::Checked { index, verdict: verdicts[index] }
                    }
                    OrphanTask::Endorse { index } | OrphanTask::PutBack { index } => {
                        OrphanEvent::Settled { index }
                    }
                };
            }
            end => return (tasks, end),
        }
    }
}

#[test]
fn kept_witnesses_are_gone_through_to_the_last() {
    let (tasks, end) = orphan_work(&[Verdict::Early, Verdict::Valid, Verdict::Early]);
    let expected = vec![
        OrphanTask::Check { index: 0 },
        OrphanTask::PutBack { index: 0 },
        OrphanTask::Check { index: 1 },
        OrphanTask::Endorse { index: 1 },
        OrphanTask::Check { index: 2 },
        OrphanTask::PutBack { index: 2 },
    ];
    assert_eq!((tasks, end), (expected, OrphanNext::Done));
    assert_eq!(orphan_work(&[]), (vec![], OrphanNext::Done));
    assert_eq!(
        next_orphan_task(OrphanEvent::Settled { index: usize::MAX }, usize::MAX),
        OrphanNext::Done,
    );
}

#[test]
fn a_kept_witness_that_is_refused_ends_the_walk() {
    let e = Error::Outside(5);
    let (tasks, end) = orphan_work(&[Verdict::Valid, Verdict::Refused(e), Verdict::Valid]);
    let expected = vec![
        OrphanTask::Check { index: 0 },
        OrphanTask::Endorse { index: 0 },
        OrphanTask::Check { index: 1 },
    ];
    assert_eq!((tasks, end), (expected, OrphanNext::Failed(e)));
}

#[test]
fn data_belongs_to_a_block() {
    let receipts = SpiceDataIdentifier::ReceiptProof {
        block_hash: h(4),
        from_shard_id: 1,
        to_shard_id: 2,
    };
    assert_eq!(receipts.block_hash(), &h(4));
    let witness = SpiceDataIdentifier::Witness { block_hash: h(5), shard_id: 1 };
    assert_eq!(witness.block_hash(), &h(5));
}

#[test]
fn failures_that_may_pass_are_told_from_others() {
    assert!(Error::NotFound(1).is_not_found());
    assert!(Error::MissingPreviousExecutionResults(h(1)).is_not_found());
    assert!(!Error::Outside(1).is_not_found());
    assert!(!Error::NoExecutionResults(h(1)).is_not_found());
}
