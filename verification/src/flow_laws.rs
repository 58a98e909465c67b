//! What the work on witnesses comes to as a whole.
use vstd::prelude::*;
use crate::block::{AccountId, Block};
use crate::core_statements::AppliedWitness;
use crate::error::Error;
use crate::executor::{spec_verdict, ChunkExecutorActor, ChunkStateWitnessAck};
use crate::flow::{
    next_orphan_task, next_witness_task, OrphanEvent, OrphanNext, OrphanTask, Verdict,
    WitnessEvent, WitnessNext, WitnessTask,
};
use crate::statement_laws::{results_incomplete, waiting_witness_is_kept_on};
use crate::view::ChainView;
use crate::witness::ChunkStateWitness;

verus! {

/// How far the work on a witness has come after a piece of it, the check coming
/// to this verdict.
pub open spec fn after_witness_task(task: WitnessTask, verdict: Verdict) -> WitnessEvent {
    match task {
        WitnessTask::Acknowledge => WitnessEvent::Acknowledged,
        WitnessTask::Check => WitnessEvent::Checked(verdict),
        WitnessTask::Endorse => WitnessEvent::Settled,
        WitnessTask::Keep => WitnessEvent::Settled,
    }
}

/// How much may still be done about a witness.
pub open spec fn witness_work_left(event: WitnessEvent) -> nat {
    match event {
        WitnessEvent::Received => 3,
        WitnessEvent::Acknowledged => 2,
        WitnessEvent::Checked(_) => 1,
        WitnessEvent::Settled => 0,
    }
}

/// All that is still done about a witness, in order, the check coming to this
/// verdict.
pub open spec fn witness_work(event: WitnessEvent, verdict: Verdict, is_validator: bool) -> Seq<
    WitnessTask,
>
    decreases witness_work_left(event),
{
    match next_witness_task(event, is_validator) {
        WitnessNext::Do(task) => seq![task] + witness_work(
            after_witness_task(task, verdict),
            verdict,
            is_validator,
        ),
        _ => Seq::empty(),
    }
}

/// The acknowledgements that go out in the course of some work on a witness.
pub open spec fn acknowledgements<'a>(
    work: Seq<WitnessTask>,
    witness: &ChunkStateWitness<'a>,
    validator_id: &AccountId,
) -> Seq<ChunkStateWitnessAck<'a>>
    decreases work.len(),
{
    if work.len() == 0 {
        Seq::empty()
    } else {
        let before = acknowledgements(work.drop_last(), witness, validator_id);
        match (work.last(), ChunkExecutorActor::acknowledgement(witness, validator_id)) {
            (WitnessTask::Acknowledge, Some(ack)) => before.push(ack),
            _ => before,
        }
    }
}

/// A witness that was received is acknowledged first and once, whatever the check
/// comes to; then it is checked; and then it is endorsed if it is right, kept if
/// it cannot be checked yet, and nothing is done about it if it is refused. A
/// node that is no validator does nothing at all.
pub proof fn witness_is_acknowledged_then_checked(verdict: Verdict)
    ensures
        witness_work(WitnessEvent::Received, verdict, true) == seq![
            WitnessTask::Acknowledge,
            WitnessTask::Check,
        ] + (match verdict {
            Verdict::Valid => seq![WitnessTask::Endorse],
            Verdict::Early => seq![WitnessTask::Keep],
            Verdict::Refused(_) => Seq::empty(),
        }),
        witness_work(WitnessEvent::Received, verdict, false) == Seq::<WitnessTask>::empty(),
        verdict matches Verdict::Refused(e) ==> next_witness_task(
            WitnessEvent::Checked(verdict),
            true,
        ) == WitnessNext::Failed(e),
{
    reveal_with_fuel(witness_work, 5);
    assert(witness_work(WitnessEvent::Settled, verdict, true) =~= Seq::<WitnessTask>::empty());
    let settling = witness_work(WitnessEvent::Checked(verdict), verdict, true);
    assert(settling =~= (match verdict {
        Verdict::Valid => seq![WitnessTask::Endorse],
        Verdict::Early => seq![WitnessTask::Keep],
        Verdict::Refused(_) => Seq::empty(),
    }));
    let checking = witness_work(WitnessEvent::Acknowledged, verdict, true);
    assert(checking =~= seq![WitnessTask::Check] + settling);
    assert(witness_work(WitnessEvent::Received, verdict, true) =~= seq![WitnessTask::Acknowledge]
        + checking);
}

/// The maker of a witness gets one acknowledgement of it, whatever the check
/// comes to, and it names the chunk; a node sends none to itself.
pub proof fn one_acknowledgement_goes_out<'a>(
    witness: &ChunkStateWitness<'a>,
    validator_id: &AccountId,
    verdict: Verdict,
)
    ensures
        acknowledgements(
            witness_work(WitnessEvent::Received, verdict, true),
            witness,
            validator_id,
        ) == (if validator_id.0@ == witness.chunk_producer.0@ {
            Seq::empty()
        } else {
            seq![
                ChunkStateWitnessAck {
                    chunk_producer: witness.chunk_producer,
                    chunk_hash: witness.chunk_header.chunk_hash,
                },
            ]
        }),
{
    witness_is_acknowledged_then_checked(verdict);
    let work = witness_work(WitnessEvent::Received, verdict, true);
    reveal_with_fuel(acknowledgements, 2);
    let sent = acknowledgements(seq![WitnessTask::Acknowledge], witness, validator_id);
    assert(seq![WitnessTask::Acknowledge].drop_last() =~= Seq::<WitnessTask>::empty());
    assert(work.take(2).drop_last() =~= seq![WitnessTask::Acknowledge]);
    assert(acknowledgements(work.take(2), witness, validator_id) == sent);
    if work.len() > 2 {
        assert(work.drop_last() =~= work.take(2));
    } else {
        assert(work =~= work.take(2));
    }
    assert(sent =~= (match ChunkExecutorActor::acknowledgement(witness, validator_id) {
        Some(ack) => seq![ack],
        None => Seq::empty(),
    }));
}

/// How far the walk over the witnesses that were kept for a block has come after
/// a piece of work, the checks coming to these verdicts.
pub open spec fn after_orphan_task(task: OrphanTask, verdicts: Seq<Verdict>) -> OrphanEvent {
    match task {
        OrphanTask::Check { index } => OrphanEvent::Checked {
            index,
            verdict: verdicts[index as int],
        },
        OrphanTask::Endorse { index } => OrphanEvent::Settled { index },
        OrphanTask::PutBack { index } => OrphanEvent::Settled { index },
    }
}

/// How many witnesses there are from a place on.
pub open spec fn orphans_left(index: usize, count: nat) -> nat {
    if index < count {
        (count - index) as nat
    } else {
        0
    }
}

/// How much may still be done about the witnesses that were kept for a block.
pub open spec fn orphan_work_left(event: OrphanEvent, count: nat) -> nat {
    match event {
        OrphanEvent::Taken => 2 * count + 2,
        OrphanEvent::Checked { index, .. } => 2 * orphans_left(index, count) + 1,
        OrphanEvent::Settled { index } => 2 * orphans_left(index, count),
    }
}

/// All that is still done about the witnesses that were kept for a block, in
/// order, the checks coming to these verdicts.
pub open spec fn orphan_work(event: OrphanEvent, verdicts: Seq<Verdict>) -> Seq<OrphanTask>
    decreases orphan_work_left(event, verdicts.len()),
    when verdicts.len() <= usize::MAX
{
    match next_orphan_task(event, verdicts.len() as usize) {
        OrphanNext::Do(task) => seq![task] + orphan_work(
            after_orphan_task(task, verdicts),
            verdicts,
        ),
        _ => Seq::empty(),
    }
}

/// What is done about a witness that was kept, by the verdict.
pub open spec fn settling(index: usize, verdict: Verdict) -> Seq<OrphanTask> {
    match verdict {
        Verdict::Valid => seq![OrphanTask::Endorse { index }],
        Verdict::Early => seq![OrphanTask::PutBack { index }],
        Verdict::Refused(_) => Seq::empty(),
    }
}

/// The checks of the witnesses, each followed by what is done by its verdict.
pub open spec fn walk(verdicts: Seq<Verdict>) -> Seq<OrphanTask>
    decreases verdicts.len(),
{
    if verdicts.len() == 0 {
        Seq::empty()
    } else {
        let index = (verdicts.len() - 1) as usize;
        walk(verdicts.drop_last()) + seq![OrphanTask::Check { index }] + settling(
            index,
            verdicts.last(),
        )
    }
}

/// The witness at this place is refused, and none before it.
pub open spec fn refused_at(verdicts: Seq<Verdict>, k: int) -> bool {
    &&& 0 <= k < verdicts.len()
    &&& verdicts[k] is Refused
    &&& forall|i: int| 0 <= i < k ==> !(#[trigger] verdicts[i] is Refused)
}

/// None of the witnesses is refused.
pub open spec fn none_refused(verdicts: Seq<Verdict>) -> bool {
    forall|i: int| 0 <= i < verdicts.len() ==> !(#[trigger] verdicts[i] is Refused)
}

/// How far the walk has come when the witness at a place is next.
spec fn before_orphan(j: int) -> OrphanEvent {
    if j == 0 {
        OrphanEvent::Taken
    } else {
        OrphanEvent::Settled { index: (j - 1) as usize }
    }
}

/// The witness at a place is checked and dealt with by its verdict; then the next
/// one is, unless this one was refused.
proof fn lemma_orphan_step(verdicts: Seq<Verdict>, j: int)
    requires
        verdicts.len() <= usize::MAX,
        0 <= j < verdicts.len(),
    ensures
        orphan_work(before_orphan(j), verdicts) == seq![OrphanTask::Check { index: j as usize }]
            + settling(j as usize, verdicts[j]) + (if verdicts[j] is Refused {
            Seq::empty()
        } else {
            orphan_work(before_orphan(j + 1), verdicts)
        }),
{
    let index = j as usize;
    let checked = OrphanEvent::Checked { index, verdict: verdicts[j] };
    let rest = if verdicts[j] is Refused {
        Seq::empty()
    } else {
        orphan_work(before_orphan(j + 1), verdicts)
    };
    let check = seq![OrphanTask::Check { index }];
    assert(orphan_work(before_orphan(j), verdicts) == check + orphan_work(checked, verdicts));
    assert(orphan_work(checked, verdicts) =~= settling(index, verdicts[j]) + rest);
    assert(check + (settling(index, verdicts[j]) + rest) =~= check + settling(index, verdicts[j])
        + rest);
}

/// Where the first witnesses were not refused and are dealt with, what is done
/// from there on completes the walk over a longer run of them.
proof fn lemma_walk(verdicts: Seq<Verdict>, j: int, k: int)
    requires
        verdicts.len() <= usize::MAX,
        0 <= j <= k <= verdicts.len(),
        forall|i: int| 0 <= i < k ==> !(#[trigger] verdicts[i] is Refused),
        k < verdicts.len() ==> verdicts[k] is Refused,
    ensures
        walk(verdicts.take(j)) + orphan_work(before_orphan(j), verdicts) == walk(
            verdicts.take(if k < verdicts.len() { k + 1 } else { k }),
        ),
    decreases k - j,
{
    let before = walk(verdicts.take(j));
    let work = orphan_work(before_orphan(j), verdicts);
    if j < verdicts.len() {
        let step = seq![OrphanTask::Check { index: j as usize }] + settling(
            j as usize,
            verdicts[j],
        );
        lemma_orphan_step(verdicts, j);
        assert(verdicts.take(j + 1).drop_last() =~= verdicts.take(j));
        assert(walk(verdicts.take(j + 1)) =~= before + step);
        if j < k {
            let rest = orphan_work(before_orphan(j + 1), verdicts);
            lemma_walk(verdicts, j + 1, k);
            assert(before + (step + rest) =~= before + step + rest);
        } else {
            assert(step + Seq::<OrphanTask>::empty() =~= step);
        }
    } else {
        assert(work =~= Seq::<OrphanTask>::empty());
        assert(before + work =~= before);
    }
}

/// The witnesses that were kept for a block are gone through in order, each once:
/// one that is right is endorsed, and one that cannot be checked yet is put back,
/// before the next is looked at. The walk goes through to the last unless one is
/// refused, and then ends with it: those after it are neither looked at nor put
/// back.
pub proof fn orphans_are_gone_through_in_order(verdicts: Seq<Verdict>, k: int)
    requires
        verdicts.len() <= usize::MAX,
        none_refused(verdicts) && k == verdicts.len() - 1 || refused_at(verdicts, k),
    ensures
        orphan_work(OrphanEvent::Taken, verdicts) == walk(verdicts.take(k + 1)),
{
    let stop = if none_refused(verdicts) {
        verdicts.len() as int
    } else {
        k
    };
    lemma_walk(verdicts, 0, stop);
    assert(walk(verdicts.take(0)) + orphan_work(OrphanEvent::Taken, verdicts) =~= orphan_work(
        OrphanEvent::Taken,
        verdicts,
    ));
}

/// The witnesses that are endorsed, and those that are put back, in the course of
/// some work on the witnesses that were taken out of the pool.
pub open spec fn dealt_with<W>(work: Seq<OrphanTask>, taken: Seq<W>) -> (Seq<W>, Seq<W>)
    decreases work.len(),
{
    if work.len() == 0 {
        (Seq::empty(), Seq::empty())
    } else {
        let (endorsed, put_back) = dealt_with(work.drop_last(), taken);
        match work.last() {
            OrphanTask::Check { .. } => (endorsed, put_back),
            OrphanTask::Endorse { index } => (endorsed.push(taken[index as int]), put_back),
            OrphanTask::PutBack { index } => (endorsed, put_back.push(taken[index as int])),
        }
    }
}

/// The witnesses that are right, and those that cannot be checked yet.
pub open spec fn told_apart<W>(taken: Seq<W>, verdicts: Seq<Verdict>) -> (Seq<W>, Seq<W>)
    decreases verdicts.len(),
{
    if verdicts.len() == 0 {
        (Seq::empty(), Seq::empty())
    } else {
        let (valid, early) = told_apart(taken, verdicts.drop_last());
        let witness = taken[verdicts.len() - 1];
        match verdicts.last() {
            Verdict::Valid => (valid.push(witness), early),
            Verdict::Early => (valid, early.push(witness)),
            Verdict::Refused(_) => (valid, early),
        }
    }
}

proof fn lemma_dealt_with<W>(taken: Seq<W>, verdicts: Seq<Verdict>)
    requires
        verdicts.len() <= taken.len(),
        verdicts.len() <= usize::MAX,
    ensures
        dealt_with(walk(verdicts), taken) == told_apart(taken, verdicts),
    decreases verdicts.len(),
{
    if verdicts.len() > 0 {
        let index = (verdicts.len() - 1) as usize;
        let before = walk(verdicts.drop_last());
        let checking = before + seq![OrphanTask::Check { index }];
        lemma_dealt_with(taken, verdicts.drop_last());
        assert(checking.drop_last() =~= before);
        assert(dealt_with(checking, taken) == dealt_with(before, taken));
        match verdicts.last() {
            Verdict::Refused(_) => {
                assert(walk(verdicts) =~= checking);
            },
            _ => {
                assert(walk(verdicts).drop_last() =~= checking);
            },
        }
    }
}

/// Unless one of them is refused, each of the witnesses that were taken out of the
/// pool is dealt with once: those that are right are endorsed, and those that
/// cannot be checked yet are back in the pool, none of them lost.
pub proof fn every_orphan_is_dealt_with<W>(taken: Seq<W>, verdicts: Seq<Verdict>)
    requires
        verdicts.len() == taken.len(),
        taken.len() <= usize::MAX,
        none_refused(verdicts),
    ensures
        dealt_with(orphan_work(OrphanEvent::Taken, verdicts), taken) == told_apart(taken, verdicts),
{
    orphans_are_gone_through_in_order(verdicts, verdicts.len() - 1);
    assert(verdicts.take(verdicts.len() as int) =~= verdicts);
    lemma_dealt_with(taken, verdicts);
}

proof fn lemma_told_apart<W>(taken: Seq<W>, verdicts: Seq<Verdict>, verdict: Verdict)
    requires
        verdicts.len() <= taken.len(),
        forall|i: int| 0 <= i < verdicts.len() ==> #[trigger] verdicts[i] == verdict,
    ensures
        verdict is Valid ==> told_apart(taken, verdicts) == (
            taken.take(verdicts.len() as int),
            Seq::<W>::empty(),
        ),
        verdict is Early ==> told_apart(taken, verdicts) == (
            Seq::<W>::empty(),
            taken.take(verdicts.len() as int),
        ),
    decreases verdicts.len(),
{
    let n = verdicts.len() as int;
    if n > 0 {
        assert forall|i: int| 0 <= i < n - 1 implies #[trigger] verdicts.drop_last()[i]
            == verdict by {
            assert(verdicts.drop_last()[i] == verdicts[i]);
        }
        lemma_told_apart(taken, verdicts.drop_last(), verdict);
        assert(verdicts.last() == verdicts[n - 1]);
        assert(taken.take(n) =~= taken.take(n - 1).push(taken[n - 1]));
    } else {
        assert(taken.take(n) =~= Seq::<W>::empty());
    }
}

/// Where all the witnesses that were taken out of the pool are right, all are
/// endorsed, in order, and none is put back.
pub proof fn ready_orphans_are_all_endorsed<W>(taken: Seq<W>, verdicts: Seq<Verdict>)
    requires
        verdicts.len() == taken.len(),
        taken.len() <= usize::MAX,
        forall|i: int| 0 <= i < verdicts.len() ==> #[trigger] verdicts[i] == Verdict::Valid,
    ensures
        dealt_with(orphan_work(OrphanEvent::Taken, verdicts), taken) == (taken, Seq::<W>::empty()),
{
    every_orphan_is_dealt_with(taken, verdicts);
    lemma_told_apart(taken, verdicts, Verdict::Valid);
    assert(taken.take(taken.len() as int) =~= taken);
}

/// As long as results are on record of the block that they wait for, but not of
/// all chunks, all the witnesses that were taken out of the pool are put back, in
/// order, and none is endorsed. What the chain answered may differ from one check
/// to the next.
pub proof fn waiting_orphans_are_all_put_back<'a>(
    executor: &'a ChunkExecutorActor,
    taken: Seq<&'a ChunkStateWitness<'a>>,
    new_block: &Block,
    validator_id: &AccountId,
    views: Seq<&'a ChainView>,
    applied: Seq<Option<Result<AppliedWitness, Error>>>,
    verdicts: Seq<Verdict>,
)
    requires
        taken.len() <= usize::MAX,
        taken.len() == views.len() == applied.len() == verdicts.len(),
        forall|i: int|
            0 <= i < taken.len() ==> results_incomplete(
                &executor.processor(),
                new_block.header.prev_hash,
                #[trigger] views[i],
            ),
        forall|i: int|
            0 <= i < taken.len() ==> Some(#[trigger] verdicts[i]) == spec_verdict(
                executor.orphan_processing(
                    taken[i],
                    new_block,
                    validator_id,
                    views[i],
                    applied[i],
                ),
            ),
    ensures
        dealt_with(orphan_work(OrphanEvent::Taken, verdicts), taken) == (
            Seq::<&'a ChunkStateWitness<'a>>::empty(),
            taken,
        ),
{
    assert forall|i: int| 0 <= i < taken.len() implies #[trigger] verdicts[i]
        == Verdict::Early by {
        waiting_witness_is_kept_on(
            executor,
            taken[i],
            new_block,
            validator_id,
            views[i],
            applied[i],
        );
    }
    every_orphan_is_dealt_with(taken, verdicts);
    lemma_told_apart(taken, verdicts, Verdict::Early);
    assert(taken.take(taken.len() as int) =~= taken);
}

} // verus!
