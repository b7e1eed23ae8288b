//! What holds of a task over the whole of its life.

use vstd::prelude::*;

use super::manager::{
    CancelPlan, CancelWork, PanicPayload, TaskEvent, TaskId, TaskManager, TaskOutcome, WatchStep,
};
use super::state::TaskState;
use super::table::TaskKind;
use super::value::TaskValue;

verus! {

/// The states that a task goes through while the events happen to it, one after the other.
pub open spec fn lives_through(states: Seq<Option<TaskState>>, events: Seq<TaskEvent<'_>>) -> bool {
    &&& states.len() == events.len() + 1
    &&& forall|i: int|
        0 <= i < events.len() ==> super::manager::steps(
            #[trigger] states[i],
            events[i],
            states[i + 1],
        )
}

/// A task that is being cancelled, or has been: whatever happens to it, it is never seen to
/// run, complete, fail or panic again.
pub proof fn law_cancellation_is_final(states: Seq<Option<TaskState>>, events: Seq<TaskEvent<'_>>)
    requires
        lives_through(states, events),
        states[0] matches Some(s) && (s is Cancelling || s is Cancelled),
    ensures
        states.last() matches Some(s) ==> s is Cancelling || s is Cancelled,
    decreases events.len(),
{
    if events.len() > 0 {
        assert(super::manager::steps(states[0], events[0], states[1]));
        if states[1] is Some {
            law_cancellation_is_final(states.skip(1), events.skip(1));
            assert(states.skip(1).last() == states.last());
        } else {
            law_forgotten_for_good(states.skip(1), events.skip(1));
            assert(states.skip(1).last() == states.last());
        }
    }
}

/// A cancelled task stays cancelled until it is forgotten.
pub proof fn law_cancelled_for_good(states: Seq<Option<TaskState>>, events: Seq<TaskEvent<'_>>)
    requires
        lives_through(states, events),
        states[0] == Some(TaskState::Cancelled),
    ensures
        states.last() is None || states.last() == Some(TaskState::Cancelled),
    decreases events.len(),
{
    if events.len() > 0 {
        assert(super::manager::steps(states[0], events[0], states[1]));
        if states[1] is Some {
            law_cancelled_for_good(states.skip(1), events.skip(1));
        } else {
            law_forgotten_for_good(states.skip(1), events.skip(1));
        }
        assert(states.skip(1).last() == states.last());
    }
}

/// A task that has been forgotten does not come back.
pub proof fn law_forgotten_for_good(states: Seq<Option<TaskState>>, events: Seq<TaskEvent<'_>>)
    requires
        lives_through(states, events),
        states[0] is None,
    ensures
        states.last() is None,
    decreases events.len(),
{
    if events.len() > 0 {
        assert(super::manager::steps(states[0], events[0], states[1]));
        law_forgotten_for_good(states.skip(1), events.skip(1));
        assert(states.skip(1).last() == states.last());
    }
}

/// An ended task keeps its end, its value with it, through every progress report, every
/// request to cancel it and the loss of its worker.
pub proof fn law_end_is_kept(states: Seq<Option<TaskState>>, events: Seq<TaskEvent<'_>>)
    requires
        lives_through(states, events),
        states[0] matches Some(s) && s.terminal(),
        forall|i: int|
            0 <= i < events.len() ==> {
                let e = #[trigger] events[i];
                e is Progress || e is Cancel || e is Release
            },
    ensures
        states.last() == states[0],
    decreases events.len(),
{
    if events.len() > 0 {
        assert(super::manager::steps(states[0], events[0], states[1]));
        assert forall|i: int| 0 <= i < events.skip(1).len() implies {
            let e = #[trigger] events.skip(1)[i];
            e is Progress || e is Cancel || e is Release
        } by {
            assert(events.skip(1)[i] == events[i + 1]);
        }
        law_end_is_kept(states.skip(1), events.skip(1));
        assert(states.skip(1).last() == states.last());
    }
}

/// Once its worker is gone, a task is not seen to run any more, whatever happens to it later.
pub proof fn law_no_life_without_worker(states: Seq<Option<TaskState>>, events: Seq<TaskEvent<'_>>)
    requires
        lives_through(states, events),
        events.len() > 0,
        events[0] is Release,
    ensures
        !(states.last() matches Some(s) && s.live()),
{
    assert(super::manager::steps(states[0], events[0], states[1]));
    lemma_not_live_stays(states.skip(1), events.skip(1));
    assert(states.skip(1).last() == states.last());
}

proof fn lemma_not_live_stays(states: Seq<Option<TaskState>>, events: Seq<TaskEvent<'_>>)
    requires
        lives_through(states, events),
        !(states[0] matches Some(s) && s.live()),
    ensures
        !(states.last() matches Some(s) && s.live()),
    decreases events.len(),
{
    if events.len() > 0 {
        assert(super::manager::steps(states[0], events[0], states[1]));
        lemma_not_live_stays(states.skip(1), events.skip(1));
        assert(states.skip(1).last() == states.last());
    }
}

/// A task that was entered, ran and returned without anyone cancelling it ends as its worker
/// returned, whatever it reported on the way, and the loss of its worker does not change that.
pub proof fn law_result_is_seen(states: Seq<Option<TaskState>>, events: Seq<TaskEvent<'_>>)
    requires
        lives_through(states, events),
        states[0] == Some(TaskState::Pending),
        events.len() >= 2,
        forall|i: int| 0 <= i < events.len() - 2 ==> (#[trigger] events[i]) is Progress,
        events[events.len() - 2] is Finish,
        events[events.len() - 1] is Release,
    ensures
        states.last() matches Some(s) && super::manager::ends_in(
            events[events.len() - 2]->Finish_0,
            s,
        ),
{
    lemma_progress_keeps_alive(states, events, events.len() - 2);
    let n = events.len() as int;
    assert(super::manager::steps(states[n - 2], events[n - 2], states[n - 1]));
    assert(super::manager::steps(states[n - 1], events[n - 1], states[n]));
}

proof fn lemma_progress_keeps_alive(
    states: Seq<Option<TaskState>>,
    events: Seq<TaskEvent<'_>>,
    n: int,
)
    requires
        lives_through(states, events),
        states[0] == Some(TaskState::Pending),
        0 <= n <= events.len(),
        forall|i: int| 0 <= i < n ==> (#[trigger] events[i]) is Progress,
    ensures
        states[n] matches Some(s) && s.live(),
    decreases n,
{
    if n > 0 {
        lemma_progress_keeps_alive(states, events, n - 1);
        assert(super::manager::steps(states[n - 1], events[n - 1], states[n]));
    }
}

/// A task that is cancelled while it lives, and then seen through, is seen as cancelled: no
/// report, no result and no loss of its worker in between changes that.
pub proof fn law_cancelled_task_is_seen_cancelled(
    states: Seq<Option<TaskState>>,
    events: Seq<TaskEvent<'_>>,
)
    requires
        lives_through(states, events),
        states[0] matches Some(s) && s.live(),
        events.len() >= 2,
        events[0] is Cancel,
        forall|i: int| 0 < i < events.len() - 1 ==> !((#[trigger] events[i]) is Expire),
        events[events.len() - 1] is Settle,
    ensures
        states[1] == Some(TaskState::Cancelling),
        states.last() == Some(TaskState::Cancelled),
{
    assert(super::manager::steps(states[0], events[0], states[1]));
    let n = events.len() as int;
    lemma_present_until_expiry(states, events, n - 1);
    assert(super::manager::steps(states[n - 1], events[n - 1], states[n]));
}

proof fn lemma_present_until_expiry(
    states: Seq<Option<TaskState>>,
    events: Seq<TaskEvent<'_>>,
    n: int,
)
    requires
        lives_through(states, events),
        states[1] is Some,
        1 <= n <= events.len(),
        forall|i: int| 0 < i < n ==> !((#[trigger] events[i]) is Expire),
    ensures
        states[n] is Some,
    decreases n,
{
    if n > 1 {
        lemma_present_until_expiry(states, events, n - 1);
        assert(super::manager::steps(states[n - 1], events[n - 1], states[n]));
    }
}

/// A watch whose trigger has not fired goes on for as long as the manager is open and the task
/// is there and has not ended: while it waits for its first report, while it runs, and while it
/// is being cancelled. It ends otherwise, and changes nothing in either case.
pub proof fn law_watch_goes_on(
    before: TaskManager,
    id: TaskId,
    step: WatchStep,
    after: TaskManager,
)
    requires
        super::manager::watches(before, id, false, step, after),
    ensures
        after == before,
        step == WatchStep::Keep || step == WatchStep::Stop,
        step == WatchStep::Keep <==> !before.closed() && before.states().contains_key(id.0) && (
        before.states()[id.0] is Pending || before.states()[id.0] is Running
            || before.states()[id.0] is Cancelling),
{
}

/// The `i`th look of a watch.
pub open spec fn watches_at(
    befores: Seq<TaskManager>,
    fired: Seq<bool>,
    steps: Seq<WatchStep>,
    afters: Seq<TaskManager>,
    id: TaskId,
    i: int,
) -> bool {
    super::manager::watches(befores[i], id, fired[i], steps[i], afters[i])
}

/// A trigger that fires while the manager is open and the task lives, and has lived at every
/// look before, finds the watch still there, and the task is being cancelled after it.
pub proof fn law_trigger_cancels(
    befores: Seq<TaskManager>,
    fired: Seq<bool>,
    steps: Seq<WatchStep>,
    afters: Seq<TaskManager>,
    id: TaskId,
)
    requires
        befores.len() > 0,
        befores.len() == fired.len() == steps.len() == afters.len(),
        forall|i: int|
            0 <= i < befores.len() ==> #[trigger] watches_at(befores, fired, steps, afters, id, i),
        forall|i: int|
            0 <= i < befores.len() ==> !(#[trigger] befores[i]).closed()
                && befores[i].states().contains_key(id.0) && (befores[i].states()[id.0] is Pending
                || befores[i].states()[id.0] is Running),
        forall|i: int| 0 <= i < fired.len() - 1 ==> !(#[trigger] fired[i]),
        fired.last(),
    ensures
        forall|i: int| 0 <= i < steps.len() - 1 ==> #[trigger] steps[i] == WatchStep::Keep,
        steps.last() is Fired,
        afters.last().states().contains_key(id.0),
        afters.last().states()[id.0] is Cancelling,
{
    let n = befores.len() as int;
    assert forall|i: int| 0 <= i < n - 1 implies #[trigger] steps[i] == WatchStep::Keep by {
        assert(watches_at(befores, fired, steps, afters, id, i));
        assert(!fired[i]);
        assert(!befores[i].closed());
    }
    assert(watches_at(befores, fired, steps, afters, id, n - 1));
    assert(!befores[n - 1].closed());
    assert(super::manager::at(afters[n - 1].states(), id) is Some);
}

/// What a worker reported last is what is seen of a task that lives, and the report of one that
/// does not changes nothing.
pub proof fn law_latest_progress_is_seen(
    before: TaskState,
    v: TaskValue,
    after: Option<TaskState>,
)
    requires
        super::manager::steps(Some(before), TaskEvent::Progress(v), after),
    ensures
        before is Pending || before is Running ==> after == Some(TaskState::Running(v)),
        !(before is Pending || before is Running) ==> after == Some(before),
{
}

/// Cancelling a task marks it if it waits or runs, and leaves it alone otherwise.
pub proof fn law_cancel_marks_the_living(before: TaskState, after: Option<TaskState>)
    requires
        super::manager::steps(Some(before), TaskEvent::Cancel, after),
    ensures
        before is Pending || before is Running ==> after == Some(TaskState::Cancelling),
        !(before is Pending || before is Running) ==> after == Some(before),
{
}

/// A task that waits or runs ends as its worker returned: with the value that it completed or
/// failed with, or with the message of its panic.
pub proof fn law_task_ends_as_its_worker_did(
    before: TaskState,
    outcome: TaskOutcome<'_>,
    after: Option<TaskState>,
)
    requires
        super::manager::steps(Some(before), TaskEvent::Finish(outcome), after),
        before is Pending || before is Running,
    ensures
        outcome matches TaskOutcome::Completed(v) ==> after == Some(TaskState::Completed(v)),
        outcome matches TaskOutcome::Failed(v) ==> after == Some(TaskState::Failed(v)),
        outcome matches TaskOutcome::Panicked(PanicPayload::Literal(text)) ==> (
        after matches Some(TaskState::Panicked(m)) && m@ == text@),
        outcome matches TaskOutcome::Panicked(PanicPayload::Text(text)) ==> (
        after matches Some(TaskState::Panicked(m)) && m@ == text@),
        outcome matches TaskOutcome::Panicked(PanicPayload::Unknown) ==> (
        after matches Some(TaskState::Panicked(_))),
        outcome is Aborted ==> (after matches Some(TaskState::Panicked(_))),
{
}

/// A worker that is gone leaves no task behind that seems to go on, and takes nothing back from
/// one that has ended or is being cancelled.
pub proof fn law_gone_worker_leaves_no_life(before: TaskState, after: Option<TaskState>)
    requires
        super::manager::steps(Some(before), TaskEvent::Release, after),
    ensures
        before is Pending || before is Running ==> (after matches Some(TaskState::Panicked(_))),
        !(before is Pending || before is Running) ==> after == Some(before),
{
}

/// What happens to one task happens to no other: every other entry of the table is as it was.
pub proof fn law_others_are_left_alone(
    before: Map<u64, TaskState>,
    id: TaskId,
    e: TaskEvent<'_>,
    after: Map<u64, TaskState>,
    other: u64,
)
    requires
        super::manager::happens(before, id, e, after),
        other != id.0,
    ensures
        after.contains_key(other) == before.contains_key(other),
        before.contains_key(other) ==> after[other] == before[other],
{
    let k = TaskId(other);
    assert(super::manager::at(after, k) == super::manager::at(before, k));
}

/// A task whose worker was made known while the manager was open can be cancelled for good: the
/// cancellation finds the worker, and waits for it as one of its kind.
pub proof fn law_known_worker_is_seen_through(
    before: TaskManager,
    id: TaskId,
    kind: TaskKind,
    plan: CancelPlan,
    known: TaskManager,
    later: CancelPlan,
    after: TaskManager,
)
    requires
        !before.closed(),
        before.states().contains_key(id.0),
        before.states()[id.0] is Pending || before.states()[id.0] is Running,
        super::manager::registers(before, id, kind, plan, known),
        super::manager::cancels(known, id, later, after),
    ensures
        plan == CancelPlan::Ignored,
        known.states() == before.states(),
        later == CancelPlan::SeeThrough(kind),
        after.states().contains_key(id.0),
        after.states()[id.0] is Cancelling,
        !after.handles().contains_key(id.0),
{
    assert(super::manager::at(after.states(), id) is Some);
}

/// A task that was entered before the manager was closed and whose worker is made known only
/// afterwards does not slip through: it is cancelled then, and that is seen through.
pub proof fn law_spawn_racing_close_is_cancelled(
    open: TaskManager,
    id: TaskId,
    entered: TaskManager,
    closed: TaskManager,
    kind: TaskKind,
    plan: CancelPlan,
    after: TaskManager,
)
    requires
        super::manager::enters(open, id, true, entered),
        !open.handles().contains_key(id.0),
        super::manager::closes(entered, closed),
        super::manager::registers(closed, id, kind, plan, after),
    ensures
        plan == CancelPlan::SeeThrough(kind),
        after.states().contains_key(id.0),
        after.states()[id.0] is Cancelling,
        after.closed(),
{
    assert(super::manager::at(entered.states(), id) == Some(TaskState::Pending));
    assert(super::manager::at(closed.states(), id) == Some(TaskState::Pending));
    assert(super::manager::at(after.states(), id) is Some);
}

/// A task that is spawned waits for its worker in an open manager and is cancelled in a closed
/// one, no other task is touched, and no worker is known of it yet.
pub proof fn law_spawned_task_is_entered(
    before: TaskManager,
    id: TaskId,
    started: bool,
    after: TaskManager,
    other: u64,
)
    requires
        super::manager::enters(before, id, started, after),
        other != id.0,
    ensures
        after.states().contains_key(id.0),
        started ==> after.states()[id.0] is Pending && !before.closed(),
        !started ==> after.states()[id.0] is Cancelled && before.closed(),
        after.states().contains_key(other) == before.states().contains_key(other),
        before.states().contains_key(other) ==> after.states()[other] == before.states()[other],
        after.handles() == before.handles(),
{
}

/// Until its ids run out, a manager never gives the same id twice: after `n` tasks the next id
/// is `n` higher.
pub proof fn law_ids_count_up(managers: Seq<TaskManager>, ids: Seq<TaskId>)
    requires
        managers.len() == ids.len() + 1,
        forall|i: int|
            0 <= i < ids.len() ==> super::manager::enters(
                #[trigger] managers[i],
                ids[i],
                !managers[i].closed(),
                managers[i + 1],
            ),
        managers[0].next_id() + ids.len() <= u64::MAX,
    ensures
        forall|i: int| 0 <= i < ids.len() ==> (#[trigger] ids[i]).0 == managers[0].next_id() + i,
        ids.no_duplicates(),
{
    assert forall|i: int| 0 <= i <= ids.len() implies (#[trigger] managers[i]).next_id()
        == managers[0].next_id() + i by {
        lemma_next_id(managers, ids, i);
    }
    assert forall|i: int| 0 <= i < ids.len() implies (#[trigger] ids[i]).0 == managers[0].next_id()
        + i by {
        assert(managers[i].next_id() == managers[0].next_id() + i);
    }
}

proof fn lemma_next_id(managers: Seq<TaskManager>, ids: Seq<TaskId>, n: int)
    requires
        managers.len() == ids.len() + 1,
        forall|i: int|
            0 <= i < ids.len() ==> super::manager::enters(
                #[trigger] managers[i],
                ids[i],
                !managers[i].closed(),
                managers[i + 1],
            ),
        managers[0].next_id() + ids.len() <= u64::MAX,
        0 <= n <= ids.len(),
    ensures
        managers[n].next_id() == managers[0].next_id() + n,
    decreases n,
{
    if n > 0 {
        lemma_next_id(managers, ids, n - 1);
        assert(super::manager::enters(
            managers[n - 1],
            ids[n - 1],
            !managers[n - 1].closed(),
            managers[n],
        ));
    }
}

/// A task whose worker is known while it lives stays so through every call but its own spawn: a
/// live task without a known worker is one that was entered and is yet to be registered.
pub proof fn law_attended_unless_under_way(
    managers: Seq<TaskManager>,
    spawned: Seq<Option<(TaskId, bool)>>,
    id: TaskId,
)
    requires
        managers.len() == spawned.len() + 1,
        managers[0].attended(id),
        forall|i: int| 0 <= i < spawned.len() ==> #[trigger] goes_on(managers, spawned, i),
        forall|i: int|
            0 <= i < spawned.len() ==> #[trigger] spawned[i] != Some((id, true)),
    ensures
        managers.last().attended(id),
    decreases spawned.len(),
{
    let n = spawned.len() as int;
    if n > 0 {
        let earlier = managers.drop_last();
        let calls = spawned.drop_last();
        assert forall|i: int| 0 <= i < calls.len() implies #[trigger] goes_on(
            earlier,
            calls,
            i,
        ) by {
            assert(goes_on(managers, spawned, i));
        }
        assert forall|i: int| 0 <= i < calls.len() implies #[trigger] calls[i] != Some(
            (id, true),
        ) by {
            assert(calls[i] == spawned[i]);
        }
        law_attended_unless_under_way(earlier, calls, id);
        assert(goes_on(managers, spawned, n - 1));
        assert(managers[n - 1].attended(id));
        assert(managers[n].attended(id));
    }
}

/// If no spawn is under way when the manager is closed, no task lives afterwards: each that did
/// is being cancelled, and nothing happened to the others.
pub proof fn law_nothing_lives_after_close(before: TaskManager, after: TaskManager)
    requires
        super::manager::closes(before, after),
        forall|id: TaskId| #[trigger] before.attended(id),
    ensures
        after.quiet(),
        forall|id: TaskId| #[trigger]
            super::manager::at(after.states(), id) == (match super::manager::at(
                before.states(),
                id,
            ) {
                Some(s) if s.live() => Some(TaskState::Cancelling),
                other => other,
            }),
{
    assert forall|id: TaskId| #[trigger]
        super::manager::at(after.states(), id) == (match super::manager::at(before.states(), id) {
        Some(s) if s.live() => Some(TaskState::Cancelling),
        other => other,
    }) by {
        assert(before.attended(id));
    }
}

/// A manager that is closed and has no live task stays so: a task that is spawned later is
/// cancelled at once, its worker is not started, and no task that is there comes to life.
pub proof fn law_closed_for_good(
    managers: Seq<TaskManager>,
    spawned: Seq<Option<(TaskId, bool)>>,
)
    requires
        managers.len() == spawned.len() + 1,
        managers[0].quiet(),
        forall|i: int| 0 <= i < spawned.len() ==> #[trigger] goes_on(managers, spawned, i),
    ensures
        managers.last().quiet(),
        forall|i: int|
            0 <= i < spawned.len() ==> ((#[trigger] spawned[i]) matches Some((id, started)) ==> {
                &&& !started
                &&& super::manager::at(managers[i + 1].states(), id) == Some(TaskState::Cancelled)
            }),
{
    assert forall|i: int| 0 <= i < managers.len() implies (#[trigger] managers[i]).quiet() by {
        lemma_quiet(managers, spawned, i);
    }
    assert forall|i: int| 0 <= i < spawned.len() implies ((
    #[trigger] spawned[i]) matches Some((id, started)) ==> {
        &&& !started
        &&& super::manager::at(managers[i + 1].states(), id) == Some(TaskState::Cancelled)
    }) by {
        assert(goes_on(managers, spawned, i));
        assert(managers[i].quiet());
    }
}

/// The `i`th call leads from one state of a manager to the next: it spawned a task, or it was
/// any other call.
pub open spec fn goes_on(
    managers: Seq<TaskManager>,
    spawned: Seq<Option<(TaskId, bool)>>,
    i: int,
) -> bool {
    match spawned[i] {
        Some((id, started)) => super::manager::enters(managers[i], id, started, managers[i + 1]),
        None => super::manager::keeps(managers[i], managers[i + 1]),
    }
}

proof fn lemma_quiet(managers: Seq<TaskManager>, spawned: Seq<Option<(TaskId, bool)>>, n: int)
    requires
        managers.len() == spawned.len() + 1,
        managers[0].quiet(),
        forall|i: int| 0 <= i < spawned.len() ==> #[trigger] goes_on(managers, spawned, i),
        0 <= n < managers.len(),
    ensures
        managers[n].quiet(),
    decreases n,
{
    if n > 0 {
        lemma_quiet(managers, spawned, n - 1);
        assert(goes_on(managers, spawned, n - 1));
    }
}

/// Closing a second time changes nothing.
pub proof fn law_close_twice(first: TaskManager, second: TaskManager, third: TaskManager, id: TaskId)
    requires
        super::manager::closes(first, second),
        super::manager::closes(second, third),
    ensures
        super::manager::at(third.states(), id) == super::manager::at(second.states(), id),
        third.handles().contains_key(id.0) == second.handles().contains_key(id.0),
        !second.cancellable(id),
{
    assert(super::manager::at(second.states(), id) == if first.cancellable(id) {
        Some(TaskState::Cancelling)
    } else {
        super::manager::at(first.states(), id)
    });
    assert(super::manager::at(third.states(), id) == super::manager::at(second.states(), id));
}

/// A cancelled task counts as cancelled only when it is really over: settling is the last
/// thing that is done, and unless the task exited by itself its worker has been waited for
/// before, and for a blocking task its closure too.
pub proof fn law_settled_only_when_over(kind: TaskKind, exited: bool, i: int)
    requires
        0 <= i < super::manager::work_of(kind, exited).len(),
        super::manager::work_of(kind, exited)[i] == CancelWork::Settle,
    ensures
        i == super::manager::work_of(kind, exited).len() - 1,
        !exited ==> exists|j: int|
            0 <= j < i && #[trigger] super::manager::work_of(kind, exited)[j] == CancelWork::AwaitWorker,
        !exited && kind == TaskKind::Blocking ==> exists|j: int|
            0 <= j < i && #[trigger] super::manager::work_of(kind, exited)[j] == CancelWork::AwaitClosure,
{
    if !exited {
        if kind == TaskKind::Blocking {
            assert(super::manager::work_of(kind, exited)[1] == CancelWork::AwaitClosure);
            assert(super::manager::work_of(kind, exited)[2] == CancelWork::AwaitWorker);
        } else {
            assert(super::manager::work_of(kind, exited)[1] == CancelWork::AwaitWorker);
        }
    }
}

} // verus!
