//! The task manager: which state each task is in, and what is to be done next about it.
//!
//! Starting workers, waiting and sleeping is left to the caller. Every call says what the
//! caller has to do: wake those who wait for a state to change, forget the task after
//! [`TASK_TTL_SECS`], or see a cancellation through.

use std::marker::PhantomData;
use std::sync::Arc;

use vstd::prelude::*;

use super::state::{TaskState, TypedTaskState, TypedTaskStateRef};
use super::table::{
    handles_ids, handles_insert, handles_new, handles_remove, states_get, states_insert,
    states_new, states_remove, HandleMap, StateMap, TaskKind,
};
use super::value::{TaskData, TaskValue};

verus! {

/// How long the state of an ended task is kept, in seconds.
pub const TASK_TTL_SECS: u64 = 60;

/// How long a cancelled task is given to exit by itself, in seconds.
pub const CANCEL_GRACE_SECS: u64 = 5;

/// How often a watch on a trigger looks at its task, in milliseconds.
pub const WATCH_INTERVAL_MS: u64 = 500;

/// Names a task.
#[derive(Debug, Clone, Copy, Hash, PartialEq, Eq, Structural)]
pub struct TaskId(pub u64);

impl vstd::std_specs::convert::FromSpecImpl<u64> for TaskId {
    open spec fn obeys_from_spec() -> bool {
        true
    }

    open spec fn from_spec(v: u64) -> Self {
        TaskId(v)
    }
}

impl From<u64> for TaskId {
    fn from(value: u64) -> (r: Self) {
        Self(value)
    }
}

impl vstd::std_specs::convert::FromSpecImpl<TaskId> for u64 {
    open spec fn obeys_from_spec() -> bool {
        true
    }

    open spec fn from_spec(v: TaskId) -> Self {
        v.0
    }
}

impl From<TaskId> for u64 {
    fn from(id: TaskId) -> (r: Self) {
        id.0
    }
}

/// Hands out task ids, one after the other.
#[derive(Debug)]
pub struct TaskIdCounter(u64);

impl TaskIdCounter {
    /// The id that comes next.
    pub closed spec fn view(&self) -> u64 {
        self.0
    }

    /// The next id. After the largest number comes zero.
    pub fn next(&mut self) -> (r: TaskId)
        ensures
            r.0 == old(self)@,
            final(self)@ == (if old(self)@ == u64::MAX {
                0
            } else {
                old(self)@ + 1
            }),
    {
        let id: u64 = self.0;
        self.0 = if id == u64::MAX {
            0
        } else {
            id + 1
        };
        TaskId(id)
    }
}

impl Default for TaskIdCounter {
    fn default() -> (r: Self)
        ensures
            r@ == 1,
    {
        Self(1)
    }
}

/// What a worker panicked with.
#[derive(Debug, Clone, Copy)]
pub enum PanicPayload<'a> {
    Literal(&'a str),
    Text(&'a String),
    Unknown,
}

impl<'a> PanicPayload<'a> {
    /// The message of the panic.
    pub open spec fn message(self) -> Seq<char> {
        match self {
            PanicPayload::Literal(s) => s@,
            PanicPayload::Text(s) => s@,
            PanicPayload::Unknown => "Task panicked with unknown payload"@,
        }
    }
}

/// The message of a panic.
pub fn panic_payload_to_string(payload: PanicPayload<'_>) -> (r: String)
    ensures
        r@ == payload.message(),
{
    match payload {
        PanicPayload::Literal(s) => s.to_owned(),
        PanicPayload::Text(s) => s.clone(),
        PanicPayload::Unknown => "Task panicked with unknown payload".to_owned(),
    }
}

/// How the worker of a task returned.
#[derive(Debug)]
pub enum TaskOutcome<'a> {
    Completed(TaskValue),
    Failed(TaskValue),
    Panicked(PanicPayload<'a>),
    /// The worker was dropped before it returned.
    Aborted,
}

/// `s` is the state that a task ends in when its worker returns with `o`.
pub open spec fn ends_in(o: TaskOutcome<'_>, s: TaskState) -> bool {
    match o {
        TaskOutcome::Completed(v) => s == TaskState::Completed(v),
        TaskOutcome::Failed(v) => s == TaskState::Failed(v),
        TaskOutcome::Panicked(p) => s matches TaskState::Panicked(m) && m@ == p.message(),
        TaskOutcome::Aborted => s matches TaskState::Panicked(m) && m@
            == "Task was cancelled or aborted"@,
    }
}

/// The state that a task ends in when its worker returns.
pub fn terminal_state(outcome: TaskOutcome<'_>) -> (r: TaskState)
    ensures
        ends_in(outcome, r),
        r.terminal(),
{
    match outcome {
        TaskOutcome::Completed(v) => TaskState::Completed(v),
        TaskOutcome::Failed(v) => TaskState::Failed(v),
        TaskOutcome::Panicked(p) => TaskState::Panicked(Arc::new(panic_payload_to_string(p))),
        TaskOutcome::Aborted => TaskState::Panicked(
            Arc::new("Task was cancelled or aborted".to_owned()),
        ),
    }
}

/// What can happen to a task after it was registered.
pub enum TaskEvent<'a> {
    /// The worker reports a status.
    Progress(TaskValue),
    /// The worker returns.
    Finish(TaskOutcome<'a>),
    /// The worker is gone, whether or not it returned.
    Release,
    /// Someone cancels the task.
    Cancel,
    /// The cancelled worker is known to be gone.
    Settle,
    /// The task is forgotten.
    Expire,
}

/// The state of a task in a table, if the table has one.
pub open spec fn at(states: Map<u64, TaskState>, id: TaskId) -> Option<TaskState> {
    if states.contains_key(id.0) {
        Some(states[id.0])
    } else {
        None
    }
}

/// The event `e` takes a task from the state `before` to the state `after`; `None` is a task
/// that is not in the table.
pub open spec fn steps(before: Option<TaskState>, e: TaskEvent<'_>, after: Option<TaskState>) -> bool {
    match before {
        None => after is None,
        Some(s) => match e {
            TaskEvent::Progress(v) => after == Some(
                if s.live() {
                    TaskState::Running(v)
                } else {
                    s
                },
            ),
            TaskEvent::Finish(o) => if s is Cancelling || s is Cancelled {
                after == before
            } else {
                after matches Some(t) && ends_in(o, t)
            },
            TaskEvent::Release => if s.live() {
                after matches Some(TaskState::Panicked(m)) && m@
                    == "Task executed with panic or aborted"@
            } else {
                after == before
            },
            TaskEvent::Cancel => after == Some(
                if s.live() {
                    TaskState::Cancelling
                } else {
                    s
                },
            ),
            TaskEvent::Settle => after == Some(TaskState::Cancelled),
            TaskEvent::Expire => after is None,
        },
    }
}

/// Between two tables, the event happens to one task and nothing to any other.
pub open spec fn happens(
    before: Map<u64, TaskState>,
    id: TaskId,
    e: TaskEvent<'_>,
    after: Map<u64, TaskState>,
) -> bool {
    &&& steps(at(before, id), e, at(after, id))
    &&& forall|k: TaskId| k != id ==> #[trigger] at(after, k) == at(before, k)
}

/// What became of a request for a new task.
#[derive(Debug, Clone, Copy, PartialEq, Eq, Structural)]
pub struct Spawned {
    pub id: TaskId,
    /// The worker is to be started and handed to `register`. Otherwise the task is cancelled
    /// already: wake the waiting, and forget it after [`TASK_TTL_SECS`].
    pub started: bool,
    /// How the worker is to be run.
    pub kind: TaskKind,
}

/// What is left to do of a cancellation.
#[derive(Debug, Clone, Copy, PartialEq, Eq, Structural)]
pub enum CancelPlan {
    /// The task was not there, had ended or was being cancelled already.
    Ignored,
    /// The task is marked, but no worker of it is known.
    Marked,
    /// Trigger the worker's token and follow [`cancel_work`].
    SeeThrough(TaskKind),
}

/// What is to be done when a worker is gone. The waiting are to be woken in any case.
#[derive(Debug, Clone, Copy, PartialEq, Eq, Structural)]
pub struct Released {
    /// Forget the task after [`TASK_TTL_SECS`].
    pub expire: bool,
}

/// What a look at a task gives to one who waits for it.
#[derive(Debug)]
pub enum WaitStep {
    /// The wait is over. `None` is a task that is not in the table.
    Ready(Option<TaskState>),
    /// Look again when woken.
    Wait,
}

/// What a look at a task gives to one who waits for it by a handle.
#[derive(Debug)]
pub enum TypedWaitStep<Status, Ret, Fail> {
    /// The wait is over.
    Ready(TypedTaskState<Status, Ret, Fail>),
    /// Look again when woken.
    Wait,
}

/// What a watch on a trigger does next.
#[derive(Debug, Clone, Copy, PartialEq, Eq, Structural)]
pub enum WatchStep {
    /// The watch is over.
    Stop,
    /// Look again after [`WATCH_INTERVAL_MS`], or when the trigger fires.
    Keep,
    /// The trigger cancelled the task, and the watch is over.
    Fired(CancelPlan),
}

/// The tasks of the speaker.
pub struct TaskManager {
    task_id_counter: TaskIdCounter,
    closed: bool,
    tasks: StateMap,
    handles: HandleMap,
}

impl TaskManager {
    /// The states of the tasks.
    pub closed spec fn states(self) -> Map<u64, TaskState> {
        super::table::task_states(self.tasks)
    }

    /// The workers that a cancellation can wait for.
    pub closed spec fn handles(self) -> Map<u64, TaskKind> {
        super::table::task_handles(self.handles)
    }

    /// No task is started any more.
    pub closed spec fn closed(self) -> bool {
        self.closed
    }

    /// The id that the next task gets.
    pub closed spec fn next_id(self) -> u64 {
        self.task_id_counter@
    }

    /// Nothing but the states and the workers differs.
    pub open spec fn same_config(self, other: Self) -> bool {
        self.closed() == other.closed() && self.next_id() == other.next_id()
    }

    /// Once the manager is closed, no task with a known worker is left running.
    pub open spec fn inv(self) -> bool {
        self.closed() ==> forall|id: TaskId|
            #![trigger at(self.states(), id)]
            #![trigger self.handles().contains_key(id.0)]
            self.handles().contains_key(id.0) ==> !(at(self.states(), id) matches Some(s)
                && s.live())
    }

    /// A task that lives has its worker known. This holds of every task but one whose spawn is
    /// under way: it was entered, and its worker is not registered yet.
    pub open spec fn attended(self, id: TaskId) -> bool {
        (at(self.states(), id) matches Some(s) && s.live()) ==> self.handles().contains_key(id.0)
    }

    /// The manager is closed and no task lives.
    pub open spec fn quiet(self) -> bool {
        &&& self.closed()
        &&& forall|id: TaskId|
            !((#[trigger] at(self.states(), id)) matches Some(s) && s.live())
    }

    /// No tasks, open for new ones.
    pub fn new() -> (r: Self)
        ensures
            forall|id: TaskId| r.attended(id),
            r.states() == Map::<u64, TaskState>::empty(),
            r.handles() == Map::<u64, TaskKind>::empty(),
            !r.closed(),
            r.next_id() == 1,
            r.inv(),
    {
        Self {
            task_id_counter: TaskIdCounter::default(),
            closed: false,
            tasks: states_new(),
            handles: handles_new(),
        }
    }

    fn enter(&mut self, kind: TaskKind) -> (r: Spawned)
        ensures
            enters(*old(self), r.id, r.started, *final(self)),
            r.kind == kind,
    {
        let id = self.task_id_counter.next();
        if self.closed {
            states_insert(&mut self.tasks, id.0, TaskState::Cancelled);
            proof {
                lemma_keeps(*old(self), *self, id);
            }
            return Spawned { id, started: false, kind };
        }
        states_insert(&mut self.tasks, id.0, TaskState::Pending);
        Spawned { id, started: true, kind }
    }

    /// Enters a new task that the runtime polls: waiting for its worker, or cancelled at once if
    /// the manager is closed.
    pub fn spawn(&mut self) -> (r: Spawned)
        ensures
            enters(*old(self), r.id, r.started, *final(self)),
            r.kind == TaskKind::Cooperative,
    {
        self.enter(TaskKind::Cooperative)
    }

    /// Enters a new task that runs on a thread of its own: waiting for its worker, or cancelled
    /// at once if the manager is closed.
    pub fn spawn_blocking(&mut self) -> (r: Spawned)
        ensures
            enters(*old(self), r.id, r.started, *final(self)),
            r.kind == TaskKind::Blocking,
    {
        self.enter(TaskKind::Blocking)
    }

    /// Makes the worker of a started task known. If the manager was closed meanwhile, the task
    /// is cancelled; if the task has ended meanwhile, its worker is not kept.
    pub fn register(&mut self, id: TaskId, kind: TaskKind) -> (r: CancelPlan)
        ensures
            registers(*old(self), id, kind, r, *final(self)),
    {
        handles_insert(&mut self.handles, id.0, kind);
        if self.closed {
            let plan = self.cancel_task(id);
            assert(self.handles() =~= old(self).handles().remove(id.0) || self.handles()
                =~= old(self).handles().insert(id.0, kind));
            return plan;
        }
        if let Some(state) = states_get(&self.tasks, id.0) {
            if state.is_terminal() {
                let _gone = handles_remove(&mut self.handles, id.0);
                assert(self.handles() =~= old(self).handles().remove(id.0));
            }
        }
        CancelPlan::Ignored
    }

    /// The worker returned. A task that is being cancelled, or has been, stays as it is.
    pub fn finish(&mut self, id: TaskId, outcome: TaskOutcome<'_>)
        ensures
            keeps(*old(self), *final(self)),
            happens(old(self).states(), id, TaskEvent::Finish(outcome), final(self).states()),
            final(self).handles() == old(self).handles(),
            final(self).same_config(*old(self)),
    {
        if let Some(state) = states_get(&self.tasks, id.0) {
            if !(state.is_cancelling() || state.is_cancelled()) {
                states_insert(&mut self.tasks, id.0, terminal_state(outcome));
            }
        }
        proof {
            lemma_keeps(*old(self), *self, id);
        }
    }

    /// The worker is gone. If it left no end behind and nobody cancelled it, it panicked or was
    /// dropped.
    pub fn release(&mut self, id: TaskId) -> (r: Released)
        ensures
            keeps(*old(self), *final(self)),
            happens(old(self).states(), id, TaskEvent::Release, final(self).states()),
            final(self).handles() == old(self).handles().remove(id.0),
            final(self).same_config(*old(self)),
            r.expire == match at(old(self).states(), id) {
                Some(s) => !(s is Cancelling),
                None => false,
            },
    {
        let _gone = handles_remove(&mut self.handles, id.0);
        if let Some(current_state) = states_get(&self.tasks, id.0) {
            let is_handled = current_state.is_terminal() || current_state.is_cancelling();
            let is_cancelling = current_state.is_cancelling();
            if !is_handled {
                states_insert(
                    &mut self.tasks,
                    id.0,
                    TaskState::Panicked(Arc::new("Task executed with panic or aborted".to_owned())),
                );
            }
            return Released { expire: !is_cancelling };
        }
        Released { expire: false }
    }

    /// The current state of a task.
    pub fn get_status(&self, task_id: TaskId) -> (r: Option<TaskState>)
        ensures
            r == at(self.states(), task_id),
    {
        states_get(&self.tasks, task_id.0)
    }

    /// Cancels a task at once: it is marked, and what is left to do is handed back. A task that
    /// has ended, is being cancelled or is not there is left alone.
    pub fn cancel_task(&mut self, task_id: TaskId) -> (r: CancelPlan)
        ensures
            cancels(*old(self), task_id, r, *final(self)),
    {
        match states_get(&self.tasks, task_id.0) {
            Some(state) => {
                if state.is_terminal() || state.is_cancelling() {
                    return CancelPlan::Ignored;
                }
                states_insert(&mut self.tasks, task_id.0, TaskState::Cancelling);
            },
            None => {
                return CancelPlan::Ignored;
            },
        }
        match handles_remove(&mut self.handles, task_id.0) {
            Some(kind) => CancelPlan::SeeThrough(kind),
            None => CancelPlan::Marked,
        }
    }

    /// The worker of a cancelled task is known to be gone. The waiting are to be woken, and the
    /// task is to be forgotten after [`TASK_TTL_SECS`].
    pub fn settle(&mut self, task_id: TaskId)
        ensures
            keeps(*old(self), *final(self)),
            happens(old(self).states(), task_id, TaskEvent::Settle, final(self).states()),
            final(self).handles() == old(self).handles(),
            final(self).same_config(*old(self)),
    {
        if states_get(&self.tasks, task_id.0).is_some() {
            states_insert(&mut self.tasks, task_id.0, TaskState::Cancelled);
        }
        proof {
            lemma_keeps(*old(self), *self, task_id);
        }
    }

    /// Forgets a task.
    pub fn expire(&mut self, task_id: TaskId)
        ensures
            keeps(*old(self), *final(self)),
            happens(old(self).states(), task_id, TaskEvent::Expire, final(self).states()),
            final(self).handles() == old(self).handles(),
            final(self).same_config(*old(self)),
    {
        states_remove(&mut self.tasks, task_id.0);
        proof {
            lemma_keeps(*old(self), *self, task_id);
        }
    }

    /// The worker of a task reports a status. Whether this is its first: then the waiting are
    /// to be woken.
    pub fn report(&mut self, task_id: TaskId, status: TaskValue) -> (transitioned: bool)
        ensures
            keeps(*old(self), *final(self)),
            happens(old(self).states(), task_id, TaskEvent::Progress(status), final(self).states()),
            final(self).handles() == old(self).handles(),
            final(self).same_config(*old(self)),
            transitioned == (at(old(self).states(), task_id) == Some(TaskState::Pending)),
    {
        match states_get(&self.tasks, task_id.0) {
            Some(TaskState::Pending) => {
                states_insert(&mut self.tasks, task_id.0, TaskState::Running(status));
                true
            },
            Some(TaskState::Running(_)) => {
                states_insert(&mut self.tasks, task_id.0, TaskState::Running(status));
                false
            },
            _ => false,
        }
    }

    /// Looks at a task for a trigger that may have fired: then it cancels the task. The watch
    /// is over when the trigger fired, the manager is closed or the task has ended.
    pub fn cancel_task_at(&mut self, task_id: TaskId, fired: bool) -> (r: WatchStep)
        ensures
            watches(*old(self), task_id, fired, r, *final(self)),
    {
        if fired {
            return WatchStep::Fired(self.cancel_task(task_id));
        }
        if self.closed {
            return WatchStep::Stop;
        }
        match states_get(&self.tasks, task_id.0) {
            Some(s) => {
                if s.is_terminal() {
                    WatchStep::Stop
                } else {
                    WatchStep::Keep
                }
            },
            None => WatchStep::Stop,
        }
    }

    /// Looks at a task for one who waits until its state meets a condition. The wait is over
    /// then, and when the task has ended or is not there.
    pub fn wait_for<F: Fn(&TaskState) -> bool>(&self, task_id: TaskId, pred: &F) -> (r: WaitStep)
        requires
            forall|s: &TaskState| call_requires(*pred, (s,)),
        ensures
            r is Wait ==> self.states().contains_key(task_id.0) && (
            self.states()[task_id.0] is Pending || self.states()[task_id.0] is Running
                || self.states()[task_id.0] is Cancelling),
            match at(self.states(), task_id) {
                None => r == WaitStep::Ready(None),
                Some(s) => match r {
                    WaitStep::Ready(t) => t == Some(s) && (s.terminal() || call_ensures(
                        *pred,
                        (&s,),
                        true,
                    )),
                    WaitStep::Wait => !s.terminal() && call_ensures(*pred, (&s,), false),
                },
            },
    {
        match states_get(&self.tasks, task_id.0) {
            Some(s) => {
                if pred(&s) || s.is_terminal() {
                    WaitStep::Ready(Some(s))
                } else {
                    WaitStep::Wait
                }
            },
            None => WaitStep::Ready(None),
        }
    }

    /// Looks at a task for one who waits until it has ended.
    pub fn wait_terminal(&self, task_id: TaskId) -> (r: WaitStep)
        ensures
            r is Wait <==> self.states().contains_key(task_id.0) && (
            self.states()[task_id.0] is Pending || self.states()[task_id.0] is Running
                || self.states()[task_id.0] is Cancelling),
            r == (match at(self.states(), task_id) {
                None => WaitStep::Ready(None),
                Some(s) => if s.terminal() {
                    WaitStep::Ready(Some(s))
                } else {
                    WaitStep::Wait
                },
            }),
    {
        match states_get(&self.tasks, task_id.0) {
            Some(s) => {
                if s.is_terminal() {
                    WaitStep::Ready(Some(s))
                } else {
                    WaitStep::Wait
                }
            },
            None => WaitStep::Ready(None),
        }
    }

    /// Starts no task any more, and cancels every task that has a worker. What is left to do is
    /// handed back.
    pub fn close(&mut self) -> (r: Vec<(TaskId, TaskKind)>)
        ensures
            final(self).inv(),
            keeps(*old(self), *final(self)),
            closes(*old(self), *final(self)),
            r@.no_duplicates(),
            forall|id: TaskId, kind: TaskKind| #[trigger]
                r@.contains((id, kind)) <==> old(self).cancellable(id) && old(self).handles()[id.0]
                    == kind,
    {
        self.closed = true;
        let task_ids = handles_ids(&self.handles);
        let mut plans: Vec<(TaskId, TaskKind)> = Vec::new();
        let mut i: usize = 0;
        while i < task_ids.len()
            invariant
                i <= task_ids.len(),
                task_ids@.no_duplicates(),
                forall|id: u64| old(self).handles().contains_key(id) <==> #[trigger] task_ids@.contains(
                    id,
                ),
                self.closed(),
                self.next_id() == old(self).next_id(),
                forall|id: TaskId|
                    #![trigger at(self.states(), id)]
                    #![trigger self.handles().contains_key(id.0)]
                    {
                        let done = old(self).cancellable(id) && task_ids@.take(i as int).contains(
                            id.0,
                        );
                        &&& at(self.states(), id) == (if done {
                            Some(TaskState::Cancelling)
                        } else {
                            at(old(self).states(), id)
                        })
                        &&& self.handles().contains_key(id.0) == (old(self).handles().contains_key(
                            id.0,
                        ) && !done)
                        &&& self.handles().contains_key(id.0) ==> self.handles()[id.0]
                            == old(self).handles()[id.0]
                    },
                plans@.no_duplicates(),
                forall|id: TaskId, kind: TaskKind| #[trigger]
                    plans@.contains((id, kind)) <==> old(self).cancellable(id)
                        && task_ids@.take(i as int).contains(id.0) && old(self).handles()[id.0]
                        == kind,
            decreases task_ids.len() - i,
        {
            let ghost seen = task_ids@.take(i as int);
            let ghost before = *self;
            let ghost plans_before = plans@;
            let id = TaskId(task_ids[i]);
            proof {
                assert(task_ids@.contains(id.0));
                assert(!seen.contains(id.0));
                assert(at(before.states(), id) == at(old(self).states(), id));
                assert(task_ids@.take(i + 1) =~= seen.push(id.0));
                assert forall|k: u64| #[trigger]
                    task_ids@.take(i + 1).contains(k) <==> seen.contains(k) || k == id.0 by {
                    if seen.contains(k) {
                        let j = choose|j: int| 0 <= j < seen.len() && seen[j] == k;
                        assert(seen.push(id.0)[j] == k);
                    }
                    assert(seen.push(id.0)[i as int] == id.0);
                }
            }
            if let CancelPlan::SeeThrough(kind) = self.cancel_task(id) {
                plans.push((id, kind));
                proof {
                    assert forall|a: TaskId, k: TaskKind| #[trigger]
                        plans@.contains((a, k)) <==> plans_before.contains((a, k)) || (a, k) == (
                        id,
                        kind,
                    ) by {
                        if plans_before.contains((a, k)) {
                            let j = choose|j: int|
                                0 <= j < plans_before.len() && plans_before[j] == (a, k);
                            assert(plans@[j] == (a, k));
                        }
                        assert(plans@[plans_before.len() as int] == (id, kind));
                    }
                    assert(!plans_before.contains((id, kind)));
                }
            }
            i = i + 1;
        }
        proof {
            assert(task_ids@.take(i as int) =~= task_ids@);
        }
        plans
    }

    /// Whether no task is started any more.
    pub fn is_closed(&self) -> (r: bool)
        ensures
            r == self.closed(),
    {
        self.closed
    }

    /// The task is alive and its worker is known.
    pub open spec fn cancellable(self, id: TaskId) -> bool {
        self.handles().contains_key(id.0) && (at(self.states(), id) matches Some(s) && s.live())
    }
}

/// Between two states of a manager, what holds of it, of each task and of a closed manager is
/// kept.
pub open spec fn keeps(before: TaskManager, after: TaskManager) -> bool {
    &&& before.inv() ==> after.inv()
    &&& before.quiet() ==> after.quiet()
    &&& forall|id: TaskId| before.attended(id) ==> #[trigger] after.attended(id)
}

/// Nothing that happens to one task without bringing it to life breaks what is kept.
proof fn lemma_keeps(before: TaskManager, after: TaskManager, id: TaskId)
    requires
        after.closed() == before.closed(),
        after.handles() == before.handles(),
        forall|k: TaskId| k != id ==> #[trigger] at(after.states(), k) == at(before.states(), k),
        (at(after.states(), id) matches Some(s) && s.live()) ==> (at(before.states(), id) matches Some(
            s,
        ) && s.live()),
    ensures
        keeps(before, after),
{
    assert forall|k: TaskId| before.attended(k) implies #[trigger] after.attended(k) by {
        assert(k != id ==> at(after.states(), k) == at(before.states(), k));
    }
    if before.quiet() {
        assert forall|k: TaskId|
            !((#[trigger] at(after.states(), k)) matches Some(s) && s.live()) by {
            assert(!(at(before.states(), k) matches Some(s) && s.live()));
        }
    }
    if before.inv() && before.closed() {
        assert forall|k: TaskId| after.handles().contains_key(k.0) implies !((
        #[trigger] at(after.states(), k)) matches Some(s) && s.live()) by {
            assert(before.handles().contains_key(k.0));
            assert(!(at(before.states(), k) matches Some(s) && s.live()));
        }
    }
}

/// Between two states of a manager, someone cancelled a task: if it was alive it is marked, and
/// if its worker was known the cancellation is to be seen through. Any other task is left alone.
pub open spec fn cancels(before: TaskManager, id: TaskId, plan: CancelPlan, after: TaskManager) -> bool {
    &&& happens(before.states(), id, TaskEvent::Cancel, after.states())
    &&& after.same_config(before)
    &&& keeps(before, after)
    &&& match at(before.states(), id) {
        Some(s) if s.live() => {
            &&& after.handles() == before.handles().remove(id.0)
            &&& plan == (if before.handles().contains_key(id.0) {
                CancelPlan::SeeThrough(before.handles()[id.0])
            } else {
                CancelPlan::Marked
            })
        },
        _ => {
            &&& plan == CancelPlan::Ignored
            &&& after.handles() == before.handles()
        },
    }
}

/// Between two states of a manager, a trigger that may have fired was looked at.
pub open spec fn watches(
    before: TaskManager,
    id: TaskId,
    fired: bool,
    step: WatchStep,
    after: TaskManager,
) -> bool {
    if fired {
        step matches WatchStep::Fired(plan) && cancels(before, id, plan, after)
    } else {
        &&& after == before
        &&& step == (if before.closed() {
            WatchStep::Stop
        } else {
            match at(before.states(), id) {
                Some(s) if !s.terminal() => WatchStep::Keep,
                _ => WatchStep::Stop,
            }
        })
    }
}

/// Between two states of a manager, a task was entered under the next id: waiting for its
/// worker, or cancelled at once if the manager is closed.
pub open spec fn enters(before: TaskManager, id: TaskId, started: bool, after: TaskManager) -> bool {
    &&& id.0 == before.next_id()
    &&& started == !before.closed()
    &&& after.states() == before.states().insert(
        id.0,
        if before.closed() {
            TaskState::Cancelled
        } else {
            TaskState::Pending
        },
    )
    &&& after.handles() == before.handles()
    &&& after.closed() == before.closed()
    &&& after.next_id() == (if before.next_id() == u64::MAX {
        0
    } else {
        before.next_id() + 1
    })
    &&& before.inv() ==> after.inv()
    &&& before.quiet() ==> after.quiet()
    &&& forall|k: TaskId| k != id && before.attended(k) ==> #[trigger] after.attended(k)
    &&& !started ==> after.attended(id)
}

/// Between two states of a manager, the worker of a task was made known: the task is cancelled
/// if the manager is closed, and its worker is not kept if it has ended.
pub open spec fn registers(
    before: TaskManager,
    id: TaskId,
    kind: TaskKind,
    plan: CancelPlan,
    after: TaskManager,
) -> bool {
    &&& keeps(before, after)
    &&& after.attended(id)
    &&& after.same_config(before)
    &&& if before.closed() {
        &&& happens(before.states(), id, TaskEvent::Cancel, after.states())
        &&& match at(before.states(), id) {
            Some(s) if s.live() => {
                &&& plan == CancelPlan::SeeThrough(kind)
                &&& after.handles() == before.handles().remove(id.0)
            },
            _ => {
                &&& plan == CancelPlan::Ignored
                &&& after.handles() == before.handles().insert(id.0, kind)
            },
        }
    } else {
        &&& plan == CancelPlan::Ignored
        &&& after.states() == before.states()
        &&& after.handles() == (match at(before.states(), id) {
            Some(s) if s.terminal() => before.handles().remove(id.0),
            _ => before.handles().insert(id.0, kind),
        })
    }
}

/// Between two states of a manager, every task that could be cancelled was: it is marked, and
/// its worker has been handed over. Nothing happened to the others.
pub open spec fn closes(before: TaskManager, after: TaskManager) -> bool {
    &&& after.closed()
    &&& after.next_id() == before.next_id()
    &&& forall|id: TaskId|
        #![trigger at(after.states(), id)]
        #![trigger after.handles().contains_key(id.0)]
        {
            &&& at(after.states(), id) == (if before.cancellable(id) {
                Some(TaskState::Cancelling)
            } else {
                at(before.states(), id)
            })
            &&& after.handles().contains_key(id.0) == (before.handles().contains_key(id.0)
                && !before.cancellable(id))
            &&& after.handles().contains_key(id.0) ==> after.handles()[id.0]
                == before.handles()[id.0]
        }
}

impl Default for TaskManager {
    fn default() -> (r: Self)
        ensures
            r.states() == Map::<u64, TaskState>::empty(),
            r.handles() == Map::<u64, TaskKind>::empty(),
            !r.closed(),
            r.next_id() == 1,
            r.inv(),
            forall|id: TaskId| r.attended(id),
    {
        Self::new()
    }
}

/// Lets the worker of one task report its status.
pub struct ProgressUpdater<Status> {
    task_id: TaskId,
    _phantom: PhantomData<Status>,
}

impl<Status: TaskData> ProgressUpdater<Status> {
    /// The task that is reported on.
    pub closed spec fn task(self) -> TaskId {
        self.task_id
    }

    /// An updater for a started task.
    pub fn new(task_id: TaskId) -> (r: Self)
        ensures
            r.task() == task_id,
    {
        Self { task_id, _phantom: PhantomData }
    }

    /// Reports a status. Whether this is the first of the task: then the waiting are to be
    /// woken.
    pub fn update(&self, tm: &mut TaskManager, state: Status) -> (transitioned: bool)
        ensures
            keeps(*old(tm), *final(tm)),
            exists|v: TaskValue|
                {
                    &&& Status::held(v) == Some(state)
                    &&& #[trigger] happens(
                        old(tm).states(),
                        self.task(),
                        TaskEvent::Progress(v),
                        final(tm).states(),
                    )
                },
            final(tm).handles() == old(tm).handles(),
            final(tm).same_config(*old(tm)),
            transitioned == (at(old(tm).states(), self.task()) == Some(TaskState::Pending)),
    {
        let value = state.into_value();
        let ghost v = value;
        let r = tm.report(self.task_id, value);
        assert(happens(old(tm).states(), self.task(), TaskEvent::Progress(v), tm.states()));
        r
    }
}

/// One step of seeing a cancellation through.
#[derive(Debug, Clone, Copy, PartialEq, Eq, Structural)]
pub enum CancelWork {
    /// Drop the worker at its next await. A closure on its own thread is not touched by this.
    Abort,
    /// Wait until the closure has returned.
    AwaitClosure,
    /// Wait until the worker is gone.
    AwaitWorker,
    /// Call `settle`.
    Settle,
}

/// What is left to do of a cancellation once the grace period is over, in order.
pub open spec fn work_of(kind: TaskKind, exited: bool) -> Seq<CancelWork> {
    if exited {
        seq![CancelWork::Settle]
    } else {
        match kind {
            TaskKind::Cooperative => seq![
                CancelWork::Abort,
                CancelWork::AwaitWorker,
                CancelWork::Settle,
            ],
            TaskKind::Blocking => seq![
                CancelWork::Abort,
                CancelWork::AwaitClosure,
                CancelWork::AwaitWorker,
                CancelWork::Settle,
            ],
        }
    }
}

/// What is left to do once the grace period of [`CANCEL_GRACE_SECS`] is over, in order:
/// `exited` tells whether the closure (for a blocking task) or the worker (for any other)
/// exited within it.
pub fn cancel_work(kind: TaskKind, exited: bool) -> (r: Vec<CancelWork>)
    ensures
        r@ == work_of(kind, exited),
{
    let mut work: Vec<CancelWork> = Vec::new();
    if !exited {
        work.push(CancelWork::Abort);
        if kind == TaskKind::Blocking {
            work.push(CancelWork::AwaitClosure);
        }
        work.push(CancelWork::AwaitWorker);
    }
    work.push(CancelWork::Settle);
    work
}

/// A task, with the types of its status, its result and its error.
pub struct TaskHandle<Status, Ret, Fail> {
    pub id: TaskId,
    pub _phantom: PhantomData<(Status, Ret, Fail)>,
}

impl<Status: TaskData, Ret: TaskData, Fail: TaskData> TaskHandle<Status, Ret, Fail> {
    pub fn new(id: TaskId) -> (r: Self)
        ensures
            r.id == id,
    {
        Self { id, _phantom: PhantomData }
    }

    /// `t` is the state of the task in the table `states`.
    pub open spec fn shows(
        self,
        states: Map<u64, TaskState>,
        t: TypedTaskState<Status, Ret, Fail>,
    ) -> bool {
        match at(states, self.id) {
            Some(s) => super::state::casts_to(s, t),
            None => t is Invalid,
        }
    }

    /// The current state of the task.
    pub fn status(&self, tm: &TaskManager) -> (r: TypedTaskState<Status, Ret, Fail>)
        ensures
            self.shows(tm.states(), r),
    {
        match tm.get_status(self.id) {
            Some(s) => s.to_typed(),
            None => TypedTaskState::Invalid,
        }
    }

    /// Cancels the task at once, as [`TaskManager::cancel_task`] does.
    pub fn cancel(&self, tm: &mut TaskManager) -> (r: CancelPlan)
        ensures
            cancels(*old(tm), self.id, r, *final(tm)),
    {
        tm.cancel_task(self.id)
    }

    /// Looks at the task for a trigger, as [`TaskManager::cancel_task_at`] does.
    pub fn cancel_at(&self, tm: &mut TaskManager, fired: bool) -> (r: WatchStep)
        ensures
            watches(*old(tm), self.id, fired, r, *final(tm)),
    {
        tm.cancel_task_at(self.id, fired)
    }

    /// Looks at the task for one who waits until its state meets a condition. The wait is over
    /// then, and when the task has ended, is not there or has other types than this handle. The
    /// condition is never asked about [`TypedTaskStateRef::Invalid`].
    pub fn wait_for<F>(&self, tm: &TaskManager, pred: &F) -> (r: TypedWaitStep<Status, Ret, Fail>)
        where F: for<'a> Fn(TypedTaskStateRef<'a, Status, Ret, Fail>) -> bool
        requires
            forall|s: TypedTaskStateRef<Status, Ret, Fail>|
                !(s is Invalid) ==> #[trigger] call_requires(*pred, (s,)),
        ensures
            r is Wait ==> tm.states().contains_key(self.id.0) && (
            tm.states()[self.id.0] is Pending || tm.states()[self.id.0] is Running
                || tm.states()[self.id.0] is Cancelling),
            match at(tm.states(), self.id) {
                None => r matches TypedWaitStep::Ready(t) && t is Invalid,
                Some(s) => match r {
                    TypedWaitStep::Ready(t) => {
                        &&& super::state::casts_to(s, t)
                        &&& s.terminal() || t is Invalid || exists|q|
                            super::state::casts_to_ref(s, q) && !(q is Invalid)
                                && #[trigger] call_ensures(*pred, (q,), true)
                    },
                    TypedWaitStep::Wait => {
                        &&& !s.terminal()
                        &&& exists|q|
                            super::state::casts_to_ref(s, q) && !(q is Invalid)
                                && #[trigger] call_ensures(*pred, (q,), false)
                    },
                },
            },
    {
        match tm.get_status(self.id) {
            Some(s) => {
                let hit = match s.as_typed::<Status, Ret, Fail>() {
                    TypedTaskStateRef::Invalid => true,
                    ts => pred(ts),
                };
                if hit || s.is_terminal() {
                    TypedWaitStep::Ready(s.to_typed())
                } else {
                    TypedWaitStep::Wait
                }
            },
            None => TypedWaitStep::Ready(TypedTaskState::Invalid),
        }
    }

    /// Looks at the task for one who waits until it has ended.
    pub fn wait_terminal(&self, tm: &TaskManager) -> (r: TypedWaitStep<Status, Ret, Fail>)
        ensures
            r is Wait <==> tm.states().contains_key(self.id.0) && (
            tm.states()[self.id.0] is Pending || tm.states()[self.id.0] is Running
                || tm.states()[self.id.0] is Cancelling),
            match r {
                TypedWaitStep::Ready(t) => self.shows(tm.states(), t) && (at(tm.states(), self.id)
                    matches Some(s) ==> s.terminal()),
                TypedWaitStep::Wait => at(tm.states(), self.id) matches Some(s) && !s.terminal(),
            },
    {
        match tm.wait_terminal(self.id) {
            WaitStep::Ready(Some(s)) => TypedWaitStep::Ready(s.to_typed()),
            WaitStep::Ready(None) => TypedWaitStep::Ready(TypedTaskState::Invalid),
            WaitStep::Wait => TypedWaitStep::Wait,
        }
    }
}

impl TaskManager {
    /// Enters a new task, as [`TaskManager::spawn`] does, and hands out a handle with the
    /// types of the task. The second result tells whether the worker is to be started.
    pub fn spawn_typed<Status: TaskData, Ret: TaskData, Fail: TaskData>(&mut self) -> (r: (
        TaskHandle<Status, Ret, Fail>,
        bool,
    ))
        ensures
            enters(*old(self), r.0.id, r.1, *final(self)),
    {
        let spawned = self.spawn();
        (TaskHandle::new(spawned.id), spawned.started)
    }

    /// Enters a new task, as [`TaskManager::spawn_blocking`] does, and hands out a handle with the
    /// types of the task. The second result tells whether the worker is to be started.
    pub fn spawn_blocking_typed<Status: TaskData, Ret: TaskData, Fail: TaskData>(&mut self) -> (r: (
        TaskHandle<Status, Ret, Fail>,
        bool,
    ))
        ensures
            enters(*old(self), r.0.id, r.1, *final(self)),
    {
        let spawned = self.spawn_blocking();
        (TaskHandle::new(spawned.id), spawned.started)
    }
}

} // verus!
