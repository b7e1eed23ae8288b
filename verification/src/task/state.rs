//! The states of a task: as they are kept, and cast to the types of one kind of task.

use std::sync::Arc;

use vstd::prelude::*;

use super::value::{share, TaskData, TaskValue};

verus! {

/// The state of a task, with values whose types are not known here.
#[derive(Debug)]
pub enum TaskState {
    Pending,
    Running(TaskValue),
    Cancelling,
    Completed(TaskValue),
    Failed(TaskValue),
    Cancelled,
    Panicked(Arc<String>),
}

/// How a task ended short of its result.
#[derive(Debug)]
pub enum TaskError<E> {
    Failed(Arc<E>),
    Cancelled,
    Panicked(Arc<String>),
}

/// The state of a task, borrowed and cast to the types of its handle.
pub enum TypedTaskStateRef<'a, Status, Ret, Fail> {
    /// The task has started and reported no status yet.
    Pending,
    /// The task is running and has reported a status.
    Running(&'a Status),
    /// The task is being cancelled.
    Cancelling,
    /// The task has completed.
    Completed(&'a Ret),
    /// The task has failed.
    Failed(&'a Fail),
    /// The task has been cancelled.
    Cancelled,
    /// The task has panicked.
    Panicked(&'a String),
    /// The cast failed, or there is no such task.
    Invalid,
}

/// The state of a task, cast to the types of its handle.
#[derive(Debug)]
pub enum TypedTaskState<Status, Ret, Fail> {
    /// The task has started and reported no status yet.
    Pending,
    /// The task is running and has reported a status.
    Running(Arc<Status>),
    /// The task is being cancelled.
    Cancelling,
    /// The task has completed.
    Completed(Arc<Ret>),
    /// The task has failed.
    Failed(Arc<Fail>),
    /// The task has been cancelled.
    Cancelled,
    /// The task has panicked.
    Panicked(Arc<String>),
    /// The cast failed, or there is no such task.
    Invalid,
}

impl Clone for TaskState {
    fn clone(&self) -> (r: Self)
        ensures
            r == *self,
    {
        match self {
            TaskState::Pending => TaskState::Pending,
            TaskState::Running(v) => TaskState::Running(v.clone()),
            TaskState::Cancelling => TaskState::Cancelling,
            TaskState::Completed(v) => TaskState::Completed(v.clone()),
            TaskState::Failed(v) => TaskState::Failed(v.clone()),
            TaskState::Cancelled => TaskState::Cancelled,
            TaskState::Panicked(msg) => TaskState::Panicked(share(msg)),
        }
    }
}

impl<E> Clone for TaskError<E> {
    fn clone(&self) -> (r: Self)
        ensures
            r == *self,
    {
        match self {
            TaskError::Failed(e) => TaskError::Failed(share(e)),
            TaskError::Cancelled => TaskError::Cancelled,
            TaskError::Panicked(msg) => TaskError::Panicked(share(msg)),
        }
    }
}

impl<Status, Ret, Fail> Clone for TypedTaskState<Status, Ret, Fail> {
    fn clone(&self) -> (r: Self)
        ensures
            r == *self,
    {
        match self {
            TypedTaskState::Pending => TypedTaskState::Pending,
            TypedTaskState::Running(v) => TypedTaskState::Running(share(v)),
            TypedTaskState::Cancelling => TypedTaskState::Cancelling,
            TypedTaskState::Completed(v) => TypedTaskState::Completed(share(v)),
            TypedTaskState::Failed(v) => TypedTaskState::Failed(share(v)),
            TypedTaskState::Cancelled => TypedTaskState::Cancelled,
            TypedTaskState::Panicked(msg) => TypedTaskState::Panicked(share(msg)),
            TypedTaskState::Invalid => TypedTaskState::Invalid,
        }
    }
}

/// `r` shares the value that `v` holds as a `T`, and is `None` where it holds none.
pub open spec fn shares<T: TaskData>(v: TaskValue, r: Option<Arc<T>>) -> bool {
    match r {
        Some(a) => T::held(v) == Some(*a),
        None => T::held(v) is None,
    }
}

/// `t` is the state `s` with its value cast: the same variant with the value as the type that
/// the variant calls for, or `Invalid` where the value has another type.
pub open spec fn casts_to<Status: TaskData, Ret: TaskData, Fail: TaskData>(
    s: TaskState,
    t: TypedTaskState<Status, Ret, Fail>,
) -> bool {
    match s {
        TaskState::Pending => t is Pending,
        TaskState::Cancelling => t is Cancelling,
        TaskState::Cancelled => t is Cancelled,
        TaskState::Panicked(msg) => t == TypedTaskState::<Status, Ret, Fail>::Panicked(msg),
        TaskState::Running(v) => match Status::held(v) {
            Some(x) => t matches TypedTaskState::Running(a) && *a == x,
            None => t is Invalid,
        },
        TaskState::Completed(v) => match Ret::held(v) {
            Some(x) => t matches TypedTaskState::Completed(a) && *a == x,
            None => t is Invalid,
        },
        TaskState::Failed(v) => match Fail::held(v) {
            Some(x) => t matches TypedTaskState::Failed(a) && *a == x,
            None => t is Invalid,
        },
    }
}

/// `r` is how a task in the state `s` ended: nothing while it has not, nor where its value has
/// another type.
pub open spec fn concludes<Ret: TaskData, Fail: TaskData>(
    s: TaskState,
    r: Option<Result<Arc<Ret>, TaskError<Fail>>>,
) -> bool {
    match s {
        TaskState::Completed(v) => match Ret::held(v) {
            Some(x) => r matches Some(Ok(a)) && *a == x,
            None => r is None,
        },
        TaskState::Failed(v) => match Fail::held(v) {
            Some(x) => r matches Some(Err(TaskError::Failed(a))) && *a == x,
            None => r is None,
        },
        TaskState::Cancelled => r matches Some(Err(TaskError::Cancelled)),
        TaskState::Panicked(msg) => r matches Some(Err(TaskError::Panicked(m))) && m == msg,
        _ => r is None,
    }
}

/// `r` borrows from the state `s`, cast in the same way.
pub open spec fn casts_to_ref<'a, Status: TaskData, Ret: TaskData, Fail: TaskData>(
    s: TaskState,
    r: TypedTaskStateRef<'a, Status, Ret, Fail>,
) -> bool {
    match s {
        TaskState::Pending => r is Pending,
        TaskState::Cancelling => r is Cancelling,
        TaskState::Cancelled => r is Cancelled,
        TaskState::Panicked(msg) => r matches TypedTaskStateRef::Panicked(m) && *m == *msg,
        TaskState::Running(v) => match Status::held(v) {
            Some(x) => r matches TypedTaskStateRef::Running(a) && *a == x,
            None => r is Invalid,
        },
        TaskState::Completed(v) => match Ret::held(v) {
            Some(x) => r matches TypedTaskStateRef::Completed(a) && *a == x,
            None => r is Invalid,
        },
        TaskState::Failed(v) => match Fail::held(v) {
            Some(x) => r matches TypedTaskStateRef::Failed(a) && *a == x,
            None => r is Invalid,
        },
    }
}

/// The borrowed form of a cast state.
pub open spec fn borrowed<'a, Status, Ret, Fail>(
    t: &'a TypedTaskState<Status, Ret, Fail>,
) -> TypedTaskStateRef<'a, Status, Ret, Fail> {
    match t {
        TypedTaskState::Pending => TypedTaskStateRef::Pending,
        TypedTaskState::Running(v) => TypedTaskStateRef::Running(&**v),
        TypedTaskState::Cancelling => TypedTaskStateRef::Cancelling,
        TypedTaskState::Completed(v) => TypedTaskStateRef::Completed(&**v),
        TypedTaskState::Failed(v) => TypedTaskStateRef::Failed(&**v),
        TypedTaskState::Cancelled => TypedTaskStateRef::Cancelled,
        TypedTaskState::Panicked(msg) => TypedTaskStateRef::Panicked(&**msg),
        TypedTaskState::Invalid => TypedTaskStateRef::Invalid,
    }
}

impl TaskState {
    /// The task has come to its end.
    pub open spec fn terminal(self) -> bool {
        self is Completed || self is Failed || self is Cancelled || self is Panicked
    }

    /// The task has neither ended nor been told to.
    pub open spec fn live(self) -> bool {
        self is Pending || self is Running
    }

    pub fn is_pending(&self) -> (r: bool)
        ensures
            r == (*self is Pending),
    {
        matches!(self, Self::Pending)
    }

    pub fn is_running(&self) -> (r: bool)
        ensures
            r == (*self is Running),
    {
        matches!(self, Self::Running(_))
    }

    pub fn is_cancelling(&self) -> (r: bool)
        ensures
            r == (*self is Cancelling),
    {
        matches!(self, Self::Cancelling)
    }

    pub fn is_completed(&self) -> (r: bool)
        ensures
            r == (*self is Completed),
    {
        matches!(self, Self::Completed(_))
    }

    pub fn is_failed(&self) -> (r: bool)
        ensures
            r == (*self is Failed),
    {
        matches!(self, Self::Failed(_))
    }

    pub fn is_cancelled(&self) -> (r: bool)
        ensures
            r == (*self is Cancelled),
    {
        matches!(self, Self::Cancelled)
    }

    pub fn is_panicked(&self) -> (r: bool)
        ensures
            r == (*self is Panicked),
    {
        matches!(self, Self::Panicked(_))
    }

    /// Whether the task has come to its end.
    pub fn is_terminal(&self) -> (r: bool)
        ensures
            r == self.terminal(),
    {
        matches!(
            self,
            Self::Completed(_) | Self::Failed(_) | Self::Cancelled | Self::Panicked(_)
        )
    }

    /// The name of the state, without its value.
    pub fn debug_name(&self) -> (r: &'static str)
        ensures
            r@ == (match *self {
                TaskState::Pending => "TaskState::Pending"@,
                TaskState::Running(_) => "TaskState::Running"@,
                TaskState::Cancelling => "TaskState::Cancelling"@,
                TaskState::Completed(_) => "TaskState::Completed"@,
                TaskState::Failed(_) => "TaskState::Failed"@,
                TaskState::Cancelled => "TaskState::Cancelled"@,
                TaskState::Panicked(_) => "TaskState::Panicked"@,
            }),
    {
        match self {
            TaskState::Pending => "TaskState::Pending",
            TaskState::Running(_) => "TaskState::Running",
            TaskState::Cancelling => "TaskState::Cancelling",
            TaskState::Completed(_) => "TaskState::Completed",
            TaskState::Failed(_) => "TaskState::Failed",
            TaskState::Cancelled => "TaskState::Cancelled",
            TaskState::Panicked(_) => "TaskState::Panicked",
        }
    }

    /// The status of a running task, if it has the given type.
    pub fn downcast_running<Progress: TaskData>(&self) -> (r: Option<Arc<Progress>>)
        ensures
            match *self {
                TaskState::Running(v) => shares(v, r),
                _ => r is None,
            },
    {
        if let TaskState::Running(val) = self {
            Progress::downcast(val)
        } else {
            None
        }
    }

    /// The result of a completed task, if it has the given type.
    pub fn downcast_completed<Ret: TaskData>(&self) -> (r: Option<Arc<Ret>>)
        ensures
            match *self {
                TaskState::Completed(v) => shares(v, r),
                _ => r is None,
            },
    {
        if let TaskState::Completed(val) = self {
            Ret::downcast(val)
        } else {
            None
        }
    }

    /// The error of a failed task, if it has the given type.
    pub fn downcast_failed<Fail: TaskData>(&self) -> (r: Option<Arc<Fail>>)
        ensures
            match *self {
                TaskState::Failed(v) => shares(v, r),
                _ => r is None,
            },
    {
        if let TaskState::Failed(val) = self {
            Fail::downcast(val)
        } else {
            None
        }
    }

    /// What a panicked task said.
    pub fn panicked_message(&self) -> (r: Option<Arc<String>>)
        ensures
            r == (match *self {
                TaskState::Panicked(msg) => Some(msg),
                _ => None,
            }),
    {
        if let TaskState::Panicked(msg) = self {
            Some(share(msg))
        } else {
            None
        }
    }

    /// How the task ended: nothing while it has not, nor where its value has another type.
    pub fn into_result<Ret: TaskData, Fail: TaskData>(&self) -> (r: Option<
        Result<Arc<Ret>, TaskError<Fail>>,
    >)
        ensures
            concludes(*self, r),
    {
        match self {
            TaskState::Completed(val) => match Ret::downcast(val) {
                Some(v) => Some(Ok(v)),
                None => None,
            },
            TaskState::Failed(err) => match Fail::downcast(err) {
                Some(e) => Some(Err(TaskError::Failed(e))),
                None => None,
            },
            TaskState::Cancelled => Some(Err(TaskError::Cancelled)),
            TaskState::Panicked(msg) => Some(Err(TaskError::Panicked(share(msg)))),
            _ => None,
        }
    }

    /// Casts the state to the given types.
    pub fn to_typed<Status: TaskData, Ret: TaskData, Fail: TaskData>(&self) -> (r: TypedTaskState<
        Status,
        Ret,
        Fail,
    >)
        ensures
            casts_to(*self, r),
    {
        match self {
            TaskState::Pending => TypedTaskState::Pending,
            TaskState::Cancelling => TypedTaskState::Cancelling,
            TaskState::Cancelled => TypedTaskState::Cancelled,
            TaskState::Panicked(msg) => TypedTaskState::Panicked(share(msg)),
            TaskState::Running(v) => match Status::downcast(v) {
                Some(x) => TypedTaskState::Running(x),
                None => TypedTaskState::Invalid,
            },
            TaskState::Completed(v) => match Ret::downcast(v) {
                Some(x) => TypedTaskState::Completed(x),
                None => TypedTaskState::Invalid,
            },
            TaskState::Failed(v) => match Fail::downcast(v) {
                Some(x) => TypedTaskState::Failed(x),
                None => TypedTaskState::Invalid,
            },
        }
    }

    /// Casts the state to the given types without taking a share of its value.
    pub fn as_typed<'a, Status: TaskData, Ret: TaskData, Fail: TaskData>(&'a self) -> (r:
        TypedTaskStateRef<'a, Status, Ret, Fail>)
        ensures
            casts_to_ref(*self, r),
    {
        match self {
            TaskState::Pending => TypedTaskStateRef::Pending,
            TaskState::Cancelling => TypedTaskStateRef::Cancelling,
            TaskState::Cancelled => TypedTaskStateRef::Cancelled,
            TaskState::Panicked(msg) => TypedTaskStateRef::Panicked(&**msg),
            TaskState::Running(v) => match Status::downcast_ref(v) {
                Some(x) => TypedTaskStateRef::Running(x),
                None => TypedTaskStateRef::Invalid,
            },
            TaskState::Completed(v) => match Ret::downcast_ref(v) {
                Some(x) => TypedTaskStateRef::Completed(x),
                None => TypedTaskStateRef::Invalid,
            },
            TaskState::Failed(v) => match Fail::downcast_ref(v) {
                Some(x) => TypedTaskStateRef::Failed(x),
                None => TypedTaskStateRef::Invalid,
            },
        }
    }
}

/// Casting with a share and borrowing from it gives what casting by reference gives.
pub proof fn law_cast_agrees<Status: TaskData, Ret: TaskData, Fail: TaskData>(
    s: TaskState,
    t: TypedTaskState<Status, Ret, Fail>,
    r: TypedTaskStateRef<Status, Ret, Fail>,
)
    requires
        casts_to(s, t),
        casts_to_ref(s, r),
    ensures
        borrowed(&t) == r,
{
}

/// How a task ended is what its state shows when it is cast: the same value, error or message,
/// and nothing while it has not ended or where the cast fails.
pub proof fn law_result_agrees_with_cast<Status: TaskData, Ret: TaskData, Fail: TaskData>(
    s: TaskState,
    t: TypedTaskState<Status, Ret, Fail>,
    r: Option<Result<Arc<Ret>, TaskError<Fail>>>,
)
    requires
        casts_to(s, t),
        concludes(s, r),
    ensures
        match t {
            TypedTaskState::Completed(a) => r matches Some(Ok(b)) && *a == *b,
            TypedTaskState::Failed(a) => r matches Some(Err(TaskError::Failed(b))) && *a == *b,
            TypedTaskState::Cancelled => r matches Some(Err(TaskError::Cancelled)),
            TypedTaskState::Panicked(a) => r matches Some(Err(TaskError::Panicked(b))) && a == b,
            TypedTaskState::Pending => r is None && s is Pending,
            TypedTaskState::Cancelling => r is None && s is Cancelling,
            TypedTaskState::Running(_) => r is None && s is Running,
            TypedTaskState::Invalid => s is Running || r is None,
        },
{
}

/// A cast to types whose values clone to themselves survives the way to the borrowed form and
/// back.
pub proof fn law_borrow_clone_round_trip<Status: Clone, Ret: Clone, Fail: Clone>(
    t: TypedTaskState<Status, Ret, Fail>,
    back: TypedTaskState<Status, Ret, Fail>,
)
    requires
        clones(borrowed(&t), back),
        forall|a: Status, b: Status| cloned(a, b) ==> a == b,
        forall|a: Ret, b: Ret| cloned(a, b) ==> a == b,
        forall|a: Fail, b: Fail| cloned(a, b) ==> a == b,
    ensures
        back == t,
{
}

/// A state is cast to its own variant or to `Invalid`, and to `Invalid` exactly where its value
/// has another type than the variant calls for.
pub proof fn law_cast_fails_on_other_type<Status: TaskData, Ret: TaskData, Fail: TaskData>(
    s: TaskState,
    t: TypedTaskState<Status, Ret, Fail>,
)
    requires
        casts_to(s, t),
    ensures
        t is Invalid <==> match s {
            TaskState::Running(v) => v.tag() != Status::type_tag(),
            TaskState::Completed(v) => v.tag() != Ret::type_tag(),
            TaskState::Failed(v) => v.tag() != Fail::type_tag(),
            _ => false,
        },
        s.terminal() ==> t.terminal(),
        t.terminal() ==> s.terminal() || t is Invalid,
{
    match s {
        TaskState::Running(v) => Status::held_iff_tag(v),
        TaskState::Completed(v) => Ret::held_iff_tag(v),
        TaskState::Failed(v) => Fail::held_iff_tag(v),
        _ => {},
    }
}

impl<'a, Status, Ret, Fail> TypedTaskStateRef<'a, Status, Ret, Fail> {
    /// The task has come to its end, or cannot be followed any further.
    pub open spec fn terminal(self) -> bool {
        self is Completed || self is Failed || self is Cancelled || self is Panicked
            || self is Invalid
    }

    pub fn is_pending(&self) -> (r: bool)
        ensures
            r == (*self is Pending),
    {
        matches!(self, Self::Pending)
    }

    pub fn is_running(&self) -> (r: bool)
        ensures
            r == (*self is Running),
    {
        matches!(self, Self::Running(_))
    }

    pub fn is_cancelling(&self) -> (r: bool)
        ensures
            r == (*self is Cancelling),
    {
        matches!(self, Self::Cancelling)
    }

    pub fn is_completed(&self) -> (r: bool)
        ensures
            r == (*self is Completed),
    {
        matches!(self, Self::Completed(_))
    }

    pub fn is_failed(&self) -> (r: bool)
        ensures
            r == (*self is Failed),
    {
        matches!(self, Self::Failed(_))
    }

    pub fn is_cancelled(&self) -> (r: bool)
        ensures
            r == (*self is Cancelled),
    {
        matches!(self, Self::Cancelled)
    }

    pub fn is_panicked(&self) -> (r: bool)
        ensures
            r == (*self is Panicked),
    {
        matches!(self, Self::Panicked(_))
    }

    pub fn is_invalid(&self) -> (r: bool)
        ensures
            r == (*self is Invalid),
    {
        matches!(self, Self::Invalid)
    }

    /// Whether the task has come to its end. A failed cast counts as an end.
    pub fn is_terminal(&self) -> (r: bool)
        ensures
            r == self.terminal(),
    {
        matches!(
            self,
            Self::Completed(_)
                | Self::Failed(_)
                | Self::Cancelled
                | Self::Panicked(_)
                | Self::Invalid
        )
    }
}

impl<Status, Ret, Fail> TypedTaskState<Status, Ret, Fail> {
    /// The task has come to its end, or cannot be followed any further.
    pub open spec fn terminal(self) -> bool {
        self is Completed || self is Failed || self is Cancelled || self is Panicked
            || self is Invalid
    }

    pub fn is_pending(&self) -> (r: bool)
        ensures
            r == (*self is Pending),
    {
        matches!(self, Self::Pending)
    }

    pub fn is_running(&self) -> (r: bool)
        ensures
            r == (*self is Running),
    {
        matches!(self, Self::Running(_))
    }

    pub fn is_cancelling(&self) -> (r: bool)
        ensures
            r == (*self is Cancelling),
    {
        matches!(self, Self::Cancelling)
    }

    pub fn is_completed(&self) -> (r: bool)
        ensures
            r == (*self is Completed),
    {
        matches!(self, Self::Completed(_))
    }

    pub fn is_failed(&self) -> (r: bool)
        ensures
            r == (*self is Failed),
    {
        matches!(self, Self::Failed(_))
    }

    pub fn is_cancelled(&self) -> (r: bool)
        ensures
            r == (*self is Cancelled),
    {
        matches!(self, Self::Cancelled)
    }

    pub fn is_panicked(&self) -> (r: bool)
        ensures
            r == (*self is Panicked),
    {
        matches!(self, Self::Panicked(_))
    }

    pub fn is_invalid(&self) -> (r: bool)
        ensures
            r == (*self is Invalid),
    {
        matches!(self, Self::Invalid)
    }

    /// Whether the task has come to its end. A failed cast counts as an end.
    pub fn is_terminal(&self) -> (r: bool)
        ensures
            r == self.terminal(),
    {
        matches!(
            self,
            Self::Completed(_)
                | Self::Failed(_)
                | Self::Cancelled
                | Self::Panicked(_)
                | Self::Invalid
        )
    }
}

impl<'a, Status, Ret, Fail> vstd::std_specs::convert::FromSpecImpl<&'a TypedTaskState<Status, Ret, Fail>> for TypedTaskStateRef<'a, Status, Ret, Fail> {
    open spec fn obeys_from_spec() -> bool {
        true
    }

    open spec fn from_spec(v: &'a TypedTaskState<Status, Ret, Fail>) -> Self {
        borrowed(v)
    }
}

impl<'a, Status, Ret, Fail> From<&'a TypedTaskState<Status, Ret, Fail>> for TypedTaskStateRef<'a, Status, Ret, Fail> {
    fn from(state: &'a TypedTaskState<Status, Ret, Fail>) -> (r: Self) {
        match state {
            TypedTaskState::Pending => Self::Pending,
            TypedTaskState::Cancelling => Self::Cancelling,
            TypedTaskState::Cancelled => Self::Cancelled,
            TypedTaskState::Panicked(msg) => Self::Panicked(&**msg),
            TypedTaskState::Running(v) => Self::Running(&**v),
            TypedTaskState::Completed(v) => Self::Completed(&**v),
            TypedTaskState::Failed(v) => Self::Failed(&**v),
            TypedTaskState::Invalid => Self::Invalid,
        }
    }
}

/// `t` is the borrowed state `r` with its value cloned.
pub open spec fn clones<'a, Status: Clone, Ret: Clone, Fail: Clone>(
    r: TypedTaskStateRef<'a, Status, Ret, Fail>,
    t: TypedTaskState<Status, Ret, Fail>,
) -> bool {
    match r {
        TypedTaskStateRef::Pending => t is Pending,
        TypedTaskStateRef::Cancelling => t is Cancelling,
        TypedTaskStateRef::Cancelled => t is Cancelled,
        TypedTaskStateRef::Invalid => t is Invalid,
        TypedTaskStateRef::Panicked(msg) => t matches TypedTaskState::Panicked(m) && *m == *msg,
        TypedTaskStateRef::Running(v) => t matches TypedTaskState::Running(x) && cloned(*v, *x),
        TypedTaskStateRef::Completed(v) => t matches TypedTaskState::Completed(x) && cloned(*v, *x),
        TypedTaskStateRef::Failed(v) => t matches TypedTaskState::Failed(x) && cloned(*v, *x),
    }
}

impl<'a, Status: Clone, Ret: Clone, Fail: Clone> vstd::std_specs::convert::FromSpecImpl<TypedTaskStateRef<'a, Status, Ret, Fail>> for TypedTaskState<Status, Ret, Fail> {
    open spec fn obeys_from_spec() -> bool {
        false
    }

    open spec fn from_spec(v: TypedTaskStateRef<'a, Status, Ret, Fail>) -> Self {
        arbitrary()
    }
}

impl<'a, Status: Clone, Ret: Clone, Fail: Clone> From<TypedTaskStateRef<'a, Status, Ret, Fail>> for TypedTaskState<Status, Ret, Fail> {
    fn from(state_ref: TypedTaskStateRef<'a, Status, Ret, Fail>) -> (r: Self)
        ensures
            clones(state_ref, r),
    {
        match state_ref {
            TypedTaskStateRef::Pending => Self::Pending,
            TypedTaskStateRef::Cancelling => Self::Cancelling,
            TypedTaskStateRef::Cancelled => Self::Cancelled,
            TypedTaskStateRef::Panicked(msg) => Self::Panicked(Arc::new(msg.clone())),
            TypedTaskStateRef::Running(v) => Self::Running(Arc::new(v.clone())),
            TypedTaskStateRef::Completed(v) => Self::Completed(Arc::new(v.clone())),
            TypedTaskStateRef::Failed(v) => Self::Failed(Arc::new(v.clone())),
            TypedTaskStateRef::Invalid => Self::Invalid,
        }
    }
}

} // verus!
