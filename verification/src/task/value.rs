//! The values that tasks report, and the cast back to their types.

use std::sync::Arc;

use vstd::prelude::*;

use crate::aud::handler::DeviceHandlerError;
use crate::rpc::{StoreSampleError, StoreSampleProgress, StoreSampleTaskState};

verus! {

/// Another handle to the same shared value.
///
/// Calls `Arc::clone`, whose result points to the same value as its argument.
#[verifier::external_body]
pub(crate) fn share<T>(a: &Arc<T>) -> (r: Arc<T>)
    ensures
        r == *a,
{
    a.clone()
}

/// A value whose type is known only when the program runs.
#[derive(Debug)]
pub enum TaskValue {
    Unit(Arc<()>),
    U32(Arc<u32>),
    I32(Arc<i32>),
    Text(Arc<String>),
    Progress(Arc<StoreSampleProgress>),
    StoreState(Arc<StoreSampleTaskState>),
    StoreError(Arc<StoreSampleError>),
    DeviceError(Arc<DeviceHandlerError>),
}

impl TaskValue {
    /// Which type the value has.
    pub open spec fn tag(self) -> nat {
        match self {
            TaskValue::Unit(_) => 0,
            TaskValue::U32(_) => 1,
            TaskValue::I32(_) => 2,
            TaskValue::Text(_) => 3,
            TaskValue::Progress(_) => 4,
            TaskValue::StoreState(_) => 5,
            TaskValue::StoreError(_) => 6,
            TaskValue::DeviceError(_) => 7,
        }
    }
}

impl Clone for TaskValue {
    fn clone(&self) -> (r: Self)
        ensures
            r == *self,
    {
        match self {
            TaskValue::Unit(a) => TaskValue::Unit(share(a)),
            TaskValue::U32(a) => TaskValue::U32(share(a)),
            TaskValue::I32(a) => TaskValue::I32(share(a)),
            TaskValue::Text(a) => TaskValue::Text(share(a)),
            TaskValue::Progress(a) => TaskValue::Progress(share(a)),
            TaskValue::StoreState(a) => TaskValue::StoreState(share(a)),
            TaskValue::StoreError(a) => TaskValue::StoreError(share(a)),
            TaskValue::DeviceError(a) => TaskValue::DeviceError(share(a)),
        }
    }
}

/// A type whose values tasks can report.
pub trait TaskData: Sized {
    /// The tag of this type's values.
    spec fn type_tag() -> nat;

    /// The value of this type that `v` holds, if it holds one.
    spec fn held(v: TaskValue) -> Option<Self>;

    /// A value holds a value of this type if and only if it carries this type's tag.
    proof fn held_iff_tag(v: TaskValue)
        ensures
            Self::held(v) is Some <==> v.tag() == Self::type_tag(),
    ;

    /// Shares the value out if it has this type.
    fn downcast(v: &TaskValue) -> (r: Option<Arc<Self>>)
        ensures
            match r {
                Some(a) => Self::held(*v) == Some(*a),
                None => Self::held(*v) is None,
            },
    ;

    /// Borrows the value if it has this type.
    fn downcast_ref(v: &TaskValue) -> (r: Option<&Self>)
        ensures
            match r {
                Some(a) => Self::held(*v) == Some(*a),
                None => Self::held(*v) is None,
            },
    ;

    /// Hides the type of a value.
    fn into_value(self) -> (v: TaskValue)
        ensures
            Self::held(v) == Some(self),
    ;
}

impl TaskData for () {
    open spec fn type_tag() -> nat {
        0
    }

    open spec fn held(v: TaskValue) -> Option<Self> {
        match v {
            TaskValue::Unit(a) => Some(*a),
            _ => None,
        }
    }

    proof fn held_iff_tag(v: TaskValue) {
    }

    fn downcast(v: &TaskValue) -> (r: Option<Arc<Self>>) {
        match v {
            TaskValue::Unit(a) => Some(share(a)),
            _ => None,
        }
    }

    fn downcast_ref(v: &TaskValue) -> (r: Option<&Self>) {
        match v {
            TaskValue::Unit(a) => Some(&**a),
            _ => None,
        }
    }

    fn into_value(self) -> (v: TaskValue) {
        TaskValue::Unit(Arc::new(self))
    }
}

impl TaskData for u32 {
    open spec fn type_tag() -> nat {
        1
    }

    open spec fn held(v: TaskValue) -> Option<Self> {
        match v {
            TaskValue::U32(a) => Some(*a),
            _ => None,
        }
    }

    proof fn held_iff_tag(v: TaskValue) {
    }

    fn downcast(v: &TaskValue) -> (r: Option<Arc<Self>>) {
        match v {
            TaskValue::U32(a) => Some(share(a)),
            _ => None,
        }
    }

    fn downcast_ref(v: &TaskValue) -> (r: Option<&Self>) {
        match v {
            TaskValue::U32(a) => Some(&**a),
            _ => None,
        }
    }

    fn into_value(self) -> (v: TaskValue) {
        TaskValue::U32(Arc::new(self))
    }
}

impl TaskData for i32 {
    open spec fn type_tag() -> nat {
        2
    }

    open spec fn held(v: TaskValue) -> Option<Self> {
        match v {
            TaskValue::I32(a) => Some(*a),
            _ => None,
        }
    }

    proof fn held_iff_tag(v: TaskValue) {
    }

    fn downcast(v: &TaskValue) -> (r: Option<Arc<Self>>) {
        match v {
            TaskValue::I32(a) => Some(share(a)),
            _ => None,
        }
    }

    fn downcast_ref(v: &TaskValue) -> (r: Option<&Self>) {
        match v {
            TaskValue::I32(a) => Some(&**a),
            _ => None,
        }
    }

    fn into_value(self) -> (v: TaskValue) {
        TaskValue::I32(Arc::new(self))
    }
}

impl TaskData for String {
    open spec fn type_tag() -> nat {
        3
    }

    open spec fn held(v: TaskValue) -> Option<Self> {
        match v {
            TaskValue::Text(a) => Some(*a),
            _ => None,
        }
    }

    proof fn held_iff_tag(v: TaskValue) {
    }

    fn downcast(v: &TaskValue) -> (r: Option<Arc<Self>>) {
        match v {
            TaskValue::Text(a) => Some(share(a)),
            _ => None,
        }
    }

    fn downcast_ref(v: &TaskValue) -> (r: Option<&Self>) {
        match v {
            TaskValue::Text(a) => Some(&**a),
            _ => None,
        }
    }

    fn into_value(self) -> (v: TaskValue) {
        TaskValue::Text(Arc::new(self))
    }
}

impl TaskData for StoreSampleProgress {
    open spec fn type_tag() -> nat {
        4
    }

    open spec fn held(v: TaskValue) -> Option<Self> {
        match v {
            TaskValue::Progress(a) => Some(*a),
            _ => None,
        }
    }

    proof fn held_iff_tag(v: TaskValue) {
    }

    fn downcast(v: &TaskValue) -> (r: Option<Arc<Self>>) {
        match v {
            TaskValue::Progress(a) => Some(share(a)),
            _ => None,
        }
    }

    fn downcast_ref(v: &TaskValue) -> (r: Option<&Self>) {
        match v {
            TaskValue::Progress(a) => Some(&**a),
            _ => None,
        }
    }

    fn into_value(self) -> (v: TaskValue) {
        TaskValue::Progress(Arc::new(self))
    }
}

impl TaskData for StoreSampleTaskState {
    open spec fn type_tag() -> nat {
        5
    }

    open spec fn held(v: TaskValue) -> Option<Self> {
        match v {
            TaskValue::StoreState(a) => Some(*a),
            _ => None,
        }
    }

    proof fn held_iff_tag(v: TaskValue) {
    }

    fn downcast(v: &TaskValue) -> (r: Option<Arc<Self>>) {
        match v {
            TaskValue::StoreState(a) => Some(share(a)),
            _ => None,
        }
    }

    fn downcast_ref(v: &TaskValue) -> (r: Option<&Self>) {
        match v {
            TaskValue::StoreState(a) => Some(&**a),
            _ => None,
        }
    }

    fn into_value(self) -> (v: TaskValue) {
        TaskValue::StoreState(Arc::new(self))
    }
}

impl TaskData for StoreSampleError {
    open spec fn type_tag() -> nat {
        6
    }

    open spec fn held(v: TaskValue) -> Option<Self> {
        match v {
            TaskValue::StoreError(a) => Some(*a),
            _ => None,
        }
    }

    proof fn held_iff_tag(v: TaskValue) {
    }

    fn downcast(v: &TaskValue) -> (r: Option<Arc<Self>>) {
        match v {
            TaskValue::StoreError(a) => Some(share(a)),
            _ => None,
        }
    }

    fn downcast_ref(v: &TaskValue) -> (r: Option<&Self>) {
        match v {
            TaskValue::StoreError(a) => Some(&**a),
            _ => None,
        }
    }

    fn into_value(self) -> (v: TaskValue) {
        TaskValue::StoreError(Arc::new(self))
    }
}

impl TaskData for DeviceHandlerError {
    open spec fn type_tag() -> nat {
        7
    }

    open spec fn held(v: TaskValue) -> Option<Self> {
        match v {
            TaskValue::DeviceError(a) => Some(*a),
            _ => None,
        }
    }

    proof fn held_iff_tag(v: TaskValue) {
    }

    fn downcast(v: &TaskValue) -> (r: Option<Arc<Self>>) {
        match v {
            TaskValue::DeviceError(a) => Some(share(a)),
            _ => None,
        }
    }

    fn downcast_ref(v: &TaskValue) -> (r: Option<&Self>) {
        match v {
            TaskValue::DeviceError(a) => Some(&**a),
            _ => None,
        }
    }

    fn into_value(self) -> (v: TaskValue) {
        TaskValue::DeviceError(Arc::new(self))
    }
}

} // verus!
