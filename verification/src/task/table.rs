//! The two maps behind the task manager: the states of the tasks, and the tasks whose workers
//! can still be waited for.

use std::collections::hash_map::RandomState;

use dashmap::DashMap;
use vstd::prelude::*;

use super::state::TaskState;

verus! {

/// How a task runs.
#[derive(Debug, Clone, Copy, PartialEq, Eq, Structural)]
pub enum TaskKind {
    /// Polled by the runtime, which can drop it between two polls.
    Cooperative,
    /// A closure on a thread of its own, which only returns by itself.
    Blocking,
}

pub(crate) type StateMap = DashMap<u64, TaskState, RandomState>;

pub(crate) type HandleMap = DashMap<u64, TaskKind, RandomState>;

/// The states that the map holds, by task id.
pub uninterp spec fn task_states(m: DashMap<u64, TaskState, RandomState>) -> Map<u64, TaskState>;

/// The workers that the map holds, by task id.
pub uninterp spec fn task_handles(m: DashMap<u64, TaskKind, RandomState>) -> Map<u64, TaskKind>;

/// Calls `DashMap::new`, which makes an empty map.
#[verifier::external_body]
pub(crate) fn states_new() -> (m: StateMap)
    ensures
        task_states(m) == (Map::<u64, TaskState>::empty()),
{
    DashMap::new()
}

/// Calls `DashMap::get` and clones the value that it finds under the key.
#[verifier::external_body]
pub(crate) fn states_get(m: &StateMap, id: u64) -> (r: Option<TaskState>)
    ensures
        r == (if task_states(*m).contains_key(id) {
            Some(task_states(*m)[id])
        } else {
            None
        }),
{
    m.get(&id).map(|s| s.value().clone())
}

/// Calls `DashMap::insert`, which puts the value under the key in place of any other.
#[verifier::external_body]
pub(crate) fn states_insert(m: &mut StateMap, id: u64, state: TaskState)
    ensures
        task_states(*final(m)) == task_states(*old(m)).insert(id, state),
{
    m.insert(id, state);
}

/// Calls `DashMap::remove`, which takes out the key and its value, if they are there.
#[verifier::external_body]
pub(crate) fn states_remove(m: &mut StateMap, id: u64)
    ensures
        task_states(*final(m)) == task_states(*old(m)).remove(id),
{
    m.remove(&id);
}

/// Calls `DashMap::new`, which makes an empty map.
#[verifier::external_body]
pub(crate) fn handles_new() -> (m: HandleMap)
    ensures
        task_handles(m) == (Map::<u64, TaskKind>::empty()),
{
    DashMap::new()
}

/// Calls `DashMap::insert`, which puts the value under the key in place of any other.
#[verifier::external_body]
pub(crate) fn handles_insert(m: &mut HandleMap, id: u64, kind: TaskKind)
    ensures
        task_handles(*final(m)) == task_handles(*old(m)).insert(id, kind),
{
    m.insert(id, kind);
}

/// Calls `DashMap::remove`, which takes out the key and hands out its value, if they are there.
#[verifier::external_body]
pub(crate) fn handles_remove(m: &mut HandleMap, id: u64) -> (r: Option<TaskKind>)
    ensures
        task_handles(*final(m)) == task_handles(*old(m)).remove(id),
        r == (if task_handles(*old(m)).contains_key(id) {
            Some(task_handles(*old(m))[id])
        } else {
            None
        }),
{
    m.remove(&id).map(|e| e.1)
}

/// Calls `DashMap::iter` and collects the keys: each key of the map once, in no given order.
#[verifier::external_body]
pub(crate) fn handles_ids(m: &HandleMap) -> (r: Vec<u64>)
    ensures
        r@.no_duplicates(),
        forall|id: u64| task_handles(*m).contains_key(id) <==> #[trigger] r@.contains(id),
{
    m.iter().map(|e| *e.key()).collect()
}

} // verus!
