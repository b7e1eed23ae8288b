//! The directory of the devices: which state each is in, and what is announced when it changes.

use std::collections::hash_map::RandomState;

use dashmap::DashMap;
use vstd::prelude::*;

use super::mixer::DeviceInfo;
use super::DEVICE_GRACE;

verus! {

/// How many announcements are kept for those who are slow to listen.
pub const EVENT_BUFFER: usize = 32;

#[derive(Debug, Clone, Copy, PartialEq, Eq, Structural)]
pub enum DeviceState {
    /// The stream is being built, or built anew.
    Initializing,
    /// The stream plays.
    Ready,
    /// The device has vanished. It is dropped if it does not come back.
    Disconnected,
    /// The device was dropped, or cannot be served.
    Gone,
}

/// A device in the directory.
#[derive(Debug)]
pub struct DeviceEntry {
    pub info: DeviceInfo,
    pub state: DeviceState,
    /// When it vanished, in nanoseconds.
    pub disconnected_at: Option<u128>,
}

impl Clone for DeviceEntry {
    fn clone(&self) -> (r: Self)
        ensures
            r == *self,
    {
        Self {
            info: self.info.clone(),
            state: self.state,
            disconnected_at: self.disconnected_at,
        }
    }
}

/// What is announced of a device.
#[derive(Debug)]
pub enum DeviceEvent {
    /// It was seen for the first time.
    Added { info: DeviceInfo },
    /// Its stream plays.
    Ready { id: String },
    /// It has vanished.
    Disconnected { id: String },
    /// It was dropped, or cannot be served.
    Gone { id: String },
}

/// The state is announced when a device comes into it.
pub open spec fn announces(next: DeviceState, id: Seq<char>, ev: Option<DeviceEvent>) -> bool {
    match next {
        DeviceState::Initializing => ev is None,
        DeviceState::Ready => ev matches Some(DeviceEvent::Ready { id: i }) && i@ == id,
        DeviceState::Disconnected => ev matches Some(DeviceEvent::Disconnected { id: i }) && i@
            == id,
        DeviceState::Gone => ev matches Some(DeviceEvent::Gone { id: i }) && i@ == id,
    }
}

/// The entry of a device in another state, if it was not in that state already.
pub open spec fn moved(e: DeviceEntry, next: DeviceState, now: u128) -> DeviceEntry {
    if e.state == next {
        e
    } else {
        DeviceEntry {
            info: e.info,
            state: next,
            disconnected_at: if next == DeviceState::Disconnected {
                Some(now)
            } else {
                None
            },
        }
    }
}

/// The device vanished [`DEVICE_GRACE`] ago, or earlier, and has not come back.
pub open spec fn overdue(e: DeviceEntry, now: u128) -> bool {
    &&& e.state == DeviceState::Disconnected
    &&& e.disconnected_at matches Some(at) && now - at >= DEVICE_GRACE * 1_000_000_000
}

/// The events announce of exactly these devices that they were dropped, of each once.
pub open spec fn announces_gone(events: Seq<DeviceEvent>, ids: Seq<Seq<char>>) -> bool {
    &&& events.len() == ids.len()
    &&& forall|i: int|
        0 <= i < events.len() ==> ((#[trigger] events[i]) matches DeviceEvent::Gone { id } && id@
            == ids[i])
}

/// Between two states of the directory, the devices that were overdue were dropped, and no
/// others. `ids` are those that were, each once.
pub open spec fn reclaims(
    before: Map<Seq<char>, DeviceEntry>,
    now: u128,
    ids: Seq<Seq<char>>,
    after: Map<Seq<char>, DeviceEntry>,
) -> bool {
    &&& ids.no_duplicates()
    &&& forall|id: Seq<char>| #[trigger]
        ids.contains(id) <==> before.contains_key(id) && overdue(before[id], now)
    &&& after == before.remove_keys(ids.to_set())
}

pub(crate) type EntryMap = DashMap<String, DeviceEntry, RandomState>;

/// The devices that the map holds, by id.
pub uninterp spec fn entries_in(m: DashMap<String, DeviceEntry, RandomState>) -> Map<
    Seq<char>,
    DeviceEntry,
>;

/// Calls `DashMap::new`, which makes an empty map.
#[verifier::external_body]
fn entries_new() -> (m: EntryMap)
    ensures
        entries_in(m) == (Map::<Seq<char>, DeviceEntry>::empty()),
{
    DashMap::new()
}

/// Calls `DashMap::get` and clones the value that it finds under the key.
#[verifier::external_body]
fn entries_get(m: &EntryMap, id: &str) -> (r: Option<DeviceEntry>)
    ensures
        r == (if entries_in(*m).contains_key(id@) {
            Some(entries_in(*m)[id@])
        } else {
            None
        }),
{
    m.get(id).map(|e| e.value().clone())
}

/// Calls `DashMap::insert`, which puts the value under the key in place of any other.
#[verifier::external_body]
fn entries_insert(m: &mut EntryMap, id: String, e: DeviceEntry)
    ensures
        entries_in(*final(m)) == entries_in(*old(m)).insert(id@, e),
{
    m.insert(id, e);
}

/// Calls `DashMap::remove`, which takes out the key and its value, and tells whether they were
/// there.
#[verifier::external_body]
fn entries_remove(m: &mut EntryMap, id: &str) -> (r: bool)
    ensures
        entries_in(*final(m)) == entries_in(*old(m)).remove(id@),
        r == entries_in(*old(m)).contains_key(id@),
{
    m.remove(id).is_some()
}

/// Calls `DashMap::iter` and collects the entries: each entry of the map once, in no given
/// order.
#[verifier::external_body]
fn entries_list(m: &EntryMap) -> (r: Vec<(String, DeviceEntry)>)
    ensures
        forall|i: int, j: int|
            0 <= i < r@.len() && 0 <= j < r@.len() && i != j ==> (#[trigger] r@[i]).0@ != (
            #[trigger] r@[j]).0@,
        forall|i: int|
            0 <= i < r@.len() ==> entries_in(*m).contains_key((#[trigger] r@[i]).0@) && entries_in(
                *m,
            )[r@[i].0@] == r@[i].1,
        forall|id: Seq<char>| #[trigger]
            entries_in(*m).contains_key(id) ==> exists|i: int|
                0 <= i < r@.len() && (#[trigger] r@[i]).0@ == id,
{
    m.iter().map(|e| (e.key().clone(), e.value().clone())).collect()
}

/// The directory of the devices.
pub struct DeviceStates {
    inner: EntryMap,
}

impl DeviceStates {
    /// The devices by id.
    pub closed spec fn view(&self) -> Map<Seq<char>, DeviceEntry> {
        entries_in(self.inner)
    }

    /// Every device stands under its own id, and has a time at which it vanished if and only if
    /// it has.
    pub open spec fn wf(self) -> bool {
        forall|id: Seq<char>| #[trigger]
            self@.contains_key(id) ==> {
                &&& self@[id].info.id@ == id
                &&& self@[id].disconnected_at is Some <==> self@[id].state
                    == DeviceState::Disconnected
            }
    }

    pub fn new() -> (r: Self)
        ensures
            r.wf(),
            r@ == Map::<Seq<char>, DeviceEntry>::empty(),
    {
        Self { inner: entries_new() }
    }

    pub fn get(&self, id: &str) -> (r: Option<DeviceEntry>)
        ensures
            r == (if self@.contains_key(id@) {
                Some(self@[id@])
            } else {
                None
            }),
    {
        entries_get(&self.inner, id)
    }

    /// All devices, each once, in no given order.
    pub fn snapshot(&self) -> (r: Vec<(String, DeviceEntry)>)
        ensures
            forall|i: int, j: int|
                0 <= i < r@.len() && 0 <= j < r@.len() && i != j ==> (#[trigger] r@[i]).0@ != (
                #[trigger] r@[j]).0@,
            forall|i: int|
                0 <= i < r@.len() ==> self@.contains_key((#[trigger] r@[i]).0@) && self@[r@[i].0@]
                    == r@[i].1,
            forall|id: Seq<char>| #[trigger]
                self@.contains_key(id) ==> exists|i: int|
                    0 <= i < r@.len() && (#[trigger] r@[i]).0@ == id,
    {
        entries_list(&self.inner)
    }

    /// A device was seen. A new one is entered and announced; one that is there already starts
    /// anew, which is not announced.
    pub fn add(&mut self, info: DeviceInfo, now: u128) -> (r: Option<DeviceEvent>)
        requires
            old(self).wf(),
        ensures
            final(self).wf(),
            final(self)@.contains_key(info.id@),
            final(self)@[info.id@].state is Initializing,
            final(self)@[info.id@].disconnected_at is None,
            forall|id: Seq<char>|
                id != info.id@ ==> (#[trigger] final(self)@.contains_key(id) == old(
                    self
                )@.contains_key(id)) && (old(self)@.contains_key(id) ==> final(self)@[id] == old(
                    self
                )@[id]),
            if old(self)@.contains_key(info.id@) {
                &&& r is None
                &&& final(self)@ == old(self)@.insert(
                    info.id@,
                    moved(old(self)@[info.id@], DeviceState::Initializing, now),
                )
            } else {
                &&& r == Some(DeviceEvent::Added { info })
                &&& final(self)@ == old(self)@.insert(
                    info.id@,
                    DeviceEntry { info, state: DeviceState::Initializing, disconnected_at: None },
                )
            },
    {
        if entries_get(&self.inner, info.id.as_str()).is_some() {
            let _moved = self.transition(info.id.as_str(), DeviceState::Initializing, now);
            return None;
        }
        entries_insert(
            &mut self.inner,
            info.id.clone(),
            DeviceEntry {
                state: DeviceState::Initializing,
                disconnected_at: None,
                info: info.clone(),
            },
        );
        Some(DeviceEvent::Added { info })
    }

    /// Moves a device into a state. Whether that is a change, and what is announced of it.
    pub fn transition(&mut self, id: &str, next: DeviceState, now: u128) -> (r: (
        bool,
        Option<DeviceEvent>,
    ))
        requires
            old(self).wf(),
        ensures
            final(self).wf(),
            r.0 == (old(self)@.contains_key(id@) && old(self)@[id@].state != next),
            old(self)@.contains_key(id@) ==> final(self)@.contains_key(id@) && final(
                self
            )@[id@].state == next && final(self)@[id@].info == old(self)@[id@].info,
            forall|other: Seq<char>|
                other != id@ ==> (#[trigger] final(self)@.contains_key(other) == old(
                    self
                )@.contains_key(other)) && (old(self)@.contains_key(other) ==> final(
                    self
                )@[other] == old(self)@[other]),
            if r.0 {
                announces(next, id@, r.1)
            } else {
                r.1 is None
            },
            final(self)@ == (if old(self)@.contains_key(id@) {
                old(self)@.insert(id@, moved(old(self)@[id@], next, now))
            } else {
                old(self)@
            }),
    {
        match entries_get(&self.inner, id) {
            Some(e) => {
                if e.state == next {
                    assert(self@ =~= self@.insert(id@, self@[id@]));
                    return (false, None);
                }
                let disconnected_at: Option<u128> = if next == DeviceState::Disconnected {
                    Some(now)
                } else {
                    None
                };
                entries_insert(
                    &mut self.inner,
                    id.to_owned(),
                    DeviceEntry { info: e.info, state: next, disconnected_at },
                );
            },
            None => {
                return (false, None);
            },
        }
        let event = match next {
            DeviceState::Initializing => None,
            DeviceState::Ready => Some(DeviceEvent::Ready { id: id.to_owned() }),
            DeviceState::Disconnected => Some(DeviceEvent::Disconnected { id: id.to_owned() }),
            DeviceState::Gone => Some(DeviceEvent::Gone { id: id.to_owned() }),
        };
        (true, event)
    }

    /// Drops the devices that vanished [`DEVICE_GRACE`] ago, or earlier, and have not come back.
    /// What is announced of them.
    pub fn reclaim(&mut self, now: u128) -> (r: Vec<DeviceEvent>)
        requires
            old(self).wf(),
        ensures
            final(self).wf(),
            exists|ids: Seq<Seq<char>>| #[trigger]
                reclaims(old(self)@, now, ids, final(self)@) && announces_gone(r@, ids),
    {
        let entries = entries_list(&self.inner);
        let mut events: Vec<DeviceEvent> = Vec::new();
        let ghost mut ids: Seq<Seq<char>> = Seq::empty();
        let mut i: usize = 0;
        proof {
            assert(self@ =~= self@.remove_keys(ids.to_set()));
        }
        while i < entries.len()
            invariant
                i <= entries.len(),
                old(self).wf(),
                forall|a: int, b: int|
                    0 <= a < entries@.len() && 0 <= b < entries@.len() && a != b ==> (
                    #[trigger] entries@[a]).0@ != (#[trigger] entries@[b]).0@,
                forall|a: int|
                    0 <= a < entries@.len() ==> old(self)@.contains_key(
                        (#[trigger] entries@[a]).0@,
                    ) && old(self)@[entries@[a].0@] == entries@[a].1,
                ids.no_duplicates(),
                announces_gone(events@, ids),
                forall|id: Seq<char>| #[trigger]
                    ids.contains(id) <==> exists|a: int|
                        0 <= a < i && (#[trigger] entries@[a]).0@ == id && overdue(
                            entries@[a].1,
                            now,
                        ),
                self@ == old(self)@.remove_keys(ids.to_set()),
            decreases entries.len() - i,
        {
            let ghost was = ids;
            let ghost key = entries@[i as int].0@;
            let due = match entries[i].1.disconnected_at {
                Some(at) => entries[i].1.state == DeviceState::Disconnected && now >= at && now - at
                    >= DEVICE_GRACE as u128 * 1_000_000_000,
                None => false,
            };
            assert(due == overdue(entries@[i as int].1, now));
            assert(!was.contains(key)) by {
                if was.contains(key) {
                    let a = choose|a: int|
                        0 <= a < i && (#[trigger] entries@[a]).0@ == key && overdue(
                            entries@[a].1,
                            now,
                        );
                    assert(entries@[a].0@ != entries@[i as int].0@);
                }
            }
            if due {
                let _there = entries_remove(&mut self.inner, entries[i].0.as_str());
                events.push(DeviceEvent::Gone { id: entries[i].0.clone() });
                proof {
                    ids = was.push(key);
                    assert(ids.to_set() =~= was.to_set().insert(key)) by {
                        lemma_push_contains(was, key);
                    }
                    assert(self@ =~= old(self)@.remove_keys(ids.to_set()));
                }
            }
            proof {
                lemma_push_contains(was, key);
                assert forall|id: Seq<char>| #[trigger]
                    ids.contains(id) <==> exists|a: int|
                        0 <= a < i + 1 && (#[trigger] entries@[a]).0@ == id && overdue(
                            entries@[a].1,
                            now,
                        ) by {
                    if was.contains(id) {
                        let a = choose|a: int|
                            0 <= a < i && (#[trigger] entries@[a]).0@ == id && overdue(
                                entries@[a].1,
                                now,
                            );
                        assert(0 <= a < i + 1 && entries@[a].0@ == id);
                    }
                    if due && id == key {
                        assert(entries@[i as int].0@ == id);
                    }
                }
            }
            i = i + 1;
        }
        proof {
            assert forall|id: Seq<char>| #[trigger]
                ids.contains(id) <==> old(self)@.contains_key(id) && overdue(
                    old(self)@[id],
                    now,
                ) by {
                if old(self)@.contains_key(id) && overdue(old(self)@[id], now) {
                    let a = choose|a: int|
                        0 <= a < entries@.len() && (#[trigger] entries@[a]).0@ == id;
                    assert(0 <= a < i && entries@[a].0@ == id && overdue(entries@[a].1, now));
                }
            }
            assert(reclaims(old(self)@, now, ids, self@));
        }
        events
    }

    /// Drops a device, which is announced if it was there.
    pub fn remove(&mut self, id: &str) -> (r: Option<DeviceEvent>)
        requires
            old(self).wf(),
        ensures
            final(self).wf(),
            final(self)@ == old(self)@.remove(id@),
            if old(self)@.contains_key(id@) {
                r matches Some(DeviceEvent::Gone { id: i }) && i@ == id@
            } else {
                r is None
            },
    {
        if entries_remove(&mut self.inner, id) {
            Some(DeviceEvent::Gone { id: id.to_owned() })
        } else {
            None
        }
    }
}

proof fn lemma_push_contains(ids: Seq<Seq<char>>, key: Seq<char>)
    ensures
        forall|id: Seq<char>| #[trigger]
            ids.push(key).contains(id) <==> ids.contains(id) || id == key,
{
    assert forall|id: Seq<char>| #[trigger]
        ids.push(key).contains(id) <==> ids.contains(id) || id == key by {
        if ids.contains(id) {
            let i = choose|i: int| 0 <= i < ids.len() && ids[i] == id;
            assert(ids.push(key)[i] == id);
        }
        assert(ids.push(key)[ids.len() as int] == key);
    }
}

/// A device that vanishes is dropped when it has been away for [`DEVICE_GRACE`], and not before:
/// until then it is there as one that has vanished, and if it comes back it starts anew.
pub proof fn law_vanished_device_has_its_grace(
    before: Map<Seq<char>, DeviceEntry>,
    id: Seq<char>,
    at: u128,
    now: u128,
    ids: Seq<Seq<char>>,
    after: Map<Seq<char>, DeviceEntry>,
)
    requires
        before.contains_key(id),
        before[id].state != DeviceState::Disconnected,
        reclaims(
            before.insert(id, moved(before[id], DeviceState::Disconnected, at)),
            now,
            ids,
            after,
        ),
    ensures
        if now - at >= DEVICE_GRACE * 1_000_000_000 {
            ids.contains(id) && !after.contains_key(id)
        } else {
            &&& !ids.contains(id)
            &&& after.contains_key(id)
            &&& after[id].state == DeviceState::Disconnected
            &&& moved(after[id], DeviceState::Initializing, now) == (DeviceEntry {
                info: before[id].info,
                state: DeviceState::Initializing,
                disconnected_at: None,
            })
        },
{
    assert(ids.to_set().contains(id) <==> ids.contains(id));
}

/// A device is in the state that it was moved into last, under the same description. It keeps the
/// time at which it vanished however often that is noticed again, and loses it when it is seen
/// in any other state.
pub proof fn law_device_is_where_it_was_moved(
    e: DeviceEntry,
    next: DeviceState,
    first: u128,
    second: u128,
)
    ensures
        moved(e, next, first).state == next,
        moved(e, next, first).info == e.info,
        !(e.state is Disconnected) && next is Disconnected ==> moved(
            e,
            next,
            first,
        ).disconnected_at == Some(first),
        moved(moved(e, next, first), next, second) == moved(e, next, first),
        e.state != next && !(next is Disconnected) ==> moved(e, next, first).disconnected_at
            is None,
{
}

/// What is announced of a device is the state that it came into, under its id, and that it
/// starts anew is not announced.
pub proof fn law_announced_is_what_happened(
    next: DeviceState,
    id: Seq<char>,
    ev: Option<DeviceEvent>,
)
    requires
        announces(next, id, ev),
    ensures
        ev is None <==> next is Initializing,
        ev matches Some(DeviceEvent::Ready { id: i }) ==> next is Ready && i@ == id,
        ev matches Some(DeviceEvent::Disconnected { id: i }) ==> next is Disconnected && i@ == id,
        ev matches Some(DeviceEvent::Gone { id: i }) ==> next is Gone && i@ == id,
        !(ev matches Some(DeviceEvent::Added { .. })),
{
}

/// Every device that is dropped for having been away is announced, once, and no other device is.
pub proof fn law_dropped_devices_are_announced(
    before: Map<Seq<char>, DeviceEntry>,
    now: u128,
    ids: Seq<Seq<char>>,
    after: Map<Seq<char>, DeviceEntry>,
    events: Seq<DeviceEvent>,
    id: Seq<char>,
)
    requires
        reclaims(before, now, ids, after),
        announces_gone(events, ids),
    ensures
        before.contains_key(id) && !after.contains_key(id) <==> exists|i: int|
            0 <= i < events.len() && ((#[trigger] events[i]) matches DeviceEvent::Gone { id: s }
                && s@ == id),
        forall|i: int, j: int|
            0 <= i < j < events.len() ==> !((#[trigger] events[i]) matches DeviceEvent::Gone {
                id: s,
            } && (#[trigger] events[j]) matches DeviceEvent::Gone { id: t } && s@ == t@),
        after.contains_key(id) ==> before.contains_key(id) && after[id] == before[id],
{
    assert(ids.to_set().contains(id) <==> ids.contains(id));
    if ids.contains(id) {
        let i = choose|i: int| 0 <= i < ids.len() && ids[i] == id;
        assert(events[i] matches DeviceEvent::Gone { id: s } && s@ == id);
    }
    if exists|i: int|
        0 <= i < events.len() && ((#[trigger] events[i]) matches DeviceEvent::Gone { id: s } && s@
            == id) {
        let i = choose|i: int|
            0 <= i < events.len() && ((#[trigger] events[i]) matches DeviceEvent::Gone { id: s }
                && s@ == id);
        assert(ids[i] == id);
        assert(ids.contains(id));
    }
    assert forall|i: int, j: int| 0 <= i < j < events.len() implies !((
    #[trigger] events[i]) matches DeviceEvent::Gone { id: s } && (
    #[trigger] events[j]) matches DeviceEvent::Gone { id: t } && s@ == t@) by {
        assert(ids[i] != ids[j]);
    }
}

/// Only a device that has vanished is ever dropped for having been away.
pub proof fn law_only_the_vanished_are_reclaimed(
    before: Map<Seq<char>, DeviceEntry>,
    now: u128,
    ids: Seq<Seq<char>>,
    after: Map<Seq<char>, DeviceEntry>,
    id: Seq<char>,
)
    requires
        before.contains_key(id),
        before[id].state != DeviceState::Disconnected,
        reclaims(before, now, ids, after),
    ensures
        after.contains_key(id),
        after[id] == before[id],
{
    assert(ids.to_set().contains(id) <==> ids.contains(id));
}

impl Default for DeviceStates {
    fn default() -> (r: Self)
        ensures
            r.wf(),
            r@ == Map::<Seq<char>, DeviceEntry>::empty(),
    {
        Self::new()
    }
}

} // verus!
