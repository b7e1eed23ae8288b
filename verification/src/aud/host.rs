//! Following the output devices of the host: what a look at them asks for, and which tasks are
//! started and cancelled for it.

use vstd::prelude::*;

use super::devices::{DeviceEvent, DeviceState, DeviceStates};
use super::handler::{DeviceHandlerError, StreamHandlerError};
use super::mixer::{DeviceDescription, DeviceInfo, MixerLease, Mixers};
use crate::task::manager::{CancelPlan, TaskHandle};
use crate::task::{TaskId, TaskManager, TypedTaskState};

verus! {

/// How long to wait between two looks at the devices, in seconds.
pub const HOST_POLL_SECS: u64 = 1;

/// A device that the host listed. It has no id if it vanished while it was listed.
#[derive(Debug)]
pub struct SeenDevice {
    pub id: Option<String>,
    pub description: Option<DeviceDescription>,
}

/// What a look at the devices asks for.
#[derive(Debug)]
pub enum HostAction {
    /// The device is new.
    OnDeviceAdd(Option<DeviceDescription>),
    /// The device has vanished.
    OnDeviceDel,
    /// The device is still there. The flag tells whether it is known that it cannot be served.
    OnDeviceOnline(bool, Option<DeviceDescription>),
}

/// Names are given to different things.
pub open spec fn distinct<T>(list: Seq<(String, T)>) -> bool {
    forall|i: int, j: int|
        0 <= i < list.len() && 0 <= j < list.len() && i != j ==> (#[trigger] list[i]).0@ != (
        #[trigger] list[j]).0@
}

/// The list has something under the name.
pub open spec fn lists<T>(list: Seq<(String, T)>, id: Seq<char>) -> bool {
    exists|i: int| 0 <= i < list.len() && (#[trigger] list[i]).0@ == id
}

/// What the list has under the name.
pub open spec fn listed<T>(list: Seq<(String, T)>, id: Seq<char>) -> T {
    list[choose|i: int| 0 <= i < list.len() && (#[trigger] list[i]).0@ == id].1
}

/// Where the list has something under the name.
fn find_id<T>(list: &Vec<(String, T)>, id: &String) -> (r: Option<usize>)
    ensures
        match r {
            Some(i) => {
                &&& i < list.len()
                &&& list@[i as int].0@ == id@
                &&& lists(list@, id@)
                &&& distinct(list@) ==> listed(list@, id@) == list@[i as int].1
            },
            None => !lists(list@, id@),
        },
{
    let mut i: usize = 0;
    while i < list.len()
        invariant
            i <= list.len(),
            forall|k: int| 0 <= k < i ==> (#[trigger] list@[k]).0@ != id@,
        decreases list.len() - i,
    {
        if list[i].0 == *id {
            proof {
                assert(list@[i as int].0@ == id@);
                let j = choose|j: int| 0 <= j < list@.len() && (#[trigger] list@[j]).0@ == id@;
                if distinct(list@) && i != j {
                    assert(list@[i as int].0@ != list@[j].0@);
                }
            }
            return Some(i);
        }
        i = i + 1;
    }
    None
}

/// The device of this id is the `i`th that the host listed.
pub open spec fn seen_at(snapshot: Seq<SeenDevice>, i: int, id: Seq<char>) -> bool {
    0 <= i < snapshot.len() && (snapshot[i].id matches Some(s) && s@ == id)
}

/// The host listed the device.
pub open spec fn seen(snapshot: Seq<SeenDevice>, id: Seq<char>) -> bool {
    exists|i: int| #[trigger] seen_at(snapshot, i, id)
}

/// The host listed the device for the last time at `i`.
pub open spec fn last_seen(snapshot: Seq<SeenDevice>, i: int, id: Seq<char>) -> bool {
    seen_at(snapshot, i, id) && forall|j: int| #[trigger] seen_at(snapshot, j, id) ==> j <= i
}

/// The action is what a look at the devices asks for about one of them. A device that is known
/// is online while it is listed, and is to go when it is not. One that is not known is to come,
/// or is online with nothing known against it if it is listed more than once. What the host
/// said of it last counts.
pub open spec fn calls_for(
    known: Seq<(String, bool)>,
    snapshot: Seq<SeenDevice>,
    id: Seq<char>,
    action: HostAction,
) -> bool {
    match action {
        HostAction::OnDeviceDel => lists(known, id) && !seen(snapshot, id),
        HostAction::OnDeviceAdd(desc) => {
            &&& !lists(known, id)
            &&& exists|i: int|
                {
                    &&& #[trigger] last_seen(snapshot, i, id)
                    &&& desc == snapshot[i].description
                    &&& forall|j: int| #[trigger] seen_at(snapshot, j, id) ==> j == i
                }
        },
        HostAction::OnDeviceOnline(blacklisted, desc) => exists|i: int|
            {
                &&& #[trigger] last_seen(snapshot, i, id)
                &&& desc == snapshot[i].description
                &&& if lists(known, id) {
                    blacklisted == listed(known, id)
                } else {
                    !blacklisted && exists|j: int| j < i && #[trigger] seen_at(snapshot, j, id)
                }
            },
    }
}

/// What is known of the devices after a look at them: exactly those that were listed are, and
/// nothing new is known against any.
pub open spec fn learns(
    known: Seq<(String, bool)>,
    snapshot: Seq<SeenDevice>,
    after: Seq<(String, bool)>,
) -> bool {
    &&& distinct(after)
    &&& forall|id: Seq<char>| #[trigger] lists(after, id) <==> seen(snapshot, id)
    &&& forall|i: int|
        0 <= i < after.len() ==> (#[trigger] after[i]).1 == (lists(known, after[i].0@) && listed(
            known,
            after[i].0@,
        ))
}

/// One action for every device that is known or listed, and what is known afterwards.
pub fn host_plan(known: Vec<(String, bool)>, snapshot: Vec<SeenDevice>) -> (r: (
    Vec<(String, HostAction)>,
    Vec<(String, bool)>,
))
    requires
        distinct(known@),
    ensures
        distinct(r.0@),
        forall|i: int|
            0 <= i < r.0@.len() ==> calls_for(
                known@,
                snapshot@,
                (#[trigger] r.0@[i]).0@,
                r.0@[i].1,
            ),
        forall|id: Seq<char>| #[trigger]
            lists(r.0@, id) <==> lists(known@, id) || seen(snapshot@, id),
        learns(known@, snapshot@, r.1@),
{
    let ghost all = snapshot@;
    let mut snapshot = snapshot;
    let count: usize = snapshot.len();
    let mut actions: Vec<(String, HostAction)> = Vec::new();
    let mut current: Vec<(String, bool)> = Vec::new();
    let mut n: usize = 0;
    while snapshot.len() > 0
        invariant
            n + snapshot.len() == all.len() == count,
            snapshot@ == all.skip(n as int),
            distinct(known@),
            planned(known@, all.take(n as int), actions@, current@),
        decreases snapshot.len(),
    {
        let dev = snapshot.remove(0);
        let ghost before = all.take(n as int);
        let ghost after = all.take(n + 1);
        proof {
            assert(dev == all[n as int]);
            assert(after =~= before.push(dev));
            assert(snapshot@ =~= all.skip(n + 1));
        }
        match dev.id {
            None => {
                proof {
                    lemma_skipped(known@, before, dev, actions@, current@);
                }
            },
            Some(dev_id) => {
                let ghost id = dev_id@;
                let ghost seen_dev = all[n as int];
                let ghost old_actions = actions@;
                let ghost old_current = current@;
                let at = find_id(&known, &dev_id);
                let place = find_id(&actions, &dev_id);
                let online = at.is_some() || place.is_some();
                let blacklisted = match at {
                    Some(k) => known[k].1,
                    None => false,
                };
                let action = if online {
                    HostAction::OnDeviceOnline(blacklisted, dev.description)
                } else {
                    HostAction::OnDeviceAdd(dev.description)
                };
                let ghost new_action = action;
                match place {
                    Some(k) => {
                        let ghost old_entry = actions@[k as int];
                        actions.set(k, (dev_id, action));
                        proof {
                            lemma_replaced(
                                known@,
                                before,
                                seen_dev,
                                id,
                                old_actions,
                                current@,
                                actions@,
                                k as int,
                            );
                        }
                    },
                    None => {
                        current.push((dev_id.clone(), blacklisted));
                        actions.push((dev_id, action));
                        proof {
                            lemma_pushed(
                                known@,
                                before,
                                seen_dev,
                                id,
                                old_actions,
                                old_current,
                                actions@,
                                current@,
                            );
                        }
                    },
                }
            },
        }
        n = n + 1;
    }
    assert(all.take(n as int) =~= all);
    let ghost mid = actions@;
    let mut k: usize = 0;
    while k < known.len()
        invariant
            k <= known.len(),
            distinct(known@),
            planned(known@, all, mid, current@),
            distinct(actions@),
            actions@.len() >= mid.len(),
            actions@.take(mid.len() as int) == mid,
            forall|i: int|
                0 <= i < actions@.len() ==> calls_for(
                    known@,
                    all,
                    (#[trigger] actions@[i]).0@,
                    actions@[i].1,
                ),
            forall|id: Seq<char>| #[trigger]
                lists(actions@, id) <==> seen(all, id) || exists|i: int|
                    0 <= i < k && (#[trigger] known@[i]).0@ == id,
        decreases known.len() - k,
    {
        let ghost old_actions = actions@;
        let is_present = find_id(&current, &known[k].0).is_some();
        proof {
            let id = known@[k as int].0@;
            assert(lists(known@, id));
            assert(lists(current@, id) <==> seen(all, id));
            assert(!is_present ==> !lists(old_actions, id)) by {
                if !is_present && lists(old_actions, id) {
                    let i = choose|i: int| 0 <= i < k && (#[trigger] known@[i]).0@ == id;
                    assert(known@[i].0@ != known@[k as int].0@);
                }
            }
        }
        if !is_present {
            actions.push((known[k].0.clone(), HostAction::OnDeviceDel));
            proof {
                let id = known@[k as int].0@;
                lemma_push_lists(old_actions, actions@.last());
                assert forall|i: int| 0 <= i < actions@.len() implies calls_for(
                    known@,
                    all,
                    (#[trigger] actions@[i]).0@,
                    actions@[i].1,
                ) by {
                    if i < old_actions.len() {
                        assert(actions@[i] == old_actions[i]);
                    }
                }
                assert(actions@.take(mid.len() as int) =~= mid);
            }
        }
        proof {
            let this = known@[k as int].0@;
            assert forall|id: Seq<char>| #[trigger] lists(actions@, id) <==> seen(all, id)
                || exists|i: int| 0 <= i < k + 1 && (#[trigger] known@[i]).0@ == id by {
                if lists(actions@, id) && !seen(all, id) && id != this {
                    assert(lists(old_actions, id));
                    let i = choose|i: int| 0 <= i < k && (#[trigger] known@[i]).0@ == id;
                    assert(0 <= i < k + 1 && known@[i].0@ == id);
                }
                if id == this {
                    assert(known@[k as int].0@ == id);
                }
                if exists|i: int| 0 <= i < k + 1 && (#[trigger] known@[i]).0@ == id {
                    let i = choose|i: int| 0 <= i < k + 1 && (#[trigger] known@[i]).0@ == id;
                    if i < k {
                        assert(lists(old_actions, id));
                    }
                }
            }
        }
        k = k + 1;
    }
    (actions, current)
}

/// What the plan holds after the devices so far: an action for each of them, and what is known
/// of each.
spec fn planned(
    known: Seq<(String, bool)>,
    so_far: Seq<SeenDevice>,
    actions: Seq<(String, HostAction)>,
    current: Seq<(String, bool)>,
) -> bool {
    &&& distinct(actions)
    &&& distinct(current)
    &&& forall|i: int|
        0 <= i < actions.len() ==> calls_for(known, so_far, (#[trigger] actions[i]).0@, actions[i].1)
            && !(actions[i].1 is OnDeviceDel)
    &&& forall|id: Seq<char>| #[trigger] lists(actions, id) <==> seen(so_far, id)
    &&& forall|id: Seq<char>| #[trigger] lists(current, id) <==> seen(so_far, id)
    &&& forall|i: int|
        0 <= i < current.len() ==> (#[trigger] current[i]).1 == (lists(known, current[i].0@)
            && listed(known, current[i].0@))
}

proof fn lemma_push_lists<T>(list: Seq<(String, T)>, e: (String, T))
    requires
        distinct(list),
        !lists(list, e.0@),
    ensures
        distinct(list.push(e)),
        forall|id: Seq<char>| #[trigger] lists(list.push(e), id) <==> lists(list, id) || id == e.0@,
{
    let longer = list.push(e);
    assert forall|i: int, j: int|
        0 <= i < longer.len() && 0 <= j < longer.len() && i != j implies (
    #[trigger] longer[i]).0@ != (#[trigger] longer[j]).0@ by {
        if i < list.len() && j < list.len() {
            assert(list[i].0@ != list[j].0@);
        } else if i < list.len() {
            assert(list[i].0@ != e.0@);
        } else {
            assert(list[j].0@ != e.0@);
        }
    }
    assert forall|id: Seq<char>| #[trigger] lists(longer, id) <==> lists(list, id) || id
        == e.0@ by {
        if lists(list, id) {
            let i = choose|i: int| 0 <= i < list.len() && (#[trigger] list[i]).0@ == id;
            assert(longer[i].0@ == id);
        }
        if id == e.0@ {
            assert(longer[list.len() as int].0@ == id);
        }
        if lists(longer, id) {
            let i = choose|i: int| 0 <= i < longer.len() && (#[trigger] longer[i]).0@ == id;
            if i < list.len() {
                assert(list[i].0@ == id);
            }
        }
    }
}

/// How one more device changes where a device is seen.
proof fn lemma_seen_push(before: Seq<SeenDevice>, dev: SeenDevice)
    ensures
        forall|i: int, id: Seq<char>| #[trigger]
            seen_at(before.push(dev), i, id) <==> (seen_at(before, i, id) || (i == before.len() && (
            dev.id matches Some(s) && s@ == id))),
{
}

proof fn lemma_seen_now(before: Seq<SeenDevice>, dev: SeenDevice, id: Seq<char>)
    ensures
        seen(before.push(dev), id) <==> seen(before, id) || (dev.id matches Some(s) && s@ == id),
{
    let after = before.push(dev);
    lemma_seen_push(before, dev);
    if seen(before, id) {
        let i = choose|i: int| #[trigger] seen_at(before, i, id);
        assert(seen_at(after, i, id));
    }
    if dev.id matches Some(s) && s@ == id {
        assert(seen_at(after, before.len() as int, id));
    }
    if seen(after, id) {
        let i = choose|i: int| #[trigger] seen_at(after, i, id);
        if i < before.len() {
            assert(seen_at(before, i, id));
        }
    }
}

/// A device of another id does not change what is called for.
proof fn lemma_calls_for_others(
    known: Seq<(String, bool)>,
    before: Seq<SeenDevice>,
    dev: SeenDevice,
    id: Seq<char>,
    action: HostAction,
)
    requires
        calls_for(known, before, id, action),
        !(action is OnDeviceDel),
        !(dev.id matches Some(s) && s@ == id),
    ensures
        calls_for(known, before.push(dev), id, action),
{
    let after = before.push(dev);
    lemma_seen_push(before, dev);
    match action {
        HostAction::OnDeviceAdd(desc) => {
            let i = choose|i: int|
                {
                    &&& #[trigger] last_seen(before, i, id)
                    &&& desc == before[i].description
                    &&& forall|j: int| #[trigger] seen_at(before, j, id) ==> j == i
                };
            assert forall|j: int| #[trigger] seen_at(after, j, id) implies j == i by {
                assert(seen_at(before, j, id));
            }
            assert(seen_at(after, i, id));
            assert(last_seen(after, i, id));
        },
        HostAction::OnDeviceOnline(b, desc) => {
            let i = choose|i: int|
                {
                    &&& #[trigger] last_seen(before, i, id)
                    &&& desc == before[i].description
                    &&& if lists(known, id) {
                        b == listed(known, id)
                    } else {
                        !b && exists|j: int| j < i && #[trigger] seen_at(before, j, id)
                    }
                };
            assert forall|j: int| #[trigger] seen_at(after, j, id) implies j <= i by {
                assert(seen_at(before, j, id));
            }
            assert(seen_at(after, i, id));
            assert(last_seen(after, i, id));
            if !lists(known, id) {
                let j = choose|j: int| j < i && #[trigger] seen_at(before, j, id);
                assert(j < i && seen_at(after, j, id));
            }
        },
        HostAction::OnDeviceDel => {},
    }
}

proof fn lemma_skipped(
    known: Seq<(String, bool)>,
    before: Seq<SeenDevice>,
    dev: SeenDevice,
    actions: Seq<(String, HostAction)>,
    current: Seq<(String, bool)>,
)
    requires
        planned(known, before, actions, current),
        dev.id is None,
    ensures
        planned(known, before.push(dev), actions, current),
{
    assert forall|i: int| 0 <= i < actions.len() implies calls_for(
        known,
        before.push(dev),
        (#[trigger] actions[i]).0@,
        actions[i].1,
    ) by {
        lemma_calls_for_others(known, before, dev, actions[i].0@, actions[i].1);
    }
    assert forall|id: Seq<char>| seen(before.push(dev), id) <==> #[trigger] seen(before, id) by {
        lemma_seen_now(before, dev, id);
    }
    assert forall|id: Seq<char>| #[trigger] lists(actions, id) <==> seen(before.push(dev), id) by {
        assert(seen(before.push(dev), id) <==> seen(before, id));
    }
    assert forall|id: Seq<char>| #[trigger] lists(current, id) <==> seen(before.push(dev), id) by {
        assert(seen(before.push(dev), id) <==> seen(before, id));
    }
}

/// What one more look at a device calls for.
proof fn lemma_calls_for_new(
    known: Seq<(String, bool)>,
    before: Seq<SeenDevice>,
    dev: SeenDevice,
    id: Seq<char>,
    action: HostAction,
)
    requires
        dev.id matches Some(s) && s@ == id,
        if lists(known, id) || seen(before, id) {
            action == HostAction::OnDeviceOnline(
                lists(known, id) && listed(known, id),
                dev.description,
            )
        } else {
            action == HostAction::OnDeviceAdd(dev.description)
        },
    ensures
        calls_for(known, before.push(dev), id, action),
{
    let after = before.push(dev);
    lemma_seen_push(before, dev);
    let i = before.len() as int;
    assert(seen_at(after, i, id));
    assert(last_seen(after, i, id));
    if !lists(known, id) && seen(before, id) {
        let j = choose|j: int| #[trigger] seen_at(before, j, id);
        assert(j < i && seen_at(after, j, id));
    }
    if !seen(before, id) {
        assert forall|j: int| #[trigger] seen_at(after, j, id) implies j == i by {
            if j != i {
                assert(seen_at(before, j, id));
            }
        }
    }
}

proof fn lemma_pushed(
    known: Seq<(String, bool)>,
    before: Seq<SeenDevice>,
    dev: SeenDevice,
    id: Seq<char>,
    old_actions: Seq<(String, HostAction)>,
    old_current: Seq<(String, bool)>,
    actions: Seq<(String, HostAction)>,
    current: Seq<(String, bool)>,
)
    requires
        planned(known, before, old_actions, old_current),
        dev.id matches Some(s) && s@ == id,
        !lists(old_actions, id),
        actions.len() == old_actions.len() + 1,
        actions == old_actions.push(actions.last()),
        actions.last().0@ == id,
        if lists(known, id) {
            actions.last().1 == HostAction::OnDeviceOnline(listed(known, id), dev.description)
        } else {
            actions.last().1 == HostAction::OnDeviceAdd(dev.description)
        },
        current.len() == old_current.len() + 1,
        current == old_current.push(current.last()),
        current.last().0@ == id,
        current.last().1 == (lists(known, id) && listed(known, id)),
    ensures
        planned(known, before.push(dev), actions, current),
{
    let after = before.push(dev);
    assert(!seen(before, id));
    assert(!lists(old_current, id));
    lemma_push_lists(old_actions, actions.last());
    lemma_push_lists(old_current, current.last());
    lemma_calls_for_new(known, before, dev, id, actions.last().1);
    assert forall|i: int| 0 <= i < actions.len() implies calls_for(
        known,
        after,
        (#[trigger] actions[i]).0@,
        actions[i].1,
    ) && !(actions[i].1 is OnDeviceDel) by {
        if i < old_actions.len() {
            assert(actions[i] == old_actions[i]);
            assert(old_actions[i].0@ != id);
            lemma_calls_for_others(known, before, dev, actions[i].0@, actions[i].1);
        }
    }
    assert forall|x: Seq<char>| #[trigger] lists(actions, x) <==> seen(after, x) by {
        lemma_seen_now(before, dev, x);
    }
    assert forall|x: Seq<char>| #[trigger] lists(current, x) <==> seen(after, x) by {
        lemma_seen_now(before, dev, x);
    }
}

proof fn lemma_replaced(
    known: Seq<(String, bool)>,
    before: Seq<SeenDevice>,
    dev: SeenDevice,
    id: Seq<char>,
    old_actions: Seq<(String, HostAction)>,
    current: Seq<(String, bool)>,
    actions: Seq<(String, HostAction)>,
    k: int,
)
    requires
        planned(known, before, old_actions, current),
        dev.id matches Some(s) && s@ == id,
        0 <= k < old_actions.len(),
        old_actions[k].0@ == id,
        actions == old_actions.update(k, actions[k]),
        actions[k].0@ == id,
        actions[k].1 == HostAction::OnDeviceOnline(
            lists(known, id) && listed(known, id),
            dev.description,
        ),
    ensures
        planned(known, before.push(dev), actions, current),
{
    let after = before.push(dev);
    assert(lists(old_actions, id));
    assert(seen(before, id));
    lemma_calls_for_new(known, before, dev, id, actions[k].1);
    assert forall|i: int, j: int|
        0 <= i < actions.len() && 0 <= j < actions.len() && i != j implies (
    #[trigger] actions[i]).0@ != (#[trigger] actions[j]).0@ by {
        assert(old_actions[i].0@ != old_actions[j].0@);
    }
    assert forall|i: int| 0 <= i < actions.len() implies calls_for(
        known,
        after,
        (#[trigger] actions[i]).0@,
        actions[i].1,
    ) && !(actions[i].1 is OnDeviceDel) by {
        if i != k {
            assert(actions[i] == old_actions[i]);
            assert(old_actions[i].0@ != old_actions[k].0@);
            lemma_calls_for_others(known, before, dev, actions[i].0@, actions[i].1);
        }
    }
    assert forall|x: Seq<char>| #[trigger] lists(actions, x) <==> seen(after, x) by {
        lemma_seen_now(before, dev, x);
        if lists(actions, x) {
            let i = choose|i: int| 0 <= i < actions.len() && (#[trigger] actions[i]).0@ == x;
            assert(old_actions[i].0@ == x);
            assert(lists(old_actions, x));
        }
        if lists(old_actions, x) {
            let i = choose|i: int|
                0 <= i < old_actions.len() && (#[trigger] old_actions[i]).0@ == x;
            assert(actions[i].0@ == x);
        }
    }
    assert forall|x: Seq<char>| #[trigger] lists(current, x) <==> seen(after, x) by {
        lemma_seen_now(before, dev, x);
    }
}

/// Something for each of several devices, by their ids.
#[derive(Debug)]
pub struct IdMap<T> {
    pub items: Vec<(String, T)>,
}

impl<T: Copy> IdMap<T> {
    /// What there is, by id.
    pub open spec fn view(&self) -> Map<Seq<char>, T> {
        Map::new(|id: Seq<char>| lists(self.items@, id), |id: Seq<char>| listed(self.items@, id))
    }

    /// No id stands twice.
    pub open spec fn wf(self) -> bool {
        distinct(self.items@)
    }

    pub fn new() -> (r: Self)
        ensures
            r.wf(),
            r@ == Map::<Seq<char>, T>::empty(),
    {
        let r = Self { items: Vec::new() };
        assert(r@ =~= Map::<Seq<char>, T>::empty());
        r
    }

    pub fn get(&self, id: &String) -> (r: Option<T>)
        requires
            self.wf(),
        ensures
            r == (if self@.contains_key(id@) {
                Some(self@[id@])
            } else {
                None
            }),
    {
        match find_id(&self.items, id) {
            Some(i) => Some(self.items[i].1),
            None => None,
        }
    }

    /// Puts something under an id, and hands out what was there before.
    pub fn insert(&mut self, id: String, v: T) -> (r: Option<T>)
        requires
            old(self).wf(),
        ensures
            final(self).wf(),
            final(self)@ == old(self)@.insert(id@, v),
            r == (if old(self)@.contains_key(id@) {
                Some(old(self)@[id@])
            } else {
                None
            }),
    {
        let ghost before = self.items@;
        let ghost key = id@;
        match find_id(&self.items, &id) {
            Some(i) => {
                let was = self.items[i].1;
                self.items.set(i, (id, v));
                proof {
                    lemma_set_listed(before, i as int, self.items@[i as int]);
                    assert(self@ =~= old(self)@.insert(key, v));
                }
                Some(was)
            },
            None => {
                self.items.push((id, v));
                proof {
                    lemma_push_lists(before, self.items@.last());
                    lemma_push_listed(before, self.items@.last());
                    assert(self@ =~= old(self)@.insert(key, v));
                }
                None
            },
        }
    }

    /// Takes out what is under an id.
    pub fn remove(&mut self, id: &String) -> (r: Option<T>)
        requires
            old(self).wf(),
        ensures
            final(self).wf(),
            final(self)@ == old(self)@.remove(id@),
            r == (if old(self)@.contains_key(id@) {
                Some(old(self)@[id@])
            } else {
                None
            }),
    {
        let ghost before = self.items@;
        match find_id(&self.items, id) {
            Some(i) => {
                let e = self.items.remove(i);
                proof {
                    lemma_remove_listed(before, i as int);
                    assert(self@ =~= old(self)@.remove(id@));
                }
                Some(e.1)
            },
            None => {
                assert(self@ =~= old(self)@.remove(id@));
                None
            },
        }
    }
}

proof fn lemma_listed_is<T>(list: Seq<(String, T)>, i: int)
    requires
        distinct(list),
        0 <= i < list.len(),
    ensures
        lists(list, list[i].0@),
        listed(list, list[i].0@) == list[i].1,
{
    let id = list[i].0@;
    assert(list[i].0@ == id);
    let j = choose|j: int| 0 <= j < list.len() && (#[trigger] list[j]).0@ == id;
    if i != j {
        assert(list[i].0@ != list[j].0@);
    }
}

proof fn lemma_push_listed<T>(list: Seq<(String, T)>, e: (String, T))
    requires
        distinct(list),
        !lists(list, e.0@),
    ensures
        forall|id: Seq<char>| #[trigger]
            lists(list.push(e), id) ==> listed(list.push(e), id) == (if id == e.0@ {
                e.1
            } else {
                listed(list, id)
            }),
{
    lemma_push_lists(list, e);
    let longer = list.push(e);
    assert forall|id: Seq<char>| #[trigger] lists(longer, id) implies listed(longer, id) == (if id
        == e.0@ {
        e.1
    } else {
        listed(list, id)
    }) by {
        let i = choose|i: int| 0 <= i < longer.len() && (#[trigger] longer[i]).0@ == id;
        lemma_listed_is(longer, i);
        if i < list.len() {
            assert(list[i] == longer[i]);
            lemma_listed_is(list, i);
        }
    }
}

proof fn lemma_set_listed<T>(list: Seq<(String, T)>, k: int, e: (String, T))
    requires
        distinct(list),
        0 <= k < list.len(),
        list[k].0@ == e.0@,
    ensures
        distinct(list.update(k, e)),
        forall|id: Seq<char>| #[trigger] lists(list.update(k, e), id) <==> lists(list, id),
        forall|id: Seq<char>| #[trigger]
            lists(list.update(k, e), id) ==> listed(list.update(k, e), id) == (if id == e.0@ {
                e.1
            } else {
                listed(list, id)
            }),
{
    let after = list.update(k, e);
    assert forall|i: int, j: int|
        0 <= i < after.len() && 0 <= j < after.len() && i != j implies (
    #[trigger] after[i]).0@ != (#[trigger] after[j]).0@ by {
        assert(list[i].0@ != list[j].0@);
    }
    assert forall|id: Seq<char>| #[trigger] lists(after, id) <==> lists(list, id) by {
        if lists(after, id) {
            let i = choose|i: int| 0 <= i < after.len() && (#[trigger] after[i]).0@ == id;
            assert(list[i].0@ == id);
        }
        if lists(list, id) {
            let i = choose|i: int| 0 <= i < list.len() && (#[trigger] list[i]).0@ == id;
            assert(after[i].0@ == id);
        }
    }
    assert forall|id: Seq<char>| #[trigger] lists(after, id) implies listed(after, id) == (if id
        == e.0@ {
        e.1
    } else {
        listed(list, id)
    }) by {
        let i = choose|i: int| 0 <= i < after.len() && (#[trigger] after[i]).0@ == id;
        lemma_listed_is(after, i);
        lemma_listed_is(list, i);
        if i != k {
            assert(list[i].0@ != list[k].0@);
        }
    }
}

proof fn lemma_remove_listed<T>(list: Seq<(String, T)>, k: int)
    requires
        distinct(list),
        0 <= k < list.len(),
    ensures
        distinct(list.remove(k)),
        forall|id: Seq<char>| #[trigger]
            lists(list.remove(k), id) <==> lists(list, id) && id != list[k].0@,
        forall|id: Seq<char>| #[trigger]
            lists(list.remove(k), id) ==> listed(list.remove(k), id) == listed(list, id),
{
    let after = list.remove(k);
    assert forall|i: int, j: int|
        0 <= i < after.len() && 0 <= j < after.len() && i != j implies (
    #[trigger] after[i]).0@ != (#[trigger] after[j]).0@ by {
        let x = if i < k { i } else { i + 1 };
        let y = if j < k { j } else { j + 1 };
        assert(list[x].0@ != list[y].0@);
    }
    assert forall|id: Seq<char>| #[trigger] lists(after, id) <==> lists(list, id) && id
        != list[k].0@ by {
        if lists(after, id) {
            let i = choose|i: int| 0 <= i < after.len() && (#[trigger] after[i]).0@ == id;
            let x = if i < k { i } else { i + 1 };
            assert(list[x].0@ == id);
            assert(list[x].0@ != list[k].0@);
        }
        if lists(list, id) && id != list[k].0@ {
            let i = choose|i: int| 0 <= i < list.len() && (#[trigger] list[i]).0@ == id;
            let x = if i < k { i } else { i - 1 };
            assert(after[x].0@ == id);
        }
    }
    assert forall|id: Seq<char>| #[trigger] lists(after, id) implies listed(after, id) == listed(
        list,
        id,
    ) by {
        let i = choose|i: int| 0 <= i < after.len() && (#[trigger] after[i]).0@ == id;
        let x = if i < k { i } else { i + 1 };
        assert(list[x] == after[i]);
        lemma_listed_is(after, i);
        lemma_listed_is(list, x);
    }
}

/// What the state of its task says of a device: `Some(true)` that it cannot be served,
/// `Some(false)` that it was lost and is to be opened anew, nothing that it is to be left alone.
pub open spec fn verdict(status: TypedTaskState<(), (), DeviceHandlerError>) -> Option<bool> {
    match status {
        TypedTaskState::Failed(f) => match *f {
            DeviceHandlerError::DeviceUnavailable => Some(false),
            DeviceHandlerError::DeviceUnsupported => Some(true),
            DeviceHandlerError::Stream { source } => Some(!(source is DeviceDisconnected)),
        },
        _ => None,
    }
}

/// What the state of its task says of a device.
pub fn get_device_status(status: &TypedTaskState<(), (), DeviceHandlerError>) -> (r: Option<bool>)
    ensures
        r == verdict(*status),
{
    match status {
        TypedTaskState::Failed(f) => match &**f {
            DeviceHandlerError::DeviceUnavailable => Some(false),
            DeviceHandlerError::DeviceUnsupported => Some(true),
            DeviceHandlerError::Stream { source } => match source {
                StreamHandlerError::DeviceDisconnected { source: _ } => Some(false),
                StreamHandlerError::FormatUnsupported { source: _ } => Some(true),
                StreamHandlerError::OtherDeviceError { source: _ } => Some(true),
            },
        },
        _ => None,
    }
}

/// The handler of a device, entered and to be started.
#[derive(Debug, Clone, Copy, PartialEq, Eq)]
pub struct DeviceStart {
    /// The mixer that it plays.
    pub mixer: MixerLease,
    pub handler: TaskId,
    /// Its worker is to be started.
    pub started: bool,
    /// The handler that it takes the place of, and what is left to do of its cancellation.
    pub replaced: Option<(TaskId, CancelPlan)>,
}

/// The device is shown as the host described it.
pub open spec fn describes(
    info: DeviceInfo,
    id: Seq<char>,
    description: Option<DeviceDescription>,
) -> bool {
    &&& info.id@ == id
    &&& info.name@ == (match description {
        Some(d) => d.name@,
        None => Seq::empty(),
    })
    &&& match description {
        Some(d) => info.address == d.address,
        None => info.address is None,
    }
}

/// The tasks and mixers of the host.
pub struct HostState {
    pub tm: TaskManager,
    pub mixers: Mixers,
    /// The handler of every device.
    pub handles: IdMap<TaskId>,
    /// The devices that were listed last. The flag tells whether it is known that one cannot be
    /// served.
    pub known: IdMap<bool>,
}

impl HostState {
    pub open spec fn wf(self) -> bool {
        self.handles.wf() && self.known.wf()
    }
}

/// Between two states of the host, the handler of a device was entered: with the mixer of the
/// device, under a new task, and with a handler that the device had before cancelled.
pub open spec fn starts(
    before: HostState,
    id: Seq<char>,
    description: Option<DeviceDescription>,
    start: DeviceStart,
    after: HostState,
) -> bool {
    exists|info: DeviceInfo, leased: TaskManager, entered: TaskManager|
        {
            &&& describes(info, id, description)
            &&& #[trigger] super::mixer::obtains(
                before.mixers,
                before.tm,
                info,
                start.mixer,
                after.mixers,
                leased,
            )
            &&& #[trigger] crate::task::manager::enters(
                leased,
                start.handler,
                start.started,
                entered,
            )
            &&& after.handles@ == before.handles@.insert(id, start.handler)
            &&& after.known@ == before.known@
            &&& match start.replaced {
                None => !before.handles@.contains_key(id) && after.tm == entered,
                Some((old_task, plan)) => {
                    &&& before.handles@.contains_key(id)
                    &&& before.handles@[id] == old_task
                    &&& crate::task::manager::cancels(entered, old_task, plan, after.tm)
                },
            }
        }
}

/// Enters the handler of a device, with the mixer of the device.
fn start_device(host: &mut HostState, id: String, description: Option<DeviceDescription>) -> (r:
    DeviceStart)
    requires
        old(host).wf(),
    ensures
        final(host).wf(),
        starts(*old(host), id@, description, r, *final(host)),
{
    let dev_info = DeviceInfo::create(id.as_str(), description.as_ref());
    let mixer = host.mixers.get_or_create(&mut host.tm, &dev_info);
    let ghost leased = host.tm;
    let (h, started) = host.tm.spawn_blocking_typed::<(), (), DeviceHandlerError>();
    let ghost entered = host.tm;
    let ghost key = id@;
    let handler = h.id;
    let replaced = match host.handles.insert(id, handler) {
        Some(old_task) => {
            let plan = host.tm.cancel_task(old_task);
            Some((old_task, plan))
        },
        None => None,
    };
    let r = DeviceStart { mixer, handler, started, replaced };
    proof {
        assert(describes(dev_info, key, description));
        assert(super::mixer::obtains(
            old(host).mixers,
            old(host).tm,
            dev_info,
            r.mixer,
            host.mixers,
            leased,
        ));
        assert(crate::task::manager::enters(leased, r.handler, r.started, entered));
    }
    r
}

/// A new device: its handler is entered.
pub fn on_device_add(host: &mut HostState, id: String, description: Option<DeviceDescription>) -> (r:
    DeviceStart)
    requires
        old(host).wf(),
    ensures
        final(host).wf(),
        starts(*old(host), id@, description, r, *final(host)),
{
    start_device(host, id, description)
}

/// A vanished device: its handler is cancelled and its mixer dropped. The handler, if there was
/// one, and what is left to do of its cancellation.
pub fn on_device_del(host: &mut HostState, id: &String) -> (r: Option<(TaskId, CancelPlan)>)
    requires
        old(host).wf(),
    ensures
        final(host).wf(),
        final(host).handles@ == old(host).handles@.remove(id@),
        final(host).mixers@ == old(host).mixers@.remove(id@),
        final(host).known@ == old(host).known@,
        match r {
            Some((task, plan)) => {
                &&& old(host).handles@.contains_key(id@)
                &&& old(host).handles@[id@] == task
                &&& crate::task::manager::cancels(old(host).tm, task, plan, final(host).tm)
            },
            None => !old(host).handles@.contains_key(id@) && final(host).tm == old(host).tm,
        },
{
    let cancelled = match host.handles.remove(id) {
        Some(task) => {
            let plan = host.tm.cancel_task(task);
            Some((task, plan))
        },
        None => None,
    };
    let _there = host.mixers.remove(id.as_str());
    cancelled
}

/// What a device that is still there needs.
#[derive(Debug, Clone, Copy, PartialEq, Eq)]
pub enum OnlineOutcome {
    /// It cannot be served.
    Blacklist,
    /// Nothing.
    Leave,
    /// Its handler is entered anew.
    Restart(DeviceStart),
}

/// What the handler of a device has come to: what [`verdict`] says of its state, and
/// `Some(false)` where there is none.
pub open spec fn outcome_of(host: HostState, id: Seq<char>) -> Option<bool> {
    if host.handles@.contains_key(id) {
        match crate::task::manager::at(host.tm.states(), host.handles@[id]) {
            Some(crate::task::TaskState::Failed(v)) => match <DeviceHandlerError as crate::task::TaskData>::held(v) {
                Some(e) => match e {
                    DeviceHandlerError::DeviceUnavailable => Some(false),
                    DeviceHandlerError::DeviceUnsupported => Some(true),
                    DeviceHandlerError::Stream { source } => Some(!(source is DeviceDisconnected)),
                },
                None => None,
            },
            _ => None,
        }
    } else {
        Some(false)
    }
}

/// A device that is still there: its handler is entered anew if it has none, or if its handler
/// ended because the device was lost.
pub fn on_device_online(host: &mut HostState, id: String, description: Option<DeviceDescription>) -> (r:
    OnlineOutcome)
    requires
        old(host).wf(),
    ensures
        final(host).wf(),
        match outcome_of(*old(host), id@) {
            Some(true) => r == OnlineOutcome::Blacklist && *final(host) == *old(host),
            None => r == OnlineOutcome::Leave && *final(host) == *old(host),
            Some(false) => r matches OnlineOutcome::Restart(start) && starts(
                *old(host),
                id@,
                description,
                start,
                *final(host),
            ),
        },
{
    if let Some(task) = host.handles.get(&id) {
        let handle: TaskHandle<(), (), DeviceHandlerError> = TaskHandle::new(task);
        match get_device_status(&handle.status(&host.tm)) {
            Some(true) => {
                return OnlineOutcome::Blacklist;
            },
            Some(false) => {},
            None => {
                return OnlineOutcome::Leave;
            },
        }
    }
    OnlineOutcome::Restart(start_device(host, id, description))
}

/// What was done about a device.
#[derive(Debug, Clone, Copy, PartialEq, Eq)]
pub enum ActionEffect {
    Started(DeviceStart),
    Stopped(Option<(TaskId, CancelPlan)>),
    Blacklisted,
    Left,
}

/// Between two states of the host, an action about a device was done.
pub open spec fn acts(
    before: HostState,
    id: Seq<char>,
    action: HostAction,
    effect: ActionEffect,
    after: HostState,
) -> bool {
    match action {
        HostAction::OnDeviceAdd(description) => effect matches ActionEffect::Started(start)
            && starts(before, id, description, start, after),
        HostAction::OnDeviceDel => {
            &&& after.handles@ == before.handles@.remove(id)
            &&& after.mixers@ == before.mixers@.remove(id)
            &&& after.known@ == before.known@
            &&& match effect {
                ActionEffect::Stopped(Some((task, plan))) => {
                    &&& before.handles@.contains_key(id)
                    &&& before.handles@[id] == task
                    &&& crate::task::manager::cancels(before.tm, task, plan, after.tm)
                },
                ActionEffect::Stopped(None) => !before.handles@.contains_key(id) && after.tm
                    == before.tm,
                _ => false,
            }
        },
        HostAction::OnDeviceOnline(_, description) => match outcome_of(before, id) {
            Some(true) => {
                &&& effect == ActionEffect::Blacklisted
                &&& after.known@ == before.known@.insert(id, true)
                &&& after.handles == before.handles
                &&& after.mixers == before.mixers
                &&& after.tm == before.tm
            },
            None => effect == ActionEffect::Left && after == before,
            Some(false) => effect matches ActionEffect::Started(start) && starts(
                before,
                id,
                description,
                start,
                after,
            ),
        },
    }
}

/// Does what a look at the devices asks for about one of them. That a device cannot be served
/// is remembered.
pub fn run_action(host: &mut HostState, id: String, action: HostAction) -> (r: ActionEffect)
    requires
        old(host).wf(),
    ensures
        final(host).wf(),
        acts(*old(host), id@, action, r, *final(host)),
{
    match action {
        HostAction::OnDeviceAdd(description) => ActionEffect::Started(
            on_device_add(host, id, description),
        ),
        HostAction::OnDeviceDel => ActionEffect::Stopped(on_device_del(host, &id)),
        HostAction::OnDeviceOnline(_blacklisted, description) => {
            let key = id.clone();
            match on_device_online(host, id, description) {
                OnlineOutcome::Blacklist => {
                    let _was = host.known.insert(key, true);
                    ActionEffect::Blacklisted
                },
                OnlineOutcome::Leave => ActionEffect::Left,
                OnlineOutcome::Restart(start) => ActionEffect::Started(start),
            }
        },
    }
}

/// Takes in which devices the host lists: one action for every device that is known or listed.
pub fn look(host: &mut HostState, snapshot: Vec<SeenDevice>) -> (r: Vec<(String, HostAction)>)
    requires
        old(host).wf(),
    ensures
        final(host).wf(),
        final(host).tm == old(host).tm,
        final(host).mixers == old(host).mixers,
        final(host).handles == old(host).handles,
        learns(old(host).known.items@, snapshot@, final(host).known.items@),
        distinct(r@),
        forall|i: int|
            0 <= i < r@.len() ==> calls_for(
                old(host).known.items@,
                snapshot@,
                (#[trigger] r@[i]).0@,
                r@[i].1,
            ),
        forall|id: Seq<char>| #[trigger]
            lists(r@, id) <==> lists(old(host).known.items@, id) || seen(snapshot@, id),
{
    let mut known: Vec<(String, bool)> = Vec::new();
    std::mem::swap(&mut known, &mut host.known.items);
    let (actions, current) = host_plan(known, snapshot);
    host.known.items = current;
    actions
}

impl HostState {
    /// Only devices that were listed last have a handler or a mixer.
    pub open spec fn tidy(self) -> bool {
        &&& forall|id: Seq<char>| #[trigger]
            self.handles@.contains_key(id) ==> self.known@.contains_key(id)
        &&& forall|id: Seq<char>| #[trigger]
            self.mixers@.contains_key(id) ==> self.known@.contains_key(id)
    }

    /// Every device that was listed last has a handler and a mixer.
    pub open spec fn staffed(self) -> bool {
        forall|id: Seq<char>| #[trigger]
            self.known@.contains_key(id) ==> self.handles@.contains_key(id)
                && self.mixers@.contains_key(id)
    }

    /// The handlers are tasks that were entered before the next one.
    pub open spec fn numbered(self) -> bool {
        forall|id: Seq<char>| #[trigger]
            self.handles@.contains_key(id) ==> self.handles@[id].0 < self.tm.next_id()
    }

    /// Only devices that were listed last, or whose removal is still to come, have a handler or
    /// a mixer.
    spec fn tidy_but(self, actions: Seq<(String, HostAction)>, done: int) -> bool {
        &&& forall|id: Seq<char>| #[trigger]
            self.handles@.contains_key(id) ==> self.known@.contains_key(id) || still_to_go(
                actions,
                done,
                id,
            )
        &&& forall|id: Seq<char>| #[trigger]
            self.mixers@.contains_key(id) ==> self.known@.contains_key(id) || still_to_go(
                actions,
                done,
                id,
            )
    }
}

/// The removal of a device is still to come.
spec fn still_to_go(actions: Seq<(String, HostAction)>, done: int, id: Seq<char>) -> bool {
    exists|j: int|
        done <= j < actions.len() && (#[trigger] actions[j]).0@ == id && actions[j].1 is OnDeviceDel
}

/// Between two states of the host, a look at the devices was taken in.
pub open spec fn looks(
    before: HostState,
    snapshot: Seq<SeenDevice>,
    actions: Seq<(String, HostAction)>,
    after: HostState,
) -> bool {
    &&& after.wf()
    &&& after.tm == before.tm
    &&& after.mixers == before.mixers
    &&& after.handles == before.handles
    &&& learns(before.known.items@, snapshot, after.known.items@)
    &&& distinct(actions)
    &&& forall|i: int|
        0 <= i < actions.len() ==> calls_for(
            before.known.items@,
            snapshot,
            (#[trigger] actions[i]).0@,
            actions[i].1,
        )
    &&& forall|id: Seq<char>| #[trigger]
        lists(actions, id) <==> lists(before.known.items@, id) || seen(snapshot, id)
}

/// The `i`th action leads from one state of the host to the next.
pub open spec fn does(
    hosts: Seq<HostState>,
    actions: Seq<(String, HostAction)>,
    effects: Seq<(String, ActionEffect)>,
    i: int,
) -> bool {
    &&& effects[i].0@ == actions[i].0@
    &&& acts(hosts[i], actions[i].0@, actions[i].1, effects[i].1, hosts[i + 1])
}

/// The states of the host while a look at the devices is taken in and everything that it asks
/// for is done, one after the other.
pub open spec fn cycles(
    before: HostState,
    snapshot: Seq<SeenDevice>,
    actions: Seq<(String, HostAction)>,
    effects: Seq<(String, ActionEffect)>,
    hosts: Seq<HostState>,
) -> bool {
    &&& hosts.len() == actions.len() + 1
    &&& effects.len() == actions.len()
    &&& looks(before, snapshot, actions, hosts[0])
    &&& forall|i: int| 0 <= i < actions.len() ==> #[trigger] does(hosts, actions, effects, i)
}

/// Takes in which devices the host lists and does everything that this asks for. What was done,
/// for one device after the other, each under its id.
pub fn host_cycle(host: &mut HostState, snapshot: Vec<SeenDevice>) -> (r: Vec<
    (String, ActionEffect),
>)
    requires
        old(host).wf(),
    ensures
        final(host).wf(),
        exists|actions: Seq<(String, HostAction)>, hosts: Seq<HostState>|
            #[trigger] cycles(*old(host), snapshot@, actions, r@, hosts) && hosts.last()
                == *final(host),
        distinct(r@),
        old(host).tidy() ==> final(host).tidy(),
        old(host).tidy() && old(host).staffed() ==> final(host).staffed(),
        old(host).numbered() && old(host).tm.next_id() + 2 * r@.len() <= u64::MAX ==> (
        final(host).numbered()),
        forall|id: Seq<char>| #[trigger]
            final(host).known@.contains_key(id) <==> seen(snapshot@, id),
{
    let ghost before = *host;
    let ghost all = snapshot@;
    let mut actions = look(host, snapshot);
    let ghost plan = actions@;
    let ghost mut hosts: Seq<HostState> = seq![*host];
    let mut effects: Vec<(String, ActionEffect)> = Vec::new();
    let count: usize = actions.len();
    let mut n: usize = 0;
    proof {
        assert(looks(before, all, plan, hosts[0]));
        assert(before.tidy() ==> host.tidy_but(plan, 0)) by {
            if before.tidy() {
                lemma_vanished_are_to_go(before, all, plan, *host);
            }
        }
        assert(actions@ =~= plan.skip(0));
    }
    while actions.len() > 0
        invariant
            n + actions.len() == plan.len() == count,
            actions@ == plan.skip(n as int),
            host.wf(),
            hosts.len() == n + 1,
            effects@.len() == n,
            hosts.last() == *host,
            looks(before, all, plan, hosts[0]),
            forall|i: int| 0 <= i < n ==> #[trigger] does(hosts, plan, effects@, i),
            before.tidy() ==> host.tidy_but(plan, n as int),
            forall|id: Seq<char>| #[trigger] host.known@.contains_key(id) <==> seen(all, id),
        decreases actions.len(),
    {
        let (id, action) = actions.remove(0);
        let ghost was = *host;
        let ghost old_hosts = hosts;
        let ghost old_effects = effects@;
        let ghost key = id@;
        let ghost act = action;
        proof {
            assert(plan[n as int] == (id, action));
            assert(actions@ =~= plan.skip(n + 1));
        }
        let name = id.clone();
        let effect = run_action(host, id, action);
        effects.push((name, effect));
        proof {
            hosts = hosts.push(*host);
            assert forall|i: int| 0 <= i < n + 1 implies #[trigger] does(
                hosts,
                plan,
                effects@,
                i,
            ) by {
                if i < n {
                    assert(does(old_hosts, plan, old_effects, i));
                    assert(hosts[i] == old_hosts[i] && hosts[i + 1] == old_hosts[i + 1]);
                }
            }
            assert(calls_for(before.known.items@, all, key, act));
            lemma_seen_by_action(before.known.items@, all, key, act);
            lemma_action_keeps_tidy(was, *host, plan, n as int, effect);
        }
        n = n + 1;
    }
    proof {
        assert(cycles(before, all, plan, effects@, hosts));
        assert forall|i: int| 0 <= i < plan.len() implies (#[trigger] effects@[i]).0@
            == plan[i].0@ by {
            assert(does(hosts, plan, effects@, i));
        }
        lemma_effects_are_distinct(plan, effects@);
        if before.tidy() && before.staffed() {
            lemma_staffed(before, all, plan, effects@, hosts);
        }
        if before.numbered() && before.tm.next_id() + 2 * plan.len() <= u64::MAX {
            lemma_ages(before, all, plan, effects@, hosts, 0, plan.len() as int);
        }
        if before.tidy() {
            assert forall|id: Seq<char>| #[trigger] host.handles@.contains_key(
                id,
            ) implies host.known@.contains_key(id) by {
                assert(!still_to_go(plan, plan.len() as int, id));
            }
            assert forall|id: Seq<char>| #[trigger] host.mixers@.contains_key(
                id,
            ) implies host.known@.contains_key(id) by {
                assert(!still_to_go(plan, plan.len() as int, id));
            }
        }
    }
    effects
}

/// An action about a device that is not its removal comes of a device that was listed.
proof fn lemma_seen_by_action(
    known: Seq<(String, bool)>,
    snapshot: Seq<SeenDevice>,
    id: Seq<char>,
    action: HostAction,
)
    requires
        calls_for(known, snapshot, id, action),
    ensures
        action is OnDeviceDel <==> !seen(snapshot, id),
{
    match action {
        HostAction::OnDeviceDel => {},
        HostAction::OnDeviceAdd(desc) => {
            let i = choose|i: int|
                {
                    &&& #[trigger] last_seen(snapshot, i, id)
                    &&& desc == snapshot[i].description
                    &&& forall|j: int| #[trigger] seen_at(snapshot, j, id) ==> j == i
                };
            assert(seen_at(snapshot, i, id));
        },
        HostAction::OnDeviceOnline(b, desc) => {
            let i = choose|i: int| #[trigger] last_seen(snapshot, i, id);
            assert(seen_at(snapshot, i, id));
        },
    }
}

proof fn lemma_vanished_are_to_go(
    before: HostState,
    snapshot: Seq<SeenDevice>,
    actions: Seq<(String, HostAction)>,
    after: HostState,
)
    requires
        before.tidy(),
        looks(before, snapshot, actions, after),
    ensures
        after.tidy_but(actions, 0),
{
    assert forall|id: Seq<char>| before.known@.contains_key(id) implies (
    #[trigger] after.known@.contains_key(id)) || still_to_go(actions, 0, id) by {
        if !seen(snapshot, id) {
            assert(lists(actions, id));
            let j = choose|j: int| 0 <= j < actions.len() && (#[trigger] actions[j]).0@ == id;
            assert(calls_for(before.known.items@, snapshot, actions[j].0@, actions[j].1));
            lemma_seen_by_action(before.known.items@, snapshot, id, actions[j].1);
            assert(0 <= j < actions.len() && actions[j].0@ == id && actions[j].1 is OnDeviceDel);
        } else {
            assert(lists(after.known.items@, id));
        }
    }
    assert forall|id: Seq<char>| #[trigger] after.handles@.contains_key(
        id,
    ) implies after.known@.contains_key(id) || still_to_go(actions, 0, id) by {
        assert(before.handles@.contains_key(id));
        assert(before.known@.contains_key(id));
    }
    assert forall|id: Seq<char>| #[trigger] after.mixers@.contains_key(
        id,
    ) implies after.known@.contains_key(id) || still_to_go(actions, 0, id) by {
        assert(before.mixers@.contains_key(id));
        assert(before.known@.contains_key(id));
    }
}

proof fn lemma_action_keeps_tidy(
    before: HostState,
    after: HostState,
    actions: Seq<(String, HostAction)>,
    n: int,
    effect: ActionEffect,
)
    requires
        0 <= n < actions.len(),
        acts(before, actions[n].0@, actions[n].1, effect, after),
        actions[n].1 is OnDeviceDel <==> !before.known@.contains_key(actions[n].0@),
    ensures
        forall|id: Seq<char>| #[trigger]
            after.known@.contains_key(id) <==> before.known@.contains_key(id),
        before.tidy_but(actions, n) ==> after.tidy_but(actions, n + 1),
{
    let key = actions[n].0@;
    assert forall|id: Seq<char>| #[trigger] still_to_go(actions, n, id) && (id != key
        || before.known@.contains_key(key)) implies still_to_go(actions, n + 1, id) || (id == key
        && before.known@.contains_key(key)) by {
        let j = choose|j: int|
            n <= j < actions.len() && (#[trigger] actions[j]).0@ == id
                && actions[j].1 is OnDeviceDel;
        if j > n {
            assert(n + 1 <= j < actions.len() && actions[j].0@ == id);
        }
    }
    assert forall|id: Seq<char>| #[trigger] after.handles@.contains_key(id) implies (id == key
        && !(actions[n].1 is OnDeviceDel)) || (before.handles@.contains_key(id) && (id != key
        || !(actions[n].1 is OnDeviceDel))) by {}
    assert forall|id: Seq<char>| #[trigger] after.mixers@.contains_key(id) implies (id == key
        && !(actions[n].1 is OnDeviceDel)) || (before.mixers@.contains_key(id) && (id != key
        || !(actions[n].1 is OnDeviceDel))) by {}
}

/// `b` is what becomes of a task in the state `a` while it may be cancelled.
spec fn ages(a: Option<crate::task::TaskState>, b: Option<crate::task::TaskState>) -> bool {
    b == a || ((a matches Some(s) && s.live()) && b == Some(crate::task::TaskState::Cancelling))
}

/// Two states of the host have the same for a device.
spec fn same_for(a: HostState, b: HostState, id: Seq<char>) -> bool {
    &&& a.handles@.contains_key(id) == b.handles@.contains_key(id)
    &&& a.handles@.contains_key(id) ==> a.handles@[id] == b.handles@[id]
    &&& a.mixers@.contains_key(id) == b.mixers@.contains_key(id)
    &&& a.known@.contains_key(id) == b.known@.contains_key(id)
    &&& a.known@.contains_key(id) ==> a.known@[id] == b.known@[id]
}

proof fn lemma_act_on_others(
    before: HostState,
    id: Seq<char>,
    action: HostAction,
    effect: ActionEffect,
    after: HostState,
    other: Seq<char>,
)
    requires
        acts(before, id, action, effect, after),
        other != id,
    ensures
        same_for(before, after, other),
{
}

proof fn lemma_act_on_tasks(
    before: HostState,
    id: Seq<char>,
    action: HostAction,
    effect: ActionEffect,
    after: HostState,
)
    requires
        acts(before, id, action, effect, after),
        before.tm.next_id() + 2 <= u64::MAX,
    ensures
        before.tm.next_id() <= after.tm.next_id() <= before.tm.next_id() + 2,
        forall|t: TaskId|
            t.0 < before.tm.next_id() ==> ages(
                crate::task::manager::at(before.tm.states(), t),
                #[trigger] crate::task::manager::at(after.tm.states(), t),
            ),
        before.numbered() ==> after.numbered(),
{
}

/// While the actions from one to another are done, tasks that were there before are at most
/// cancelled, and the ids of new ones count up.
proof fn lemma_ages(
    before: HostState,
    snapshot: Seq<SeenDevice>,
    actions: Seq<(String, HostAction)>,
    effects: Seq<(String, ActionEffect)>,
    hosts: Seq<HostState>,
    from: int,
    to: int,
)
    requires
        cycles(before, snapshot, actions, effects, hosts),
        before.numbered(),
        before.tm.next_id() + 2 * actions.len() <= u64::MAX,
        0 <= from <= to <= actions.len(),
    ensures
        before.tm.next_id() <= hosts[to].tm.next_id() <= before.tm.next_id() + 2 * to,
        forall|t: TaskId|
            t.0 < before.tm.next_id() ==> ages(
                crate::task::manager::at(hosts[from].tm.states(), t),
                #[trigger] crate::task::manager::at(hosts[to].tm.states(), t),
            ),
        hosts[to].numbered(),
    decreases to,
{
    if to > 0 {
        if from < to {
            lemma_ages(before, snapshot, actions, effects, hosts, from, to - 1);
        } else {
            lemma_ages(before, snapshot, actions, effects, hosts, to - 1, to - 1);
        }
        assert(does(hosts, actions, effects, to - 1));
        lemma_act_on_tasks(
            hosts[to - 1],
            actions[to - 1].0@,
            actions[to - 1].1,
            effects[to - 1].1,
            hosts[to],
        );
        assert forall|t: TaskId| t.0 < before.tm.next_id() implies ages(
            crate::task::manager::at(hosts[from].tm.states(), t),
            #[trigger] crate::task::manager::at(hosts[to].tm.states(), t),
        ) by {
            if from < to {
                assert(ages(
                    crate::task::manager::at(hosts[from].tm.states(), t),
                    crate::task::manager::at(hosts[to - 1].tm.states(), t),
                ));
            }
        }
    }
}

/// Actions about other devices leave a device as it is.
proof fn lemma_others_act(
    before: HostState,
    snapshot: Seq<SeenDevice>,
    actions: Seq<(String, HostAction)>,
    effects: Seq<(String, ActionEffect)>,
    hosts: Seq<HostState>,
    id: Seq<char>,
    from: int,
    to: int,
)
    requires
        cycles(before, snapshot, actions, effects, hosts),
        0 <= from <= to <= actions.len(),
        forall|i: int| from <= i < to ==> (#[trigger] actions[i]).0@ != id,
    ensures
        same_for(hosts[from], hosts[to], id),
    decreases to - from,
{
    if from < to {
        lemma_others_act(before, snapshot, actions, effects, hosts, id, from, to - 1);
        assert(does(hosts, actions, effects, to - 1));
        lemma_act_on_others(
            hosts[to - 1],
            actions[to - 1].0@,
            actions[to - 1].1,
            effects[to - 1].1,
            hosts[to],
            id,
        );
    }
}

proof fn lemma_effects_are_distinct(
    actions: Seq<(String, HostAction)>,
    effects: Seq<(String, ActionEffect)>,
)
    requires
        distinct(actions),
        effects.len() == actions.len(),
        forall|i: int| 0 <= i < actions.len() ==> (#[trigger] effects[i]).0@ == actions[i].0@,
    ensures
        distinct(effects),
        forall|id: Seq<char>| #[trigger] lists(effects, id) <==> lists(actions, id),
{
    assert forall|i: int, j: int|
        0 <= i < effects.len() && 0 <= j < effects.len() && i != j implies (
    #[trigger] effects[i]).0@ != (#[trigger] effects[j]).0@ by {
        assert(actions[i].0@ != actions[j].0@);
    }
    assert forall|id: Seq<char>| #[trigger] lists(effects, id) <==> lists(actions, id) by {
        if lists(effects, id) {
            let i = choose|i: int| 0 <= i < effects.len() && (#[trigger] effects[i]).0@ == id;
            assert(actions[i].0@ == id);
        }
        if lists(actions, id) {
            let i = choose|i: int| 0 <= i < actions.len() && (#[trigger] actions[i]).0@ == id;
            assert(effects[i].0@ == id);
        }
    }
}

/// A device that is known or listed is acted upon once, in a state in which nothing was done
/// about it yet, and nothing is done about it afterwards.
proof fn lemma_acted_upon(
    before: HostState,
    snapshot: Seq<SeenDevice>,
    actions: Seq<(String, HostAction)>,
    effects: Seq<(String, ActionEffect)>,
    hosts: Seq<HostState>,
    id: Seq<char>,
) -> (j: int)
    requires
        cycles(before, snapshot, actions, effects, hosts),
        before.known@.contains_key(id) || seen(snapshot, id),
    ensures
        0 <= j < actions.len(),
        actions[j].0@ == id,
        calls_for(before.known.items@, snapshot, id, actions[j].1),
        actions[j].1 is OnDeviceDel <==> !seen(snapshot, id),
        lists(effects, id),
        listed(effects, id) == effects[j].1,
        acts(hosts[j], id, actions[j].1, effects[j].1, hosts[j + 1]),
        same_for(hosts[0], hosts[j], id),
        same_for(hosts[j + 1], hosts.last(), id),
{
    assert(lists(actions, id));
    let j = choose|j: int| 0 <= j < actions.len() && (#[trigger] actions[j]).0@ == id;
    assert forall|i: int| 0 <= i < actions.len() implies (#[trigger] effects[i]).0@
        == actions[i].0@ by {
        assert(does(hosts, actions, effects, i));
    }
    assert(does(hosts, actions, effects, j));
    assert(calls_for(before.known.items@, snapshot, actions[j].0@, actions[j].1));
    lemma_seen_by_action(before.known.items@, snapshot, id, actions[j].1);
    lemma_effects_are_distinct(actions, effects);
    lemma_listed_is(effects, j);
    assert forall|i: int| 0 <= i < actions.len() && i != j implies (#[trigger] actions[i]).0@
        != id by {
        assert(actions[i].0@ != actions[j].0@);
    }
    lemma_others_act(before, snapshot, actions, effects, hosts, id, 0, j);
    lemma_others_act(before, snapshot, actions, effects, hosts, id, j + 1, actions.len() as int);
    j
}

/// What is known of a device right after the look.
proof fn lemma_learned(
    before: HostState,
    snapshot: Seq<SeenDevice>,
    actions: Seq<(String, HostAction)>,
    after: HostState,
    id: Seq<char>,
)
    requires
        looks(before, snapshot, actions, after),
    ensures
        after.known@.contains_key(id) == seen(snapshot, id),
        seen(snapshot, id) ==> after.known@[id] == (before.known@.contains_key(id)
            && before.known@[id]),
{
    let items = after.known.items@;
    assert(lists(items, id) <==> seen(snapshot, id));
    if seen(snapshot, id) {
        let i = choose|i: int| 0 <= i < items.len() && (#[trigger] items[i]).0@ == id;
        lemma_listed_is(items, i);
    }
}

proof fn lemma_staffed(
    before: HostState,
    snapshot: Seq<SeenDevice>,
    actions: Seq<(String, HostAction)>,
    effects: Seq<(String, ActionEffect)>,
    hosts: Seq<HostState>,
)
    requires
        cycles(before, snapshot, actions, effects, hosts),
        before.staffed(),
        before.tidy(),
    ensures
        hosts.last().staffed(),
{
    assert forall|id: Seq<char>| #[trigger] hosts.last().known@.contains_key(id) implies hosts
        .last().handles@.contains_key(id) && hosts.last().mixers@.contains_key(id) by {
        lemma_learned(before, snapshot, actions, hosts[0], id);
        if !lists(actions, id) {
            let n = actions.len() as int;
            lemma_others_act(before, snapshot, actions, effects, hosts, id, 0, n);
        } else {
            let j = lemma_acted_upon(before, snapshot, actions, effects, hosts, id);
        }
    }
}

/// A host that has not looked yet is in order, whatever tasks there are.
pub proof fn law_fresh_host_is_in_order(host: HostState)
    requires
        host.handles@ == Map::<Seq<char>, TaskId>::empty(),
        host.known@ == Map::<Seq<char>, bool>::empty(),
        host.mixers@ == Map::<Seq<char>, super::mixer::MixerBundle>::empty(),
    ensures
        host.tidy(),
        host.staffed(),
        host.numbered(),
{
}

/// What one look at the devices comes to, for each of them. A new device gets a mixer and a
/// handler. One that has vanished loses both, and its handler is cancelled. One that is still
/// there gets a new handler if it was lost, is marked if it cannot be served, and is left alone
/// otherwise. After it, exactly the devices that were listed have a mixer and a handler.
pub proof fn law_one_look(
    before: HostState,
    snapshot: Seq<SeenDevice>,
    actions: Seq<(String, HostAction)>,
    effects: Seq<(String, ActionEffect)>,
    hosts: Seq<HostState>,
    id: Seq<char>,
)
    requires
        before.wf(),
        before.tidy(),
        before.staffed(),
        before.numbered(),
        before.tm.next_id() + 2 * actions.len() <= u64::MAX,
        cycles(before, snapshot, actions, effects, hosts),
    ensures
        lists(effects, id) <==> before.known@.contains_key(id) || seen(snapshot, id),
        ({
            let after = hosts.last();
            let was = before.known@.contains_key(id);
            &&& after.known@.contains_key(id) == seen(snapshot, id)
            &&& after.handles@.contains_key(id) == seen(snapshot, id)
            &&& after.mixers@.contains_key(id) == seen(snapshot, id)
            &&& !was && seen(snapshot, id) ==> {
                &&& listed(effects, id) matches ActionEffect::Started(start)
                &&& start.replaced is None
                &&& after.handles@[id] == start.handler
                &&& !after.known@[id]
            }
            &&& was && !seen(snapshot, id) ==> {
                &&& listed(effects, id) matches ActionEffect::Stopped(Some((task, plan)))
                &&& task == before.handles@[id]
                &&& !(crate::task::manager::at(after.tm.states(), task) matches Some(s)
                    && s.live())
            }
            &&& was && seen(snapshot, id) ==> match outcome_of(before, id) {
                Some(false) => {
                    &&& listed(effects, id) matches ActionEffect::Started(start)
                    &&& start.replaced matches Some((task, plan))
                    &&& task == before.handles@[id]
                    &&& after.handles@[id] == start.handler
                    &&& after.known@[id] == before.known@[id]
                },
                Some(true) => {
                    &&& listed(effects, id) == ActionEffect::Blacklisted
                    &&& after.handles@[id] == before.handles@[id]
                    &&& after.known@[id]
                },
                None => {
                    &&& listed(effects, id) == ActionEffect::Left
                    &&& after.handles@[id] == before.handles@[id]
                    &&& after.known@[id] == before.known@[id]
                },
            }
        }),
{
    lemma_learned(before, snapshot, actions, hosts[0], id);
    let n = actions.len() as int;
    assert forall|i: int| 0 <= i < n implies (#[trigger] effects[i]).0@ == actions[i].0@ by {
        assert(does(hosts, actions, effects, i));
    }
    lemma_effects_are_distinct(actions, effects);
    if before.known@.contains_key(id) || seen(snapshot, id) {
        let j = lemma_acted_upon(before, snapshot, actions, effects, hosts, id);
        lemma_ages(before, snapshot, actions, effects, hosts, 0, j);
        lemma_ages(before, snapshot, actions, effects, hosts, j + 1, n);
        if before.known@.contains_key(id) {
            let task = before.handles@[id];
            assert(ages(
                crate::task::manager::at(before.tm.states(), task),
                crate::task::manager::at(hosts[j].tm.states(), task),
            ));
            assert(ages(
                crate::task::manager::at(hosts[j + 1].tm.states(), task),
                crate::task::manager::at(hosts[n].tm.states(), task),
            ));
            assert(outcome_of(hosts[j], id) == outcome_of(before, id));
        }
    } else {
        assert(!lists(actions, id));
        lemma_others_act(before, snapshot, actions, effects, hosts, id, 0, n);
    }
}

/// A device that is listed is never removed, and what the host said of it last counts, however
/// often it is listed: that is how it is described from then on.
pub proof fn law_last_listing_counts(
    before: HostState,
    snapshot: Seq<SeenDevice>,
    actions: Seq<(String, HostAction)>,
    after: HostState,
    k: int,
    i: int,
)
    requires
        looks(before, snapshot, actions, after),
        0 <= k < actions.len(),
        0 <= i < snapshot.len(),
        snapshot[i].id matches Some(s) && s@ == actions[k].0@,
        forall|j: int|
            i < j < snapshot.len() ==> !((#[trigger] snapshot[j]).id matches Some(s) && s@
                == actions[k].0@),
    ensures
        match actions[k].1 {
            HostAction::OnDeviceAdd(desc) => desc == snapshot[i].description
                && !before.known@.contains_key(actions[k].0@),
            HostAction::OnDeviceOnline(_, desc) => desc == snapshot[i].description,
            HostAction::OnDeviceDel => false,
        },
        after.known@.contains_key(actions[k].0@),
{
    let id = actions[k].0@;
    assert(seen_at(snapshot, i, id));
    assert(calls_for(before.known.items@, snapshot, id, actions[k].1));
    assert forall|l: int| #[trigger] last_seen(snapshot, l, id) implies l == i by {
        if l > i {
            assert(!(snapshot[l].id matches Some(s) && s@ == id));
        }
    }
    assert(lists(after.known.items@, id));
}

/// A device that is known and no longer listed is removed, one that is neither known nor listed
/// is not spoken of, and no device is spoken of twice.
pub proof fn law_vanished_device_is_removed(
    before: HostState,
    snapshot: Seq<SeenDevice>,
    actions: Seq<(String, HostAction)>,
    after: HostState,
    id: Seq<char>,
)
    requires
        looks(before, snapshot, actions, after),
        forall|j: int|
            0 <= j < snapshot.len() ==> !((#[trigger] snapshot[j]).id matches Some(s) && s@ == id),
    ensures
        !after.known@.contains_key(id),
        before.known@.contains_key(id) <==> exists|k: int|
            0 <= k < actions.len() && (#[trigger] actions[k]).0@ == id && (
            actions[k].1 is OnDeviceDel),
        forall|k: int, l: int|
            0 <= k < actions.len() && 0 <= l < actions.len() && (#[trigger] actions[k]).0@ == id && (
            #[trigger] actions[l]).0@ == id ==> k == l,
{
    assert(!seen(snapshot, id)) by {
        if seen(snapshot, id) {
            let j = choose|j: int| #[trigger] seen_at(snapshot, j, id);
            assert(!(snapshot[j].id matches Some(s) && s@ == id));
        }
    }
    assert(lists(after.known.items@, id) <==> seen(snapshot, id));
    assert(lists(actions, id) <==> lists(before.known.items@, id) || seen(snapshot, id));
    if before.known@.contains_key(id) {
        let k = choose|k: int| 0 <= k < actions.len() && (#[trigger] actions[k]).0@ == id;
        assert(calls_for(before.known.items@, snapshot, id, actions[k].1));
        match actions[k].1 {
            HostAction::OnDeviceAdd(_) => {},
            HostAction::OnDeviceOnline(_, _) => {
                let i = choose|i: int| #[trigger] last_seen(snapshot, i, id);
                assert(seen_at(snapshot, i, id));
            },
            HostAction::OnDeviceDel => {},
        }
    }
}

/// A stream that was lost is opened anew, and one that the device cannot play is not: of an error
/// that ends the handler of a stream, the next look makes a restart if the device was not there
/// or not to be had when the stream was built, or a failure came while it played, and otherwise
/// marks the device.
pub proof fn law_lost_stream_is_opened_anew(
    step: super::handler::StreamStep,
    input: super::handler::StreamInput,
    e: StreamHandlerError,
    status: TypedTaskState<(), (), DeviceHandlerError>,
)
    requires
        super::handler::follows(step, input, super::handler::StreamStep::Exit(Err(e))),
        status matches TypedTaskState::Failed(f) && *f == (DeviceHandlerError::Stream {
            source: e,
        }),
    ensures
        verdict(status) == Some(
            match input {
                super::handler::StreamInput::Came(_) => false,
                super::handler::StreamInput::Tried(Err(said)) => !(step is Build && (
                said.kind is DeviceNotAvailable || said.kind is PermissionDenied)),
                _ => true,
            },
        ),
{
}

/// What the handler of a device has come to is judged by its state as it is seen by its handle.
pub proof fn law_outcome_is_judged_by_the_state(
    host: HostState,
    id: Seq<char>,
    status: TypedTaskState<(), (), DeviceHandlerError>,
)
    requires
        host.handles@.contains_key(id),
        host.tm.states().contains_key(host.handles@[id].0),
        crate::task::state::casts_to(host.tm.states()[host.handles@[id].0], status),
    ensures
        outcome_of(host, id) == verdict(status),
        status is Pending || status is Running || status is Cancelling || status is Completed
            || status is Cancelled || status is Panicked || status is Invalid ==> outcome_of(
            host,
            id,
        ) is None,
{
}

/// A device that is marked as one that cannot be served takes no command, and is not dropped
/// for that.
pub proof fn law_marked_device_takes_no_command(
    before: DeviceStates,
    id: Seq<char>,
    effect: ActionEffect,
    now: u128,
    after: DeviceStates,
    dev: super::manager::Device,
)
    requires
        effect is Blacklisted,
        before@.contains_key(id),
        records(before, id, effect, now, after),
        dev.id@ == id,
    ensures
        after@.contains_key(id),
        after@[id].state is Gone,
        dev.liveness_in(after) is Err,
{
}

/// A device whose handler was stopped counts as vanished from then on, and no other device does.
pub proof fn law_stopped_device_has_vanished(
    before: DeviceStates,
    id: Seq<char>,
    effect: ActionEffect,
    now: u128,
    after: DeviceStates,
    other: Seq<char>,
)
    requires
        effect is Stopped,
        before@.contains_key(id),
        !(before@[id].state is Disconnected),
        records(before, id, effect, now, after),
        other != id,
    ensures
        after@.contains_key(id),
        after@[id].state is Disconnected,
        after@[id].disconnected_at == Some(now),
        after@[id].info == before@[id].info,
        after@.contains_key(other) == before@.contains_key(other),
        before@.contains_key(other) ==> after@[other] == before@[other],
{
}

/// Between two states of the directory, what was done about a device in a look was recorded.
pub open spec fn records(
    before: DeviceStates,
    id: Seq<char>,
    effect: ActionEffect,
    now: u128,
    after: DeviceStates,
) -> bool {
    after@ == (match state_after(effect) {
        Some(next) => if before@.contains_key(id) {
            before@.insert(id, super::devices::moved(before@[id], next, now))
        } else {
            before@
        },
        None => before@,
    })
}

/// What becomes of a device in the directory when something was done about it in a look. One
/// that has vanished is marked as such, and one that cannot be served counts as gone. What is
/// announced of it.
pub fn record(states: &mut DeviceStates, id: &str, effect: &ActionEffect, now: u128) -> (r: Option<
    DeviceEvent,
>)
    requires
        old(states).wf(),
    ensures
        final(states).wf(),
        records(*old(states), id@, *effect, now, *final(states)),
        match state_after(*effect) {
            Some(next) => {
                &&& final(states)@ == (if old(states)@.contains_key(id@) {
                    old(states)@.insert(
                        id@,
                        super::devices::moved(old(states)@[id@], next, now),
                    )
                } else {
                    old(states)@
                })
                &&& if old(states)@.contains_key(id@) && old(states)@[id@].state != next {
                    super::devices::announces(next, id@, r)
                } else {
                    r is None
                }
            },
            None => final(states)@ == old(states)@ && r is None,
        },
{
    match effect {
        ActionEffect::Stopped(_) => states.transition(id, DeviceState::Disconnected, now).1,
        ActionEffect::Blacklisted => states.transition(id, DeviceState::Gone, now).1,
        ActionEffect::Started(_) | ActionEffect::Left => None,
    }
}

/// The state that a device comes into when something was done about it in a look. One whose
/// handler was entered is announced when it is added.
pub open spec fn state_after(effect: ActionEffect) -> Option<DeviceState> {
    match effect {
        ActionEffect::Stopped(_) => Some(DeviceState::Disconnected),
        ActionEffect::Blacklisted => Some(DeviceState::Gone),
        ActionEffect::Started(_) | ActionEffect::Left => None,
    }
}

/// What to do after a look at the devices was taken in.
#[derive(Debug, Clone, Copy, PartialEq, Eq, Structural)]
pub enum HostNext {
    /// Nothing more.
    Stop,
    /// Wait for [`HOST_POLL_SECS`], report that the host is up, and look again.
    LookAgain,
}

/// What to do after a look at the devices: nothing more if they could not be listed or the host
/// was cancelled.
pub fn after_look(listed: bool, cancelled: bool) -> (r: HostNext)
    ensures
        r == (if listed && !cancelled {
            HostNext::LookAgain
        } else {
            HostNext::Stop
        }),
{
    if !listed || cancelled {
        return HostNext::Stop;
    }
    HostNext::LookAgain
}

} // verus!
