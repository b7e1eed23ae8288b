//! The two levels of summers of a mixer: which track sits where, and how it is wired.
//!
//! Nodes of the audio graph are known by their numbers here. Every summer of the first level
//! takes [`GROUP_CAP`] tracks, and the one of the second level takes [`L2_CAP`] such groups.

use vstd::prelude::*;

use super::{GROUP_CAP, L2_CAP, TRACK_CAP};

verus! {

/// Names a track of a mixer, by its node in the audio graph.
#[derive(Debug, Clone, Copy, Hash, PartialEq, Eq, Default, Structural)]
pub struct TrackId(pub u64);

impl vstd::std_specs::convert::FromSpecImpl<u64> for TrackId {
    open spec fn obeys_from_spec() -> bool {
        true
    }

    open spec fn from_spec(v: u64) -> Self {
        TrackId(v)
    }
}

impl From<u64> for TrackId {
    fn from(value: u64) -> (r: Self) {
        Self(value)
    }
}

impl vstd::std_specs::convert::FromSpecImpl<TrackId> for u64 {
    open spec fn obeys_from_spec() -> bool {
        true
    }

    open spec fn from_spec(v: TrackId) -> Self {
        v.0
    }
}

impl From<TrackId> for u64 {
    fn from(id: TrackId) -> (r: Self) {
        id.0
    }
}

/// Why a track was not taken.
#[derive(Debug, Clone, Copy, PartialEq, Eq, Structural)]
pub enum AttachError {
    /// It has inputs.
    NotGenerator { inputs: usize },
    /// It has not two outputs.
    NotStereo { outputs: usize },
    /// The mixer has as many tracks as it can take.
    NoSlot { cap: usize },
}

/// An output of a node that feeds an input of another.
#[derive(Debug, Clone, Copy, PartialEq, Eq, Structural)]
pub struct Wire {
    pub from: u64,
    pub out_port: usize,
    pub to: u64,
    pub in_port: usize,
}

/// Where a track is to go. If `opens`, a group has to be opened for it first.
#[derive(Debug, Clone, Copy, PartialEq, Eq, Structural)]
pub struct SlotPlan {
    pub group: usize,
    pub slot: usize,
    pub opens: bool,
}

/// A summer of the first level, with the track at each of its inputs.
#[derive(Debug)]
pub struct SumGroup {
    pub node: u64,
    pub slots: Vec<Option<u64>>,
}

/// The summers of a mixer.
#[derive(Debug)]
pub struct SumTree {
    l2: u64,
    groups: Vec<SumGroup>,
}

/// The nodes and slots of a group.
pub struct Group {
    pub node: u64,
    pub slots: Seq<Option<u64>>,
}

/// A left and a right wire.
pub open spec fn pair(from: u64, to: u64, index: int) -> Seq<Wire> {
    seq![
        Wire { from, out_port: 0, to, in_port: (index * 2) as usize },
        Wire { from, out_port: 1, to, in_port: (index * 2 + 1) as usize },
    ]
}

/// The first free slot, going through the groups in order; if there is none, the first slot of
/// a new group, as long as a new group can be opened.
pub open spec fn is_next_slot(groups: Seq<Group>, plan: SlotPlan) -> bool {
    if plan.opens {
        &&& plan.group == groups.len()
        &&& plan.slot == 0
        &&& groups.len() < L2_CAP
        &&& forall|g: int, s: int|
            0 <= g < groups.len() && 0 <= s < GROUP_CAP ==> (#[trigger] groups[g].slots[s]) is Some
    } else {
        &&& plan.group < groups.len()
        &&& plan.slot < GROUP_CAP
        &&& groups[plan.group as int].slots[plan.slot as int] is None
        &&& forall|g: int, s: int|
            0 <= g < groups.len() && 0 <= s < GROUP_CAP && (g < plan.group || (g == plan.group && s
                < plan.slot)) ==> (#[trigger] groups[g].slots[s]) is Some
    }
}

/// Every slot of every group is taken and no group can be opened.
pub open spec fn is_full(groups: Seq<Group>) -> bool {
    &&& groups.len() >= L2_CAP
    &&& forall|g: int, s: int|
        0 <= g < groups.len() && 0 <= s < GROUP_CAP ==> (#[trigger] groups[g].slots[s]) is Some
}

/// The groups with one slot set.
pub open spec fn with_slot(groups: Seq<Group>, g: int, s: int, v: Option<u64>) -> Seq<Group> {
    groups.update(g, Group { node: groups[g].node, slots: groups[g].slots.update(s, v) })
}

/// How many slots of a group are taken.
pub open spec fn taken(slots: Seq<Option<u64>>) -> nat
    decreases slots.len(),
{
    if slots.len() == 0 {
        0
    } else {
        taken(slots.drop_last()) + if slots.last() is Some {
            1nat
        } else {
            0
        }
    }
}

/// How many slots of all groups are taken.
pub open spec fn total_taken(groups: Seq<Group>) -> nat
    decreases groups.len(),
{
    if groups.len() == 0 {
        0
    } else {
        total_taken(groups.drop_last()) + taken(groups.last().slots)
    }
}

impl SumTree {
    /// The summer of the second level.
    pub closed spec fn l2(self) -> u64 {
        self.l2
    }

    /// The groups in their order.
    pub closed spec fn groups(self) -> Seq<Group> {
        self.groups@.map_values(|g: SumGroup| Group { node: g.node, slots: g.slots@ })
    }

    /// The number at a slot, if it is taken.
    pub open spec fn at(self, g: int, s: int) -> Option<u64> {
        self.groups()[g].slots[s]
    }

    /// There is a group and a slot of these numbers.
    pub open spec fn in_range(self, g: int, s: int) -> bool {
        0 <= g < self.groups().len() && 0 <= s < GROUP_CAP
    }

    /// There is at least one group and not too many, each with all its slots, and no track sits
    /// in two slots.
    pub open spec fn wf(self) -> bool {
        &&& 1 <= self.groups().len() <= L2_CAP
        &&& forall|g: int|
            0 <= g < self.groups().len() ==> (#[trigger] self.groups()[g]).slots.len() == GROUP_CAP
        &&& forall|g: int, s: int, h: int, t: int|
            self.in_range(g, s) && self.in_range(h, t) && (#[trigger] self.groups()[g].slots[s])
                is Some && self.groups()[g].slots[s] == (#[trigger] self.groups()[h].slots[t])
                ==> g == h && s == t
    }

    /// The track sits in one of the slots.
    pub open spec fn holds(self, id: u64) -> bool {
        exists|g: int, s: int|
            self.in_range(g, s) && #[trigger] self.groups()[g].slots[s] == Some(id)
    }

    /// How many tracks there are.
    pub open spec fn track_count(self) -> nat {
        total_taken(self.groups())
    }

    /// One group, all its slots free. The wires connect it to the summer of the second level.
    pub fn new(l2: u64, node: u64) -> (r: (Self, Vec<Wire>))
        ensures
            r.0.wf(),
            r.0.l2() == l2,
            r.0.groups() == seq![Group { node, slots: Seq::new(GROUP_CAP as nat, |s: int| None) }],
            r.0.track_count() == 0,
            r.1@ == pair(node, l2, 0),
    {
        let mut tree = Self { l2, groups: Vec::new() };
        assert(tree.groups() =~= Seq::empty());
        let wires = tree.push_group(node);
        proof {
            assert(tree.groups() =~= seq![
                Group { node, slots: Seq::new(GROUP_CAP as nat, |s: int| None) },
            ]);
            lemma_push_group_count(Seq::empty(), tree.groups()[0]);
            assert(Seq::<Group>::empty().push(tree.groups()[0]) =~= tree.groups());
            assert(total_taken(Seq::<Group>::empty()) == 0);
        }
        (tree, wires)
    }

    fn push_group(&mut self, node: u64) -> (wires: Vec<Wire>)
        requires
            old(self).groups().len() < L2_CAP,
        ensures
            final(self).l2() == old(self).l2(),
            final(self).groups() == old(self).groups().push(
                Group { node, slots: Seq::new(GROUP_CAP as nat, |s: int| None) },
            ),
            wires@ == pair(node, old(self).l2(), old(self).groups().len() as int),
    {
        let idx: usize = self.groups.len();
        let mut wires: Vec<Wire> = Vec::new();
        wires.push(Wire { from: node, out_port: 0, to: self.l2, in_port: idx * 2 });
        wires.push(Wire { from: node, out_port: 1, to: self.l2, in_port: idx * 2 + 1 });
        let mut slots: Vec<Option<u64>> = Vec::new();
        while slots.len() < GROUP_CAP
            invariant
                slots.len() <= GROUP_CAP,
                forall|s: int| 0 <= s < slots.len() ==> (#[trigger] slots@[s]) is None,
            decreases GROUP_CAP - slots.len(),
        {
            slots.push(None);
        }
        assert(slots@ =~= Seq::new(GROUP_CAP as nat, |s: int| None::<u64>));
        self.groups.push(SumGroup { node, slots });
        assert(self.groups() =~= old(self).groups().push(
            Group { node, slots: Seq::new(GROUP_CAP as nat, |s: int| None) },
        ));
        assert(wires@ =~= pair(node, old(self).l2(), old(self).groups().len() as int));
        wires
    }

    /// Opens a group, all its slots free. The wires connect it to the next free inputs of the
    /// summer of the second level.
    pub fn open_group(&mut self, node: u64) -> (wires: Vec<Wire>)
        requires
            old(self).wf(),
            old(self).groups().len() < L2_CAP,
        ensures
            final(self).wf(),
            final(self).l2() == old(self).l2(),
            final(self).groups() == old(self).groups().push(
                Group { node, slots: Seq::new(GROUP_CAP as nat, |s: int| None) },
            ),
            final(self).track_count() == old(self).track_count(),
            wires@ == pair(node, old(self).l2(), old(self).groups().len() as int),
    {
        let ghost before = self.groups();
        let wires = self.push_group(node);
        proof {
            lemma_push_group_count(before, self.groups().last());
            assert forall|g: int, s: int, h: int, t: int|
                self.in_range(g, s) && self.in_range(h, t) && (
                #[trigger] self.groups()[g].slots[s]) is Some && self.groups()[g].slots[s] == (
                #[trigger] self.groups()[h].slots[t]) implies g == h && s == t by {
                if g < before.len() {
                    assert(self.groups()[g] == before[g]);
                }
                if h < before.len() {
                    assert(self.groups()[h] == before[h]);
                }
            }
        }
        wires
    }

    /// A slot for one more track: the first free one of the open groups, else the first of a
    /// group that is to be opened, else none.
    pub fn find_slot(&self) -> (r: Option<SlotPlan>)
        requires
            self.wf(),
        ensures
            match r {
                Some(plan) => is_next_slot(self.groups(), plan),
                None => is_full(self.groups()),
            },
    {
        let mut gi: usize = 0;
        while gi < self.groups.len()
            invariant
                gi <= self.groups.len(),
                self.wf(),
                forall|g: int, s: int|
                    0 <= g < gi && 0 <= s < GROUP_CAP ==> (#[trigger] self.groups()[g].slots[s])
                        is Some,
            decreases self.groups.len() - gi,
        {
            let mut si: usize = 0;
            assert(self.groups()[gi as int].slots == self.groups@[gi as int].slots@);
            while si < self.groups[gi].slots.len()
                invariant
                    gi < self.groups.len(),
                    self.wf(),
                    self.groups()[gi as int].slots == self.groups@[gi as int].slots@,
                    si <= GROUP_CAP,
                    forall|g: int, s: int|
                        0 <= g < self.groups().len() && 0 <= s < GROUP_CAP && (g < gi || (g == gi
                            && s < si)) ==> (#[trigger] self.groups()[g].slots[s]) is Some,
                decreases GROUP_CAP - si,
            {
                if self.groups[gi].slots[si].is_none() {
                    return Some(SlotPlan { group: gi, slot: si, opens: false });
                }
                assert(self.groups()[gi as int].slots[si as int] is Some);
                si = si + 1;
            }
            gi = gi + 1;
        }
        if self.groups.len() >= L2_CAP {
            return None;
        }
        Some(SlotPlan { group: self.groups.len(), slot: 0, opens: true })
    }

    /// Where a track with so many inputs and outputs is to go, or why it is not taken.
    pub fn plan_attach(&self, inputs: usize, outputs: usize) -> (r: Result<SlotPlan, AttachError>)
        requires
            self.wf(),
        ensures
            match r {
                Ok(plan) => inputs == 0 && outputs == 2 && is_next_slot(self.groups(), plan),
                Err(AttachError::NotGenerator { inputs: n }) => inputs != 0 && n == inputs,
                Err(AttachError::NotStereo { outputs: n }) => inputs == 0 && outputs != 2 && n
                    == outputs,
                Err(AttachError::NoSlot { cap }) => inputs == 0 && outputs == 2 && is_full(
                    self.groups(),
                ) && cap == TRACK_CAP,
            },
    {
        if inputs != 0 {
            return Err(AttachError::NotGenerator { inputs });
        }
        if outputs != 2 {
            return Err(AttachError::NotStereo { outputs });
        }
        match self.find_slot() {
            Some(plan) => Ok(plan),
            None => Err(AttachError::NoSlot { cap: TRACK_CAP }),
        }
    }

    /// Puts a track into the slot that was planned for it. The wires connect it to the group.
    pub fn attach_child(&mut self, plan: SlotPlan, node: u64) -> (r: (TrackId, Vec<Wire>))
        requires
            old(self).wf(),
            plan.group < old(self).groups().len(),
            plan.slot < GROUP_CAP,
            old(self).at(plan.group as int, plan.slot as int) is None,
            !old(self).holds(node),
        ensures
            final(self).wf(),
            final(self).l2() == old(self).l2(),
            final(self).groups() == with_slot(
                old(self).groups(),
                plan.group as int,
                plan.slot as int,
                Some(node),
            ),
            final(self).holds(node),
            final(self).track_count() == old(self).track_count() + 1,
            r.0 == TrackId(node),
            r.1@ == pair(node, old(self).groups()[plan.group as int].node, plan.slot as int),
            r.1@.len() == 2,
            forall|side: int|
                0 <= side < 2 ==> {
                    &&& (#[trigger] r.1@[side]).from == node
                    &&& r.1@[side].out_port == side
                    &&& r.1@[side].to == old(self).groups()[plan.group as int].node
                    &&& r.1@[side].in_port == 2 * plan.slot + side
                },
    {
        let gi: usize = plan.group;
        let si: usize = plan.slot;
        let to: u64 = self.groups[gi].node;
        let mut wires: Vec<Wire> = Vec::new();
        wires.push(Wire { from: node, out_port: 0, to, in_port: si * 2 });
        wires.push(Wire { from: node, out_port: 1, to, in_port: si * 2 + 1 });
        assert(wires@ =~= pair(node, old(self).groups()[gi as int].node, si as int));
        let ghost before = self.groups();
        assert(before[gi as int].slots.len() == GROUP_CAP);
        self.groups[gi].slots.set(si, Some(node));
        proof {
            assert(self.groups() =~= with_slot(before, gi as int, si as int, Some(node)));
            lemma_with_slot_count(before, gi as int, si as int, Some(node));
            lemma_with_slot_wf(*old(self), *self, gi as int, si as int, Some(node));
            assert(self.groups()[gi as int].slots[si as int] == Some(node));
        }
        (TrackId(node), wires)
    }

    /// Takes a track out. Whether it was there.
    pub fn detach_child(&mut self, id: TrackId) -> (found: bool)
        requires
            old(self).wf(),
        ensures
            final(self).wf(),
            final(self).l2() == old(self).l2(),
            found == old(self).holds(id.0),
            !final(self).holds(id.0),
            final(self).groups().len() == old(self).groups().len(),
            forall|g: int|
                0 <= g < final(self).groups().len() ==> (#[trigger] final(self).groups()[g]).node
                    == old(self).groups()[g].node,
            forall|g: int, s: int|
                final(self).in_range(g, s) ==> #[trigger] final(self).groups()[g].slots[s] == (if old(self).groups()[g].slots[s] == Some(id.0) {
                    None
                } else {
                    old(self).groups()[g].slots[s]
                }),
            final(self).track_count() == old(self).track_count() - if found {
                1int
            } else {
                0
            },
    {
        let ghost before = *self;
        let mut found = false;
        let mut gi: usize = 0;
        while gi < self.groups.len()
            invariant
                gi <= self.groups.len(),
                before.wf(),
                self.detaching(before, id.0, gi as int, 0, found),
            decreases self.groups.len() - gi,
        {
            let mut si: usize = 0;
            assert(self.groups()[gi as int].slots == self.groups@[gi as int].slots@);
            while si < self.groups[gi].slots.len()
                invariant
                    gi < self.groups.len(),
                    before.wf(),
                    self.groups()[gi as int].slots == self.groups@[gi as int].slots@,
                    si <= GROUP_CAP,
                    self.detaching(before, id.0, gi as int, si as int, found),
                decreases GROUP_CAP - si,
            {
                let ghost mid = *self;
                assert(mid.groups()[gi as int].slots[si as int]
                    == before.groups()[gi as int].slots[si as int]);
                let hit = match self.groups[gi].slots[si] {
                    Some(n) => n == id.0,
                    None => false,
                };
                if hit {
                    self.groups[gi].slots.set(si, None);
                    proof {
                        assert(self.groups() =~= with_slot(
                            mid.groups(),
                            gi as int,
                            si as int,
                            None,
                        ));
                        lemma_with_slot_count(mid.groups(), gi as int, si as int, None);
                        lemma_with_slot_wf(mid, *self, gi as int, si as int, None);
                        assert(before.groups()[gi as int].slots[si as int] == Some(id.0));
                    }
                    found = true;
                }
                si = si + 1;
            }
            gi = gi + 1;
        }
        found
    }

    /// All slots before the one at `gi`, `si` have been looked through for the track.
    spec fn detaching(self, before: Self, id: u64, gi: int, si: int, found: bool) -> bool {
        &&& self.wf()
        &&& self.l2() == before.l2()
        &&& self.groups().len() == before.groups().len()
        &&& forall|g: int|
            0 <= g < self.groups().len() ==> (#[trigger] self.groups()[g]).node
                == before.groups()[g].node
        &&& forall|g: int, s: int|
            self.in_range(g, s) ==> #[trigger] self.groups()[g].slots[s] == (if (g < gi || (g == gi
                && s < si)) && before.groups()[g].slots[s] == Some(id) {
                None
            } else {
                before.groups()[g].slots[s]
            })
        &&& found <==> exists|g: int, s: int|
            self.in_range(g, s) && (g < gi || (g == gi && s < si))
                && #[trigger] before.groups()[g].slots[s] == Some(id)
        &&& self.track_count() == before.track_count() - if found {
            1int
        } else {
            0
        }
    }
}

proof fn lemma_push_group_count(groups: Seq<Group>, g: Group)
    requires
        forall|s: int| 0 <= s < g.slots.len() ==> (#[trigger] g.slots[s]) is None,
    ensures
        total_taken(groups.push(g)) == total_taken(groups),
{
    assert(groups.push(g).drop_last() =~= groups);
    lemma_none_taken(g.slots);
}

proof fn lemma_none_taken(slots: Seq<Option<u64>>)
    requires
        forall|s: int| 0 <= s < slots.len() ==> (#[trigger] slots[s]) is None,
    ensures
        taken(slots) == 0,
    decreases slots.len(),
{
    if slots.len() > 0 {
        lemma_none_taken(slots.drop_last());
    }
}

proof fn lemma_update_taken(slots: Seq<Option<u64>>, s: int, v: Option<u64>)
    requires
        0 <= s < slots.len(),
    ensures
        taken(slots.update(s, v)) == taken(slots) - (if slots[s] is Some {
            1int
        } else {
            0
        }) + if v is Some {
            1int
        } else {
            0
        },
    decreases slots.len(),
{
    let after = slots.update(s, v);
    if s == slots.len() - 1 {
        assert(after.drop_last() =~= slots.drop_last());
    } else {
        lemma_update_taken(slots.drop_last(), s, v);
        assert(after.drop_last() =~= slots.drop_last().update(s, v));
    }
}

proof fn lemma_with_slot_count(groups: Seq<Group>, g: int, s: int, v: Option<u64>)
    requires
        0 <= g < groups.len(),
        0 <= s < groups[g].slots.len(),
    ensures
        total_taken(with_slot(groups, g, s, v)) == total_taken(groups) - (if groups[g].slots[s]
            is Some {
            1int
        } else {
            0
        }) + if v is Some {
            1int
        } else {
            0
        },
    decreases groups.len(),
{
    let after = with_slot(groups, g, s, v);
    if g == groups.len() - 1 {
        assert(after.drop_last() =~= groups.drop_last());
        lemma_update_taken(groups[g].slots, s, v);
    } else {
        lemma_with_slot_count(groups.drop_last(), g, s, v);
        assert(after.drop_last() =~= with_slot(groups.drop_last(), g, s, v));
    }
}

proof fn lemma_with_slot_wf(before: SumTree, after: SumTree, g: int, s: int, v: Option<u64>)
    requires
        before.wf(),
        before.in_range(g, s),
        after.groups() == with_slot(before.groups(), g, s, v),
        v matches Some(id) ==> !before.holds(id),
    ensures
        after.wf(),
{
    assert forall|h: int| 0 <= h < after.groups().len() implies (
    #[trigger] after.groups()[h]).slots.len() == GROUP_CAP by {
        assert(before.groups()[h].slots.len() == GROUP_CAP);
    }
    assert forall|a: int, b: int, c: int, d: int|
        after.in_range(a, b) && after.in_range(c, d) && (#[trigger] after.groups()[a].slots[b])
            is Some && after.groups()[a].slots[b] == (
        #[trigger] after.groups()[c].slots[d]) implies a == c && b == d by {
        assert(before.in_range(a, b) && before.in_range(c, d));
        let x = before.groups()[a].slots[b];
        let y = before.groups()[c].slots[d];
        assert(before.groups()[a].slots.len() == GROUP_CAP);
        assert(before.groups()[c].slots.len() == GROUP_CAP);
        if (a, b) != (g, s) {
            assert(after.groups()[a].slots[b] == x);
        }
        if (c, d) != (g, s) {
            assert(after.groups()[c].slots[d] == y);
        }
    }
}

impl SumTree {
    /// The wire is one of those that the groups and the tracks are connected with.
    pub open spec fn wired(self, w: Wire) -> bool {
        ||| exists|g: int|
            0 <= g < self.groups().len() && #[trigger] pair(
                self.groups()[g].node,
                self.l2(),
                g,
            ).contains(w)
        ||| exists|g: int, s: int|
            self.in_range(g, s) && (#[trigger] self.groups()[g].slots[s]) is Some && pair(
                self.groups()[g].slots[s]->0,
                self.groups()[g].node,
                s,
            ).contains(w)
    }

    /// The summers are different nodes.
    pub open spec fn summers_differ(self) -> bool {
        &&& forall|g: int|
            0 <= g < self.groups().len() ==> (#[trigger] self.groups()[g]).node != self.l2()
        &&& forall|g: int, h: int|
            0 <= g < self.groups().len() && 0 <= h < self.groups().len() && g != h ==> (
            #[trigger] self.groups()[g]).node != (#[trigger] self.groups()[h]).node
    }
}

/// No input of a summer is fed twice, so every track is heard once: two wires to the same input
/// are the same wire.
pub proof fn law_inputs_are_not_shared(tree: SumTree, v: Wire, w: Wire)
    requires
        tree.wf(),
        tree.summers_differ(),
        tree.wired(v),
        tree.wired(w),
        v.to == w.to,
        v.in_port == w.in_port,
    ensures
        v == w,
{
    let (g, s) = lemma_wire_source(tree, v);
    let (h, t) = lemma_wire_source(tree, w);
    assert(g == h && s == t);
}

/// Where a wire of the tree comes from: the group and the slot, or the group and -1.
proof fn lemma_wire_source(tree: SumTree, w: Wire) -> (r: (int, int))
    requires
        tree.wf(),
        tree.summers_differ(),
        tree.wired(w),
    ensures
        0 <= r.0 < tree.groups().len(),
        -1 <= r.1 < GROUP_CAP,
        r.1 >= 0 ==> tree.groups()[r.0].slots[r.1] is Some && w.from
            == tree.groups()[r.0].slots[r.1]->0 && w.to == tree.groups()[r.0].node,
        r.1 < 0 ==> w.from == tree.groups()[r.0].node && w.to == tree.l2(),
        w.in_port / 2 == (if r.1 >= 0 {
            r.1
        } else {
            r.0
        }),
        w.out_port == w.in_port % 2,
{
    if exists|g: int|
        0 <= g < tree.groups().len() && #[trigger] pair(
            tree.groups()[g].node,
            tree.l2(),
            g,
        ).contains(w) {
        let g = choose|g: int|
            0 <= g < tree.groups().len() && #[trigger] pair(
                tree.groups()[g].node,
                tree.l2(),
                g,
            ).contains(w);
        let p = pair(tree.groups()[g].node, tree.l2(), g);
        let i = choose|i: int| 0 <= i < p.len() && p[i] == w;
        assert(p[0].in_port == g * 2 && p[1].in_port == g * 2 + 1);
        (g, -1)
    } else {
        let (g, s) = choose|g: int, s: int|
            tree.in_range(g, s) && (#[trigger] tree.groups()[g].slots[s]) is Some && pair(
                tree.groups()[g].slots[s]->0,
                tree.groups()[g].node,
                s,
            ).contains(w);
        let p = pair(tree.groups()[g].slots[s]->0, tree.groups()[g].node, s);
        let i = choose|i: int| 0 <= i < p.len() && p[i] == w;
        assert(p[0].in_port == s * 2 && p[1].in_port == s * 2 + 1);
        (g, s)
    }
}

/// A track is refused for want of a slot exactly when there are [`TRACK_CAP`] of them already,
/// and there are never more.
pub proof fn law_full_at_the_cap(tree: SumTree)
    requires
        tree.wf(),
    ensures
        tree.track_count() <= TRACK_CAP,
        is_full(tree.groups()) <==> tree.track_count() == TRACK_CAP,
{
    let groups = tree.groups();
    lemma_total_bound(groups);
    if is_full(groups) {
        lemma_total_when_all_taken(groups);
    }
    if tree.track_count() == TRACK_CAP {
        assert(groups.len() == L2_CAP) by (nonlinear_arith)
            requires
                total_taken(groups) <= groups.len() * 8,
                total_taken(groups) == 64,
                groups.len() <= 8,
                L2_CAP == 8,
        ;
        assert forall|g: int, s: int| 0 <= g < groups.len() && 0 <= s < GROUP_CAP implies (
        #[trigger] groups[g].slots[s]) is Some by {
            if groups[g].slots[s] is None {
                lemma_total_when_one_free(groups, g, s);
            }
        }
    }
}

/// A track goes to a free slot, and to the first one: no free slot stands before it, and a group
/// is opened only where every slot of those that there are is taken.
pub proof fn law_track_goes_to_the_first_free_slot(tree: SumTree, plan: SlotPlan, g: int, s: int)
    requires
        tree.wf(),
        is_next_slot(tree.groups(), plan),
        0 <= g < tree.groups().len(),
        0 <= s < 8,
        tree.groups()[g].slots[s] is None,
    ensures
        !plan.opens,
        plan.group < tree.groups().len(),
        plan.slot < 8,
        tree.groups()[plan.group as int].slots[plan.slot as int] is None,
        plan.group < g || (plan.group == g && plan.slot <= s),
{
}

/// Where no slot is free and a group can be opened, one more is, behind the others, and the
/// track goes to its first slot.
pub proof fn law_group_is_opened_when_all_are_taken(tree: SumTree, plan: SlotPlan)
    requires
        tree.wf(),
        is_next_slot(tree.groups(), plan),
        forall|g: int, s: int|
            0 <= g < tree.groups().len() && 0 <= s < 8 ==> (#[trigger] tree.groups()[g].slots[s])
                is Some,
    ensures
        plan.opens,
        plan.group == tree.groups().len(),
        plan.slot == 0,
        tree.groups().len() < 8,
{
}

/// Every track is heard: both its channels go to the summer of its group, and both of that to
/// the summer of the second level, the left one to an even input and the right one to the odd
/// input behind it.
pub proof fn law_track_is_heard(tree: SumTree, id: u64)
    requires
        tree.wf(),
        tree.holds(id),
    ensures
        exists|g: int, s: int|
            {
                &&& 0 <= g < tree.groups().len()
                &&& 0 <= s < 8
                &&& #[trigger] tree.groups()[g].slots[s] == Some(id)
                &&& forall|side: usize|
                    side < 2 ==> tree.wired(
                        Wire {
                            from: id,
                            out_port: side,
                            to: tree.groups()[g].node,
                            in_port: #[trigger] add_side(2 * s, side),
                        },
                    ) && tree.wired(
                        Wire {
                            from: tree.groups()[g].node,
                            out_port: side,
                            to: tree.l2(),
                            in_port: add_side(2 * g, side),
                        },
                    )
            },
{
    let (g, s) = choose|g: int, s: int|
        tree.in_range(g, s) && #[trigger] tree.groups()[g].slots[s] == Some(id);
    let node = tree.groups()[g].node;
    assert forall|side: usize| side < 2 implies tree.wired(
        Wire { from: id, out_port: side, to: node, in_port: #[trigger] add_side(2 * s, side) },
    ) && tree.wired(
        Wire { from: node, out_port: side, to: tree.l2(), in_port: add_side(2 * g, side) },
    ) by {
        let low = pair(id, node, s);
        let high = pair(node, tree.l2(), g);
        assert(low.contains(low[side as int]));
        assert(high.contains(high[side as int]));
        assert(low[side as int] == Wire {
            from: id,
            out_port: side,
            to: node,
            in_port: add_side(2 * s, side),
        });
        assert(high[side as int] == Wire {
            from: node,
            out_port: side,
            to: tree.l2(),
            in_port: add_side(2 * g, side),
        });
    }
    assert(tree.groups()[g].slots[s] == Some(id));
}

/// The number of an input, counted from the first of a pair on.
pub open spec fn add_side(first: int, side: usize) -> usize {
    (first + side) as usize
}

/// Left stays left and right stays right: a left output feeds an even input and a right one an
/// odd input.
pub proof fn law_sides_are_not_swapped(tree: SumTree, w: Wire)
    requires
        tree.wf(),
        tree.summers_differ(),
        tree.wired(w),
    ensures
        w.out_port < 2,
        w.in_port % 2 == w.out_port,
        w.in_port < 16,
{
    let r = lemma_wire_source(tree, w);
}

/// A track that sits in a slot is counted.
pub proof fn law_held_track_is_counted(tree: SumTree, id: u64)
    requires
        tree.wf(),
        tree.holds(id),
    ensures
        tree.track_count() >= 1,
{
    let (g, s) = choose|g: int, s: int|
        tree.in_range(g, s) && #[trigger] tree.groups()[g].slots[s] == Some(id);
    lemma_with_slot_count(tree.groups(), g, s, None);
}

proof fn lemma_taken_bound(slots: Seq<Option<u64>>)
    ensures
        taken(slots) <= slots.len(),
    decreases slots.len(),
{
    if slots.len() > 0 {
        lemma_taken_bound(slots.drop_last());
    }
}

proof fn lemma_all_taken(slots: Seq<Option<u64>>)
    requires
        forall|s: int| 0 <= s < slots.len() ==> (#[trigger] slots[s]) is Some,
    ensures
        taken(slots) == slots.len(),
    decreases slots.len(),
{
    if slots.len() > 0 {
        lemma_all_taken(slots.drop_last());
    }
}

proof fn lemma_total_bound(groups: Seq<Group>)
    requires
        forall|g: int|
            0 <= g < groups.len() ==> (#[trigger] groups[g]).slots.len() == GROUP_CAP,
    ensures
        total_taken(groups) <= groups.len() * 8,
    decreases groups.len(),
{
    if groups.len() > 0 {
        lemma_total_bound(groups.drop_last());
        lemma_taken_bound(groups.last().slots);
    }
}

proof fn lemma_total_when_all_taken(groups: Seq<Group>)
    requires
        forall|g: int|
            0 <= g < groups.len() ==> (#[trigger] groups[g]).slots.len() == GROUP_CAP,
        forall|g: int, s: int|
            0 <= g < groups.len() && 0 <= s < GROUP_CAP ==> (#[trigger] groups[g].slots[s]) is Some,
    ensures
        total_taken(groups) == groups.len() * 8,
    decreases groups.len(),
{
    if groups.len() > 0 {
        let rest = groups.drop_last();
        assert forall|g: int, s: int| 0 <= g < rest.len() && 0 <= s < GROUP_CAP implies (
        #[trigger] rest[g].slots[s]) is Some by {
            assert(groups[g].slots[s] is Some);
        }
        lemma_total_when_all_taken(rest);
        assert forall|s: int| 0 <= s < GROUP_CAP implies (#[trigger] groups.last().slots[s])
            is Some by {
            assert(groups[groups.len() - 1].slots[s] is Some);
        }
        lemma_all_taken(groups.last().slots);
    }
}

proof fn lemma_total_when_one_free(groups: Seq<Group>, g: int, s: int)
    requires
        forall|h: int|
            0 <= h < groups.len() ==> (#[trigger] groups[h]).slots.len() == GROUP_CAP,
        0 <= g < groups.len(),
        0 <= s < GROUP_CAP,
        groups[g].slots[s] is None,
    ensures
        total_taken(groups) < groups.len() * 8,
{
    lemma_with_slot_count(groups, g, s, Some(0));
    let filled = with_slot(groups, g, s, Some(0));
    assert forall|h: int| 0 <= h < filled.len() implies (#[trigger] filled[h]).slots.len()
        == GROUP_CAP by {
        assert(groups[h].slots.len() == GROUP_CAP);
    }
    lemma_total_bound(filled);
}

/// Taking a track out right after it was put in leaves the slots as they were.
pub proof fn law_detach_undoes_attach(
    before: SumTree,
    during: SumTree,
    after: SumTree,
    plan: SlotPlan,
    node: u64,
    g: int,
    s: int,
)
    requires
        before.wf(),
        plan.group < before.groups().len(),
        plan.slot < GROUP_CAP,
        before.at(plan.group as int, plan.slot as int) is None,
        !before.holds(node),
        during.groups() == with_slot(
            before.groups(),
            plan.group as int,
            plan.slot as int,
            Some(node),
        ),
        after.groups().len() == during.groups().len(),
        forall|h: int, t: int|
            after.in_range(h, t) ==> #[trigger] after.groups()[h].slots[t] == (
            if during.groups()[h].slots[t] == Some(node) {
                None
            } else {
                during.groups()[h].slots[t]
            }),
        before.in_range(g, s),
    ensures
        after.at(g, s) == before.at(g, s),
{
    assert(after.in_range(g, s));
    assert(after.groups()[g].slots[s] == if during.groups()[g].slots[s] == Some(node) {
        None
    } else {
        during.groups()[g].slots[s]
    });
    assert(before.groups()[g].slots.len() == GROUP_CAP);
    assert(before.groups()[g].slots[s] != Some(node));
}

} // verus!
