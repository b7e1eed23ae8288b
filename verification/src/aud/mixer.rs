//! The mixers, one for every device: their registry, the commands that they take, and when
//! their output renders, catches up or asks for a pause.

use std::collections::hash_map::RandomState;

use dashmap::DashMap;
use vstd::prelude::*;

use super::sum::{AttachError, SlotPlan, SumTree, TrackId, Wire};
use super::{MAX_RENDER_SKIP_FRAMES, STANDBY_DELAY};
use crate::task::manager::TaskHandle;
use crate::task::{TaskId, TaskManager};
use crate::util::AtomicInstant;

verus! {

/// What the host says of a device.
#[derive(Debug)]
pub struct DeviceDescription {
    pub name: String,
    pub address: Option<String>,
}

/// A device as it is shown.
#[derive(Debug)]
pub struct DeviceInfo {
    pub id: String,
    pub name: String,
    /// The physical address, or what it is connected by.
    pub address: Option<String>,
}

impl Clone for DeviceInfo {
    fn clone(&self) -> (r: Self)
        ensures
            r == *self,
    {
        Self {
            id: self.id.clone(),
            name: self.name.clone(),
            address: match &self.address {
                Some(a) => Some(a.clone()),
                None => None,
            },
        }
    }
}

impl DeviceInfo {
    /// A device under its id, with no name and no address where the host does not tell.
    pub fn create(dev_id_str: &str, desc: Option<&DeviceDescription>) -> (r: Self)
        ensures
            r.id@ == dev_id_str@,
            r.name@ == (match desc {
                Some(d) => d.name@,
                None => Seq::empty(),
            }),
            match desc {
                Some(d) => r.address == d.address,
                None => r.address is None,
            },
    {
        Self {
            id: dev_id_str.to_owned(),
            name: match desc {
                Some(d) => d.name.clone(),
                None => String::new(),
            },
            address: match desc {
                Some(d) => match &d.address {
                    Some(a) => Some(a.clone()),
                    None => None,
                },
                None => None,
            },
        }
    }
}

/// What a mixer asks of the stream of its device.
#[derive(Debug, Clone, Copy, PartialEq, Eq, Structural)]
pub enum MixerEvent {
    /// To pause.
    RequestStandby,
    /// To play again.
    RequestResume,
}

/// What a mixer does while it has no track.
#[derive(Debug, Clone, Copy, PartialEq, Eq, Structural)]
pub enum StandbyMode {
    /// It asks for its stream to pause after [`STANDBY_DELAY`].
    Auto,
    /// It lets its stream play on.
    ForcePlay,
}

impl Default for StandbyMode {
    fn default() -> (r: Self)
        ensures
            r == StandbyMode::Auto,
    {
        Self::Auto
    }
}

/// Why a command to a mixer failed.
#[derive(Debug, Clone, Copy, PartialEq, Eq, Structural)]
pub enum MixerCmdError {
    /// The command could not be handed over in time.
    Send,
    /// The mixer did not answer in time.
    Timeout,
    /// The mixer did not take the track.
    Attach(AttachError),
}

impl vstd::std_specs::convert::FromSpecImpl<AttachError> for MixerCmdError {
    open spec fn obeys_from_spec() -> bool {
        true
    }

    open spec fn from_spec(v: AttachError) -> Self {
        MixerCmdError::Attach(v)
    }
}

impl From<AttachError> for MixerCmdError {
    fn from(e: AttachError) -> (r: Self) {
        MixerCmdError::Attach(e)
    }
}

/// What came of a command: whether it was handed over, and the answer if there was one.
pub fn command_result<T>(sent: bool, reply: Option<T>) -> (r: Result<T, MixerCmdError>)
    ensures
        r == (if !sent {
            Err(MixerCmdError::Send)
        } else {
            match reply {
                Some(v) => Ok(v),
                None => Err(MixerCmdError::Timeout),
            }
        }),
{
    if !sent {
        return Err(MixerCmdError::Send);
    }
    match reply {
        Some(v) => Ok(v),
        None => Err(MixerCmdError::Timeout),
    }
}

/// What came of handing a track to a mixer.
pub fn attach_result(sent: bool, reply: Option<Result<TrackId, AttachError>>) -> (r: Result<
    TrackId,
    MixerCmdError,
>)
    ensures
        r == (if !sent {
            Err(MixerCmdError::Send)
        } else {
            match reply {
                Some(Ok(id)) => Ok(id),
                Some(Err(e)) => Err(MixerCmdError::Attach(e)),
                None => Err(MixerCmdError::Timeout),
            }
        }),
{
    match command_result(sent, reply) {
        Ok(Ok(id)) => Ok(id),
        Ok(Err(e)) => Err(MixerCmdError::from(e)),
        Err(e) => Err(e),
    }
}

/// What the worker of a mixer and its output share.
#[derive(Debug)]
pub struct MixerLinkState {
    /// Rendering has failed, and the stream is silent until it is built anew.
    pub backend_errored: bool,
    /// How many tracks there are.
    pub track_count: usize,
    /// The stream is gone.
    pub disconnected: bool,
    /// Since when.
    pub disconnect_at: AtomicInstant,
    pub mode: StandbyMode,
}

impl MixerLinkState {
    pub open spec fn wf(self) -> bool {
        self.disconnect_at.wf()
    }

    /// As it is when a mixer is made.
    pub fn new(now: u128) -> (r: Self)
        requires
            now + crate::util::OFFSET_RANGE <= u128::MAX,
        ensures
            r.wf(),
            !r.backend_errored,
            r.track_count == 0,
            !r.disconnected,
            r.disconnect_at@ == now,
            r.disconnect_at.anchor() == now,
            r.mode == StandbyMode::Auto,
    {
        Self {
            backend_errored: false,
            track_count: 0,
            disconnected: false,
            disconnect_at: AtomicInstant::new(now),
            mode: StandbyMode::Auto,
        }
    }

    /// The stream is built anew: rendering is tried again.
    pub fn reset(&mut self)
        requires
            old(self).wf(),
        ensures
            *final(self) == (MixerLinkState { backend_errored: false, ..*old(self) }),
    {
        self.backend_errored = false;
    }

    /// Between two states, the stream was lost. Of several losses in a row only the first
    /// counts. Its time is kept as [`AtomicInstant::store`] keeps it.
    pub open spec fn loses(self, now: u128, after: Self) -> bool {
        &&& after.wf()
        &&& after.disconnected
        &&& after.backend_errored == self.backend_errored
        &&& after.track_count == self.track_count
        &&& after.mode == self.mode
        &&& after.disconnect_at.anchor() == self.disconnect_at.anchor()
        &&& self.disconnected ==> after.disconnect_at == self.disconnect_at
        &&& !self.disconnected ==> after.disconnect_at@ == (if now >= self.disconnect_at.anchor() {
            self.disconnect_at.anchor() + (now - self.disconnect_at.anchor())
                % crate::util::OFFSET_RANGE as int
        } else {
            self.disconnect_at.anchor() as int
        })
        &&& !self.disconnected && self.disconnect_at.anchor() <= now < self.disconnect_at.anchor()
            + crate::util::OFFSET_RANGE ==> after.disconnect_at@ == now
    }

    /// The stream is gone. Of several losses in a row only the first counts.
    pub fn disconnected(&mut self, now: u128)
        requires
            old(self).wf(),
        ensures
            old(self).loses(now, *final(self)),
    {
        if self.disconnected {
            return;
        }
        self.disconnected = true;
        self.disconnect_at.store(now);
    }
}

/// How many commands, and how many events, a mixer keeps for those who are slow.
pub const CHANNEL_CAP: usize = 16;

/// How long a command may take to be handed over, and how long its answer, in seconds.
pub const CMD_TIMEOUT_SECS: u64 = 1;

/// How long a new mixer is given to come up, in seconds.
pub const MIXER_INIT_SECS: u64 = 5;

/// How long the worker of a mixer waits for a command before it looks whether it was
/// cancelled, in milliseconds.
pub const WORKER_WAIT_MS: u64 = 50;

/// What came while the worker of a mixer waited.
#[derive(Debug, Clone, Copy, PartialEq, Eq, Structural)]
pub enum WorkerEvent {
    /// A command.
    Command,
    /// Something that no command could be read from.
    Unreadable,
    /// Nothing, for [`WORKER_WAIT_MS`].
    Timeout,
    /// Nothing, and nothing can come any more.
    Disconnected,
}

/// What the worker of a mixer does next.
#[derive(Debug, Clone, Copy, PartialEq, Eq, Structural)]
pub enum WorkerNext {
    /// Do what the command asks for, and wait again.
    Handle,
    /// Wait for commands from there no more, and wait again.
    Unsubscribe,
    /// Wait again.
    Wait,
    /// End.
    Return,
}

/// What the worker of a mixer does about what came, where `cancelled` tells whether it was
/// cancelled before it waited.
pub fn worker_step(cancelled: bool, event: WorkerEvent) -> (r: WorkerNext)
    ensures
        r == (if cancelled || event == WorkerEvent::Disconnected {
            WorkerNext::Return
        } else if event == WorkerEvent::Command {
            WorkerNext::Handle
        } else if event == WorkerEvent::Unreadable {
            WorkerNext::Unsubscribe
        } else {
            WorkerNext::Wait
        }),
{
    if cancelled {
        return WorkerNext::Return;
    }
    match event {
        WorkerEvent::Command => WorkerNext::Handle,
        WorkerEvent::Unreadable => WorkerNext::Unsubscribe,
        WorkerEvent::Timeout => WorkerNext::Wait,
        WorkerEvent::Disconnected => WorkerNext::Return,
    }
}

/// A command to a mixer that leaves the summers to themselves or takes a track out.
#[derive(Debug, Clone, Copy, PartialEq, Eq, Structural)]
pub enum MixerCmd {
    Detach { id: TrackId },
    SetStandbyMode(StandbyMode),
    Resume,
}

/// What the worker of a mixer does about a command, besides answering it.
#[derive(Debug, Clone, Copy, PartialEq, Eq, Structural)]
pub enum CmdEffect {
    /// The track was there: its node is to be taken out of the audio graph.
    Removed,
    /// The track was not there.
    NotFound,
    /// The mode is set.
    Done,
    /// The stream is to be asked to play again.
    Send(MixerEvent),
}

/// The number of tracks that the output sees is that of the summers.
pub open spec fn counted(tree: SumTree, state: MixerLinkState) -> bool {
    state.track_count == tree.track_count()
}

/// Puts a track into the slot that was planned for it, opening a group for it if that was
/// planned. The wires are to be connected in their order.
pub fn handle_attach(
    tree: &mut SumTree,
    state: &mut MixerLinkState,
    plan: SlotPlan,
    group: Option<u64>,
    node: u64,
) -> (r: (TrackId, Vec<Wire>))
    requires
        old(tree).wf(),
        counted(*old(tree), *old(state)),
        super::sum::is_next_slot(old(tree).groups(), plan),
        plan.opens <==> group is Some,
        !old(tree).holds(node),
    ensures
        final(tree).wf(),
        counted(*final(tree), *final(state)),
        final(state).track_count == old(state).track_count + 1,
        *final(state) == (MixerLinkState {
            track_count: final(state).track_count,
            ..*old(state)
        }),
        final(tree).holds(node),
        final(tree).l2() == old(tree).l2(),
        r.0 == TrackId(node),
        match group {
            Some(g) => {
                let opened = old(tree).groups().push(
                    super::sum::Group {
                        node: g,
                        slots: Seq::new(super::GROUP_CAP as nat, |s: int| None),
                    },
                );
                &&& final(tree).groups() == super::sum::with_slot(
                    opened,
                    plan.group as int,
                    plan.slot as int,
                    Some(node),
                )
                &&& r.1@ == super::sum::pair(g, old(tree).l2(), plan.group as int)
                    + super::sum::pair(node, g, plan.slot as int)
            },
            None => {
                &&& final(tree).groups() == super::sum::with_slot(
                    old(tree).groups(),
                    plan.group as int,
                    plan.slot as int,
                    Some(node),
                )
                &&& r.1@ == super::sum::pair(
                    node,
                    old(tree).groups()[plan.group as int].node,
                    plan.slot as int,
                )
            },
        },
{
    let mut wires: Vec<Wire> = match group {
        Some(g) => {
            let w = tree.open_group(g);
            proof {
                assert(!tree.holds(node)) by {
                    if tree.holds(node) {
                        let (a, b) = choose|a: int, b: int|
                            tree.in_range(a, b) && #[trigger] tree.groups()[a].slots[b] == Some(
                                node,
                            );
                        assert(old(tree).in_range(a, b));
                        assert(old(tree).groups()[a].slots[b] == Some(node));
                    }
                }
            }
            w
        },
        None => Vec::new(),
    };
    let (id, mut more) = tree.attach_child(plan, node);
    wires.append(&mut more);
    proof {
        super::sum::law_full_at_the_cap(*tree);
        if group is None {
            assert(wires@ =~= super::sum::pair(
                node,
                old(tree).groups()[plan.group as int].node,
                plan.slot as int,
            ));
        }
    }
    state.track_count = state.track_count + 1;
    (id, wires)
}

/// Does what a command asks for. A mode that cannot be reached is left as it is.
pub fn handle_cmd(cmd: MixerCmd, tree: &mut SumTree, state: &mut MixerLinkState, mode_ok: bool) -> (r:
    CmdEffect)
    requires
        old(tree).wf(),
        counted(*old(tree), *old(state)),
    ensures
        final(tree).wf(),
        counted(*final(tree), *final(state)),
        final(tree).l2() == old(tree).l2(),
        match cmd {
            MixerCmd::Detach { id } => {
                &&& r == (if old(tree).holds(id.0) {
                    CmdEffect::Removed
                } else {
                    CmdEffect::NotFound
                })
                &&& !final(tree).holds(id.0)
                &&& final(tree).groups().len() == old(tree).groups().len()
                &&& forall|g: int|
                    0 <= g < final(tree).groups().len() ==> (
                    #[trigger] final(tree).groups()[g]).node == old(tree).groups()[g].node
                &&& forall|g: int, s: int|
                    final(tree).in_range(g, s) ==> #[trigger] final(tree).groups()[g].slots[s] == (
                    if old(tree).groups()[g].slots[s] == Some(id.0) {
                        None
                    } else {
                        old(tree).groups()[g].slots[s]
                    })
                &&& final(state).track_count + (if old(tree).holds(id.0) {
                    1int
                } else {
                    0
                }) == old(state).track_count
                &&& *final(state) == (MixerLinkState {
                    track_count: final(state).track_count,
                    ..*old(state)
                })
            },
            MixerCmd::SetStandbyMode(mode) => {
                &&& r == CmdEffect::Done
                &&& *final(tree) == *old(tree)
                &&& *final(state) == (if mode_ok {
                    MixerLinkState { mode, ..*old(state) }
                } else {
                    *old(state)
                })
            },
            MixerCmd::Resume => {
                &&& r == CmdEffect::Send(MixerEvent::RequestResume)
                &&& *final(tree) == *old(tree)
                &&& *final(state) == *old(state)
            },
        },
{
    match cmd {
        MixerCmd::Detach { id } => {
            let removed = tree.detach_child(id);
            if removed {
                state.track_count = state.track_count - 1;
                CmdEffect::Removed
            } else {
                CmdEffect::NotFound
            }
        },
        MixerCmd::SetStandbyMode(mode) => {
            if mode_ok {
                state.mode = mode;
            }
            CmdEffect::Done
        },
        MixerCmd::Resume => CmdEffect::Send(MixerEvent::RequestResume),
    }
}

/// What a request for frames leads to.
#[derive(Debug, Clone, Copy, PartialEq, Eq, Structural)]
pub enum ReadPlan {
    /// Nothing is rendered.
    Refused,
    /// The frames are rendered. If the stream was gone, so many nanoseconds have passed, and
    /// [`skip_frames`] of them are rendered before and thrown away.
    Render { gap: Option<u128> },
}

/// Between two states, the filling of a buffer was begun.
pub open spec fn begins(
    before: MixerLinkState,
    len: usize,
    backend_ok: bool,
    now: u128,
    plan: ReadPlan,
    after: MixerLinkState,
) -> bool {
    if len % 2 != 0 || len == 0 || before.backend_errored {
        plan == ReadPlan::Refused && after == before
    } else if !backend_ok {
        &&& plan == ReadPlan::Refused
        &&& after == (MixerLinkState { backend_errored: true, ..before })
    } else {
        &&& plan == (ReadPlan::Render {
            gap: if !before.disconnected {
                None
            } else if now >= before.disconnect_at@ {
                Some((now - before.disconnect_at@) as u128)
            } else {
                Some(0)
            },
        })
        &&& after == (MixerLinkState { disconnected: false, ..before })
    }
}

/// Begins to fill a buffer of `len` samples, two for each frame. `backend_ok` tells whether the
/// renderer can be reached.
pub fn begin_read(state: &mut MixerLinkState, len: usize, backend_ok: bool, now: u128) -> (r:
    ReadPlan)
    requires
        old(state).wf(),
    ensures
        final(state).wf(),
        begins(*old(state), len, backend_ok, now, r, *final(state)),
{
    if len % 2 != 0 || len == 0 {
        return ReadPlan::Refused;
    }
    if state.backend_errored {
        return ReadPlan::Refused;
    }
    if !backend_ok {
        state.backend_errored = true;
        return ReadPlan::Refused;
    }
    if state.disconnected {
        state.disconnected = false;
        let at: u128 = state.disconnect_at.load();
        let gap: u128 = if now >= at {
            now - at
        } else {
            0
        };
        return ReadPlan::Render { gap: Some(gap) };
    }
    ReadPlan::Render { gap: None }
}

/// How many samples of a buffer of `len` are filled by a plan.
pub open spec fn samples_of(plan: ReadPlan, len: usize) -> usize {
    match plan {
        ReadPlan::Render { gap: _ } => len,
        ReadPlan::Refused => 0,
    }
}

/// How many samples the one who asked for frames is told were filled: all that there is room
/// for, or none.
pub fn samples_filled(plan: ReadPlan, len: usize) -> (r: usize)
    ensures
        r == samples_of(plan, len),
{
    match plan {
        ReadPlan::Render { gap: _ } => len,
        ReadPlan::Refused => 0,
    }
}

/// A buffer is filled as a whole or not at all: it is if it holds whole frames, at least one,
/// and nothing is wrong with the renderer.
pub proof fn law_all_or_nothing_is_filled(
    before: MixerLinkState,
    len: usize,
    backend_ok: bool,
    now: u128,
    plan: ReadPlan,
    after: MixerLinkState,
)
    requires
        begins(before, len, backend_ok, now, plan, after),
    ensures
        samples_of(plan, len) == (if len % 2 == 0 && backend_ok && !before.backend_errored {
            len
        } else {
            0
        }),
{
}

/// A stream that comes back catches up with all the time since it was first lost, however often
/// it was lost meanwhile, and does so once.
pub proof fn law_catches_up_since_the_first_loss(
    playing: MixerLinkState,
    lost: MixerLinkState,
    lost_again: MixerLinkState,
    back: MixerLinkState,
    after: MixerLinkState,
    first: u128,
    second: u128,
    third: u128,
    fourth: u128,
    len: usize,
    plan: ReadPlan,
    next_plan: ReadPlan,
)
    requires
        playing.wf(),
        !playing.disconnected,
        !playing.backend_errored,
        playing.disconnect_at.anchor() <= first < playing.disconnect_at.anchor()
            + crate::util::OFFSET_RANGE,
        first <= third,
        len > 0,
        len % 2 == 0,
        playing.loses(first, lost),
        lost.loses(second, lost_again),
        begins(lost_again, len, true, third, plan, back),
        begins(back, len, true, fourth, next_plan, after),
    ensures
        plan == (ReadPlan::Render { gap: Some((third - first) as u128) }),
        next_plan == (ReadPlan::Render { gap: None }),
{
}

/// How many frames are rendered to catch up with so many that were missed.
pub fn skip_frames(missed: usize) -> (r: usize)
    ensures
        r == (if missed > MAX_RENDER_SKIP_FRAMES {
            MAX_RENDER_SKIP_FRAMES
        } else {
            missed
        }),
        r <= missed,
        r <= 480_000,
        r < missed ==> r == 480_000,
{
    if missed > MAX_RENDER_SKIP_FRAMES {
        MAX_RENDER_SKIP_FRAMES
    } else {
        missed
    }
}

/// What the output of a mixer remembers from one buffer to the next.
#[derive(Debug, Clone, Copy, PartialEq, Eq, Structural)]
pub struct MixerOutput {
    /// Since when there is no track.
    pub idle_since: Option<u128>,
    /// A pause was asked for since then.
    pub standby_fired: bool,
}

/// What one look at the tracks makes of what was remembered, and whether a pause is asked for.
pub open spec fn idle_step(o: MixerOutput, mode: StandbyMode, tracks: nat, now: u128) -> (
    MixerOutput,
    bool,
) {
    if mode != StandbyMode::Auto {
        (o, false)
    } else if tracks > 0 {
        (MixerOutput { idle_since: None, standby_fired: false }, false)
    } else {
        let since = match o.idle_since {
            Some(t) => t,
            None => now,
        };
        let fire = !o.standby_fired && now - since >= STANDBY_DELAY;
        (MixerOutput { idle_since: Some(since), standby_fired: o.standby_fired || fire }, fire)
    }
}

impl MixerOutput {
    /// Nothing to remember yet.
    pub fn new() -> (r: Self)
        ensures
            r == (MixerOutput { idle_since: None, standby_fired: false }),
    {
        Self { idle_since: None, standby_fired: false }
    }

    /// Ends the filling of a buffer. Whether the stream is to be asked to pause. A mode that
    /// cannot be reached counts as [`StandbyMode::ForcePlay`].
    pub fn finish_read(&mut self, state: &MixerLinkState, mode_ok: bool, now: u128) -> (fire: bool)
        ensures
            (*final(self), fire) == idle_step(
                *old(self),
                if mode_ok {
                    state.mode
                } else {
                    StandbyMode::ForcePlay
                },
                state.track_count as nat,
                now,
            ),
    {
        let mode = if mode_ok {
            state.mode
        } else {
            StandbyMode::ForcePlay
        };
        if mode == StandbyMode::Auto {
            if state.track_count == 0 {
                let since: u128 = match self.idle_since {
                    Some(t) => t,
                    None => now,
                };
                self.idle_since = Some(since);
                if !self.standby_fired && now >= since && now - since >= STANDBY_DELAY {
                    self.standby_fired = true;
                    return true;
                }
            } else {
                self.idle_since = None;
                self.standby_fired = false;
            }
        }
        false
    }
}

/// One filled buffer: in which mode, with how many tracks, and when.
pub struct Look {
    pub mode: StandbyMode,
    pub tracks: nat,
    pub now: u128,
}

/// What the output of a mixer remembers while the buffers are filled, one after the other, and
/// for which of them it asks for a pause.
pub open spec fn plays(outputs: Seq<MixerOutput>, looks: Seq<Look>, fires: Seq<bool>) -> bool {
    &&& outputs.len() == looks.len() + 1
    &&& fires.len() == looks.len()
    &&& forall|i: int|
        0 <= i < looks.len() ==> (outputs[i + 1], #[trigger] fires[i]) == idle_step(
            outputs[i],
            looks[i].mode,
            looks[i].tracks,
            looks[i].now,
        )
}

/// A pause is never asked for while there is a track, audible or not, nor while the stream is
/// to play on.
pub proof fn law_no_standby_while_playing(
    outputs: Seq<MixerOutput>,
    looks: Seq<Look>,
    fires: Seq<bool>,
    i: int,
)
    requires
        plays(outputs, looks, fires),
        0 <= i < looks.len(),
        looks[i].tracks > 0 || looks[i].mode == StandbyMode::ForcePlay,
    ensures
        !fires[i],
{
}

/// Between two requests to pause there was a track.
pub proof fn law_standby_asked_once(
    outputs: Seq<MixerOutput>,
    looks: Seq<Look>,
    fires: Seq<bool>,
    i: int,
    j: int,
)
    requires
        plays(outputs, looks, fires),
        0 <= i < j < looks.len(),
        fires[i],
        fires[j],
    ensures
        exists|k: int| i < k < j && (#[trigger] looks[k]).tracks > 0,
{
    if forall|k: int| i < k < j ==> (#[trigger] looks[k]).tracks == 0 {
        assert(fires[i]);
        lemma_fired_stays(outputs, looks, fires, i, j);
        assert(fires[j]);
    }
}

proof fn lemma_fired_stays(
    outputs: Seq<MixerOutput>,
    looks: Seq<Look>,
    fires: Seq<bool>,
    i: int,
    j: int,
)
    requires
        plays(outputs, looks, fires),
        0 <= i < j <= looks.len(),
        outputs[i + 1].standby_fired,
        forall|k: int| i < k < j ==> (#[trigger] looks[k]).tracks == 0,
    ensures
        outputs[j].standby_fired,
    decreases j - i,
{
    if i + 1 < j {
        lemma_fired_stays(outputs, looks, fires, i, j - 1);
        assert(looks[j - 1].tracks == 0);
        let f = fires[j - 1];
    }
}

/// When a pause is asked for, [`STANDBY_DELAY`] has passed since a buffer that was filled after
/// the last track was gone.
pub proof fn law_standby_only_after_the_delay(
    outputs: Seq<MixerOutput>,
    looks: Seq<Look>,
    fires: Seq<bool>,
    k: int,
    j: int,
)
    requires
        plays(outputs, looks, fires),
        0 <= k < j < looks.len(),
        looks[k].mode == StandbyMode::Auto,
        looks[k].tracks > 0,
        fires[j],
    ensures
        exists|i: int|
            k < i <= j && looks[j].now - (#[trigger] looks[i]).now >= STANDBY_DELAY,
{
    let f = fires[k];
    assert(outputs[k + 1].idle_since is None);
    lemma_idle_began(outputs, looks, fires, k, j);
    let g = fires[j];
    match outputs[j].idle_since {
        Some(t) => {
            let i = choose|i: int| k < i < j && (#[trigger] looks[i]).now == t;
            assert(looks[j].now - looks[i].now >= STANDBY_DELAY);
        },
        None => {},
    }
}

proof fn lemma_idle_began(
    outputs: Seq<MixerOutput>,
    looks: Seq<Look>,
    fires: Seq<bool>,
    k: int,
    j: int,
)
    requires
        plays(outputs, looks, fires),
        0 <= k < j <= looks.len(),
        outputs[k + 1].idle_since is None,
    ensures
        outputs[j].idle_since matches Some(t) ==> exists|i: int|
            k < i < j && (#[trigger] looks[i]).now == t,
    decreases j - k,
{
    if k + 1 < j {
        lemma_idle_began(outputs, looks, fires, k, j - 1);
        let f = fires[j - 1];
        if outputs[j].idle_since is Some && outputs[j - 1].idle_since is None {
            assert(looks[j - 1].now == outputs[j].idle_since->0);
        }
    }
}

/// Of an idle mixer whose buffers are filled in time, a pause is asked for at the first one
/// that comes [`STANDBY_DELAY`] after it fell idle.
pub proof fn law_standby_comes(o: MixerOutput, since: u128, now: u128)
    requires
        o.idle_since == Some(since),
        !o.standby_fired,
    ensures
        idle_step(o, StandbyMode::Auto, 0, now).1 <==> now - since >= STANDBY_DELAY,
{
}

/// A mixer that stays idle is paused in time. Of buffers that are filled one after the other, of
/// which some are from a certain one on filled without a track and in the mode that pauses, a
/// pause has been asked for by the first one that comes two seconds later: then, or before and
/// without a track in that mode since. Only asking for it makes up for asking for it.
pub proof fn law_idle_mixer_is_paused(
    outputs: Seq<MixerOutput>,
    looks: Seq<Look>,
    fires: Seq<bool>,
    i: int,
    j: int,
)
    requires
        plays(outputs, looks, fires),
        outputs[0].idle_since is None,
        !outputs[0].standby_fired,
        forall|a: int, b: int|
            0 <= a <= b < looks.len() ==> (#[trigger] looks[a]).now <= (#[trigger] looks[b]).now,
        0 <= i <= j < looks.len(),
        forall|k: int|
            i <= k <= j ==> (#[trigger] looks[k]).mode == StandbyMode::Auto && looks[k].tracks == 0,
        looks[j].now - looks[i].now >= 2_000_000_000,
    ensures
        exists|k: int|
            {
                &&& 0 <= k <= j
                &&& #[trigger] fires[k]
                &&& forall|l: int|
                    k < l <= j ==> !((#[trigger] looks[l]).mode == StandbyMode::Auto
                        && looks[l].tracks > 0)
            },
{
    lemma_fired_was_asked(outputs, looks, fires, j + 1);
    lemma_idle_since_is_past(outputs, looks, fires, i);
    lemma_idle_since_stays(outputs, looks, fires, i, j);
    let f = fires[j];
    if fires[j] {
        assert(fires[j] && forall|l: int|
            j < l <= j ==> !((#[trigger] looks[l]).mode == StandbyMode::Auto && looks[l].tracks
                > 0));
    } else {
        assert(outputs[j + 1].standby_fired);
        let end = j + 1;
        let k = choose|k: int| #[trigger] was_asked(looks, fires, k, end);
        assert(fires[k]);
    }
}

/// A pause was asked for at `k`, and no track was there since in the mode that pauses.
spec fn was_asked(looks: Seq<Look>, fires: Seq<bool>, k: int, n: int) -> bool {
    &&& 0 <= k < n
    &&& fires[k]
    &&& forall|l: int|
        k < l < n ==> !((#[trigger] looks[l]).mode == StandbyMode::Auto && looks[l].tracks > 0)
}

proof fn lemma_fired_was_asked(
    outputs: Seq<MixerOutput>,
    looks: Seq<Look>,
    fires: Seq<bool>,
    n: int,
)
    requires
        plays(outputs, looks, fires),
        !outputs[0].standby_fired,
        0 <= n <= looks.len(),
    ensures
        outputs[n].standby_fired ==> exists|k: int| was_asked(looks, fires, k, n),
    decreases n,
{
    if n > 0 {
        lemma_fired_was_asked(outputs, looks, fires, n - 1);
        let f = fires[n - 1];
        if outputs[n].standby_fired {
            if f {
                assert(was_asked(looks, fires, n - 1, n));
            } else {
                assert(outputs[n - 1].standby_fired);
                let before = n - 1;
                let k = choose|k: int| #[trigger] was_asked(looks, fires, k, before);
                assert(was_asked(looks, fires, k, n));
            }
        }
    }
}

/// What is remembered as the beginning of the idle time is no later than any later buffer.
proof fn lemma_idle_since_is_past(
    outputs: Seq<MixerOutput>,
    looks: Seq<Look>,
    fires: Seq<bool>,
    n: int,
)
    requires
        plays(outputs, looks, fires),
        outputs[0].idle_since is None,
        forall|a: int, b: int|
            0 <= a <= b < looks.len() ==> (#[trigger] looks[a]).now <= (#[trigger] looks[b]).now,
        0 <= n < looks.len(),
    ensures
        outputs[n].idle_since matches Some(t) ==> t <= looks[n].now,
    decreases n,
{
    if n > 0 {
        lemma_idle_since_is_past(outputs, looks, fires, n - 1);
        let f = fires[n - 1];
        assert(looks[n - 1].now <= looks[n].now);
    }
}

proof fn lemma_idle_since_stays(
    outputs: Seq<MixerOutput>,
    looks: Seq<Look>,
    fires: Seq<bool>,
    i: int,
    j: int,
)
    requires
        plays(outputs, looks, fires),
        0 <= i <= j < looks.len(),
        forall|k: int|
            i <= k <= j ==> (#[trigger] looks[k]).mode == StandbyMode::Auto && looks[k].tracks == 0,
        outputs[i].idle_since matches Some(t) ==> t <= looks[i].now,
    ensures
        outputs[j + 1].idle_since matches Some(t) && t <= looks[i].now,
    decreases j - i,
{
    if i < j {
        lemma_idle_since_stays(outputs, looks, fires, i, j - 1);
    }
    let f = fires[j];
    assert(looks[j].tracks == 0);
}

/// A pause is never asked for early: two seconds before, there was a buffer without a track in
/// the mode that pauses, and none with a track in that mode since.
pub proof fn law_pause_is_never_early(
    outputs: Seq<MixerOutput>,
    looks: Seq<Look>,
    fires: Seq<bool>,
    j: int,
)
    requires
        plays(outputs, looks, fires),
        outputs[0].idle_since is None,
        0 <= j < looks.len(),
        fires[j],
    ensures
        looks[j].mode == StandbyMode::Auto,
        looks[j].tracks == 0,
        exists|i: int|
            {
                &&& 0 <= i <= j
                &&& looks[j].now - (#[trigger] looks[i]).now >= 2_000_000_000
                &&& looks[i].mode == StandbyMode::Auto
                &&& forall|l: int|
                    i <= l <= j ==> !((#[trigger] looks[l]).mode == StandbyMode::Auto
                        && looks[l].tracks > 0)
            },
{
    let f = fires[j];
    lemma_idle_began_at(outputs, looks, fires, j + 1);
    let t = outputs[j + 1].idle_since->0;
    let end = j + 1;
    let i = choose|i: int| #[trigger] began_at(looks, i, end, t);
    assert(looks[j].now - looks[i].now >= 2_000_000_000);
}

/// The idle time began with the `i`th buffer, and no track was there since in the mode that
/// pauses.
spec fn began_at(looks: Seq<Look>, i: int, n: int, t: u128) -> bool {
    &&& 0 <= i < n
    &&& looks[i].now == t
    &&& looks[i].mode == StandbyMode::Auto
    &&& forall|l: int|
        i <= l < n ==> !((#[trigger] looks[l]).mode == StandbyMode::Auto && looks[l].tracks > 0)
}

proof fn lemma_idle_began_at(
    outputs: Seq<MixerOutput>,
    looks: Seq<Look>,
    fires: Seq<bool>,
    n: int,
)
    requires
        plays(outputs, looks, fires),
        outputs[0].idle_since is None,
        0 <= n <= looks.len(),
    ensures
        outputs[n].idle_since matches Some(t) ==> exists|i: int| began_at(looks, i, n, t),
    decreases n,
{
    if n > 0 {
        lemma_idle_began_at(outputs, looks, fires, n - 1);
        let f = fires[n - 1];
        if outputs[n].idle_since is Some {
            let t = outputs[n].idle_since->0;
            if outputs[n - 1].idle_since is Some {
                let before = n - 1;
                let i = choose|i: int| #[trigger] began_at(looks, i, before, t);
                assert(began_at(looks, i, n, t));
            } else {
                assert(began_at(looks, n - 1, n, t));
            }
        }
    }
}

/// A renderer that cannot be reached is not tried again until the stream is built anew, and a
/// buffer that is refused leaves a loss of the stream to be made up for later.
pub proof fn law_failed_renderer_stays_silent(
    before: MixerLinkState,
    len: usize,
    now: u128,
    plan: ReadPlan,
    failed: MixerLinkState,
    next_len: usize,
    next_ok: bool,
    later: u128,
    next_plan: ReadPlan,
    after: MixerLinkState,
)
    requires
        len > 0,
        len % 2 == 0,
        begins(before, len, false, now, plan, failed),
        begins(failed, next_len, next_ok, later, next_plan, after),
    ensures
        plan is Refused,
        next_plan is Refused,
        failed.disconnected == before.disconnected,
        after.disconnected == before.disconnected,
        after.disconnect_at == before.disconnect_at,
        after.track_count == before.track_count,
        after.mode == before.mode,
{
}

/// A buffer that is rendered makes up for a loss of the stream exactly if there was one.
pub proof fn law_gap_only_after_a_loss(
    before: MixerLinkState,
    len: usize,
    now: u128,
    gap: Option<u128>,
    after: MixerLinkState,
)
    requires
        before.wf(),
        begins(before, len, true, now, ReadPlan::Render { gap }, after),
    ensures
        gap is Some <==> before.disconnected,
        gap matches Some(g) ==> (if now >= before.disconnect_at@ {
            g + before.disconnect_at@ == now
        } else {
            g == 0
        }),
        !after.disconnected,
        after.track_count == before.track_count,
        after.mode == before.mode,
        !after.backend_errored,
{
}

/// A mixer in the registry: its worker and its device.
#[derive(Debug)]
pub struct MixerBundle {
    pub worker: TaskId,
    pub meta: DeviceInfo,
}

impl Clone for MixerBundle {
    fn clone(&self) -> (r: Self)
        ensures
            r == *self,
    {
        Self { worker: self.worker, meta: self.meta.clone() }
    }
}

pub(crate) type MixerMap = DashMap<String, MixerBundle, RandomState>;

/// The mixers that the map holds, by device id.
pub uninterp spec fn mixers_in(m: DashMap<String, MixerBundle, RandomState>) -> Map<
    Seq<char>,
    MixerBundle,
>;

/// Calls `DashMap::new`, which makes an empty map.
#[verifier::external_body]
fn mixers_new() -> (m: MixerMap)
    ensures
        mixers_in(m) == (Map::<Seq<char>, MixerBundle>::empty()),
{
    DashMap::new()
}

/// Calls `DashMap::get` and clones the value that it finds under the key.
#[verifier::external_body]
fn mixers_get(m: &MixerMap, id: &str) -> (r: Option<MixerBundle>)
    ensures
        r == (if mixers_in(*m).contains_key(id@) {
            Some(mixers_in(*m)[id@])
        } else {
            None
        }),
{
    m.get(id).map(|b| b.value().clone())
}

/// Calls `DashMap::insert`, which puts the value under the key in place of any other.
#[verifier::external_body]
fn mixers_insert(m: &mut MixerMap, id: String, b: MixerBundle)
    ensures
        mixers_in(*final(m)) == mixers_in(*old(m)).insert(id@, b),
{
    m.insert(id, b);
}

/// Calls `DashMap::remove`, which takes out the key and its value, and tells whether they were
/// there.
#[verifier::external_body]
fn mixers_remove(m: &mut MixerMap, id: &str) -> (r: bool)
    ensures
        mixers_in(*final(m)) == mixers_in(*old(m)).remove(id@),
        r == mixers_in(*old(m)).contains_key(id@),
{
    m.remove(id).is_some()
}

/// Calls `DashMap::iter` and collects the entries: each entry of the map once, in no given
/// order.
#[verifier::external_body]
fn mixers_entries(m: &MixerMap) -> (r: Vec<(String, MixerBundle)>)
    ensures
        forall|i: int, j: int|
            0 <= i < r@.len() && 0 <= j < r@.len() && i != j ==> (#[trigger] r@[i]).0@ != (
            #[trigger] r@[j]).0@,
        forall|i: int|
            0 <= i < r@.len() ==> mixers_in(*m).contains_key((#[trigger] r@[i]).0@) && mixers_in(
                *m,
            )[r@[i].0@] == r@[i].1,
        forall|id: Seq<char>| #[trigger]
            mixers_in(*m).contains_key(id) ==> exists|i: int|
                0 <= i < r@.len() && (#[trigger] r@[i]).0@ == id,
{
    m.iter().map(|e| (e.key().clone(), e.value().clone())).collect()
}

/// The mixers, one for every device.
pub struct Mixers {
    inner: MixerMap,
}

/// The mixer of a device.
#[derive(Debug, Clone, Copy, PartialEq, Eq, Structural)]
pub struct MixerLease {
    pub worker: TaskId,
    /// The mixer is new.
    pub created: bool,
    /// Its worker is to be started.
    pub started: bool,
}

/// The worker has panicked.
pub open spec fn panicked(tm: TaskManager, worker: TaskId) -> bool {
    crate::task::manager::at(tm.states(), worker) matches Some(s) && s is Panicked
}

/// Between two states of the registry and the task manager, the mixer of a device was asked for:
/// it was there, and its worker had not panicked, or it was made and a task entered for its
/// worker.
pub open spec fn obtains(
    before: Mixers,
    tm_before: TaskManager,
    info: DeviceInfo,
    lease: MixerLease,
    after: Mixers,
    tm_after: TaskManager,
) -> bool {
    if before.serves(tm_before, info.id@) {
        &&& after@ == before@
        &&& tm_after == tm_before
        &&& lease == (MixerLease {
            worker: before@[info.id@].worker,
            created: false,
            started: false,
        })
    } else {
        &&& crate::task::manager::enters(tm_before, lease.worker, lease.started, tm_after)
        &&& lease.created
        &&& after@ == before@.insert(info.id@, MixerBundle { worker: lease.worker, meta: info })
    }
}

impl Mixers {
    /// The mixers by device id.
    pub closed spec fn view(&self) -> Map<Seq<char>, MixerBundle> {
        mixers_in(self.inner)
    }

    /// The device has a mixer whose worker has not panicked.
    pub open spec fn serves(self, tm: TaskManager, id: Seq<char>) -> bool {
        self@.contains_key(id) && !panicked(tm, self@[id].worker)
    }

    pub fn new() -> (r: Self)
        ensures
            r@ == Map::<Seq<char>, MixerBundle>::empty(),
    {
        Self { inner: mixers_new() }
    }

    /// The mixer of a device. One whose worker has panicked is dropped, and where there is none
    /// a task is entered for the worker of a new one.
    pub fn get_or_create(&mut self, tm: &mut TaskManager, info: &DeviceInfo) -> (r: MixerLease)
        ensures
            obtains(*old(self), *old(tm), *info, r, *final(self), *final(tm)),
    {
        if let Some(b) = mixers_get(&self.inner, info.id.as_str()) {
            if !worker_panicked(tm, &b) {
                return MixerLease { worker: b.worker, created: false, started: false };
            }
            let _there = mixers_remove(&mut self.inner, info.id.as_str());
        }
        let (handle, started) = tm.spawn_blocking_typed::<(), (), ()>();
        mixers_insert(
            &mut self.inner,
            info.id.clone(),
            MixerBundle { worker: handle.id, meta: info.clone() },
        );
        assert(self@ =~= old(self)@.insert(
            info.id@,
            MixerBundle { worker: handle.id, meta: *info },
        ));
        MixerLease { worker: handle.id, created: true, started }
    }

    /// Drops the mixer of a device. Whether there was one.
    pub fn remove(&mut self, dev_id: &str) -> (r: bool)
        ensures
            final(self)@ == old(self)@.remove(dev_id@),
            r == old(self)@.contains_key(dev_id@),
    {
        mixers_remove(&mut self.inner, dev_id)
    }

    /// The worker of the mixer of a device.
    pub fn handle(&self, dev_id: &str) -> (r: Option<TaskId>)
        ensures
            r == (if self@.contains_key(dev_id@) {
                Some(self@[dev_id@].worker)
            } else {
                None
            }),
    {
        match mixers_get(&self.inner, dev_id) {
            Some(b) => Some(b.worker),
            None => None,
        }
    }

    /// The devices that have a mixer, each once, in no given order.
    pub fn devices(&self) -> (r: Vec<DeviceInfo>)
        ensures
            exists|ids: Seq<Seq<char>>|
                {
                    &&& #[trigger] ids.no_duplicates()
                    &&& ids.len() == r@.len()
                    &&& forall|id: Seq<char>| ids.contains(id) <==> #[trigger] self@.contains_key(id)
                    &&& forall|i: int|
                        0 <= i < ids.len() ==> #[trigger] r@[i] == self@[ids[i]].meta
                },
    {
        let entries = mixers_entries(&self.inner);
        let mut devs: Vec<DeviceInfo> = Vec::new();
        let mut i: usize = 0;
        while i < entries.len()
            invariant
                i <= entries.len(),
                devs.len() == i,
                forall|k: int| 0 <= k < i ==> #[trigger] devs@[k] == entries@[k].1.meta,
            decreases entries.len() - i,
        {
            devs.push(entries[i].1.meta.clone());
            i = i + 1;
        }
        proof {
            let ids = Seq::new(entries@.len(), |k: int| entries@[k].0@);
            assert forall|a: int, b: int|
                0 <= a < ids.len() && 0 <= b < ids.len() && a != b implies ids[a] != ids[b] by {
                assert(entries@[a].0@ != entries@[b].0@);
            }
            assert(ids.no_duplicates());
            assert forall|id: Seq<char>| ids.contains(id) <==> #[trigger] self@.contains_key(
                id,
            ) by {
                if ids.contains(id) {
                    let k = choose|k: int| 0 <= k < ids.len() && ids[k] == id;
                    assert(entries@[k].0@ == id);
                }
                if self@.contains_key(id) {
                    let k = choose|k: int|
                        0 <= k < entries@.len() && (#[trigger] entries@[k]).0@ == id;
                    assert(ids[k] == id);
                }
            }
        }
        devs
    }
}

fn worker_panicked(tm: &TaskManager, b: &MixerBundle) -> (r: bool)
    ensures
        r == panicked(*tm, b.worker),
{
    let handle: TaskHandle<(), (), ()> = TaskHandle::new(b.worker);
    handle.status(tm).is_panicked()
}

/// A mixer whose worker has panicked is replaced by one with a worker of its own, and the mixers
/// of the other devices are left alone.
pub proof fn law_panicked_mixer_is_replaced(
    before: Mixers,
    tm_before: TaskManager,
    info: DeviceInfo,
    lease: MixerLease,
    after: Mixers,
    tm_after: TaskManager,
    other: Seq<char>,
)
    requires
        obtains(before, tm_before, info, lease, after, tm_after),
        other != info.id@,
    ensures
        after@.contains_key(info.id@),
        after@[info.id@].worker == lease.worker,
        !before@.contains_key(info.id@) ==> lease.created,
        before@.contains_key(info.id@) && tm_before.states().contains_key(
            before@[info.id@].worker.0,
        ) && tm_before.states()[before@[info.id@].worker.0] is Panicked ==> lease.created,
        before@.contains_key(info.id@) && !(tm_before.states().contains_key(
            before@[info.id@].worker.0,
        ) && tm_before.states()[before@[info.id@].worker.0] is Panicked) ==> !lease.created
            && lease.worker == before@[info.id@].worker && tm_after == tm_before,
        lease.created ==> after@[info.id@].meta == info && tm_after.states().contains_key(
            lease.worker.0,
        ) && !(tm_after.states()[lease.worker.0] is Panicked),
        after@.contains_key(other) == before@.contains_key(other),
        before@.contains_key(other) ==> after@[other] == before@[other],
{
}

/// A device has one mixer: asking for it again gives the same worker, and makes no other, as
/// long as that worker has not panicked.
pub proof fn law_one_mixer_per_device(
    before: Mixers,
    tm_before: TaskManager,
    info: DeviceInfo,
    again: DeviceInfo,
    first: MixerLease,
    between: Mixers,
    tm_between: TaskManager,
    tm_later: TaskManager,
    second: MixerLease,
    after: Mixers,
    tm_after: TaskManager,
)
    requires
        obtains(before, tm_before, info, first, between, tm_between),
        again.id@ == info.id@,
        !panicked(tm_later, first.worker),
        obtains(between, tm_later, again, second, after, tm_after),
    ensures
        second.worker == first.worker,
        !second.created,
        after@ == between@,
{
}

} // verus!
