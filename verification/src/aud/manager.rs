//! The view of the devices that the rest of the speaker works with.

use std::sync::Arc;

use vstd::prelude::*;

use super::devices::{DeviceEvent, DeviceState, DeviceStates};
use super::mixer::{DeviceInfo, MixerCmdError, Mixers};
use crate::task::manager::TaskHandle;
use crate::task::{TaskData, TaskId, TaskManager, TypedTaskState};
use crate::text::str_le;

verus! {

/// Why the audio host does not run.
#[derive(Debug)]
pub enum AudioManagerError<E> {
    HostHandler { source: Arc<E> },
    HostHandlerQuited,
    HostHandlerPanicked { msg: Arc<String> },
}

/// Why a command to a device failed.
#[derive(Debug, Clone, Copy, PartialEq, Eq, Structural)]
pub enum DeviceError {
    /// The device was unplugged or dropped.
    Gone,
    Mixer { source: MixerCmdError },
}

/// A device that can be played on: its id and the worker of its mixer.
#[derive(Debug)]
pub struct Device {
    pub id: String,
    pub worker: TaskId,
}

/// The devices and their mixers.
pub struct AudioManager {
    pub mixers: Mixers,
    pub states: DeviceStates,
}

impl AudioManager {
    /// The device is in the directory and has a mixer.
    pub open spec fn offers(self, id: Seq<char>) -> bool {
        self.states@.contains_key(id) && self.mixers@.contains_key(id)
    }

    /// The devices are those that are in the directory and have a mixer, in the order of their
    /// ids.
    pub open spec fn lists(self, devs: Seq<Device>) -> bool {
        &&& forall|i: int, j: int|
            0 <= i < j < devs.len() ==> crate::text::lex_le(
                (#[trigger] devs[i]).id@,
                (#[trigger] devs[j]).id@,
            ) && devs[i].id@ != devs[j].id@
        &&& forall|i: int|
            0 <= i < devs.len() ==> self.offers((#[trigger] devs[i]).id@) && devs[i].worker
                == self.mixers@[devs[i].id@].worker
        &&& forall|id: Seq<char>| #[trigger]
            self.offers(id) ==> exists|i: int| 0 <= i < devs.len() && (#[trigger] devs[i]).id@ == id
    }

    /// The device is that of the id, if it is in the directory and has a mixer.
    pub open spec fn gives(self, id: Seq<char>, dev: Option<Device>) -> bool {
        match dev {
            Some(d) => self.offers(id) && d.id@ == id && d.worker == self.mixers@[id].worker,
            None => !self.offers(id),
        }
    }

    pub fn new() -> (r: Self)
        ensures
            r.states.wf(),
            r.states@ == Map::<Seq<char>, super::devices::DeviceEntry>::empty(),
            r.mixers@ == Map::<Seq<char>, super::mixer::MixerBundle>::empty(),
    {
        Self { mixers: Mixers::new(), states: DeviceStates::new() }
    }

    /// The stream that plays the mixer of this worker is up: its device is ready, unless it has
    /// vanished meanwhile or has another mixer. What is announced of it.
    pub fn stream_is_up(&mut self, id: &str, worker: TaskId, now: u128) -> (r: Option<DeviceEvent>)
        requires
            old(self).states.wf(),
        ensures
            final(self).states.wf(),
            final(self).mixers == old(self).mixers,
            if old(self).offers(id@) && old(self).mixers@[id@].worker == worker {
                let e = old(self).states@[id@];
                &&& final(self).states@ == old(self).states@.insert(
                    id@,
                    super::devices::moved(e, DeviceState::Ready, now),
                )
                &&& if e.state == DeviceState::Ready {
                    r is None
                } else {
                    super::devices::announces(DeviceState::Ready, id@, r)
                }
            } else {
                r is None && final(self).states@ == old(self).states@
            },
    {
        match self.mixers.handle(id) {
            Some(w) => {
                if w == worker {
                    self.states.transition(id, DeviceState::Ready, now).1
                } else {
                    None
                }
            },
            None => None,
        }
    }

    /// The devices that are in the directory and have a mixer, in the order of their ids.
    /// Those that cannot be served are among them.
    pub fn devices(&self) -> (r: Vec<Device>)
        ensures
            self.lists(r@),
    {
        let entries = self.states.snapshot();
        let mut devs: Vec<Device> = Vec::new();
        let mut i: usize = 0;
        while i < entries.len()
            invariant
                i <= entries.len(),
                forall|a: int, b: int|
                    0 <= a < entries@.len() && 0 <= b < entries@.len() && a != b ==> (
                    #[trigger] entries@[a]).0@ != (#[trigger] entries@[b]).0@,
                forall|a: int|
                    0 <= a < entries@.len() ==> self.states@.contains_key(
                        (#[trigger] entries@[a]).0@,
                    ),
                forall|a: int, b: int|
                    0 <= a < b < devs@.len() ==> crate::text::lex_le(
                        (#[trigger] devs@[a]).id@,
                        (#[trigger] devs@[b]).id@,
                    ) && devs@[a].id@ != devs@[b].id@,
                forall|a: int|
                    0 <= a < devs@.len() ==> self.offers((#[trigger] devs@[a]).id@)
                        && devs@[a].worker == self.mixers@[devs@[a].id@].worker && exists|k: int|
                        0 <= k < i && (#[trigger] entries@[k]).0@ == devs@[a].id@,
                forall|k: int|
                    0 <= k < i && self.offers((#[trigger] entries@[k]).0@) ==> exists|a: int|
                        0 <= a < devs@.len() && (#[trigger] devs@[a]).id@ == entries@[k].0@,
            decreases entries.len() - i,
        {
            let ghost before = devs@;
            if let Some(worker) = self.mixers.handle(entries[i].0.as_str()) {
                let id = entries[i].0.clone();
                let new_dev = Device { id, worker };
                let ghost dev = new_dev;
                insert_sorted(&mut devs, new_dev);
                proof {
                    let new = entries@[i as int].0@;
                    assert(self.offers(new));
                    let at = choose|at: int|
                        0 <= at <= before.len() && devs@ == #[trigger] before.insert(at, dev);
                    assert(devs@[at] == dev);
                    assert forall|a: int| 0 <= a < before.len() implies exists|c: int|
                        0 <= c < devs@.len() && #[trigger] devs@[c] == #[trigger] before[a] by {
                        let c = if a < at { a } else { a + 1 };
                        assert(devs@[c] == before[a]);
                    }
                    assert forall|c: int| 0 <= c < devs@.len() implies #[trigger] devs@[c] == dev
                        || exists|a: int| 0 <= a < before.len() && #[trigger] before[a] == devs@[c] by {
                        if c < at {
                            assert(before[c] == devs@[c]);
                        } else if c > at {
                            assert(before[c - 1] == devs@[c]);
                        }
                    }
                }
            }
            i = i + 1;
        }
        proof {
            assert forall|id: Seq<char>| #[trigger] self.offers(id) implies exists|a: int|
                0 <= a < devs@.len() && (#[trigger] devs@[a]).id@ == id by {
                let k = choose|k: int| 0 <= k < entries@.len() && (#[trigger] entries@[k]).0@ == id;
                assert(self.offers(entries@[k].0@));
            }
        }
        devs
    }

    /// The device of an id, if it is in the directory and has a mixer.
    pub fn device(&self, id: &str) -> (r: Option<Device>)
        ensures
            self.gives(id@, r),
    {
        match self.mixers.handle(id) {
            Some(worker) => {
                if self.states.get(id).is_none() {
                    return None;
                }
                Some(Device { id: id.to_owned(), worker })
            },
            None => None,
        }
    }
}

/// Puts a device in its place among others that are in the order of their ids.
fn insert_sorted(devs: &mut Vec<Device>, dev: Device)
    requires
        forall|a: int, b: int|
            0 <= a < b < old(devs)@.len() ==> crate::text::lex_le(
                (#[trigger] old(devs)@[a]).id@,
                (#[trigger] old(devs)@[b]).id@,
            ) && old(devs)@[a].id@ != old(devs)@[b].id@,
        forall|a: int| 0 <= a < old(devs)@.len() ==> (#[trigger] old(devs)@[a]).id@ != dev.id@,
    ensures
        forall|a: int, b: int|
            0 <= a < b < final(devs)@.len() ==> crate::text::lex_le(
                (#[trigger] final(devs)@[a]).id@,
                (#[trigger] final(devs)@[b]).id@,
            ) && final(devs)@[a].id@ != final(devs)@[b].id@,
        exists|at: int|
            0 <= at <= old(devs)@.len() && final(devs)@ == #[trigger] old(devs)@.insert(at, dev),
{
    let mut at: usize = devs.len();
    while at > 0 && !str_le(devs[at - 1].id.as_str(), dev.id.as_str())
        invariant
            at <= devs.len(),
            devs@ == old(devs)@,
            forall|k: int|
                at <= k < devs@.len() ==> !crate::text::lex_le(
                    (#[trigger] devs@[k]).id@,
                    dev.id@,
                ),
        decreases at,
    {
        at = at - 1;
    }
    let ghost before = devs@;
    let ghost new = dev;
    devs.insert(at, dev);
    proof {
        assert(devs@ == before.insert(at as int, new));
        assert forall|a: int, b: int| 0 <= a < b < devs@.len() implies crate::text::lex_le(
            (#[trigger] devs@[a]).id@,
            (#[trigger] devs@[b]).id@,
        ) && devs@[a].id@ != devs@[b].id@ by {
            let x = if a < at { a } else { a - 1 };
            let y = if b < at { b } else { b - 1 };
            if a == at {
                assert(devs@[b] == before[b - 1]);
                crate::text::law_lex_total(new.id@, before[b - 1].id@);
            } else if b == at {
                assert(devs@[a] == before[a]);
                if a < at - 1 {
                    assert(crate::text::lex_le(before[a].id@, before[at - 1].id@));
                    crate::text::law_lex_transitive(before[a].id@, before[at - 1].id@, new.id@);
                }
            } else {
                assert(devs@[a] == before[x]);
                assert(devs@[b] == before[y]);
            }
        }
    }
}

impl Device {
    pub fn id(&self) -> (r: &str)
        ensures
            r@ == self.id@,
    {
        self.id.as_str()
    }

    pub fn info(&self, states: &DeviceStates) -> (r: Option<DeviceInfo>)
        ensures
            r == (if states@.contains_key(self.id@) {
                Some(states@[self.id@].info)
            } else {
                None
            }),
    {
        match states.get(self.id.as_str()) {
            Some(e) => Some(e.info),
            None => None,
        }
    }

    /// The state of the device now: a device that is not in the directory is gone.
    pub open spec fn state_in(self, states: DeviceStates) -> DeviceState {
        if states@.contains_key(self.id@) {
            states@[self.id@].state
        } else {
            DeviceState::Gone
        }
    }

    pub fn state(&self, states: &DeviceStates) -> (r: DeviceState)
        ensures
            r == self.state_in(*states),
    {
        match states.get(self.id.as_str()) {
            Some(e) => e.state,
            None => DeviceState::Gone,
        }
    }

    /// Whether a command may be sent to the device.
    pub open spec fn liveness_in(self, states: DeviceStates) -> Result<(), DeviceError> {
        if self.state_in(states) == DeviceState::Gone {
            Err(DeviceError::Gone)
        } else {
            Ok(())
        }
    }

    /// Whether a command may be sent to the device.
    pub fn ensure_live(&self, states: &DeviceStates) -> (r: Result<(), DeviceError>)
        ensures
            r == self.liveness_in(*states),
    {
        if self.state(states) == DeviceState::Gone {
            return Err(DeviceError::Gone);
        }
        Ok(())
    }

    /// What a failed command says of the device: one that was lost on the way to a device that
    /// is gone says just that.
    pub fn classify(&self, states: &DeviceStates, e: MixerCmdError) -> (r: DeviceError)
        ensures
            r == (if (e == MixerCmdError::Send || e == MixerCmdError::Timeout) && self.state_in(
                *states,
            ) == DeviceState::Gone {
                DeviceError::Gone
            } else {
                DeviceError::Mixer { source: e }
            }),
    {
        if (e == MixerCmdError::Send || e == MixerCmdError::Timeout) && self.state(states)
            == DeviceState::Gone {
            return DeviceError::Gone;
        }
        DeviceError::Mixer { source: e }
    }

    /// What came of a command that was sent to the device.
    pub fn conclude<T>(&self, states: &DeviceStates, outcome: Result<T, MixerCmdError>) -> (r:
        Result<T, DeviceError>)
        ensures
            r == (match outcome {
                Ok(v) => Ok(v),
                Err(e) => Err(
                    if (e == MixerCmdError::Send || e == MixerCmdError::Timeout) && self.state_in(
                        *states,
                    ) == DeviceState::Gone {
                        DeviceError::Gone
                    } else {
                        DeviceError::Mixer { source: e }
                    },
                ),
            }),
    {
        match outcome {
            Ok(v) => Ok(v),
            Err(e) => Err(self.classify(states, e)),
        }
    }
}

/// Whether the audio host came to run, given the state in which the wait for it ended.
pub fn ensure_host_is_running<E>(state: TypedTaskState<(), (), E>) -> (r: Result<
    (),
    AudioManagerError<E>,
>)
    ensures
        r == (match state {
            TypedTaskState::Running(_) => Ok(()),
            TypedTaskState::Failed(e) => Err(AudioManagerError::HostHandler { source: e }),
            TypedTaskState::Panicked(m) => Err(AudioManagerError::HostHandlerPanicked { msg: m }),
            _ => Err(AudioManagerError::HostHandlerQuited),
        }),
{
    match state {
        TypedTaskState::Running(_) => Ok(()),
        TypedTaskState::Failed(e) => Err(AudioManagerError::HostHandler { source: e }),
        TypedTaskState::Panicked(e) => Err(AudioManagerError::HostHandlerPanicked { msg: e }),
        _ => Err(AudioManagerError::HostHandlerQuited),
    }
}

/// Looks whether the audio host has come to run, or will not any more. `None` is to look again
/// when woken.
pub fn wait_ready<E: TaskData>(host: &TaskHandle<(), (), E>, tm: &TaskManager) -> (r: Option<
    Result<(), AudioManagerError<E>>,
>)
    ensures
        match crate::task::manager::at(tm.states(), host.id) {
            Some(s) => {
                &&& s is Pending || s is Cancelling <==> r is None
                &&& s matches crate::task::TaskState::Running(v) ==> (if <() as TaskData>::held(
                    v,
                ) is Some {
                    r == Some(Ok::<(), AudioManagerError<E>>(()))
                } else {
                    r == Some(Err::<(), _>(AudioManagerError::<E>::HostHandlerQuited))
                })
                &&& s matches crate::task::TaskState::Failed(v) ==> match E::held(v) {
                    Some(x) => r matches Some(Err(AudioManagerError::HostHandler { source }))
                        && *source == x,
                    None => r == Some(Err::<(), _>(AudioManagerError::<E>::HostHandlerQuited)),
                }
                &&& s matches crate::task::TaskState::Panicked(m) ==> r == Some(
                    Err::<(), _>(AudioManagerError::<E>::HostHandlerPanicked { msg: m }),
                )
                &&& s is Completed || s is Cancelled ==> r == Some(
                    Err::<(), _>(AudioManagerError::<E>::HostHandlerQuited),
                )
            },
            None => r == Some(Err::<(), _>(AudioManagerError::<E>::HostHandlerQuited)),
        },
{
    match host.status(tm) {
        TypedTaskState::Pending => None,
        TypedTaskState::Cancelling => None,
        state => Some(ensure_host_is_running(state)),
    }
}

/// A device can be asked for by its id exactly if it is listed, and is the same then.
pub proof fn law_device_is_listed(
    am: AudioManager,
    devs: Seq<Device>,
    id: Seq<char>,
    dev: Option<Device>,
)
    requires
        am.lists(devs),
        am.gives(id, dev),
    ensures
        dev is Some <==> exists|i: int| 0 <= i < devs.len() && (#[trigger] devs[i]).id@ == id,
        forall|i: int|
            0 <= i < devs.len() && (#[trigger] devs[i]).id@ == id ==> (dev matches Some(d)
                && d.worker == devs[i].worker),
{
}

/// A device is given out exactly while it is in the directory and has a mixer, with the worker
/// of that mixer.
pub proof fn law_device_has_entry_and_mixer(am: AudioManager, id: Seq<char>, dev: Option<Device>)
    requires
        am.gives(id, dev),
    ensures
        dev is Some <==> am.states@.contains_key(id) && am.mixers@.contains_key(id),
        dev matches Some(d) ==> d.id@ == id && d.worker == am.mixers@[id].worker,
{
}

/// A device takes commands while it starts, plays or has vanished for a moment, and takes none
/// once it is gone or no longer in the directory.
pub proof fn law_device_takes_commands_until_gone(dev: Device, states: DeviceStates)
    ensures
        dev.liveness_in(states) is Ok <==> states@.contains_key(dev.id@) && (
        states@[dev.id@].state is Initializing || states@[dev.id@].state is Ready
            || states@[dev.id@].state is Disconnected),
        dev.liveness_in(states) is Err ==> dev.liveness_in(states) == Err::<(), DeviceError>(
            DeviceError::Gone,
        ),
{
}

/// A device that cannot be served is listed all the same, but takes no command.
pub proof fn law_unserved_device_is_listed(am: AudioManager, devs: Seq<Device>, dev: Device)
    requires
        am.lists(devs),
        am.offers(dev.id@),
        am.states@[dev.id@].state == DeviceState::Gone,
    ensures
        exists|i: int| 0 <= i < devs.len() && (#[trigger] devs[i]).id@ == dev.id@,
        dev.liveness_in(am.states) == Err::<(), DeviceError>(DeviceError::Gone),
{
}

} // verus!
