//! Trying the devices out: which of them a sound is played on, and how that ends.

use vstd::prelude::*;

use crate::aud::devices::DeviceState;
use crate::aud::manager::{AudioManager, Device, DeviceError};
use crate::text::{str_contains, str_starts_with};

verus! {

/// How long the sound is played, in seconds.
pub const PLAY_SECS: u64 = 5;

/// A node that only repeats another, by its id.
pub open spec fn is_repeated(id: Seq<char>) -> bool {
    ||| crate::text::stands_at(id, "pipewire:output."@, 0)
    ||| crate::text::stands_at(id, "pipewire:output_default"@, 0)
    ||| crate::text::stands_at(id, "pipewire:sink_default"@, 0)
}

/// A device is asked for: its id holds the text that was given, or, where none was, it is no
/// node that only repeats another.
pub open spec fn is_asked_for(id: Seq<char>, text: Option<Seq<char>>) -> bool {
    match text {
        Some(t) => crate::text::holds(id, t),
        None => !is_repeated(id),
    }
}

/// Whether a device is asked for.
pub fn asked_for(id: &str, text: Option<&String>) -> (r: bool)
    ensures
        r == is_asked_for(id@, match text {
            Some(t) => Some(t@),
            None => None,
        }),
{
    match text {
        Some(sub) => str_contains(id, sub.as_str()),
        None => !(str_starts_with(id, "pipewire:output.") || str_starts_with(
            id,
            "pipewire:output_default",
        ) || str_starts_with(id, "pipewire:sink_default")),
    }
}

/// The device is played on.
pub open spec fn is_played(am: AudioManager, id: Seq<char>, text: Option<Seq<char>>) -> bool {
    am.offers(id) && is_asked_for(id, text) && am.states@[id].state != DeviceState::Gone
}

/// The devices are those that are played on, in the order of their ids, each with the worker of
/// its mixer.
pub open spec fn plays_on(am: AudioManager, text: Option<Seq<char>>, devs: Seq<Device>) -> bool {
    &&& forall|i: int, j: int|
        0 <= i < j < devs.len() ==> crate::text::lex_le(
            (#[trigger] devs[i]).id@,
            (#[trigger] devs[j]).id@,
        ) && devs[i].id@ != devs[j].id@
    &&& forall|i: int|
        0 <= i < devs.len() ==> is_played(am, (#[trigger] devs[i]).id@, text) && devs[i].worker
            == am.mixers@[devs[i].id@].worker
    &&& forall|id: Seq<char>| #[trigger]
        is_played(am, id, text) ==> exists|i: int|
            0 <= i < devs.len() && (#[trigger] devs[i]).id@ == id
}

/// Every device that is offered, asked for and takes commands is played on, whatever its stream
/// is about: while it is built, while it plays, and while the device has vanished for a moment.
pub proof fn law_usable_device_is_played(
    am: AudioManager,
    text: Option<Seq<char>>,
    devs: Seq<Device>,
    dev: Device,
)
    requires
        plays_on(am, text, devs),
        am.states@.contains_key(dev.id@),
        am.mixers@.contains_key(dev.id@),
        is_asked_for(dev.id@, text),
        dev.liveness_in(am.states) is Ok || am.states@[dev.id@].state is Ready
            || am.states@[dev.id@].state is Initializing || am.states@[dev.id@].state
            is Disconnected,
    ensures
        exists|i: int|
            0 <= i < devs.len() && (#[trigger] devs[i]).id@ == dev.id@ && devs[i].worker
                == am.mixers@[dev.id@].worker,
{
    assert(is_played(am, dev.id@, text));
}

/// A device that is played on is in the directory, has a mixer, was asked for and takes commands,
/// and is played on once.
pub proof fn law_played_device_takes_commands(
    am: AudioManager,
    text: Option<Seq<char>>,
    devs: Seq<Device>,
    i: int,
)
    requires
        plays_on(am, text, devs),
        0 <= i < devs.len(),
    ensures
        am.states@.contains_key(devs[i].id@),
        am.mixers@.contains_key(devs[i].id@),
        is_asked_for(devs[i].id@, text),
        devs[i].liveness_in(am.states) is Ok,
        !(am.states@[devs[i].id@].state is Gone),
        forall|j: int| 0 <= j < devs.len() && j != i ==> (#[trigger] devs[j]).id@ != devs[i].id@,
{
    assert(is_played(am, devs[i].id@, text));
}

/// A text that was given asks for every device in whose id it stands anywhere, and for no other.
pub proof fn law_text_asks_for_ids_that_hold_it(
    front: Seq<char>,
    text: Seq<char>,
    back: Seq<char>,
    id: Seq<char>,
)
    ensures
        is_asked_for(front + text + back, Some(text)),
        is_asked_for(id, Some(text)) ==> exists|at: int|
            0 <= at <= id.len() - text.len() && #[trigger] id.subrange(at, at + text.len()) == text,
{
    let whole = front + text + back;
    assert(whole.subrange(front.len() as int, front.len() + text.len() as int) =~= text);
    assert(crate::text::stands_at(whole, text, front.len() as int));
    if is_asked_for(id, Some(text)) {
        let at = choose|at: int| #[trigger] crate::text::stands_at(id, text, at);
        assert(id.subrange(at, at + text.len()) == text);
    }
}

/// Where no text was given, the nodes that only repeat another are left out, whatever follows in
/// their ids, and every device whose id begins otherwise is asked for.
pub proof fn law_repeated_nodes_are_left_out(id: Seq<char>, rest: Seq<char>)
    ensures
        !is_asked_for("pipewire:output."@ + rest, None),
        !is_asked_for("pipewire:output_default"@ + rest, None),
        !is_asked_for("pipewire:sink_default"@ + rest, None),
        !("pipewire:output"@.is_prefix_of(id)) && !("pipewire:sink_default"@.is_prefix_of(id))
            ==> is_asked_for(id, None),
{
    reveal_strlit("pipewire:output.");
    reveal_strlit("pipewire:output");
    reveal_strlit("pipewire:output_default");
    reveal_strlit("pipewire:sink_default");
    let a = "pipewire:output."@;
    let b = "pipewire:output_default"@;
    let c = "pipewire:sink_default"@;
    let short = "pipewire:output"@;
    assert((a + rest).subrange(0, a.len() as int) =~= a);
    assert((b + rest).subrange(0, b.len() as int) =~= b);
    assert((c + rest).subrange(0, c.len() as int) =~= c);
    assert(crate::text::stands_at(a + rest, a, 0));
    assert(crate::text::stands_at(b + rest, b, 0));
    assert(crate::text::stands_at(c + rest, c, 0));
    if !is_asked_for(id, None) {
        if crate::text::stands_at(id, a, 0) {
            assert(a.subrange(0, short.len() as int) =~= short);
            assert(id.subrange(0, short.len() as int) =~= a.subrange(0, short.len() as int));
            assert(short.is_prefix_of(id));
        } else if crate::text::stands_at(id, b, 0) {
            assert(b.subrange(0, short.len() as int) =~= short);
            assert(id.subrange(0, short.len() as int) =~= b.subrange(0, short.len() as int));
            assert(short.is_prefix_of(id));
        } else {
            assert(c.is_prefix_of(id));
        }
    }
}

/// The devices that are played on, in the order of their ids: those that are asked for and are
/// not gone.
pub fn played_devices(am: &AudioManager, text: Option<&String>) -> (r: Vec<Device>)
    ensures
        plays_on(
            *am,
            match text {
                Some(t) => Some(t@),
                None => None,
            },
            r@,
        ),
{
    let ghost t = match text {
        Some(t) => Some(t@),
        None => None,
    };
    let all = am.devices();
    let mut picked: Vec<Device> = Vec::new();
    let mut i: usize = 0;
    while i < all.len()
        invariant
            i <= all.len(),
            t == (match text {
                Some(t) => Some(t@),
                None => None,
            }),
            forall|a: int, b: int|
                0 <= a < b < all@.len() ==> crate::text::lex_le(
                    (#[trigger] all@[a]).id@,
                    (#[trigger] all@[b]).id@,
                ) && all@[a].id@ != all@[b].id@,
            forall|a: int|
                0 <= a < all@.len() ==> am.offers((#[trigger] all@[a]).id@) && all@[a].worker
                    == am.mixers@[all@[a].id@].worker,
            forall|a: int, b: int|
                0 <= a < b < picked@.len() ==> crate::text::lex_le(
                    (#[trigger] picked@[a]).id@,
                    (#[trigger] picked@[b]).id@,
                ) && picked@[a].id@ != picked@[b].id@,
            forall|a: int|
                0 <= a < picked@.len() ==> is_played(*am, (#[trigger] picked@[a]).id@, t)
                    && picked@[a].worker == am.mixers@[picked@[a].id@].worker && exists|k: int|
                    0 <= k < i && (#[trigger] all@[k]).id@ == picked@[a].id@,
            forall|k: int|
                0 <= k < i && is_played(*am, (#[trigger] all@[k]).id@, t) ==> exists|a: int|
                    0 <= a < picked@.len() && (#[trigger] picked@[a]).id@ == all@[k].id@,
        decreases all.len() - i,
    {
        let ghost before = picked@;
        let d = &all[i];
        if asked_for(d.id.as_str(), text) && d.state(&am.states) != DeviceState::Gone {
            picked.push(Device { id: d.id.clone(), worker: d.worker });
            proof {
                let new = picked@.last();
                assert(new.id@ == all@[i as int].id@);
                assert forall|a: int, b: int| 0 <= a < b < picked@.len() implies crate::text::lex_le(
                    (#[trigger] picked@[a]).id@,
                    (#[trigger] picked@[b]).id@,
                ) && picked@[a].id@ != picked@[b].id@ by {
                    if b == before.len() {
                        assert(picked@[a] == before[a]);
                        let k = choose|k: int| 0 <= k < i && (#[trigger] all@[k]).id@ == before[a].id@;
                        assert(all@[k].id@ != all@[i as int].id@);
                    } else {
                        assert(picked@[a] == before[a] && picked@[b] == before[b]);
                    }
                }
                assert forall|k: int|
                    0 <= k < i + 1 && is_played(*am, (#[trigger] all@[k]).id@, t) implies exists|a: int|
                    0 <= a < picked@.len() && (#[trigger] picked@[a]).id@ == all@[k].id@ by {
                    if k < i {
                        let a = choose|a: int|
                            0 <= a < before.len() && (#[trigger] before[a]).id@ == all@[k].id@;
                        assert(picked@[a].id@ == all@[k].id@);
                    } else {
                        assert(picked@[before.len() as int].id@ == all@[k].id@);
                    }
                }
            }
        }
        i = i + 1;
    }
    proof {
        assert forall|id: Seq<char>| #[trigger] is_played(*am, id, t) implies exists|a: int|
            0 <= a < picked@.len() && (#[trigger] picked@[a]).id@ == id by {
            assert(am.offers(id));
            let k = choose|k: int| 0 <= k < all@.len() && (#[trigger] all@[k]).id@ == id;
            assert(is_played(*am, all@[k].id@, t));
        }
    }
    picked
}

/// What comes of taking the sound from a device after it was played.
#[derive(Debug, Clone, Copy, PartialEq, Eq, Structural)]
pub enum DetachStep {
    /// Go on with the next device.
    Next,
    /// Go on with the next device: this one has gone meanwhile, and its sound with it.
    Skip,
    /// End with the error.
    Fail(DeviceError),
}

/// What to do after the sound was taken from a device, or not.
pub fn after_detach(outcome: Result<bool, DeviceError>) -> (r: DetachStep)
    ensures
        r == (match outcome {
            Ok(_) => DetachStep::Next,
            Err(DeviceError::Gone) => DetachStep::Skip,
            Err(e) => DetachStep::Fail(e),
        }),
{
    match outcome {
        Ok(_) => DetachStep::Next,
        Err(DeviceError::Gone) => DetachStep::Skip,
        Err(e) => DetachStep::Fail(e),
    }
}

} // verus!
