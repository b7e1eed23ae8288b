//! Starting the library in a process of its own, and ending that process.

use vstd::prelude::*;

verus! {

/// How long the process is given to end by itself, in nanoseconds.
pub const STOP_TIMEOUT: u128 = 10_000_000_000;

/// How long to wait between two looks at the process, in milliseconds.
pub const CHILD_POLL_MS: u64 = 50;

/// Who may do what with the app: read it.
pub const JAR_MODE: u32 = 0o400;

/// Who may do what with the native library: read and execute it.
pub const LIB_MODE: u32 = 0o500;

/// What the user asked for by interrupting.
#[derive(Debug, Clone, Copy, PartialEq, Eq, Structural)]
pub struct StopFlags {
    pub running: bool,
    pub force_stop: bool,
}

impl StopFlags {
    /// Nothing yet.
    pub fn new() -> (r: Self)
        ensures
            r == (StopFlags { running: true, force_stop: false }),
    {
        Self { running: true, force_stop: false }
    }

    /// The user interrupted: once to end the process, once more to kill it.
    pub fn interrupt(&mut self)
        ensures
            !final(self).running,
            final(self).force_stop == (old(self).force_stop || !old(self).running),
    {
        if !self.running {
            self.force_stop = true;
        }
        self.running = false;
    }
}

/// What was done to end the process.
#[derive(Debug, Clone, Copy, PartialEq, Eq, Structural)]
pub struct LaunchState {
    /// When it was told to end, in nanoseconds.
    pub stop_time: Option<u128>,
}

/// What to do about the process now.
#[derive(Debug, Clone, Copy, PartialEq, Eq, Structural)]
pub enum LaunchNext {
    /// It has ended.
    Ended,
    /// Kill it and wait for its end.
    Kill,
    /// Look again after [`CHILD_POLL_MS`].
    Sleep,
}

/// One look at the process.
#[derive(Debug, Clone, Copy, PartialEq, Eq, Structural)]
pub struct LaunchStep {
    /// First tell it to end, by creating the file that it looks for.
    pub signal: bool,
    pub next: LaunchNext,
}

impl LaunchState {
    /// Nothing was done yet.
    pub fn new() -> (r: Self)
        ensures
            r == (LaunchState { stop_time: None }),
    {
        Self { stop_time: None }
    }

    /// What one look at the process leads to: it is told to end once when the user interrupted,
    /// and killed when the user interrupted again or it took [`STOP_TIMEOUT`] to end.
    pub open spec fn looks(self, exited: bool, flags: StopFlags, now: u128) -> (
        LaunchState,
        LaunchStep,
    ) {
        if exited {
            (self, LaunchStep { signal: false, next: LaunchNext::Ended })
        } else {
            let signal = !flags.running && self.stop_time is None;
            let stop_time = if signal {
                Some(now)
            } else {
                self.stop_time
            };
            let stuck = stop_time matches Some(t) && now - t >= STOP_TIMEOUT;
            (
                LaunchState { stop_time },
                LaunchStep {
                    signal,
                    next: if flags.force_stop || stuck {
                        LaunchNext::Kill
                    } else {
                        LaunchNext::Sleep
                    },
                },
            )
        }
    }

    /// A look at the process.
    pub fn look(&mut self, exited: bool, flags: StopFlags, now: u128) -> (r: LaunchStep)
        ensures
            (*final(self), r) == old(self).looks(exited, flags, now),
    {
        if exited {
            return LaunchStep { signal: false, next: LaunchNext::Ended };
        }
        let signal = !flags.running && self.stop_time.is_none();
        if signal {
            self.stop_time = Some(now);
        }
        if flags.force_stop {
            return LaunchStep { signal, next: LaunchNext::Kill };
        }
        if let Some(start_time) = self.stop_time {
            if now >= start_time && now - start_time >= STOP_TIMEOUT {
                return LaunchStep { signal, next: LaunchNext::Kill };
            }
        }
        LaunchStep { signal, next: LaunchNext::Sleep }
    }
}

/// One look at the process: whether it had ended, what the user had asked for, and when it was.
pub struct ChildLook {
    pub exited: bool,
    pub flags: StopFlags,
    pub now: u128,
}

/// The `i`th look leads to what follows it.
pub open spec fn look_leads(
    states: Seq<LaunchState>,
    looks: Seq<ChildLook>,
    steps: Seq<LaunchStep>,
    i: int,
) -> bool {
    (states[i + 1], steps[i]) == states[i].looks(looks[i].exited, looks[i].flags, looks[i].now)
}

/// The looks follow each other, from the start of the process on.
pub open spec fn supervises(
    states: Seq<LaunchState>,
    looks: Seq<ChildLook>,
    steps: Seq<LaunchStep>,
) -> bool {
    &&& states.len() == looks.len() + 1
    &&& steps.len() == looks.len()
    &&& states[0].stop_time is None
    &&& forall|i: int| 0 <= i < looks.len() ==> #[trigger] look_leads(states, looks, steps, i)
}

/// The process is told to end at most once.
pub proof fn law_told_once(
    states: Seq<LaunchState>,
    looks: Seq<ChildLook>,
    steps: Seq<LaunchStep>,
    i: int,
    j: int,
)
    requires
        supervises(states, looks, steps),
        0 <= i < j < looks.len(),
        steps[i].signal,
    ensures
        !steps[j].signal,
{
    assert(look_leads(states, looks, steps, i));
    lemma_told_stays(states, looks, steps, i + 1, j);
    assert(look_leads(states, looks, steps, j));
}

proof fn lemma_told_stays(
    states: Seq<LaunchState>,
    looks: Seq<ChildLook>,
    steps: Seq<LaunchStep>,
    i: int,
    j: int,
)
    requires
        supervises(states, looks, steps),
        0 <= i <= j <= looks.len(),
        states[i].stop_time is Some,
    ensures
        states[j].stop_time == states[i].stop_time,
    decreases j - i,
{
    if i < j {
        lemma_told_stays(states, looks, steps, i, j - 1);
        assert(look_leads(states, looks, steps, j - 1));
    }
}

/// The process is killed only when the user insisted, or [`STOP_TIMEOUT`] after it was told to
/// end.
pub proof fn law_killed_only_with_reason(
    states: Seq<LaunchState>,
    looks: Seq<ChildLook>,
    steps: Seq<LaunchStep>,
    j: int,
)
    requires
        supervises(states, looks, steps),
        0 <= j < looks.len(),
        steps[j].next == LaunchNext::Kill,
    ensures
        looks[j].flags.force_stop || exists|i: int|
            0 <= i <= j && (#[trigger] steps[i]).signal && looks[j].now - looks[i].now
                >= STOP_TIMEOUT,
{
    assert(look_leads(states, looks, steps, j));
    if !looks[j].flags.force_stop {
        lemma_stop_time_is_told(states, looks, steps, j + 1);
        let t = states[j + 1].stop_time->0;
        let i = choose|i: int| 0 <= i < j + 1 && (#[trigger] steps[i]).signal && looks[i].now == t;
        assert(steps[i].signal && looks[j].now - looks[i].now >= STOP_TIMEOUT);
    }
}

proof fn lemma_stop_time_is_told(
    states: Seq<LaunchState>,
    looks: Seq<ChildLook>,
    steps: Seq<LaunchStep>,
    j: int,
)
    requires
        supervises(states, looks, steps),
        0 <= j <= looks.len(),
    ensures
        states[j].stop_time matches Some(t) ==> exists|i: int|
            0 <= i < j && (#[trigger] steps[i]).signal && looks[i].now == t,
    decreases j,
{
    if j > 0 {
        lemma_stop_time_is_told(states, looks, steps, j - 1);
        assert(look_leads(states, looks, steps, j - 1));
        if states[j].stop_time is Some && states[j - 1].stop_time is None {
            assert(steps[j - 1].signal);
        }
    }
}

/// While the process runs, the user is obeyed: an interrupted process has been told to end by
/// the end of the look, one that was not interrupted is left alone, and one that the user
/// insists on ending is killed.
pub proof fn law_interrupt_is_obeyed(
    states: Seq<LaunchState>,
    looks: Seq<ChildLook>,
    steps: Seq<LaunchStep>,
    j: int,
)
    requires
        supervises(states, looks, steps),
        0 <= j < looks.len(),
        !looks[j].exited,
    ensures
        !looks[j].flags.running ==> exists|i: int| 0 <= i <= j && (#[trigger] steps[i]).signal,
        looks[j].flags.running ==> !steps[j].signal,
        looks[j].flags.force_stop ==> steps[j].next is Kill,
        steps[j].next is Kill || steps[j].next is Sleep,
{
    assert(look_leads(states, looks, steps, j));
    if !looks[j].flags.running {
        assert(states[j + 1].stop_time is Some);
        lemma_stop_time_is_told(states, looks, steps, j + 1);
    }
}

/// A process that runs on for ten seconds after it was told to end is killed.
pub proof fn law_stuck_process_is_killed(
    states: Seq<LaunchState>,
    looks: Seq<ChildLook>,
    steps: Seq<LaunchStep>,
    i: int,
    j: int,
)
    requires
        supervises(states, looks, steps),
        0 <= i <= j < looks.len(),
        steps[i].signal,
        !looks[j].exited,
        looks[j].now - looks[i].now >= 10_000_000_000,
    ensures
        steps[j].next is Kill,
{
    assert(look_leads(states, looks, steps, i));
    assert(states[i + 1].stop_time == Some(looks[i].now));
    if i < j {
        lemma_told_stays(states, looks, steps, i + 1, j);
    }
    assert(look_leads(states, looks, steps, j));
}

/// A process that has ended is neither told to end nor killed, whatever the user asks for.
pub proof fn law_ended_process_is_left_alone(
    states: Seq<LaunchState>,
    looks: Seq<ChildLook>,
    steps: Seq<LaunchStep>,
    j: int,
)
    requires
        supervises(states, looks, steps),
        0 <= j < looks.len(),
    ensures
        steps[j].next is Ended <==> looks[j].exited,
        looks[j].exited ==> !steps[j].signal,
{
    assert(look_leads(states, looks, steps, j));
}

/// The exit code of the process: its own, else that of the signal that ended it, else -1.
pub fn exit_code(code: Option<i32>, signal: Option<i32>) -> (r: i32)
    requires
        code is None ==> (signal matches Some(s) ==> 128 + s <= i32::MAX),
    ensures
        r == (match code {
            Some(c) => c as int,
            None => match signal {
                Some(s) => 128 + s,
                None => -1,
            },
        }),
{
    match code {
        Some(c) => c,
        None => match signal {
            Some(s) => 128 + s,
            None => -1,
        },
    }
}

/// Whether a directory can be written to: it is one, and a file could be made in it, written
/// and flushed.
pub fn has_write_permission_in_dir(is_dir: bool, made: bool, written: bool, flushed: bool) -> (r:
    bool)
    ensures
        r == (is_dir && made && written && flushed),
{
    is_dir && made && written && flushed
}

/// Where the files of the process go: to a directory for everyone if that is there and can be
/// written to, and to the fallback otherwise.
pub fn select_temp_dir_for_launch(accessible: bool, writable: bool, fallback: String) -> (r: String)
    ensures
        r@ == (if accessible && writable {
            "/data/local/tmp"@
        } else {
            fallback@
        }),
{
    if accessible && writable {
        "/data/local/tmp".to_owned()
    } else {
        fallback
    }
}

} // verus!
