//! Audio: the devices of the host, the stream of each and the mixer behind it.

use vstd::prelude::*;

pub mod dcblocker;
pub mod devices;
pub mod handler;
pub mod host;
pub mod manager;
pub mod mixer;
pub mod sum;

verus! {

/// Frames per second.
pub const SAMPLE_RATE: u32 = 48000;

/// How long a mixer has no track until it asks for its stream to pause, in nanoseconds.
pub const STANDBY_DELAY: u128 = 2_000_000_000;

/// How long a device that has vanished stays in the directory, in seconds.
pub const DEVICE_GRACE: u64 = 10;

/// How many stereo inputs a summer of the first level has.
pub const GROUP_CAP: usize = 8;

/// How many summers of the first level the one of the second level takes.
pub const L2_CAP: usize = 8;

/// How many tracks a mixer takes.
pub const TRACK_CAP: usize = 64;

/// How many frames are rendered at most to catch up after a stream was gone.
pub const MAX_RENDER_SKIP_FRAMES: usize = 480_000;

/// A device stays in the directory for as long as a mixer would render to catch up, and a mixer takes as
/// many tracks as its summers have inputs.
pub proof fn law_limits_agree()
    ensures
        DEVICE_GRACE * SAMPLE_RATE == MAX_RENDER_SKIP_FRAMES,
        TRACK_CAP == GROUP_CAP * L2_CAP,
{
}

} // verus!
