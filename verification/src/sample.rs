//! Audio samples.

use vstd::prelude::*;

verus! {

/// How many channels a sample has.
#[derive(Debug, Clone, Copy, PartialEq, Eq, Structural)]
pub enum Channels {
    Mono,
    Stereo,
}

/// A sample as it is stored.
#[derive(Debug)]
pub struct Sample {
    pub sample_rate: u32,
    pub channels: Channels,
    pub raw_data: Vec<u8>,
}

} // verus!
