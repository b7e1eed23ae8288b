//! What the speaker keeps on disk.

use vstd::prelude::*;

verus! {

/// A key pair as it is kept.
#[derive(Debug, Clone, Copy)]
pub struct KeypairConf {
    pub public_part: [u8; 32],
    pub private_part: [u8; 32],
}

} // verus!
