//! The remote side: the key pair of the speaker, the samples that it stores, and what it
//! answers about them.

use vstd::prelude::*;

pub mod endpoint;
pub mod keypair;
pub mod sample;

verus! {

/// What callers of the speaker ask for when they connect.
pub fn rpc_alpn() -> (r: &'static str)
    ensures
        r@ == "mrs/s/rpc"@,
{
    "mrs/s/rpc"
}

} // verus!
