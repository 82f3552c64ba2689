//! The server's half of the liveness handshake.
use vstd::prelude::*;
use crate::wire::{be_bytes, u32_to_be_bytes};

verus! {

/// The word a live server answers with.
pub const ALIVE_TOKEN: u32 = 80085;

/// The bytes a server sends to prove it is alive.
pub fn is_alive() -> (res: Vec<u8>)
    ensures
        res@ == be_bytes(ALIVE_TOKEN),
{
    u32_to_be_bytes(ALIVE_TOKEN)
}

} // verus!
