//! The server's answer to a file-listing request.
use vstd::prelude::*;
use crate::server::config::{listing_of, ServerData};
use crate::wire::{be_bytes, push_be_u32};

verus! {

/// The reply to a listing request: the listing's length as a big-endian
/// word (truncated to 32 bits), then the listing itself.
pub fn get_files(server_data: &ServerData) -> (res: Vec<u8>)
    ensures
        res@ == be_bytes(listing_of(server_data.hosted()).len() as u32) + listing_of(
            server_data.hosted(),
        ),
{
    let info = server_data.file_information();
    let mut out: Vec<u8> = Vec::new();
    push_be_u32(&mut out, info.len() as u32);
    out.extend_from_slice(info);
    out
}

} // verus!
