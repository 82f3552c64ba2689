//! The request header a client opens every connection with.
use vstd::prelude::*;
use crate::server::standard::{route_for_action, ServerRoute};
use crate::wire::{be_bytes, be_value, lemma_be_roundtrip, push_be_u32, VERSION};

verus! {

/// What a client asks a server for.
pub enum ClientRoute {
    /// Download the file `name` and save it as `save_name`.
    DownloadFile { name: String, save_name: String },
    /// Fetch the listing of hosted files.
    GetFiles,
    /// Check that the server is alive.
    IsAlive,
}

impl ClientRoute {
    /// The action word of this request.
    pub open spec fn code(&self) -> u32 {
        match self {
            ClientRoute::DownloadFile { .. } => 0,
            ClientRoute::GetFiles => 1,
            ClientRoute::IsAlive => 2,
        }
    }

    /// The route a server takes for this request.
    pub open spec fn served_as(&self) -> ServerRoute {
        match self {
            ClientRoute::DownloadFile { .. } => ServerRoute::Upload,
            ClientRoute::GetFiles => ServerRoute::GetFiles,
            ClientRoute::IsAlive => ServerRoute::IsAlive,
        }
    }

    /// The action word of this request.
    pub fn action_code(&self) -> (res: u32)
        ensures
            res == self.code(),
    {
        match self {
            ClientRoute::DownloadFile { .. } => 0,
            ClientRoute::GetFiles => 1,
            ClientRoute::IsAlive => 2,
        }
    }
}

/// The header of a request: the protocol version, then the action word.
pub fn route_header(route: &ClientRoute) -> (res: Vec<u8>)
    ensures
        res@ == be_bytes(VERSION) + be_bytes(route.code()),
{
    let mut out: Vec<u8> = Vec::new();
    push_be_u32(&mut out, VERSION);
    push_be_u32(&mut out, route.action_code());
    out
}

/// A server reading the header of a client's request finds this protocol's
/// version and takes the route the client asked for.
pub proof fn lemma_route_header_is_understood(route: ClientRoute)
    ensures
        ({
            let h = be_bytes(VERSION) + be_bytes(route.code());
            &&& be_value(h.subrange(0, 4)) == VERSION
            &&& route_for_action(be_value(h.subrange(4, 8))) == route.served_as()
        }),
{
    let h = be_bytes(VERSION) + be_bytes(route.code());
    lemma_be_roundtrip(VERSION);
    lemma_be_roundtrip(route.code());
    assert(h.subrange(0, 4) =~= be_bytes(VERSION));
    assert(h.subrange(4, 8) =~= be_bytes(route.code()));
}

} // verus!
