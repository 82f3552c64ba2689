//! Routing of an incoming connection by its request header.
use vstd::prelude::*;
use crate::wire::VERSION;

verus! {

/// What a client asked the server to do.
#[derive(Debug, Clone, Copy, PartialEq, Eq, Structural)]
pub enum ServerRoute {
    /// Send a file to the client (the client downloads).
    Upload,
    /// Send the file listing.
    GetFiles,
    /// Answer the liveness handshake.
    IsAlive,
    /// An action code this server does not know.
    Unknown,
}

/// A request that cannot be routed.
#[derive(Debug, Clone, Copy, PartialEq, Eq, Structural)]
pub enum RouteError {
    /// The client speaks another protocol version.
    UnsupportedVersion,
}

impl RouteError {
    /// The message reported for this error.
    pub fn message(&self) -> (res: &'static str)
        ensures
            res@ == "Unsupported client version!"@,
    {
        "Unsupported client version!"
    }
}

/// The route that an action code selects.
pub open spec fn route_for_action(action: u32) -> ServerRoute {
    if action == 0 {
        ServerRoute::Upload
    } else if action == 1 {
        ServerRoute::GetFiles
    } else if action == 2 {
        ServerRoute::IsAlive
    } else {
        ServerRoute::Unknown
    }
}

/// Accepts a request header's version word only when it is this protocol's.
pub fn check_version(version: u32) -> (res: Result<(), RouteError>)
    ensures
        res is Ok <==> version == VERSION,
{
    if version != VERSION {
        Err(RouteError::UnsupportedVersion)
    } else {
        Ok(())
    }
}

/// The route that a request header's action word selects.
pub fn route_action(action: u32) -> (res: ServerRoute)
    ensures
        res == route_for_action(action),
{
    match action {
        0 => ServerRoute::Upload,
        1 => ServerRoute::GetFiles,
        2 => ServerRoute::IsAlive,
        _ => ServerRoute::Unknown,
    }
}

/// Routes a request from its version and action words.
pub fn route(version: u32, action: u32) -> (res: Result<ServerRoute, RouteError>)
    ensures
        version != VERSION ==> res == Err::<ServerRoute, RouteError>(RouteError::UnsupportedVersion),
        version == VERSION ==> res == Ok::<ServerRoute, RouteError>(route_for_action(action)),
{
    check_version(version)?;
    Ok(route_action(action))
}

} // verus!
