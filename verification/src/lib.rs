//! A small peer-to-peer file hosting library: the wire protocol between
//! client and server, the chunked file model that a server hosts, the peer
//! address book rules and the session state machine.

pub mod wire;
pub mod util;
pub mod cfile;
pub mod server;
pub mod client;
pub mod peers;
pub mod session;
pub mod cli;
pub mod handler;
