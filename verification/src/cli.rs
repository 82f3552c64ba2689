//! The command line: the user's commands and what each one runs.
use vstd::prelude::*;
use crate::peers::{AddPeerArgs, PeerType, RemovePeerArgs};

verus! {

/// Host the files that the configuration lists: listen on `bind`.
pub struct ServeUx {
    /// `IP:PORT`.
    pub bind: String,
    /// Path of the YAML file that lists the hosted files.
    pub config: String,
}

/// List the files hosted by one server, or by every known peer.
pub struct FilesUx {
    /// `IP:PORT` of the server; the peers of the peer database when absent.
    pub addr: Option<String>,
}

/// Download a file from one server, or from the peers of a name.
pub struct DownloadUx {
    /// `IP:PORT` of the server; the peers named `peer` when absent.
    pub addr: Option<String>,
    /// The name of the peers to download from.
    pub peer: Option<String>,
    /// The advertised name of the file.
    pub file: String,
    /// Where to save it.
    pub output: String,
}

/// Add a peer to the peer database.
pub struct AddPeerUx {
    pub name: String,
    /// `host:port`.
    pub host: String,
    pub ty: PeerType,
}

/// Remove the peers of a name from the peer database.
pub struct RemovePeerUx {
    pub name: String,
}

/// The subcommands a user can give.
pub enum Cmd {
    Serve(ServeUx),
    Download(DownloadUx),
    Files(FilesUx),
    AddPeer(AddPeerUx),
    RemovePeer(RemovePeerUx),
    ViewPeers,
}

/// The parsed command line.
pub struct Cli {
    /// Path of the peer database.
    pub peer_db: Option<String>,
    pub cmd: Cmd,
}

/// What a download saves, and where.
pub struct DownloadArgs {
    pub file: String,
    pub output: String,
}

/// What a client does.
pub enum ClientAction {
    Download(DownloadArgs),
    GetFiles,
}

/// Whom a client asks.
pub enum ClientTarget {
    /// The server at this `IP:PORT`.
    Server(String),
    /// The peers of the peer database: those of one name, or all of them.
    Peers { peer_db: String, peer: Option<String> },
}

/// A client run: whom to ask, and what.
pub struct ClientArgs {
    pub target: ClientTarget,
    pub action: ClientAction,
}

/// A server run: the address to listen on and the configuration to host.
pub struct ServerArgs {
    pub bind: String,
    pub config: String,
}

/// What the program runs: a client, a server, or a peer database command.
pub enum Command {
    Client(ClientArgs),
    Server(ServerArgs),
    AddPeer(AddPeerArgs),
    RemovePeer(RemovePeerArgs),
    /// Show the peers of this database.
    ViewPeers(String),
}

/// A command line that names no run.
#[derive(Debug, Clone, Copy, PartialEq, Eq, Structural)]
pub enum CliError {
    /// The command works on the peer database, and none was given.
    PeerDbRequired,
    /// A download from peers needs the name of the peers.
    PeerRequired,
}

impl CliError {
    /// The message reported for this error.
    pub fn message(&self) -> (res: &'static str)
        ensures
            *self == CliError::PeerDbRequired ==> res@ == "a peer database is required (-p)"@,
            *self == CliError::PeerRequired ==> res@ == "a peer name or a server address is required"@,
    {
        match self {
            CliError::PeerDbRequired => "a peer database is required (-p)",
            CliError::PeerRequired => "a peer name or a server address is required",
        }
    }
}

/// Whether a command works on the peer database.
pub open spec fn uses_peer_db(cmd: Cmd) -> bool {
    match cmd {
        Cmd::Serve(_) => false,
        Cmd::Files(f) => f.addr is None,
        Cmd::Download(d) => d.addr is None,
        _ => true,
    }
}

impl Cli {
    /// The run that a command line asks for. Serving runs a server on the
    /// given address and configuration. Listing and downloading ask the
    /// given server, or else the peers of the peer database (a download
    /// asks the peers of the given name). The peer commands run on the peer
    /// database. A command that needs the peer database fails without one,
    /// and a download from peers fails without a peer name.
    pub fn into_command(self) -> (res: Result<Command, CliError>)
        ensures
            uses_peer_db(self.cmd) && self.peer_db is None ==> res == Err::<Command, CliError>(
                CliError::PeerDbRequired,
            ),
            (self.cmd matches Cmd::Download(d) && d.addr is None && d.peer is None && self.peer_db is Some)
                ==> res == Err::<Command, CliError>(CliError::PeerRequired),
            match self.cmd {
                Cmd::Serve(s) => res matches Ok(Command::Server(a)) && a.bind == s.bind && a.config
                    == s.config,
                Cmd::Files(f) => match f.addr {
                    Some(addr) => res matches Ok(Command::Client(a)) && a.target == ClientTarget::Server(
                        addr,
                    ) && a.action is GetFiles,
                    None => self.peer_db matches Some(db) ==> (res matches Ok(Command::Client(a))
                        && a.target == (ClientTarget::Peers { peer_db: db, peer: None })
                        && a.action is GetFiles),
                },
                Cmd::Download(d) => {
                    let target_ok = match d.addr {
                        Some(addr) => res matches Ok(Command::Client(a)) && a.target
                            == ClientTarget::Server(addr),
                        None => self.peer_db matches Some(db) ==> (d.peer matches Some(p) ==> (
                        res matches Ok(Command::Client(a)) && a.target == (ClientTarget::Peers {
                            peer_db: db,
                            peer: Some(p),
                        }))),
                    };
                    &&& target_ok
                    &&& res matches Ok(Command::Client(a)) ==> (a.action matches ClientAction::Download(
                        x,
                    ) && x.file == d.file && x.output == d.output)
                },
                Cmd::AddPeer(p) => self.peer_db matches Some(db) ==> (res matches Ok(
                    Command::AddPeer(a),
                ) && a.peer_db == db && a.name == p.name && a.host == p.host && a.ty == p.ty),
                Cmd::RemovePeer(p) => self.peer_db matches Some(db) ==> (res matches Ok(
                    Command::RemovePeer(a),
                ) && a.peer_db == db && a.name == p.name),
                Cmd::ViewPeers => self.peer_db matches Some(db) ==> res == Ok::<Command, CliError>(
                    Command::ViewPeers(db),
                ),
            },
    {
        let peer_db = self.peer_db;
        match self.cmd {
            Cmd::Serve(s) => Ok(Command::Server(ServerArgs { bind: s.bind, config: s.config })),
            Cmd::Files(f) => {
                let target = match f.addr {
                    Some(addr) => ClientTarget::Server(addr),
                    None => match peer_db {
                        Some(db) => ClientTarget::Peers { peer_db: db, peer: None },
                        None => {
                            return Err(CliError::PeerDbRequired);
                        },
                    },
                };
                Ok(Command::Client(ClientArgs { target, action: ClientAction::GetFiles }))
            },
            Cmd::Download(d) => {
                let target = match d.addr {
                    Some(addr) => ClientTarget::Server(addr),
                    None => match peer_db {
                        Some(db) => match d.peer {
                            Some(p) => ClientTarget::Peers { peer_db: db, peer: Some(p) },
                            None => {
                                return Err(CliError::PeerRequired);
                            },
                        },
                        None => {
                            return Err(CliError::PeerDbRequired);
                        },
                    },
                };
                Ok(
                    Command::Client(
                        ClientArgs {
                            target,
                            action: ClientAction::Download(DownloadArgs { file: d.file, output: d.output }),
                        },
                    ),
                )
            },
            Cmd::AddPeer(p) => match peer_db {
                Some(db) => Ok(
                    Command::AddPeer(AddPeerArgs { peer_db: db, name: p.name, host: p.host, ty: p.ty }),
                ),
                None => Err(CliError::PeerDbRequired),
            },
            Cmd::RemovePeer(p) => match peer_db {
                Some(db) => Ok(Command::RemovePeer(RemovePeerArgs { peer_db: db, name: p.name })),
                None => Err(CliError::PeerDbRequired),
            },
            Cmd::ViewPeers => match peer_db {
                Some(db) => Ok(Command::ViewPeers(db)),
                None => Err(CliError::PeerDbRequired),
            },
        }
    }
}

} // verus!
