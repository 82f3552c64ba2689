use trent::cli::{AddPeerUx, Cli, CliError, ClientAction, ClientTarget, Cmd, Command, DownloadUx, FilesUx, RemovePeerUx, ServeUx};
use trent::handler::{Context, ContextError};
use trent::peers::{
    add_peer, addrs_in_order, clear_addr, connect_timeout_ms, infer_view_from_remote, merge_peer_list, peer_id_from_addr,
    peer_list, pick_one_addr, pick_peers, remove_peer, remove_peer_by_id, set_addr, to_hex_lower, ty_to_str, upsert_peer,
    validate_hostport, AddPeerArgs, HostPortError, IpAddress, PeerAddrs, PeerExport, PeerList, PeerOp, PeerRow,
    PeerType, RemovePeerArgs, RequestView,
};
use trent::session::{initial_state, read_signal, send_signal, ClientSignal, ServerResponse, SessionError, SessionState};

fn addrs(public: Option<&str>, lan: Option<&str>, vpn: Option<&str>) -> PeerAddrs {
    PeerAddrs {
        public: public.map(|s| s.to_string()),
        lan: lan.map(|s| s.to_string()),
        vpn: vpn.map(|s| s.to_string()),
    }
}

#[test]
fn peer_type_names() {
    assert_eq!(ty_to_str(PeerType::Public), "public");
    assert_eq!(ty_to_str(PeerType::Lan), "lan");
    assert_eq!(ty_to_str(PeerType::Vpn), "vpn");
}

#[test]
fn hostport_validation() {
    assert_eq!(validate_hostport("127.0.0.1:5000"), Ok(()));
    assert_eq!(validate_hostport("[::1]:443"), Ok(()));
    assert_eq!(validate_hostport("host:+80"), Ok(()));
    assert_eq!(validate_hostport("a:b:65535"), Ok(()));
    assert_eq!(validate_hostport("localhost"), Err(HostPortError::MissingColon));
    assert_eq!(validate_hostport(":80"), Err(HostPortError::EmptyHost));
    assert_eq!(validate_hostport("host:"), Err(HostPortError::BadPort));
    assert_eq!(validate_hostport("host:+"), Err(HostPortError::BadPort));
    assert_eq!(validate_hostport("host:-1"), Err(HostPortError::BadPort));
    assert_eq!(validate_hostport("host:8o"), Err(HostPortError::BadPort));
    assert_eq!(validate_hostport("host:4294967296"), Err(HostPortError::BadPort));
    assert_eq!(validate_hostport("host:4294967295"), Err(HostPortError::PortOutOfRange));
    assert_eq!(validate_hostport("host:0"), Err(HostPortError::PortOutOfRange));
    assert_eq!(validate_hostport("host:65536"), Err(HostPortError::PortOutOfRange));
    assert_eq!(HostPortError::BadPort.message(), "bad port");
    assert_eq!(HostPortError::MissingColon.message(), "expected host:port");
}

#[test]
fn address_preference() {
    let all = addrs(Some("p:1"), Some("l:1"), Some("v:1"));
    assert_eq!(pick_one_addr(&all, RequestView::Public), Some((PeerType::Public, "p:1".to_string())));
    assert_eq!(pick_one_addr(&all, RequestView::Lan), Some((PeerType::Lan, "l:1".to_string())));
    assert_eq!(pick_one_addr(&all, RequestView::Vpn), Some((PeerType::Vpn, "v:1".to_string())));
    let lan_only = addrs(None, Some("l:1"), None);
    assert_eq!(pick_one_addr(&lan_only, RequestView::Public), None);
    assert_eq!(pick_one_addr(&lan_only, RequestView::Vpn), Some((PeerType::Lan, "l:1".to_string())));
    let empty_lan = addrs(Some("p:1"), Some(""), Some("v:1"));
    assert_eq!(pick_one_addr(&empty_lan, RequestView::Lan), Some((PeerType::Public, "p:1".to_string())));
    let vpn_only = addrs(None, None, Some("v:1"));
    assert_eq!(pick_one_addr(&vpn_only, RequestView::Public), Some((PeerType::Vpn, "v:1".to_string())));
    assert_eq!(pick_one_addr(&addrs(None, None, None), RequestView::Lan), None);
    for view in [RequestView::Public, RequestView::Lan, RequestView::Vpn] {
        assert_eq!(pick_one_addr(&empty_lan, view), addrs_in_order(&empty_lan, view).into_iter().next());
    }
}

#[test]
fn peer_list_for_view() {
    let rows = vec![
        PeerRow { peer_id: "1".to_string(), name: "a".to_string(), addrs: addrs(None, Some("l:1"), None) },
        PeerRow { peer_id: "2".to_string(), name: "b".to_string(), addrs: addrs(Some("p:2"), None, None) },
    ];
    let list = peer_list(rows, RequestView::Public);
    assert_eq!(list.peers.len(), 1);
    assert_eq!(list.peers[0].peer_id, "2");
    assert_eq!(list.peers[0].name, "b");
    assert_eq!(list.peers[0].ty, PeerType::Public);
    assert_eq!(list.peers[0].addr, "p:2");
}

#[test]
fn lan_view_lists_every_address_lan_first() {
    let rows = vec![PeerRow { peer_id: "1".to_string(), name: "a".to_string(), addrs: addrs(Some("p:1"), Some("l:1"), Some("v:1")) }];
    let list = peer_list(rows, RequestView::Lan);
    let got: Vec<(PeerType, String)> = list.peers.iter().map(|p| (p.ty, p.addr.clone())).collect();
    assert_eq!(got, vec![(PeerType::Lan, "l:1".to_string()), (PeerType::Public, "p:1".to_string()), (PeerType::Vpn, "v:1".to_string())]);
    assert!(list.peers.iter().all(|p| p.peer_id == "1" && p.name == "a"));
    let all = addrs(Some("p:1"), Some("l:1"), Some(""));
    assert_eq!(addrs_in_order(&all, RequestView::Vpn), vec![(PeerType::Lan, "l:1".to_string()), (PeerType::Public, "p:1".to_string())]);
    assert_eq!(addrs_in_order(&all, RequestView::Public), vec![(PeerType::Public, "p:1".to_string())]);
}

#[test]
fn contacts_take_one_address_per_peer() {
    let rows = vec![
        PeerRow { peer_id: "1".to_string(), name: "a".to_string(), addrs: addrs(Some("p:1"), Some("l:1"), Some("v:1")) },
        PeerRow { peer_id: "2".to_string(), name: "b".to_string(), addrs: addrs(None, None, None) },
        PeerRow { peer_id: "3".to_string(), name: "c".to_string(), addrs: addrs(Some("p:3"), None, Some("v:3")) },
    ];
    let list = pick_peers(rows, RequestView::Lan);
    let got: Vec<(String, PeerType, String)> = list.peers.iter().map(|p| (p.peer_id.clone(), p.ty, p.addr.clone())).collect();
    assert_eq!(
        got,
        vec![("1".to_string(), PeerType::Lan, "l:1".to_string()), ("3".to_string(), PeerType::Public, "p:3".to_string())]
    );
    let rows = vec![PeerRow { peer_id: "3".to_string(), name: "c".to_string(), addrs: addrs(Some("p:3"), None, Some("v:3")) }];
    let list = pick_peers(rows, RequestView::Vpn);
    assert_eq!(list.peers.len(), 1);
    assert_eq!(list.peers[0].ty, PeerType::Vpn);
    assert_eq!(list.peers[0].addr, "v:3");
    assert_eq!(list.peers[0].name, "c");
}

fn export(id: &str, name: &str, ty: PeerType, addr: &str) -> PeerExport {
    PeerExport { peer_id: id.to_string(), name: name.to_string(), ty, addr: addr.to_string() }
}

#[test]
fn merging_lists() {
    let good = PeerList { peers: vec![export("1", "a", PeerType::Lan, "h:1"), export("2", "", PeerType::Vpn, "g:2")] };
    let ops = merge_peer_list(&good).unwrap();
    assert_eq!(ops.len(), 4);
    assert!(matches!(&ops[0], PeerOp::UpsertPeer { peer_id, name } if peer_id == "1" && name == "a"));
    assert!(matches!(&ops[1], PeerOp::SetAddr { peer_id, ty: PeerType::Lan, addr } if peer_id == "1" && addr == "h:1"));
    assert!(matches!(&ops[3], PeerOp::SetAddr { peer_id, ty: PeerType::Vpn, addr } if peer_id == "2" && addr == "g:2"));
    let bad = PeerList { peers: vec![export("1", "a", PeerType::Lan, "h:1"), export("2", "b", PeerType::Lan, "nope")] };
    assert_eq!(merge_peer_list(&bad).err(), Some(HostPortError::MissingColon));
}

#[test]
fn store_changes() {
    assert!(matches!(upsert_peer("id", "n"), PeerOp::UpsertPeer { peer_id, name } if peer_id == "id" && name == "n"));
    let ops = set_addr("id", PeerType::Vpn, "x:9").unwrap();
    assert!(matches!(&ops[0], PeerOp::EnsurePeer { peer_id } if peer_id == "id"));
    assert!(matches!(&ops[1], PeerOp::SetAddr { peer_id, ty: PeerType::Vpn, addr } if peer_id == "id" && addr == "x:9"));
    assert_eq!(set_addr("id", PeerType::Vpn, "x:0").err(), Some(HostPortError::PortOutOfRange));
    assert!(matches!(remove_peer_by_id("id"), PeerOp::RemovePeer { peer_id } if peer_id == "id"));
    assert!(matches!(clear_addr("id", PeerType::Lan), PeerOp::ClearAddr { peer_id, ty: PeerType::Lan } if peer_id == "id"));
}

#[test]
fn hex_text() {
    assert_eq!(to_hex_lower(&[0x00, 0x0f, 0xa0, 0xff]), "000fa0ff");
    assert_eq!(to_hex_lower(&[]), "");
}

#[test]
fn peer_ids() {
    let id = peer_id_from_addr("  Example.COM:5000 ");
    let expected = format!("addr:{}", blake3::hash(b"example.com:5000").to_hex());
    assert_eq!(id, expected);
    assert_eq!(id, peer_id_from_addr("example.com:5000"));
    assert_ne!(id, peer_id_from_addr("example.com:5001"));
    assert_eq!(id.len(), 5 + 64);
}

#[test]
fn adding_and_removing_peers() {
    let args = AddPeerArgs { peer_db: "p.db".to_string(), name: "home".to_string(), host: "10.0.0.2:5000".to_string(), ty: PeerType::Lan };
    let plan = add_peer(&args);
    let id = peer_id_from_addr("10.0.0.2:5000");
    assert_eq!(plan.outcome, Ok(()));
    assert_eq!(plan.ops.len(), 3);
    assert!(matches!(&plan.ops[0], PeerOp::UpsertPeer { peer_id, name } if *peer_id == id && name == "home"));
    assert!(matches!(&plan.ops[2], PeerOp::SetAddr { peer_id, ty: PeerType::Lan, addr } if *peer_id == id && addr == "10.0.0.2:5000"));
    let bad = AddPeerArgs { peer_db: "p.db".to_string(), name: "x".to_string(), host: "nohost".to_string(), ty: PeerType::Public };
    let plan = add_peer(&bad);
    assert_eq!(plan.outcome, Err(HostPortError::MissingColon));
    assert_eq!(plan.ops.len(), 1);
    let rm = remove_peer(&RemovePeerArgs { peer_db: "p.db".to_string(), name: "home".to_string() });
    assert!(matches!(rm, PeerOp::RemovePeersByName { name } if name == "home"));
}

#[test]
fn views_from_remote_addresses() {
    let lan = |ip: IpAddress| infer_view_from_remote(&ip);
    assert_eq!(lan(IpAddress::V4([127, 0, 0, 1])), RequestView::Lan);
    assert_eq!(lan(IpAddress::V4([169, 254, 3, 4])), RequestView::Lan);
    assert_eq!(lan(IpAddress::V4([10, 1, 2, 3])), RequestView::Lan);
    assert_eq!(lan(IpAddress::V4([172, 16, 0, 1])), RequestView::Lan);
    assert_eq!(lan(IpAddress::V4([172, 31, 255, 255])), RequestView::Lan);
    assert_eq!(lan(IpAddress::V4([172, 32, 0, 1])), RequestView::Public);
    assert_eq!(lan(IpAddress::V4([192, 168, 1, 1])), RequestView::Lan);
    assert_eq!(lan(IpAddress::V4([8, 8, 8, 8])), RequestView::Public);
    assert_eq!(lan(IpAddress::V6([0, 0, 0, 0, 0, 0, 0, 1])), RequestView::Lan);
    assert_eq!(lan(IpAddress::V6([0xfe80, 0, 0, 0, 0, 0, 0, 5])), RequestView::Lan);
    assert_eq!(lan(IpAddress::V6([0xfd12, 0, 0, 0, 0, 0, 0, 5])), RequestView::Lan);
    assert_eq!(lan(IpAddress::V6([0x2001, 0xdb8, 0, 0, 0, 0, 0, 1])), RequestView::Public);
    assert_eq!(lan(IpAddress::V6([0, 0, 0, 0, 0, 0, 0, 0])), RequestView::Public);
}

#[test]
fn connect_timeouts() {
    assert_eq!(connect_timeout_ms(0), 1);
    assert_eq!(connect_timeout_ms(2000), 2000);
}

#[test]
fn session_steps() {
    assert_eq!(initial_state(), SessionState::Handshake { complete: false });
    assert_eq!(read_signal(SessionState::Ready, Some(ClientSignal::MoveTransfer)), (SessionState::Transfer, Ok(ServerResponse::Success)));
    assert_eq!(read_signal(SessionState::Ready, Some(ClientSignal::MoveNaming)), (SessionState::Naming, Ok(ServerResponse::Success)));
    assert_eq!(read_signal(SessionState::Transfer, Some(ClientSignal::MoveNaming)), (SessionState::Transfer, Ok(ServerResponse::Failure)));
    assert_eq!(read_signal(SessionState::Dead, Some(ClientSignal::MoveTransfer)), (SessionState::Dead, Ok(ServerResponse::Failure)));
    assert_eq!(send_signal(SessionState::Ready, ClientSignal::MoveNaming, Some(ServerResponse::Success)), (SessionState::Naming, Ok(())));
    assert_eq!(
        send_signal(SessionState::Ready, ClientSignal::MoveTransfer, Some(ServerResponse::Failure)),
        (SessionState::Ready, Err(SessionError::TransitionRefused))
    );
    assert_eq!(SessionError::TransitionRefused.message(), "Could not transition state");
}

#[test]
fn session_timeouts_kill_the_session() {
    assert_eq!(
        send_signal(SessionState::Ready, ClientSignal::MoveTransfer, None),
        (SessionState::Dead, Err(SessionError::ServerTimedOut))
    );
    assert_eq!(read_signal(SessionState::Transfer, None), (SessionState::Dead, Err(SessionError::ClientTimedOut)));
    assert_eq!(SessionError::ServerTimedOut.message(), "Server timed out, session moved to dead");
    assert_eq!(
        SessionError::ClientTimedOut.message(),
        "Client timed out, killing stream and moving to dead"
    );
}

#[test]
fn session_agreement_example() {
    let state = SessionState::Ready;
    let (server_next, answer) = read_signal(state, Some(ClientSignal::MoveTransfer));
    let reply = ServerResponse::from_code(answer.unwrap().code());
    let (client_next, outcome) = send_signal(state, ClientSignal::MoveTransfer, Some(reply));
    assert_eq!(outcome, Ok(()));
    assert_eq!(client_next, server_next);
    let state = SessionState::Naming;
    let (server_next, answer) = read_signal(state, Some(ClientSignal::MoveTransfer));
    let (client_next, outcome) = send_signal(state, ClientSignal::MoveTransfer, answer.ok());
    assert!(outcome.is_err());
    assert_eq!(server_next, state);
    assert_eq!(client_next, state);
}

#[test]
fn signal_codes() {
    assert_eq!(ClientSignal::MoveTransfer.code(), 1);
    assert_eq!(ClientSignal::MoveNaming.code(), 2);
    assert_eq!(ClientSignal::from_code(2), ClientSignal::MoveNaming);
    assert_eq!(ServerResponse::Failure.code(), 2);
    assert_eq!(ServerResponse::from_code(1), ServerResponse::Success);
}

#[test]
fn stream_taken_once() {
    let mut ctx = Context { stream: Some(7u32), files: "files" };
    assert_eq!(ctx.take_stream(), Ok(7));
    assert_eq!(ctx.take_stream(), Err(ContextError::AlreadyTaken));
    assert_eq!(ctx.files, "files");
}

#[test]
fn commands_from_cli() {
    let cli = |peer_db: Option<&str>, cmd: Cmd| Cli { peer_db: peer_db.map(|s| s.to_string()), cmd };
    let c = cli(None, Cmd::Serve(ServeUx { bind: "0.0.0.0:5000".to_string(), config: "config.yaml".to_string() }));
    assert!(matches!(c.into_command(), Ok(Command::Server(a)) if a.bind == "0.0.0.0:5000" && a.config == "config.yaml"));
    let c = cli(None, Cmd::Files(FilesUx { addr: Some("h:1".to_string()) }));
    assert!(matches!(c.into_command(), Ok(Command::Client(a)) if matches!(&a.target, ClientTarget::Server(s) if s == "h:1") && matches!(a.action, ClientAction::GetFiles)));
    let c = cli(Some("db"), Cmd::Files(FilesUx { addr: None }));
    assert!(matches!(c.into_command(), Ok(Command::Client(a)) if matches!(&a.target, ClientTarget::Peers { peer_db, peer: None } if peer_db == "db")));
    let c = cli(None, Cmd::Files(FilesUx { addr: None }));
    assert!(matches!(c.into_command(), Err(CliError::PeerDbRequired)));
    let c = cli(None, Cmd::Download(DownloadUx { addr: Some("h:1".to_string()), peer: None, file: "f".to_string(), output: "o".to_string() }));
    assert!(matches!(c.into_command(), Ok(Command::Client(a)) if matches!(&a.action, ClientAction::Download(d) if d.file == "f" && d.output == "o")));
    let c = cli(Some("db"), Cmd::Download(DownloadUx { addr: None, peer: Some("home".to_string()), file: "f".to_string(), output: "o".to_string() }));
    assert!(matches!(c.into_command(), Ok(Command::Client(a)) if matches!(&a.target, ClientTarget::Peers { peer_db, peer: Some(p) } if peer_db == "db" && p == "home")));
    let c = cli(Some("db"), Cmd::Download(DownloadUx { addr: None, peer: None, file: "f".to_string(), output: "o".to_string() }));
    assert!(matches!(c.into_command(), Err(CliError::PeerRequired)));
    let c = cli(Some("db"), Cmd::AddPeer(AddPeerUx { name: "n".to_string(), host: "h:1".to_string(), ty: PeerType::Vpn }));
    assert!(matches!(c.into_command(), Ok(Command::AddPeer(a)) if a.peer_db == "db" && a.ty == PeerType::Vpn && a.host == "h:1"));
    let c = cli(None, Cmd::RemovePeer(RemovePeerUx { name: "n".to_string() }));
    assert!(matches!(c.into_command(), Err(CliError::PeerDbRequired)));
    let c = cli(Some("db"), Cmd::RemovePeer(RemovePeerUx { name: "n".to_string() }));
    assert!(matches!(c.into_command(), Ok(Command::RemovePeer(a)) if a.name == "n"));
    let c = cli(Some("db"), Cmd::ViewPeers);
    assert!(matches!(c.into_command(), Ok(Command::ViewPeers(db)) if db == "db"));
    assert_eq!(CliError::PeerDbRequired.message(), "a peer database is required (-p)");
}

fn store() -> rusqlite::Connection {
    let conn = rusqlite::Connection::open_in_memory().unwrap();
    conn.execute_batch(
        "PRAGMA foreign_keys = ON;
         CREATE TABLE peers (peer_id TEXT PRIMARY KEY, name TEXT NOT NULL DEFAULT '');
         CREATE TABLE peer_addrs (peer_id TEXT NOT NULL, ty TEXT NOT NULL, addr TEXT NOT NULL,
             FOREIGN KEY(peer_id) REFERENCES peers(peer_id) ON DELETE CASCADE, UNIQUE(peer_id, ty));",
    )
    .unwrap();
    conn
}

fn run(conn: &rusqlite::Connection, ops: &[PeerOp]) {
    for op in ops {
        match op {
            PeerOp::UpsertPeer { peer_id, name } => conn.execute(
                "INSERT INTO peers(peer_id, name) VALUES(?1, ?2) ON CONFLICT(peer_id) DO UPDATE SET
                 name = CASE WHEN excluded.name <> '' THEN excluded.name ELSE peers.name END",
                [peer_id.as_str(), name.as_str()],
            ),
            PeerOp::EnsurePeer { peer_id } => conn.execute(
                "INSERT INTO peers(peer_id, name) VALUES(?1, '') ON CONFLICT(peer_id) DO NOTHING",
                [peer_id.as_str()],
            ),
            PeerOp::SetAddr { peer_id, ty, addr } => conn.execute(
                "INSERT INTO peer_addrs(peer_id, ty, addr) VALUES(?1, ?2, ?3)
                 ON CONFLICT(peer_id, ty) DO UPDATE SET addr = excluded.addr",
                [peer_id.as_str(), ty_to_str(*ty), addr.as_str()],
            ),
            PeerOp::RemovePeer { peer_id } => conn.execute("DELETE FROM peers WHERE peer_id = ?1", [peer_id.as_str()]),
            PeerOp::RemovePeersByName { name } => conn.execute("DELETE FROM peers WHERE name = ?1", [name.as_str()]),
            PeerOp::ClearAddr { peer_id, ty } => conn.execute(
                "DELETE FROM peer_addrs WHERE peer_id = ?1 AND ty = ?2",
                [peer_id.as_str(), ty_to_str(*ty)],
            ),
        }
        .unwrap();
    }
}

fn read_rows(conn: &rusqlite::Connection) -> Vec<PeerRow> {
    let mut stmt = conn.prepare("SELECT peer_id, name FROM peers").unwrap();
    let peers: Vec<(String, String)> =
        stmt.query_map([], |r| Ok((r.get(0)?, r.get(1)?))).unwrap().map(|r| r.unwrap()).collect();
    peers
        .into_iter()
        .map(|(peer_id, name)| {
            let get = |ty: PeerType| -> Option<String> {
                conn.query_row(
                    "SELECT addr FROM peer_addrs WHERE peer_id = ?1 AND ty = ?2",
                    [peer_id.as_str(), ty_to_str(ty)],
                    |r| r.get(0),
                )
                .ok()
            };
            let addrs = PeerAddrs { public: get(PeerType::Public), lan: get(PeerType::Lan), vpn: get(PeerType::Vpn) };
            PeerRow { peer_id, name, addrs }
        })
        .collect()
}

#[test]
fn added_peer_is_listed_with_its_address() {
    let conn = store();
    let args = AddPeerArgs { peer_db: "p.db".to_string(), name: "home".to_string(), host: "10.0.0.2:5000".to_string(), ty: PeerType::Vpn };
    let plan = add_peer(&args);
    assert_eq!(plan.outcome, Ok(()));
    run(&conn, &plan.ops);
    let id = peer_id_from_addr("10.0.0.2:5000");
    let list = peer_list(read_rows(&conn), RequestView::Lan);
    assert!(list.peers.iter().any(|p| p.peer_id == id && p.name == "home" && p.ty == PeerType::Vpn && p.addr == "10.0.0.2:5000"));
}

#[test]
fn removed_peers_are_gone() {
    let conn = store();
    for (name, host) in [("home", "10.0.0.2:5000"), ("home", "10.0.0.3:5000"), ("work", "10.0.0.4:5000")] {
        let args = AddPeerArgs { peer_db: "p.db".to_string(), name: name.to_string(), host: host.to_string(), ty: PeerType::Lan };
        run(&conn, &add_peer(&args).ops);
    }
    run(&conn, &[remove_peer(&RemovePeerArgs { peer_db: "p.db".to_string(), name: "home".to_string() })]);
    let rows = read_rows(&conn);
    assert_eq!(rows.len(), 1);
    assert_eq!(rows[0].name, "work");
    let left: i64 = conn.query_row("SELECT COUNT(*) FROM peer_addrs", [], |r| r.get(0)).unwrap();
    assert_eq!(left, 1);
}

#[test]
fn exported_list_merges_into_another_store() {
    let a = store();
    for (name, host, ty) in [("home", "10.0.0.2:5000", PeerType::Lan), ("", "10.0.0.3:5000", PeerType::Vpn)] {
        let args = AddPeerArgs { peer_db: "a.db".to_string(), name: name.to_string(), host: host.to_string(), ty };
        run(&a, &add_peer(&args).ops);
    }
    let home = peer_id_from_addr("10.0.0.2:5000");
    run(&a, &set_addr(&home, PeerType::Public, "example.com:80").unwrap());
    let exported = peer_list(read_rows(&a), RequestView::Lan);
    assert_eq!(exported.peers.len(), 3);

    let b = store();
    run(&b, &[upsert_peer(&home, "old name")]);
    run(&b, &merge_peer_list(&exported).unwrap());
    let rows = read_rows(&b);
    for e in &exported.peers {
        let row = rows.iter().find(|r| r.peer_id == e.peer_id).unwrap();
        let stored = match e.ty {
            PeerType::Public => &row.addrs.public,
            PeerType::Lan => &row.addrs.lan,
            PeerType::Vpn => &row.addrs.vpn,
        };
        assert_eq!(stored.as_deref(), Some(e.addr.as_str()));
        if !e.name.is_empty() {
            assert_eq!(row.name, e.name);
        }
    }
    assert_eq!(rows.iter().find(|r| r.peer_id == home).unwrap().name, "home");
}

#[test]
fn peer_ids_ignore_unicode_white_space_around_the_address() {
    let id = peer_id_from_addr("\u{3000}\t Host:1\u{85}\u{2029}");
    assert_eq!(id, peer_id_from_addr("host:1"));
    assert_ne!(id, peer_id_from_addr("ho st:1"));
}
