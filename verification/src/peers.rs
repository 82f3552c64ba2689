//! The peer address book: peer kinds, which address a requester is given,
//! address validation, peer identifiers, and the changes that the address
//! book commands make to the store.
use vstd::prelude::*;
use vstd::string::*;
use vstd::utf8::*;

verus! {

/// The kind of network an address of a peer belongs to.
#[derive(Debug, Clone, Copy, PartialEq, Eq, Structural)]
pub enum PeerType {
    Public,
    Lan,
    Vpn,
}

/// The network a requester sees peers from.
#[derive(Debug, Clone, Copy, PartialEq, Eq, Structural)]
pub enum RequestView {
    Public,
    Lan,
    Vpn,
}

/// A peer as it is exported, with one of its addresses.
pub struct PeerExport {
    pub peer_id: String,
    pub name: String,
    pub ty: PeerType,
    /// `host:port`.
    pub addr: String,
}

/// A list of exported peers.
pub struct PeerList {
    pub peers: Vec<PeerExport>,
}

/// The name of a peer kind in the store.
pub fn ty_to_str(t: PeerType) -> (res: &'static str)
    ensures
        t == PeerType::Public ==> res@ == "public"@,
        t == PeerType::Lan ==> res@ == "lan"@,
        t == PeerType::Vpn ==> res@ == "vpn"@,
{
    match t {
        PeerType::Public => "public",
        PeerType::Lan => "lan",
        PeerType::Vpn => "vpn",
    }
}

// ---------------------------------------------------------------------------
// Choosing the address a requester is given
// ---------------------------------------------------------------------------

/// The kinds of address a requester is offered, most preferred first.
pub open spec fn view_order(view: RequestView) -> Seq<PeerType> {
    match view {
        RequestView::Public => seq![PeerType::Public, PeerType::Vpn],
        RequestView::Lan => seq![PeerType::Lan, PeerType::Public, PeerType::Vpn],
        RequestView::Vpn => seq![PeerType::Vpn, PeerType::Lan, PeerType::Public],
    }
}

/// The stored addresses of one peer, one per kind at most.
pub struct PeerAddrs {
    pub public: Option<String>,
    pub lan: Option<String>,
    pub vpn: Option<String>,
}

impl PeerAddrs {
    /// The stored address of kind `ty`.
    pub open spec fn get(self, ty: PeerType) -> Option<String> {
        match ty {
            PeerType::Public => self.public,
            PeerType::Lan => self.lan,
            PeerType::Vpn => self.vpn,
        }
    }

    /// Whether a non-empty address of kind `ty` is stored.
    pub open spec fn usable(self, ty: PeerType) -> bool {
        self.get(ty) matches Some(a) && a@.len() > 0
    }
}

/// The first kind in `order` with a usable address, with that address.
pub open spec fn first_usable(order: Seq<PeerType>, addrs: PeerAddrs) -> Option<(PeerType, String)>
    decreases order.len(),
{
    if order.len() == 0 {
        None
    } else if addrs.usable(order[0]) {
        Some((order[0], addrs.get(order[0]).unwrap()))
    } else {
        first_usable(order.drop_first(), addrs)
    }
}

/// The address of kind `ty`, when it is stored and not empty.
fn usable_addr(addrs: &PeerAddrs, ty: PeerType) -> (res: Option<String>)
    ensures
        res is Some <==> addrs.usable(ty),
        res matches Some(a) ==> a == addrs.get(ty).unwrap(),
{
    let slot = match ty {
        PeerType::Public => &addrs.public,
        PeerType::Lan => &addrs.lan,
        PeerType::Vpn => &addrs.vpn,
    };
    match slot {
        Some(a) => {
            if a.as_str().is_empty() {
                None
            } else {
                Some(a.clone())
            }
        },
        None => None,
    }
}

/// The address a requester with `view` is given: the first usable one in
/// the order of preference of that view.
pub fn pick_one_addr(addrs: &PeerAddrs, view: RequestView) -> (res: Option<(PeerType, String)>)
    ensures
        res == first_usable(view_order(view), *addrs),
{
    let ghost order = view_order(view);
    proof {
        reveal_with_fuel(first_usable, 4);
    }
    let first = match view {
        RequestView::Public => PeerType::Public,
        RequestView::Lan => PeerType::Lan,
        RequestView::Vpn => PeerType::Vpn,
    };
    if let Some(a) = usable_addr(addrs, first) {
        return Some((first, a));
    }
    let second = match view {
        RequestView::Public => PeerType::Vpn,
        RequestView::Lan => PeerType::Public,
        RequestView::Vpn => PeerType::Lan,
    };
    if let Some(a) = usable_addr(addrs, second) {
        proof {
            assert(order.drop_first()[0] == second);
        }
        return Some((second, a));
    }
    proof {
        assert(order.drop_first()[0] == second);
    }
    match view {
        RequestView::Public => {
            proof {
                assert(order.drop_first().drop_first().len() == 0);
            }
            None
        },
        _ => {
            let third = match view {
                RequestView::Lan => PeerType::Vpn,
                _ => PeerType::Public,
            };
            proof {
                assert(order.drop_first().drop_first()[0] == third);
                assert(order.drop_first().drop_first().drop_first().len() == 0);
            }
            match usable_addr(addrs, third) {
                Some(a) => Some((third, a)),
                None => None,
            }
        },
    }
}

/// A stored peer with all of its addresses.
pub struct PeerRow {
    pub peer_id: String,
    pub name: String,
    pub addrs: PeerAddrs,
}

/// The usable addresses of a peer, kind by kind in the order `order`.
pub open spec fn usable_in_order(order: Seq<PeerType>, addrs: PeerAddrs) -> Seq<(PeerType, String)>
    decreases order.len(),
{
    if order.len() == 0 {
        seq![]
    } else {
        let rest = usable_in_order(order.drop_first(), addrs);
        if addrs.usable(order[0]) {
            seq![(order[0], addrs.get(order[0]).unwrap())] + rest
        } else {
            rest
        }
    }
}

/// The usable addresses a requester with `view` is offered, most preferred first.
pub fn addrs_in_order(addrs: &PeerAddrs, view: RequestView) -> (res: Vec<(PeerType, String)>)
    ensures
        res@ == usable_in_order(view_order(view), *addrs),
{
    let order: Vec<PeerType> = match view {
        RequestView::Public => vec![PeerType::Public, PeerType::Vpn],
        RequestView::Lan => vec![PeerType::Lan, PeerType::Public, PeerType::Vpn],
        RequestView::Vpn => vec![PeerType::Vpn, PeerType::Lan, PeerType::Public],
    };
    proof {
        assert(order@ =~= view_order(view));
    }
    let mut out: Vec<(PeerType, String)> = Vec::new();
    let n = order.len();
    let mut i: usize = n;
    while i > 0
        invariant
            i <= n,
            n == order@.len(),
            out@ == usable_in_order(order@.subrange(i as int, n as int), *addrs),
        decreases i,
    {
        let ty = order[i - 1];
        proof {
            let tail = order@.subrange(i - 1, n as int);
            assert(tail.drop_first() =~= order@.subrange(i as int, n as int));
            assert(tail[0] == ty);
        }
        match usable_addr(addrs, ty) {
            Some(a) => {
                out.insert(0, (ty, a));
                proof {
                    assert(out@ =~= seq![(ty, addrs.get(ty).unwrap())] + usable_in_order(
                        order@.subrange(i as int, n as int),
                        *addrs,
                    ));
                }
            },
            None => {},
        }
        i = i - 1;
    }
    proof {
        assert(order@.subrange(0, n as int) =~= order@);
    }
    out
}

/// The address picked alone is the first of the addresses offered in order.
pub proof fn lemma_pick_is_first_offered(order: Seq<PeerType>, addrs: PeerAddrs)
    ensures
        first_usable(order, addrs) == (if usable_in_order(order, addrs).len() > 0 {
            Some(usable_in_order(order, addrs)[0])
        } else {
            None
        }),
    decreases order.len(),
{
    if order.len() > 0 {
        lemma_pick_is_first_offered(order.drop_first(), addrs);
    }
}

/// A requester on the LAN is offered every usable address of a peer — the
/// LAN one first, then the public one, then the VPN one.
pub proof fn lemma_lan_view_offers_every_address(addrs: PeerAddrs)
    ensures
        ({
            let offered = usable_in_order(view_order(RequestView::Lan), addrs);
            &&& forall|ty: PeerType|
                addrs.usable(ty) ==> exists|i: int|
                    0 <= i < offered.len() && #[trigger] offered[i] == (ty, addrs.get(ty).unwrap())
            &&& forall|i: int| 0 <= i < offered.len() ==> addrs.usable(#[trigger] offered[i].0)
            &&& addrs.usable(PeerType::Lan) ==> offered[0].0 == PeerType::Lan
        }),
{
    let order = view_order(RequestView::Lan);
    reveal_with_fuel(usable_in_order, 4);
    let o1 = order.drop_first();
    let o2 = o1.drop_first();
    let o3 = o2.drop_first();
    assert(o3.len() == 0);
    let offered = usable_in_order(order, addrs);
    assert forall|ty: PeerType| addrs.usable(ty) implies exists|i: int|
        0 <= i < offered.len() && #[trigger] offered[i] == (ty, addrs.get(ty).unwrap()) by {
        let lan = if addrs.usable(PeerType::Lan) { 1int } else { 0int };
        let public = if addrs.usable(PeerType::Public) { 1int } else { 0int };
        match ty {
            PeerType::Lan => {
                assert(offered[0] == (ty, addrs.get(ty).unwrap()));
            },
            PeerType::Public => {
                assert(offered[lan] == (ty, addrs.get(ty).unwrap()));
            },
            PeerType::Vpn => {
                assert(offered[lan + public] == (ty, addrs.get(ty).unwrap()));
            },
        }
    }
}

/// The exports of a stored peer for a requester with `view`: one per usable
/// address, most preferred first.
pub open spec fn row_exports(row: PeerRow, view: RequestView) -> Seq<PeerExport> {
    usable_in_order(view_order(view), row.addrs).map_values(
        |x: (PeerType, String)| PeerExport { peer_id: row.peer_id, name: row.name, ty: x.0, addr: x.1 },
    )
}

/// The exports of the stored peers, peer by peer in order.
pub open spec fn exports_of(rows: Seq<PeerRow>, view: RequestView) -> Seq<PeerExport>
    decreases rows.len(),
{
    if rows.len() == 0 {
        seq![]
    } else {
        exports_of(rows.drop_last(), view) + row_exports(rows.last(), view)
    }
}

/// Copies a stored string.
fn copy_string(s: &String) -> (res: String)
    ensures
        res == *s,
{
    s.clone()
}

/// The peer list a requester with `view` is given from the stored peers:
/// every usable address of every peer, peer by peer, and for each peer its
/// addresses in the view's order of preference (a peer without a usable
/// address does not appear).
pub fn peer_list(rows: Vec<PeerRow>, view: RequestView) -> (res: PeerList)
    ensures
        res.peers@ == exports_of(rows@, view),
{
    let mut out: Vec<PeerExport> = Vec::new();
    let n = rows.len();
    let mut i: usize = 0;
    while i < n
        invariant
            n == rows@.len(),
            i <= n,
            out@ == exports_of(rows@.subrange(0, i as int), view),
        decreases n - i,
    {
        let row = &rows[i];
        let offered = addrs_in_order(&row.addrs, view);
        let ghost before = out@;
        let m = offered.len();
        let mut j: usize = 0;
        while j < m
            invariant
                j <= m,
                m == offered@.len(),
                offered@ == usable_in_order(view_order(view), row.addrs),
                out@ == before + row_exports(*row, view).subrange(0, j as int),
            decreases m - j,
        {
            let (ty, a) = &offered[j];
            out.push(PeerExport { peer_id: copy_string(&row.peer_id), name: copy_string(&row.name), ty: *ty, addr: copy_string(a) });
            proof {
                assert(row_exports(*row, view).subrange(0, j + 1) =~= row_exports(*row, view).subrange(0, j as int).push(row_exports(*row, view)[j as int]));
            }
            j = j + 1;
        }
        proof {
            assert(row_exports(*row, view).subrange(0, m as int) =~= row_exports(*row, view));
            let pre = rows@.subrange(0, i as int);
            let post = rows@.subrange(0, i + 1);
            assert(post.drop_last() =~= pre);
            assert(post.last() == rows@[i as int]);
        }
        i = i + 1;
    }
    proof {
        assert(rows@.subrange(0, n as int) =~= rows@);
    }
    PeerList { peers: out }
}

/// One export per stored peer, peer by peer: the address a requester with
/// `view` is given for it (a peer without a usable address does not appear).
pub open spec fn picked_exports(rows: Seq<PeerRow>, view: RequestView) -> Seq<PeerExport>
    decreases rows.len(),
{
    if rows.len() == 0 {
        seq![]
    } else {
        let front = picked_exports(rows.drop_last(), view);
        let row = rows.last();
        match first_usable(view_order(view), row.addrs) {
            Some(picked) => front.push(
                PeerExport { peer_id: row.peer_id, name: row.name, ty: picked.0, addr: picked.1 },
            ),
            None => front,
        }
    }
}

/// The peers to contact, one address each: for every stored peer the
/// address a requester with `view` is given.
pub fn pick_peers(rows: Vec<PeerRow>, view: RequestView) -> (res: PeerList)
    ensures
        res.peers@ == picked_exports(rows@, view),
{
    let mut out: Vec<PeerExport> = Vec::new();
    let n = rows.len();
    let mut i: usize = 0;
    while i < n
        invariant
            n == rows@.len(),
            i <= n,
            out@ == picked_exports(rows@.subrange(0, i as int), view),
        decreases n - i,
    {
        let row = &rows[i];
        proof {
            let pre = rows@.subrange(0, i as int);
            let post = rows@.subrange(0, i + 1);
            assert(post.drop_last() =~= pre);
            assert(post.last() == rows@[i as int]);
        }
        match pick_one_addr(&row.addrs, view) {
            Some((ty, a)) => {
                out.push(PeerExport { peer_id: copy_string(&row.peer_id), name: copy_string(&row.name), ty, addr: a });
            },
            None => {},
        }
        i = i + 1;
    }
    proof {
        assert(rows@.subrange(0, n as int) =~= rows@);
    }
    PeerList { peers: out }
}

/// Whether a requester with `view` can be given some address of a peer:
/// under the public view a public or a VPN address, under the LAN and VPN
/// views an address of any kind.
pub open spec fn reachable(addrs: PeerAddrs, view: RequestView) -> bool {
    match view {
        RequestView::Public => addrs.usable(PeerType::Public) || addrs.usable(PeerType::Vpn),
        _ => addrs.usable(PeerType::Lan) || addrs.usable(PeerType::Public) || addrs.usable(
            PeerType::Vpn,
        ),
    }
}

/// `(ty, a)` is the address a requester with `view` should get: a stored,
/// non-empty address whose kind the view accepts, with no usable address of
/// a kind the view prefers. The LAN view prefers LAN, then public, then
/// VPN; the public view public, then VPN; the VPN view VPN, then LAN, then
/// public.
pub open spec fn preferred_addr(addrs: PeerAddrs, view: RequestView, ty: PeerType, a: String) -> bool {
    &&& addrs.usable(ty)
    &&& a == addrs.get(ty).unwrap()
    &&& match view {
        RequestView::Lan => ty == PeerType::Lan || (ty == PeerType::Public && !addrs.usable(
            PeerType::Lan,
        )) || (ty == PeerType::Vpn && !addrs.usable(PeerType::Lan) && !addrs.usable(
            PeerType::Public,
        )),
        RequestView::Public => ty == PeerType::Public || (ty == PeerType::Vpn && !addrs.usable(
            PeerType::Public,
        )),
        RequestView::Vpn => ty == PeerType::Vpn || (ty == PeerType::Lan && !addrs.usable(
            PeerType::Vpn,
        )) || (ty == PeerType::Public && !addrs.usable(PeerType::Vpn) && !addrs.usable(
            PeerType::Lan,
        )),
    }
}

/// The single address picked for a peer is there exactly when the peer is
/// reachable under the view, and then it is the preferred one.
pub proof fn lemma_pick_prefers(addrs: PeerAddrs, view: RequestView)
    ensures
        first_usable(view_order(view), addrs) is Some <==> reachable(addrs, view),
        first_usable(view_order(view), addrs) matches Some(picked) ==> preferred_addr(
            addrs,
            view,
            picked.0,
            picked.1,
        ),
{
    reveal_with_fuel(first_usable, 4);
    let o = view_order(view);
    assert(o.drop_first()[0] == o[1]);
    if o.len() == 3 {
        assert(o.drop_first().drop_first()[0] == o[2]);
        assert(o.drop_first().drop_first().drop_first().len() == 0);
    } else {
        assert(o.drop_first().drop_first().len() == 0);
    }
}

/// The rows a requester with `view` can be given an address of.
pub open spec fn contactable(view: RequestView) -> spec_fn(PeerRow) -> bool {
    |r: PeerRow| reachable(r.addrs, view)
}

/// The peers to contact are, in order, exactly the stored peers the
/// requester can reach, one export each, with the peer's identifier and
/// name and its preferred address; so every reachable peer is contacted.
pub proof fn lemma_contacts_are_reachable_peers(rows: Seq<PeerRow>, view: RequestView)
    ensures
        ({
            let picked = picked_exports(rows, view);
            let reached = rows.filter(contactable(view));
            &&& picked.len() == reached.len()
            &&& forall|j: int|
                0 <= j < picked.len() ==> {
                    &&& (#[trigger] picked[j]).peer_id == reached[j].peer_id
                    &&& picked[j].name == reached[j].name
                    &&& preferred_addr(reached[j].addrs, view, picked[j].ty, picked[j].addr)
                }
            &&& forall|i: int|
                0 <= i < rows.len() && reachable(#[trigger] rows[i].addrs, view) ==> exists|j: int|
                    0 <= j < picked.len() && picked[j].peer_id == rows[i].peer_id
        }),
    decreases rows.len(),
{
    let picked = picked_exports(rows, view);
    let reached = rows.filter(contactable(view));
    if rows.len() == 0 {
        reveal(Seq::filter);
    } else {
        let front = rows.drop_last();
        lemma_contacts_are_reachable_peers(front, view);
        let last = rows.last();
        lemma_pick_prefers(last.addrs, view);
        let fp = picked_exports(front, view);
        let fr = front.filter(contactable(view));
        assert(contactable(view)(last) == reachable(last.addrs, view));
        reveal(Seq::filter);
        if reachable(last.addrs, view) {
            let pk = first_usable(view_order(view), last.addrs).unwrap();
            assert(picked == fp.push(
                PeerExport { peer_id: last.peer_id, name: last.name, ty: pk.0, addr: pk.1 },
            ));
            assert(reached == fr.push(last));
        } else {
            assert(picked == fp);
            assert(reached == fr);
        }
        assert(picked.len() == reached.len());
        assert forall|j: int| 0 <= j < fp.len() implies picked[j] == fp[j] && reached[j] == fr[j] by {}
        assert forall|i: int|
            0 <= i < rows.len() && reachable(#[trigger] rows[i].addrs, view) implies exists|j: int|
                0 <= j < picked.len() && picked[j].peer_id == rows[i].peer_id by {
            if i < rows.len() - 1 {
                assert(front[i] == rows[i]);
                let j = choose|j: int| 0 <= j < fp.len() && fp[j].peer_id == front[i].peer_id;
                assert(picked[j] == fp[j]);
            } else {
                assert(picked[fp.len() as int].peer_id == rows[i].peer_id);
            }
        }
    }
}

} // verus!

verus! {

// ---------------------------------------------------------------------------
// Validating `host:port` addresses
// ---------------------------------------------------------------------------

/// Why an address is not a valid `host:port`.
#[derive(Debug, Clone, Copy, PartialEq, Eq, Structural)]
pub enum HostPortError {
    /// There is no ':' in the address.
    MissingColon,
    /// Nothing precedes the last ':'.
    EmptyHost,
    /// What follows the last ':' is not a 32-bit unsigned number.
    BadPort,
    /// The port is 0 or above 65535.
    PortOutOfRange,
}

impl HostPortError {
    /// The message reported for this error.
    pub fn message(&self) -> (res: &'static str)
        ensures
            *self == HostPortError::MissingColon ==> res@ == "expected host:port"@,
            *self == HostPortError::EmptyHost ==> res@ == "empty host"@,
            *self == HostPortError::BadPort ==> res@ == "bad port"@,
            *self == HostPortError::PortOutOfRange ==> res@ == "port out of range"@,
    {
        match self {
            HostPortError::MissingColon => "expected host:port",
            HostPortError::EmptyHost => "empty host",
            HostPortError::BadPort => "bad port",
            HostPortError::PortOutOfRange => "port out of range",
        }
    }
}

/// Whether a byte is an ASCII decimal digit.
pub open spec fn is_digit(c: u8) -> bool {
    48 <= c <= 57
}

/// The value of a string of decimal digits.
pub open spec fn decimal_value(d: Seq<u8>) -> nat
    decreases d.len(),
{
    if d.len() == 0 {
        0
    } else {
        decimal_value(d.drop_last()) * 10 + (d.last() - 48) as nat
    }
}

/// The digits of a number's text: what follows an optional leading '+'.
pub open spec fn digits_part(b: Seq<u8>) -> Seq<u8> {
    if b.len() > 0 && b[0] == 43u8 {
        b.drop_first()
    } else {
        b
    }
}

/// Every byte is a decimal digit.
pub open spec fn all_digits(d: Seq<u8>) -> bool {
    forall|i: int| 0 <= i < d.len() ==> is_digit(#[trigger] d[i])
}

/// How a 32-bit unsigned number is read from text: an optional '+' and at
/// least one decimal digit, with a value that fits 32 bits.
pub open spec fn parse_u32_text(b: Seq<u8>) -> Option<u32> {
    let digits = digits_part(b);
    if digits.len() == 0 || !all_digits(digits) || decimal_value(digits) > u32::MAX {
        None
    } else {
        Some(decimal_value(digits) as u32)
    }
}

/// The outcome of checking an address in `host:port` form, split at its last ':'.
pub open spec fn hostport_result(b: Seq<u8>) -> Result<(), HostPortError> {
    if exists|i: int| 0 <= i < b.len() && b[i] == 58u8 {
        let i = choose|i: int|
            0 <= i < b.len() && b[i] == 58u8 && forall|j: int| i < j < b.len() ==> b[j] != 58u8;
        if i == 0 {
            Err(HostPortError::EmptyHost)
        } else {
            match parse_u32_text(b.subrange(i + 1, b.len() as int)) {
                None => Err(HostPortError::BadPort),
                Some(port) => if port == 0 || port > 65535 {
                    Err(HostPortError::PortOutOfRange)
                } else {
                    Ok(())
                },
            }
        }
    } else {
        Err(HostPortError::MissingColon)
    }
}

/// A longer string of digits is worth at least as much as its prefix.
proof fn lemma_decimal_prefix(d: Seq<u8>, k: int)
    requires
        0 <= k <= d.len(),
    ensures
        decimal_value(d) >= decimal_value(d.subrange(0, k)),
    decreases d.len(),
{
    if k == d.len() {
        assert(d.subrange(0, k) =~= d);
    } else {
        lemma_decimal_prefix(d.drop_last(), k);
        assert(d.drop_last().subrange(0, k) =~= d.subrange(0, k));
    }
}

/// Reads the 32-bit unsigned number written in `b[start..]`.
fn parse_u32_from(b: &[u8], start: usize) -> (res: Option<u32>)
    requires
        start <= b@.len(),
    ensures
        res == parse_u32_text(b@.subrange(start as int, b@.len() as int)),
{
    let n = b.len();
    let ghost text = b@.subrange(start as int, n as int);
    let mut i = start;
    if i < n && b[i] == 43u8 {
        i = i + 1;
    }
    let ghost digits = b@.subrange(i as int, n as int);
    proof {
        if start < n && b@[start as int] == 43u8 {
            assert(digits =~= text.drop_first());
        } else {
            assert(digits =~= text);
        }
    }
    if i == n {
        return None;
    }
    let d0 = i;
    let mut acc: u64 = 0;
    while i < n
        invariant
            d0 <= i <= n,
            start <= d0,
            n == b@.len(),
            digits == b@.subrange(d0 as int, n as int),
            text == b@.subrange(start as int, n as int),
            digits.len() > 0,
            digits == digits_part(text),
            forall|j: int| d0 <= j < i ==> is_digit(b@[j]),
            acc == decimal_value(b@.subrange(d0 as int, i as int)),
            acc <= u32::MAX,
        decreases n - i,
    {
        let c = b[i];
        if c < 48u8 || c > 57u8 {
            proof {
                assert(digits[i - d0] == c);
                assert(!is_digit(digits[i - d0]));
                assert(!all_digits(digits));
            }
            return None;
        }
        proof {
            let p = b@.subrange(d0 as int, i + 1);
            assert(p.drop_last() =~= b@.subrange(d0 as int, i as int));
        }
        acc = acc * 10 + (c - 48u8) as u64;
        if acc > 0xffff_ffffu64 {
            proof {
                lemma_decimal_prefix(digits, i + 1 - d0);
                assert(digits.subrange(0, i + 1 - d0) =~= b@.subrange(d0 as int, i + 1));
            }
            return None;
        }
        i = i + 1;
    }
    proof {
        assert(b@.subrange(d0 as int, n as int) =~= digits);
        assert forall|j: int| 0 <= j < digits.len() implies is_digit(#[trigger] digits[j]) by {
            assert(digits[j] == b@[d0 + j]);
        }
    }
    Some(acc as u32)
}

/// Checks that `s` is a `host:port` address: split at the last ':', the
/// host is not empty and the port is a number from 1 to 65535.
pub fn validate_hostport(s: &str) -> (res: Result<(), HostPortError>)
    ensures
        res == hostport_result(s.spec_bytes()),
{
    let b = s.as_bytes();
    let n = b.len();
    let mut k = n;
    while k > 0 && b[k - 1] != 58u8
        invariant
            k <= n,
            n == b@.len(),
            forall|j: int| k <= j < n ==> b@[j] != 58u8,
        decreases k,
    {
        k = k - 1;
    }
    if k == 0 {
        proof {
            assert(!(exists|i: int| 0 <= i < b@.len() && b@[i] == 58u8));
        }
        return Err(HostPortError::MissingColon);
    }
    let colon = k - 1;
    proof {
        let bb = b@;
        let c = choose|i: int|
            0 <= i < bb.len() && bb[i] == 58u8 && forall|j: int| i < j < bb.len() ==> bb[j] != 58u8;
        assert(0 <= colon < bb.len() && bb[colon as int] == 58u8 && forall|j: int|
            colon < j < bb.len() ==> bb[j] != 58u8);
        assert(c == colon as int) by {
            if c < colon {
                assert(bb[colon as int] != 58u8);
            } else if c > colon {
                assert(bb[c] != 58u8);
            }
        }
    }
    if colon == 0 {
        return Err(HostPortError::EmptyHost);
    }
    match parse_u32_from(b, colon + 1) {
        None => Err(HostPortError::BadPort),
        Some(port) => {
            if port == 0 || port > 65535 {
                Err(HostPortError::PortOutOfRange)
            } else {
                Ok(())
            }
        },
    }
}

} // verus!

verus! {

// ---------------------------------------------------------------------------
// Changes to the store
// ---------------------------------------------------------------------------

/// One change to the peer store.
pub enum PeerOp {
    /// Insert the peer, or update its name when `name` is not empty.
    UpsertPeer { peer_id: String, name: String },
    /// Insert the peer with an empty name unless it is already stored.
    EnsurePeer { peer_id: String },
    /// Store `addr` as the peer's address of kind `ty`, replacing any other.
    SetAddr { peer_id: String, ty: PeerType, addr: String },
    /// Delete the peer and its addresses.
    RemovePeer { peer_id: String },
    /// Delete every peer named `name`, with their addresses.
    RemovePeersByName { name: String },
    /// Delete the peer's address of kind `ty`.
    ClearAddr { peer_id: String, ty: PeerType },
}

/// Changes to run in order, then the outcome to report. A store error
/// while running them stops the run and is reported instead.
pub struct PeerPlan {
    pub ops: Vec<PeerOp>,
    pub outcome: Result<(), HostPortError>,
}

/// Inserts a peer, or renames it when `name` is not empty.
pub fn upsert_peer(peer_id: &str, name: &str) -> (res: PeerOp)
    ensures
        res matches PeerOp::UpsertPeer { peer_id: p, name: nm } && p@ == peer_id@ && nm@ == name@,
{
    PeerOp::UpsertPeer { peer_id: peer_id.to_owned(), name: name.to_owned() }
}

/// Stores `addr` as the peer's address of kind `ty` (creating the peer when
/// needed), after checking that it is a valid `host:port`.
pub fn set_addr(peer_id: &str, ty: PeerType, addr: &str) -> (res: Result<Vec<PeerOp>, HostPortError>)
    ensures
        res is Err <==> hostport_result(addr.spec_bytes()) is Err,
        res matches Err(e) ==> hostport_result(addr.spec_bytes()) == Err::<(), HostPortError>(e),
        res matches Ok(ops) ==> ops@.len() == 2 && (ops@[0] matches PeerOp::EnsurePeer { peer_id: p }
            && p@ == peer_id@) && (ops@[1] matches PeerOp::SetAddr { peer_id: p, ty: t, addr: a }
            && p@ == peer_id@ && t == ty && a@ == addr@),
{
    validate_hostport(addr)?;
    let mut ops: Vec<PeerOp> = Vec::new();
    ops.push(PeerOp::EnsurePeer { peer_id: peer_id.to_owned() });
    ops.push(PeerOp::SetAddr { peer_id: peer_id.to_owned(), ty, addr: addr.to_owned() });
    Ok(ops)
}

/// Deletes a peer and its addresses.
pub fn remove_peer_by_id(peer_id: &str) -> (res: PeerOp)
    ensures
        res matches PeerOp::RemovePeer { peer_id: p } && p@ == peer_id@,
{
    PeerOp::RemovePeer { peer_id: peer_id.to_owned() }
}

/// Deletes the peer's address of kind `ty`.
pub fn clear_addr(peer_id: &str, ty: PeerType) -> (res: PeerOp)
    ensures
        res matches PeerOp::ClearAddr { peer_id: p, ty: t } && p@ == peer_id@ && t == ty,
{
    PeerOp::ClearAddr { peer_id: peer_id.to_owned(), ty }
}

/// The two changes that merge the exported peer `p`, at `ops[2 * j]` and
/// `ops[2 * j + 1]`: upsert it with its name, then store its address.
pub open spec fn merges_peer(ops: Seq<PeerOp>, j: int, p: PeerExport) -> bool {
    &&& ops[2 * j] matches PeerOp::UpsertPeer { peer_id: id, name: nm } && id@ == p.peer_id@ && nm@
        == p.name@
    &&& ops[2 * j + 1] matches PeerOp::SetAddr { peer_id: id, ty: t, addr: a } && id@ == p.peer_id@
        && t == p.ty && a@ == p.addr@
}

/// Appending two changes keeps the earlier pairs in place.
proof fn lemma_merge_keeps_pairs(before: Seq<PeerOp>, after: Seq<PeerOp>, peers: Seq<PeerExport>, i: int)
    requires
        0 <= i <= peers.len(),
        before.len() == 2 * i,
        after.len() == 2 * i + 2,
        after.subrange(0, 2 * i) == before,
        forall|j: int| 0 <= j < i ==> merges_peer(before, j, #[trigger] peers[j]),
    ensures
        forall|j: int| 0 <= j < i ==> merges_peer(after, j, #[trigger] peers[j]),
{
    assert forall|j: int| 0 <= j < i implies merges_peer(after, j, #[trigger] peers[j]) by {
        assert(merges_peer(before, j, peers[j]));
        assert(after[2 * j] == after.subrange(0, 2 * i)[2 * j]);
        assert(after[2 * j + 1] == after.subrange(0, 2 * i)[2 * j + 1]);
    }
}

/// Merges an exported peer list into the store, all or nothing: when some
/// address is not a valid `host:port` the first such error is returned and
/// nothing changes; otherwise each peer is upserted and given its address.
#[verifier::rlimit(40)]
pub fn merge_peer_list(list: &PeerList) -> (res: Result<Vec<PeerOp>, HostPortError>)
    ensures
        res is Err <==> exists|i: int|
            0 <= i < list.peers@.len() && hostport_result(
                encode_utf8(#[trigger] list.peers@[i].addr@),
            ) is Err,
        res matches Err(e) ==> exists|i: int|
            0 <= i < list.peers@.len() && hostport_result(
                encode_utf8(#[trigger] list.peers@[i].addr@),
            ) == Err::<(), HostPortError>(e) && forall|j: int|
                0 <= j < i ==> hostport_result(encode_utf8(list.peers@[j].addr@)) is Ok,
        res matches Ok(ops) ==> ops@.len() == 2 * list.peers@.len() && forall|i: int|
            0 <= i < list.peers@.len() ==> merges_peer(ops@, i, #[trigger] list.peers@[i]),
{
    let n = list.peers.len();
    let mut ops: Vec<PeerOp> = Vec::new();
    let mut i: usize = 0;
    while i < n
        invariant
            n == list.peers@.len(),
            i <= n,
            ops@.len() == 2 * i,
            forall|j: int| 0 <= j < i ==> hostport_result(encode_utf8(list.peers@[j].addr@)) is Ok,
            forall|j: int| 0 <= j < i ==> merges_peer(ops@, j, #[trigger] list.peers@[j]),
        decreases n - i,
    {
        let p = &list.peers[i];
        match validate_hostport(p.addr.as_str()) {
            Err(e) => {
                return Err(e);
            },
            Ok(()) => {},
        }
        let ghost before = ops@;
        ops.push(PeerOp::UpsertPeer { peer_id: p.peer_id.clone(), name: p.name.clone() });
        ops.push(PeerOp::SetAddr { peer_id: p.peer_id.clone(), ty: p.ty, addr: p.addr.clone() });
        proof {
            assert(ops@.subrange(0, 2 * i) =~= before);
            lemma_merge_keeps_pairs(before, ops@, list.peers@, i as int);
            assert(merges_peer(ops@, i as int, list.peers@[i as int]));
        }
        i = i + 1;
    }
    Ok(ops)
}

/// The arguments of the command that adds a peer.
pub struct AddPeerArgs {
    /// Path of the peer database.
    pub peer_db: String,
    pub name: String,
    /// `host:port`.
    pub host: String,
    pub ty: PeerType,
}

/// The arguments of the command that removes peers by name.
pub struct RemovePeerArgs {
    /// Path of the peer database.
    pub peer_db: String,
    pub name: String,
}

/// The changes and outcome of adding the peer described by `args`: the peer
/// (its identifier derived from its address) is upserted with its name;
/// when the address is a valid `host:port` it is then ensured and given the
/// address, otherwise the upsert stands and the error is the outcome.
pub open spec fn is_add_peer_plan(args: AddPeerArgs, plan: PeerPlan) -> bool {
    let id = peer_id_of(args.host@);
    &&& plan.ops@.len() >= 1
    &&& plan.ops@[0] matches PeerOp::UpsertPeer { peer_id: p, name: nm } && p@ == id && nm@
        == args.name@
    &&& plan.outcome == hostport_result(encode_utf8(args.host@))
    &&& plan.outcome is Err ==> plan.ops@.len() == 1
    &&& plan.outcome is Ok ==> plan.ops@.len() == 3 && (plan.ops@[1] matches PeerOp::EnsurePeer {
        peer_id: p,
    } && p@ == id) && (plan.ops@[2] matches PeerOp::SetAddr { peer_id: p, ty: t, addr: a }
        && p@ == id && t == args.ty && a@ == args.host@)
}

/// Adds a peer: its identifier is derived from its address; it is upserted
/// with its name, then given the address, which must be a valid `host:port`
/// (when it is not, the upsert has already been made and the error is
/// reported).
pub fn add_peer(args: &AddPeerArgs) -> (res: PeerPlan)
    ensures
        is_add_peer_plan(*args, res),
{
    let peer_id = peer_id_from_addr(args.host.as_str());
    let mut ops: Vec<PeerOp> = Vec::new();
    ops.push(upsert_peer(peer_id.as_str(), args.name.as_str()));
    match set_addr(peer_id.as_str(), args.ty, args.host.as_str()) {
        Ok(more) => {
            let mut more = more;
            ops.append(&mut more);
            PeerPlan { ops, outcome: Ok(()) }
        },
        Err(e) => PeerPlan { ops, outcome: Err(e) },
    }
}

/// Removes every peer named as in `args`.
pub fn remove_peer(args: &RemovePeerArgs) -> (res: PeerOp)
    ensures
        res matches PeerOp::RemovePeersByName { name: nm } && nm@ == args.name@,
{
    PeerOp::RemovePeersByName { name: args.name.clone() }
}

// ---------------------------------------------------------------------------
// What the changes do to the store
// ---------------------------------------------------------------------------

/// What the peer store holds: each stored peer's name by identifier, and
/// each stored address by the identifier of its peer and its kind.
pub struct StoreModel {
    pub peers: Map<Seq<char>, Seq<char>>,
    pub addrs: Map<(Seq<char>, PeerType), Seq<char>>,
}

impl StoreModel {
    /// Every stored address belongs to a stored peer (the store's foreign key).
    pub open spec fn wf(self) -> bool {
        forall|k: (Seq<char>, PeerType)| #[trigger]
            self.addrs.dom().contains(k) ==> self.peers.dom().contains(k.0)
    }

    /// The peer `id` is stored, with `addr` as its address of kind `ty`.
    pub open spec fn holds_addr(self, id: Seq<char>, ty: PeerType, addr: Seq<char>) -> bool {
        &&& self.peers.dom().contains(id)
        &&& self.addrs.dom().contains((id, ty))
        &&& self.addrs[(id, ty)] == addr
    }

    /// `row` is what reading the peer it names gives: its stored name, and
    /// for each kind the stored address, or none.
    pub open spec fn reads_as(self, row: PeerRow) -> bool {
        let id = row.peer_id@;
        &&& self.peers.dom().contains(id)
        &&& self.peers[id] == row.name@
        &&& forall|ty: PeerType|
            match #[trigger] row.addrs.get(ty) {
                Some(a) => self.addrs.dom().contains((id, ty)) && self.addrs[(id, ty)] == a@,
                None => !self.addrs.dom().contains((id, ty)),
            }
    }
}

/// The addresses of `addrs` whose peer is in `peers`.
pub open spec fn addrs_of_peers(
    addrs: Map<(Seq<char>, PeerType), Seq<char>>,
    peers: Map<Seq<char>, Seq<char>>,
) -> Map<(Seq<char>, PeerType), Seq<char>> {
    Map::new(
        |k: (Seq<char>, PeerType)| addrs.dom().contains(k) && peers.dom().contains(k.0),
        |k: (Seq<char>, PeerType)| addrs[k],
    )
}

/// The store after one change, or `None` when the store refuses it (an
/// address for a peer that is not stored breaks the foreign key).
pub open spec fn apply_op(m: StoreModel, op: PeerOp) -> Option<StoreModel> {
    match op {
        PeerOp::UpsertPeer { peer_id, name } => {
            let id = peer_id@;
            let kept = m.peers.dom().contains(id) && name@.len() == 0;
            Some(
                StoreModel {
                    peers: m.peers.insert(id, if kept { m.peers[id] } else { name@ }),
                    addrs: m.addrs,
                },
            )
        },
        PeerOp::EnsurePeer { peer_id } => {
            let id = peer_id@;
            if m.peers.dom().contains(id) {
                Some(m)
            } else {
                Some(StoreModel { peers: m.peers.insert(id, Seq::empty()), addrs: m.addrs })
            }
        },
        PeerOp::SetAddr { peer_id, ty, addr } => {
            if m.peers.dom().contains(peer_id@) {
                Some(StoreModel { peers: m.peers, addrs: m.addrs.insert((peer_id@, ty), addr@) })
            } else {
                None
            }
        },
        PeerOp::RemovePeer { peer_id } => {
            let peers = m.peers.remove(peer_id@);
            Some(StoreModel { peers, addrs: addrs_of_peers(m.addrs, peers) })
        },
        PeerOp::RemovePeersByName { name } => {
            let peers = Map::new(
                |id: Seq<char>| m.peers.dom().contains(id) && m.peers[id] != name@,
                |id: Seq<char>| m.peers[id],
            );
            Some(StoreModel { peers, addrs: addrs_of_peers(m.addrs, peers) })
        },
        PeerOp::ClearAddr { peer_id, ty } => Some(
            StoreModel { peers: m.peers, addrs: m.addrs.remove((peer_id@, ty)) },
        ),
    }
}

/// The store after running `ops` in order, or `None` when one is refused
/// (the run stops there).
pub open spec fn apply_ops(m: StoreModel, ops: Seq<PeerOp>) -> Option<StoreModel>
    decreases ops.len(),
{
    if ops.len() == 0 {
        Some(m)
    } else {
        match apply_op(m, ops[0]) {
            None => None,
            Some(next) => apply_ops(next, ops.drop_first()),
        }
    }
}

/// Every change that the store accepts keeps each stored address tied to a
/// stored peer.
pub proof fn lemma_apply_keeps_wf(m: StoreModel, op: PeerOp)
    requires
        m.wf(),
    ensures
        apply_op(m, op) matches Some(next) ==> next.wf(),
{
}

/// Removing the peers of a name leaves no peer of that name, and none of
/// their addresses; every other peer stays with its addresses.
pub proof fn lemma_removed_by_name(m: StoreModel, op: PeerOp)
    requires
        op is RemovePeersByName,
    ensures
        apply_op(m, op) matches Some(next) && (op matches PeerOp::RemovePeersByName { name } ==> {
            &&& forall|id: Seq<char>| #[trigger]
                next.peers.dom().contains(id) ==> next.peers[id] != name@
            &&& forall|k: (Seq<char>, PeerType)| #[trigger]
                next.addrs.dom().contains(k) ==> next.peers.dom().contains(k.0)
            &&& forall|id: Seq<char>|
                m.peers.dom().contains(id) && m.peers[id] != name@ ==> #[trigger] next.peers.dom().contains(id)
            &&& forall|k: (Seq<char>, PeerType)|
                #![trigger next.addrs.dom().contains(k)]
                m.addrs.dom().contains(k) && next.peers.dom().contains(k.0) ==> next.addrs.dom().contains(k)
                    && next.addrs[k] == m.addrs[k]
        }),
{
}

/// Running the changes of a successful add: whatever the store held, the
/// peer is then stored with the address, and with the name when it is not
/// empty.
proof fn lemma_add_ops_store(
    m: StoreModel,
    ops: Seq<PeerOp>,
    id: Seq<char>,
    name: Seq<char>,
    ty: PeerType,
    addr: Seq<char>,
)
    requires
        ops.len() == 3,
        ops[0] matches PeerOp::UpsertPeer { peer_id: p, name: nm } && p@ == id && nm@ == name,
        ops[1] matches PeerOp::EnsurePeer { peer_id: p } && p@ == id,
        ops[2] matches PeerOp::SetAddr { peer_id: p, ty: t, addr: a } && p@ == id && t == ty && a@
            == addr,
    ensures
        apply_ops(m, ops) matches Some(next) && next.holds_addr(id, ty, addr) && (name.len() > 0
            ==> next.peers[id] == name),
{
    reveal_with_fuel(apply_ops, 4);
    let m1 = apply_op(m, ops[0]).unwrap();
    let m2 = apply_op(m1, ops[1]).unwrap();
    assert(m1.peers.dom().contains(id));
    assert(m2.peers.dom().contains(id));
    assert(ops.drop_first().drop_first().drop_first().len() == 0);
    assert(ops.drop_first()[0] == ops[1]);
    assert(ops.drop_first().drop_first()[0] == ops[2]);
}

/// A usable address of a kind that `order` lists is among the addresses
/// offered in that order.
proof fn lemma_usable_is_offered(order: Seq<PeerType>, addrs: PeerAddrs, ty: PeerType)
    requires
        order.contains(ty),
        addrs.usable(ty),
    ensures
        exists|i: int|
            0 <= i < usable_in_order(order, addrs).len() && #[trigger] usable_in_order(order, addrs)[i]
                == (ty, addrs.get(ty).unwrap()),
    decreases order.len(),
{
    let offered = usable_in_order(order, addrs);
    if order[0] == ty {
        assert(offered[0] == (ty, addrs.get(ty).unwrap()));
    } else {
        let j = choose|j: int| 0 <= j < order.len() && order[j] == ty;
        assert(order.drop_first()[j - 1] == ty);
        lemma_usable_is_offered(order.drop_first(), addrs, ty);
        let rest = usable_in_order(order.drop_first(), addrs);
        let i = choose|i: int| 0 <= i < rest.len() && #[trigger] rest[i] == (ty, addrs.get(ty).unwrap());
        if addrs.usable(order[0]) {
            assert(offered[i + 1] == rest[i]);
        } else {
            assert(offered[i] == rest[i]);
        }
    }
}

/// The exports of the rows before `k` come first in the exports of all
/// rows, then those of row `k`.
proof fn lemma_exports_include_row(rows: Seq<PeerRow>, k: int, view: RequestView, i: int)
    requires
        0 <= k < rows.len(),
        0 <= i < row_exports(rows[k], view).len(),
    ensures
        exists|j: int|
            0 <= j < exports_of(rows, view).len() && #[trigger] exports_of(rows, view)[j]
                == row_exports(rows[k], view)[i],
    decreases rows.len(),
{
    let all = exports_of(rows, view);
    let front = exports_of(rows.drop_last(), view);
    if k == rows.len() - 1 {
        assert(all[front.len() + i] == row_exports(rows[k], view)[i]);
    } else {
        assert(rows.drop_last()[k] == rows[k]);
        lemma_exports_include_row(rows.drop_last(), k, view, i);
        let j = choose|j: int| 0 <= j < front.len() && #[trigger] front[j] == row_exports(rows[k], view)[i];
        assert(all[j] == front[j]);
    }
}

/// A peer read back from the store with an address of kind `ty` shows that
/// address in the peer list built from the rows read, for every view that
/// offers that kind.
pub proof fn lemma_stored_addr_is_listed(
    m: StoreModel,
    rows: Seq<PeerRow>,
    k: int,
    ty: PeerType,
    addr: Seq<char>,
    view: RequestView,
)
    requires
        0 <= k < rows.len(),
        m.reads_as(rows[k]),
        m.holds_addr(rows[k].peer_id@, ty, addr),
        addr.len() > 0,
        view_order(view).contains(ty),
    ensures
        exists|j: int|
            0 <= j < exports_of(rows, view).len() && (#[trigger] exports_of(rows, view)[j]).peer_id
                == rows[k].peer_id && exports_of(rows, view)[j].ty == ty && exports_of(
                rows,
                view,
            )[j].addr@ == addr,
{
    let row = rows[k];
    assert(row.addrs.get(ty) is Some);
    assert(row.addrs.usable(ty));
    lemma_usable_is_offered(view_order(view), row.addrs, ty);
    let offered = usable_in_order(view_order(view), row.addrs);
    let i = choose|i: int| 0 <= i < offered.len() && #[trigger] offered[i] == (ty, row.addrs.get(ty).unwrap());
    lemma_exports_include_row(rows, k, view, i);
}

/// A peer added with a valid address, once the changes have run on the
/// store, is listed with that address: in the peer list built from rows
/// read from the store, its row shows the address, for every view that
/// offers its kind.
pub proof fn lemma_added_peer_is_listed(
    args: AddPeerArgs,
    plan: PeerPlan,
    m: StoreModel,
    rows: Seq<PeerRow>,
    k: int,
    view: RequestView,
)
    requires
        is_add_peer_plan(args, plan),
        plan.outcome is Ok,
        0 <= k < rows.len(),
        rows[k].peer_id@ == peer_id_of(args.host@),
        apply_ops(m, plan.ops@) matches Some(next) && next.reads_as(rows[k]),
        view_order(view).contains(args.ty),
    ensures
        exists|j: int|
            0 <= j < exports_of(rows, view).len() && (#[trigger] exports_of(rows, view)[j]).peer_id
                == rows[k].peer_id && exports_of(rows, view)[j].ty == args.ty && exports_of(
                rows,
                view,
            )[j].addr@ == args.host@,
{
    let id = peer_id_of(args.host@);
    lemma_add_ops_store(m, plan.ops@, id, args.name@, args.ty, args.host@);
    let next = apply_ops(m, plan.ops@).unwrap();
    if args.host@.len() == 0 {
        assert(encode_utf8(args.host@) =~= Seq::<u8>::empty());
    }
    lemma_stored_addr_is_listed(next, rows, k, args.ty, args.host@, view);
}

/// Running `a` then `b` is running `a + b`.
proof fn lemma_apply_ops_append(m: StoreModel, a: Seq<PeerOp>, b: Seq<PeerOp>)
    ensures
        apply_ops(m, a + b) == (match apply_ops(m, a) {
            None => None,
            Some(mid) => apply_ops(mid, b),
        }),
    decreases a.len(),
{
    if a.len() > 0 {
        assert((a + b).drop_first() =~= a.drop_first() + b);
        assert((a + b)[0] == a[0]);
        match apply_op(m, a[0]) {
            None => {},
            Some(next) => lemma_apply_ops_append(next, a.drop_first(), b),
        }
    } else {
        assert(a + b =~= b);
    }
}

/// No later entry of `list`, before `end`, stores an address of the same
/// peer and kind as entry `i`.
pub open spec fn last_for_key(list: Seq<PeerExport>, i: int, end: int) -> bool {
    forall|j: int|
        i < j < end ==> !(#[trigger] list[j].peer_id@ == list[i].peer_id@ && list[j].ty == list[i].ty)
}

/// Every later entry of `list`, before `end`, for the same peer as entry
/// `i` leaves its name alone: it has the same name or none.
pub open spec fn name_stays(list: Seq<PeerExport>, i: int, end: int) -> bool {
    forall|j: int|
        i < j < end && #[trigger] list[j].peer_id@ == list[i].peer_id@ ==> list[j].name@ == list[i].name@
            || list[j].name@.len() == 0
}

/// What the store holds after the changes that merge the first `k` entries
/// of `list`: every merged peer; the address of every entry that no later
/// merged entry replaces; the name of every entry with a name that no later
/// merged entry changes.
proof fn lemma_merge_prefix(m: StoreModel, ops: Seq<PeerOp>, list: Seq<PeerExport>, k: int)
    requires
        0 <= k <= list.len(),
        ops.len() == 2 * list.len(),
        forall|i: int| 0 <= i < list.len() ==> merges_peer(ops, i, #[trigger] list[i]),
    ensures
        apply_ops(m, ops.subrange(0, 2 * k)) matches Some(next) && {
            &&& forall|i: int| 0 <= i < k ==> next.peers.dom().contains(#[trigger] list[i].peer_id@)
            &&& forall|i: int|
                0 <= i < k && last_for_key(list, i, k) ==> next.holds_addr(
                    #[trigger] list[i].peer_id@,
                    list[i].ty,
                    list[i].addr@,
                )
            &&& forall|i: int|
                0 <= i < k && list[i].name@.len() > 0 && name_stays(list, i, k) ==> next.peers[
                    #[trigger] list[i].peer_id@] == list[i].name@
        },
    decreases k,
{
    if k == 0 {
        assert(ops.subrange(0, 0) =~= Seq::<PeerOp>::empty());
    } else {
        let k1 = k - 1;
        lemma_merge_prefix(m, ops, list, k1);
        let mid = apply_ops(m, ops.subrange(0, 2 * k1)).unwrap();
        let step = ops.subrange(2 * k1, 2 * k);
        assert(ops.subrange(0, 2 * k) =~= ops.subrange(0, 2 * k1) + step);
        lemma_apply_ops_append(m, ops.subrange(0, 2 * k1), step);
        assert(merges_peer(ops, k1, list[k1]));
        assert(step[0] == ops[2 * k1]);
        assert(step[1] == ops[2 * k1 + 1]);
        reveal_with_fuel(apply_ops, 3);
        assert(step.drop_first()[0] == step[1]);
        assert(step.drop_first().drop_first().len() == 0);
        let p = list[k1];
        let m1 = apply_op(mid, step[0]).unwrap();
        let next = apply_op(m1, step[1]).unwrap();
        assert(apply_ops(m, ops.subrange(0, 2 * k)) == Some(next));
        assert forall|i: int|
            0 <= i < k && last_for_key(list, i, k) implies next.holds_addr(
            #[trigger] list[i].peer_id@,
            list[i].ty,
            list[i].addr@,
        ) by {
            if i < k1 {
                assert(last_for_key(list, i, k1));
                assert(!(list[k1].peer_id@ == list[i].peer_id@ && list[k1].ty == list[i].ty));
            }
        }
        assert forall|i: int|
            0 <= i < k && list[i].name@.len() > 0 && name_stays(list, i, k) implies next.peers[
            #[trigger] list[i].peer_id@] == list[i].name@ by {
            if i < k1 {
                assert(name_stays(list, i, k1));
                if list[k1].peer_id@ == list[i].peer_id@ {
                    assert(list[k1].name@ == list[i].name@ || list[k1].name@.len() == 0);
                }
            }
        }
        assert forall|i: int| 0 <= i < k implies next.peers.dom().contains(
            #[trigger] list[i].peer_id@,
        ) by {}
    }
}

/// The kinds of the addresses offered in `order` are kinds `order` lists,
/// each with the stored address of its kind, and no kind comes twice when
/// `order` lists none twice.
proof fn lemma_offered_kinds(order: Seq<PeerType>, addrs: PeerAddrs)
    ensures
        forall|i: int|
            0 <= i < usable_in_order(order, addrs).len() ==> order.contains(
                (#[trigger] usable_in_order(order, addrs)[i]).0,
            ),
        order.no_duplicates() ==> forall|i: int, j: int|
            0 <= i < j < usable_in_order(order, addrs).len() ==> (#[trigger] usable_in_order(
                order,
                addrs,
            )[i]).0 != (#[trigger] usable_in_order(order, addrs)[j]).0,
    decreases order.len(),
{
    if order.len() > 0 {
        let rest_order = order.drop_first();
        lemma_offered_kinds(rest_order, addrs);
        let u = usable_in_order(order, addrs);
        let rest = usable_in_order(rest_order, addrs);
        let d: int = if addrs.usable(order[0]) { 1 } else { 0 };
        assert forall|i: int| d <= i < u.len() implies u[i] == rest[i - d] by {}
        assert forall|i: int| 0 <= i < u.len() implies order.contains((#[trigger] u[i]).0) by {
            if i >= d {
                assert(rest_order.contains(rest[i - d].0));
                let t = choose|t: int| 0 <= t < rest_order.len() && rest_order[t] == rest[i - d].0;
                assert(order[t + 1] == rest_order[t]);
            } else {
                assert(order[0] == u[i].0);
            }
        }
        if order.no_duplicates() {
            assert(rest_order.no_duplicates()) by {
                assert forall|a: int, b: int|
                    0 <= a < rest_order.len() && 0 <= b < rest_order.len() && a != b implies rest_order[a]
                    != rest_order[b] by {
                    assert(order[a + 1] == rest_order[a]);
                    assert(order[b + 1] == rest_order[b]);
                }
            }
            assert forall|i: int, j: int| 0 <= i < j < u.len() implies (#[trigger] u[i]).0 != (
            #[trigger] u[j]).0 by {
                if i >= d {
                    assert(rest[i - d].0 != rest[j - d].0);
                } else {
                    assert(rest_order.contains(rest[j - d].0));
                    let t = choose|t: int| 0 <= t < rest_order.len() && rest_order[t] == rest[j - d].0;
                    assert(order[t + 1] == rest_order[t]);
                    assert(u[i].0 == order[0]);
                }
            }
        }
    }
}

/// No two stored peers share an identifier.
pub open spec fn distinct_ids(rows: Seq<PeerRow>) -> bool {
    forall|a: int, b: int|
        0 <= a < rows.len() && 0 <= b < rows.len() && a != b ==> #[trigger] rows[a].peer_id@
            != #[trigger] rows[b].peer_id@
}

/// Each export of `rows` comes from one of the rows, with its identifier
/// and name; no two share a peer and a kind; two of one peer share a name.
proof fn lemma_exports_shape(rows: Seq<PeerRow>, view: RequestView)
    requires
        distinct_ids(rows),
    ensures
        ({
            let list = exports_of(rows, view);
            &&& forall|i: int|
                0 <= i < list.len() ==> exists|r: int|
                    0 <= r < rows.len() && (#[trigger] list[i]).peer_id@ == rows[r].peer_id@
                        && list[i].name@ == rows[r].name@
            &&& forall|i: int, j: int|
                0 <= i < j < list.len() && (#[trigger] list[i]).peer_id@ == (#[trigger] list[j]).peer_id@
                    ==> list[i].ty != list[j].ty && list[i].name@ == list[j].name@
        }),
    decreases rows.len(),
{
    if rows.len() > 0 {
        let front_rows = rows.drop_last();
        assert(distinct_ids(front_rows)) by {
            assert forall|a: int, b: int|
                0 <= a < front_rows.len() && 0 <= b < front_rows.len() && a != b implies #[trigger] front_rows[a].peer_id@
                != #[trigger] front_rows[b].peer_id@ by {
                assert(front_rows[a] == rows[a]);
                assert(front_rows[b] == rows[b]);
            }
        }
        lemma_exports_shape(front_rows, view);
        let last = rows.last();
        let front = exports_of(front_rows, view);
        let tail = row_exports(last, view);
        let list = exports_of(rows, view);
        let order = view_order(view);
        lemma_offered_kinds(order, last.addrs);
        assert(order.no_duplicates());
        let n = front.len();
        assert forall|i: int| n <= i < list.len() implies list[i].peer_id@ == last.peer_id@
            && list[i].name@ == last.name@ && list[i] == tail[i - n] by {}
        assert forall|i: int| 0 <= i < n implies list[i] == front[i] by {}
        assert forall|i: int|
            0 <= i < list.len() implies exists|r: int|
                0 <= r < rows.len() && (#[trigger] list[i]).peer_id@ == rows[r].peer_id@
                    && list[i].name@ == rows[r].name@ by {
            if i < n {
                let r = choose|r: int|
                    0 <= r < front_rows.len() && front[i].peer_id@ == front_rows[r].peer_id@
                        && front[i].name@ == front_rows[r].name@;
                assert(front_rows[r] == rows[r]);
            } else {
                assert(list[i].peer_id@ == rows[rows.len() - 1].peer_id@);
            }
        }
        assert forall|i: int, j: int|
            0 <= i < j < list.len() && (#[trigger] list[i]).peer_id@ == (#[trigger] list[j]).peer_id@
                implies list[i].ty != list[j].ty && list[i].name@ == list[j].name@ by {
            if j < n {
                assert(front[i].peer_id@ == front[j].peer_id@);
            } else if i < n {
                let r = choose|r: int|
                    0 <= r < front_rows.len() && front[i].peer_id@ == front_rows[r].peer_id@
                        && front[i].name@ == front_rows[r].name@;
                assert(front_rows[r] == rows[r]);
                assert(rows[r].peer_id@ != rows[rows.len() - 1].peer_id@);
            } else {
                let u = usable_in_order(order, last.addrs);
                assert(tail[i - n].ty == u[i - n].0);
                assert(tail[j - n].ty == u[j - n].0);
            }
        }
    }
}

/// A peer list exported from a store and merged into another: once the
/// changes of the merge have run, whatever the second store held, it holds
/// every exported peer with its exported address, and with its exported
/// name when that is not empty. The exported rows come from a store, where
/// no two peers share an identifier.
pub proof fn lemma_export_then_merge(
    rows: Seq<PeerRow>,
    view: RequestView,
    ops: Seq<PeerOp>,
    m: StoreModel,
)
    requires
        distinct_ids(rows),
        ops.len() == 2 * exports_of(rows, view).len(),
        forall|i: int|
            0 <= i < exports_of(rows, view).len() ==> merges_peer(ops, i, #[trigger] exports_of(rows, view)[i]),
    ensures
        apply_ops(m, ops) matches Some(next) && forall|i: int|
            0 <= i < exports_of(rows, view).len() ==> {
                let e = #[trigger] exports_of(rows, view)[i];
                &&& next.holds_addr(e.peer_id@, e.ty, e.addr@)
                &&& e.name@.len() > 0 ==> next.peers[e.peer_id@] == e.name@
            },
{
    let list = exports_of(rows, view);
    let k = list.len() as int;
    lemma_exports_shape(rows, view);
    lemma_merge_prefix(m, ops, list, k);
    assert(ops.subrange(0, 2 * k) =~= ops);
    assert forall|i: int| 0 <= i < k implies last_for_key(list, i, k) && name_stays(list, i, k) by {
        assert forall|j: int| i < j < k implies !(#[trigger] list[j].peer_id@ == list[i].peer_id@
            && list[j].ty == list[i].ty) by {}
    }
}

// ---------------------------------------------------------------------------
// Peer identifiers
// ---------------------------------------------------------------------------

/// A character with the Unicode property White_Space, which `str::trim`
/// removes.
pub open spec fn is_white_space(c: char) -> bool {
    let v = c as u32;
    ||| 0x09 <= v <= 0x0d
    ||| v == 0x20
    ||| v == 0x85
    ||| v == 0xa0
    ||| v == 0x1680
    ||| 0x2000 <= v <= 0x200a
    ||| v == 0x2028
    ||| v == 0x2029
    ||| v == 0x202f
    ||| v == 0x205f
    ||| v == 0x3000
}

/// `s` without its leading white space.
pub open spec fn trimmed_start(s: Seq<char>) -> Seq<char>
    decreases s.len(),
{
    if s.len() > 0 && is_white_space(s[0]) {
        trimmed_start(s.drop_first())
    } else {
        s
    }
}

/// `s` without its trailing white space.
pub open spec fn trimmed_end(s: Seq<char>) -> Seq<char>
    decreases s.len(),
{
    if s.len() > 0 && is_white_space(s.last()) {
        trimmed_end(s.drop_last())
    } else {
        s
    }
}

/// `s` without leading and trailing white space.
pub open spec fn trimmed(s: Seq<char>) -> Seq<char> {
    trimmed_end(trimmed_start(s))
}

/// A name for the text `str::to_lowercase` makes of `s`: its Unicode
/// lowercase mapping.
pub uninterp spec fn lowercased(s: Seq<char>) -> Seq<char>;

/// A name for the 32-byte BLAKE3 digest of `data` (`blake3::hash`).
pub uninterp spec fn blake3_digest(data: Seq<u8>) -> Seq<u8>;

/// Calls `str::trim`, which removes the leading and trailing characters
/// with the Unicode property White_Space.
#[verifier::external_body]
fn str_trim(s: &str) -> (res: &str)
    ensures
        res@ == trimmed(s@),
{
    s.trim()
}

/// Calls `str::to_lowercase`; the result is named, nothing more is stated.
#[verifier::external_body]
fn str_to_lowercase(s: &str) -> (res: String)
    ensures
        res@ == lowercased(s@),
{
    s.to_lowercase()
}

/// Calls `blake3::hash` and copies out the digest bytes (`Hash::as_bytes`);
/// the result is the named digest of the input.
#[verifier::external_body]
fn blake3_hash(data: &[u8]) -> (res: [u8; 32])
    ensures
        res@ == blake3_digest(data@),
{
    *blake3::hash(data).as_bytes()
}

/// Calls `String::push`, which appends one character.
#[verifier::external_body]
fn string_push(s: &mut String, c: char)
    ensures
        final(s)@ == old(s)@.push(c),
{
    s.push(c)
}

/// The lowercase hexadecimal digit for a value below 16.
pub open spec fn hex_digit(v: u8) -> char {
    if v < 10 {
        (48 + v) as char
    } else {
        (87 + v) as char
    }
}

/// Lowercase hexadecimal text of `b`, two digits per byte, high nibble first.
pub open spec fn hex_lower(b: Seq<u8>) -> Seq<char>
    decreases b.len(),
{
    if b.len() == 0 {
        seq![]
    } else {
        hex_lower(b.drop_last()) + seq![hex_digit(b.last() / 16), hex_digit(b.last() % 16)]
    }
}

/// The lowercase hexadecimal digit for a value below 16.
fn hex_char(v: u8) -> (res: char)
    requires
        v < 16,
    ensures
        res == hex_digit(v),
{
    if v < 10 {
        (48u8 + v) as char
    } else {
        (87u8 + v) as char
    }
}

/// Lowercase hexadecimal text of `bytes`.
pub fn to_hex_lower(bytes: &[u8]) -> (res: String)
    ensures
        res@ == hex_lower(bytes@),
{
    let mut out = String::new();
    let n = bytes.len();
    let mut i: usize = 0;
    while i < n
        invariant
            i <= n,
            n == bytes@.len(),
            out@ == hex_lower(bytes@.subrange(0, i as int)),
        decreases n - i,
    {
        let b = bytes[i];
        string_push(&mut out, hex_char(b / 16));
        string_push(&mut out, hex_char(b % 16));
        proof {
            let p = bytes@.subrange(0, i + 1);
            assert(p.drop_last() =~= bytes@.subrange(0, i as int));
            assert(out@ =~= hex_lower(p));
        }
        i = i + 1;
    }
    proof {
        assert(bytes@.subrange(0, n as int) =~= bytes@);
    }
    out
}

/// The identifier of the peer at `addr`: "addr:" and the lowercase hex
/// BLAKE3 digest of the trimmed, lowercased address.
pub open spec fn peer_id_of(addr: Seq<char>) -> Seq<char> {
    "addr:"@ + hex_lower(blake3_digest(encode_utf8(lowercased(trimmed(addr)))))
}

/// Hexadecimal text has two digits per byte.
pub proof fn lemma_hex_lower_len(b: Seq<u8>)
    ensures
        hex_lower(b).len() == 2 * b.len(),
    decreases b.len(),
{
    if b.len() > 0 {
        lemma_hex_lower_len(b.drop_last());
    }
}

/// Derives a peer's identifier from its address: "addr:" and 64 hex digits.
pub fn peer_id_from_addr(addr: &str) -> (res: String)
    ensures
        res@ == peer_id_of(addr@),
        res@.len() == 69,
{
    let norm = str_to_lowercase(str_trim(addr));
    let digest = blake3_hash(norm.as_str().as_bytes());
    let hex = to_hex_lower(digest.as_slice());
    let mut out = "addr:".to_owned();
    out.append(hex.as_str());
    proof {
        reveal_strlit("addr:");
        assert(digest@.len() == 32);
        lemma_hex_lower_len(digest@);
    }
    out
}

} // verus!

verus! {

// ---------------------------------------------------------------------------
// Where a requester connects from
// ---------------------------------------------------------------------------

/// An IP address: four octets, or eight 16-bit segments.
#[derive(Debug, Clone, Copy, PartialEq, Eq)]
pub enum IpAddress {
    V4([u8; 4]),
    V6([u16; 8]),
}

/// A loopback IPv4 address: 127.0.0.0/8.
pub open spec fn v4_is_loopback(o: [u8; 4]) -> bool {
    o[0] == 127
}

/// A link-local IPv4 address: 169.254.0.0/16.
pub open spec fn v4_is_link_local(o: [u8; 4]) -> bool {
    o[0] == 169 && o[1] == 254
}

/// The IPv6 loopback address `::1`.
pub open spec fn v6_is_loopback(s: [u16; 8]) -> bool {
    s[0] == 0 && s[1] == 0 && s[2] == 0 && s[3] == 0 && s[4] == 0 && s[5] == 0 && s[6] == 0
        && s[7] == 1
}

/// A unique local IPv6 address: fc00::/7.
pub open spec fn v6_is_unique_local(s: [u16; 8]) -> bool {
    s[0] & 0xfe00u16 == 0xfc00u16
}

/// A link-local unicast IPv6 address: fe80::/10.
pub open spec fn v6_is_link_local(s: [u16; 8]) -> bool {
    s[0] & 0xffc0u16 == 0xfe80u16
}

/// Whether an address belongs to a loopback, link-local or private network.
pub open spec fn privateish(ip: IpAddress) -> bool {
    match ip {
        IpAddress::V4(o) => v4_is_loopback(o) || v4_is_link_local(o) || o[0] == 10 || (o[0] == 172
            && 16 <= o[1] <= 31) || (o[0] == 192 && o[1] == 168),
        IpAddress::V6(s) => v6_is_loopback(s) || v6_is_link_local(s) || v6_is_unique_local(s),
    }
}

fn is_unique_local(s: &[u16; 8]) -> (res: bool)
    ensures
        res == v6_is_unique_local(*s),
{
    (s[0] & 0xfe00u16) == 0xfc00u16
}

fn is_link_local_v6(s: &[u16; 8]) -> (res: bool)
    ensures
        res == v6_is_link_local(*s),
{
    (s[0] & 0xffc0u16) == 0xfe80u16
}

fn is_privateish(ip: &IpAddress) -> (res: bool)
    ensures
        res == privateish(*ip),
{
    match ip {
        IpAddress::V4(o) => {
            o[0] == 127 || (o[0] == 169 && o[1] == 254) || o[0] == 10 || (o[0] == 172 && 16 <= o[1]
                && o[1] <= 31) || (o[0] == 192 && o[1] == 168)
        },
        IpAddress::V6(s) => {
            let loopback = s[0] == 0 && s[1] == 0 && s[2] == 0 && s[3] == 0 && s[4] == 0 && s[5] == 0
                && s[6] == 0 && s[7] == 1;
            loopback || is_link_local_v6(s) || is_unique_local(s)
        },
    }
}

/// The view of a requester connecting from `ip`: the LAN view for loopback,
/// link-local and private addresses, the public view otherwise.
pub fn infer_view_from_remote(ip: &IpAddress) -> (res: RequestView)
    ensures
        res == (if privateish(*ip) {
            RequestView::Lan
        } else {
            RequestView::Public
        }),
{
    if is_privateish(ip) {
        RequestView::Lan
    } else {
        RequestView::Public
    }
}

/// The networks that count as private, by address range: for IPv4 the
/// 32-bit address lies in 10.0.0.0/8, 127.0.0.0/8, 169.254.0.0/16,
/// 172.16.0.0/12 or 192.168.0.0/16; for IPv6 it is `::1`, or its first
/// 16-bit segment lies in fe80::/10 or fc00::/7.
pub open spec fn in_private_range(ip: IpAddress) -> bool {
    match ip {
        IpAddress::V4(o) => {
            let n = o[0] * 0x1000000 + o[1] * 0x10000 + o[2] * 0x100 + o[3];
            ||| 0x0A000000 <= n < 0x0B000000
            ||| 0x7F000000 <= n < 0x80000000
            ||| 0xA9FE0000 <= n < 0xA9FF0000
            ||| 0xAC100000 <= n < 0xAC200000
            ||| 0xC0A80000 <= n < 0xC0A90000
        },
        IpAddress::V6(s) => {
            ||| (s[0] == 0 && s[1] == 0 && s[2] == 0 && s[3] == 0 && s[4] == 0 && s[5] == 0 && s[6]
                == 0 && s[7] == 1)
            ||| 0xfe80 <= s[0] <= 0xfebf
            ||| 0xfc00 <= s[0] <= 0xfdff
        },
    }
}

/// An address is treated as private exactly when it lies in one of the
/// private ranges; a requester connecting from one gets the LAN view, any
/// other the public view.
pub proof fn lemma_private_ranges(ip: IpAddress)
    ensures
        privateish(ip) <==> in_private_range(ip),
{
    match ip {
        IpAddress::V4(o) => {
            assert(o[0] < 256 && o[1] < 256 && o[2] < 256 && o[3] < 256);
        },
        IpAddress::V6(s) => {
            let x = s[0];
            assert((x & 0xfe00u16 == 0xfc00u16) <==> (0xfc00u16 <= x && x <= 0xfdffu16)) by (bit_vector);
            assert((x & 0xffc0u16 == 0xfe80u16) <==> (0xfe80u16 <= x && x <= 0xfebfu16)) by (bit_vector);
        },
    }
}

/// The timeout used for connecting to a peer: at least one millisecond.
pub fn connect_timeout_ms(timeout_ms: u64) -> (res: u64)
    ensures
        res == (if timeout_ms < 1 {
            1
        } else {
            timeout_ms
        }),
{
    if timeout_ms < 1 {
        1
    } else {
        timeout_ms
    }
}

} // verus!
