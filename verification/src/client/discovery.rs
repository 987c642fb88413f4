//! Finding servers in the local network by a UDP broadcast.

use vstd::prelude::*;

use crate::net;
use crate::net::{IpAddr, SocketAddr};
use crate::protocol::DISCOVERY_PORT;
use crate::text;

verus! {

/// The limited broadcast address 255.255.255.255.
pub const LIMITED_BROADCAST: u32 = 0xffff_ffff;

/// How long replies are waited for, in milliseconds.
pub const REPLY_TIMEOUT_MS: u64 = 900;

/// How many servers are enough.
pub const MAX_REPLIES: usize = 64;

/// The address of a network interface.
#[derive(Debug, Clone, Copy, PartialEq, Eq, Structural)]
pub enum IfAddr {
    V4 { ip: u32, netmask: u32 },
    V6,
}

/// Whom to ask, and how long to wait for how many replies.
#[derive(Debug)]
pub struct DiscoveryCfg {
    pub targets: Vec<SocketAddr>,
    pub timeout_ms: u64,
    pub max_replies: usize,
}

impl Clone for DiscoveryCfg {
    fn clone(&self) -> (r: DiscoveryCfg)
        ensures
            r.targets@ == self.targets@,
            r.timeout_ms == self.timeout_ms,
            r.max_replies == self.max_replies,
    {
        let targets = self.targets.clone();
        assert(targets@ =~= self.targets@);
        DiscoveryCfg { targets, timeout_ms: self.timeout_ms, max_replies: self.max_replies }
    }
}

/// What a server tells about itself.
#[derive(Debug)]
pub struct DiscoverResp {
    pub server_name: Option<String>,
    pub web_url: Option<String>,
    pub version: Option<String>,
}

/// A server and what it told about itself.
#[derive(Debug)]
pub struct DiscoveredServer {
    pub addr: SocketAddr,
    pub info: DiscoverResp,
}

/// A `DiscoverResp` as mathematical values.
#[verifier::ext_equal]
pub struct DiscoverRespView {
    pub server_name: Option<Seq<char>>,
    pub web_url: Option<Seq<char>>,
    pub version: Option<Seq<char>>,
}

/// A `DiscoveredServer` as mathematical values.
#[verifier::ext_equal]
pub struct ServerView {
    pub addr: SocketAddr,
    pub info: DiscoverRespView,
}

impl View for DiscoverResp {
    type V = DiscoverRespView;

    open spec fn view(&self) -> DiscoverRespView {
        DiscoverRespView {
            server_name: text::opt_text(self.server_name),
            web_url: text::opt_text(self.web_url),
            version: text::opt_text(self.version),
        }
    }
}

impl View for DiscoveredServer {
    type V = ServerView;

    open spec fn view(&self) -> ServerView {
        ServerView { addr: self.addr, info: self.info@ }
    }
}

impl Clone for DiscoverResp {
    fn clone(&self) -> (r: DiscoverResp)
        ensures
            r@ == self@,
    {
        DiscoverResp {
            server_name: text::clone_opt(&self.server_name),
            web_url: text::clone_opt(&self.web_url),
            version: text::clone_opt(&self.version),
        }
    }
}

impl Clone for DiscoveredServer {
    fn clone(&self) -> (r: DiscoveredServer)
        ensures
            r@ == self@,
    {
        DiscoveredServer { addr: self.addr, info: self.info.clone() }
    }
}

/// The servers behind a list.
pub open spec fn server_views(v: Seq<DiscoveredServer>) -> Seq<ServerView> {
    Seq::new(v.len(), |i: int| v[i]@)
}

/// Copies of the servers.
pub fn clone_servers(v: &Vec<DiscoveredServer>) -> (r: Vec<DiscoveredServer>)
    ensures
        server_views(r@) == server_views(v@),
{
    let mut out: Vec<DiscoveredServer> = Vec::new();
    let mut i: usize = 0;
    while i < v.len()
        invariant
            i <= v@.len(),
            out@.len() == i,
            forall|j: int| 0 <= j < i ==> (#[trigger] out@[j])@ == v@[j]@,
        decreases v.len() - i,
    {
        out.push(v[i].clone());
        i = i + 1;
    }
    assert(server_views(out@) =~= server_views(v@));
    out
}

// ---------------------------------------------------------------------------
// Whom to ask
// ---------------------------------------------------------------------------
/// The broadcast address of the network that `ip` belongs to; 0.0.0.0 for an
/// empty mask.
pub open spec fn broadcast_of(ip: u32, netmask: u32) -> u32 {
    if netmask == 0 {
        0
    } else {
        ip | !netmask
    }
}

/// The broadcast address of the network that `ip` belongs to.
pub fn ipv4_broadcast(ip: u32, netmask: u32) -> (r: u32)
    ensures
        r == broadcast_of(ip, netmask),
{
    if netmask == 0 {
        return 0;
    }
    ip | !netmask
}

/// A broadcast address keeps the network part of the address and has every
/// bit of the host part set.
pub proof fn broadcast_keeps_the_network(ip: u32, netmask: u32)
    requires
        netmask != 0,
    ensures
        broadcast_of(ip, netmask) & netmask == ip & netmask,
        broadcast_of(ip, netmask) | netmask == 0xffff_ffffu32,
{
    assert((ip | !netmask) & netmask == ip & netmask) by (bit_vector);
    assert((ip | !netmask) | netmask == 0xffff_ffffu32) by (bit_vector);
}

/// 127.0.0.0/8.
pub open spec fn is_loopback(ip: u32) -> bool {
    ip / 0x100_0000 == 127
}

/// The address to ask on one interface, if there is one: the broadcast address
/// of an IPv4 interface that is not the loopback.
pub open spec fn target_of(iface: IfAddr, port: u16) -> Option<SocketAddr> {
    match iface {
        IfAddr::V4 { ip, netmask } => if !is_loopback(ip) && broadcast_of(ip, netmask) != 0 {
            Some(SocketAddr { ip: IpAddr::V4(broadcast_of(ip, netmask)), port })
        } else {
            None
        },
        IfAddr::V6 => None,
    }
}

/// The addresses to ask on the interfaces, in their order.
pub open spec fn targets_of(ifs: Seq<IfAddr>, port: u16) -> Seq<SocketAddr>
    decreases ifs.len(),
{
    if ifs.len() == 0 {
        Seq::empty()
    } else {
        match target_of(ifs.last(), port) {
            Some(a) => targets_of(ifs.drop_last(), port).push(a),
            None => targets_of(ifs.drop_last(), port),
        }
    }
}

/// The addresses to ask on the interfaces, in their order.
pub fn compute_ipv4_broadcast_targets(ifs: &Vec<IfAddr>, port: u16) -> (r: Vec<SocketAddr>)
    ensures
        r@ == targets_of(ifs@, port),
{
    let mut out: Vec<SocketAddr> = Vec::new();
    let mut i: usize = 0;
    assert(ifs@.take(0) =~= Seq::<IfAddr>::empty());
    while i < ifs.len()
        invariant
            i <= ifs@.len(),
            out@ == targets_of(ifs@.take(i as int), port),
        decreases ifs.len() - i,
    {
        proof {
            let t = ifs@.take(i + 1);
            assert(t.drop_last() =~= ifs@.take(i as int));
            assert(t.last() == ifs@[i as int]);
        }
        match ifs[i] {
            IfAddr::V4 { ip, netmask } => {
                if ip / 0x100_0000 != 127 {
                    let b = ipv4_broadcast(ip, netmask);
                    if b != 0 {
                        out.push(SocketAddr { ip: IpAddr::V4(b), port });
                    }
                }
            },
            IfAddr::V6 => {},
        }
        i = i + 1;
    }
    assert(ifs@.take(ifs@.len() as int) =~= ifs@);
    out
}

/// The text of `a` comes before that of `b`.
#[verifier::opaque]
pub open spec fn text_before(a: SocketAddr, b: SocketAddr) -> bool {
    text::text_less(net::addr_text(a), net::addr_text(b))
}

/// IPv4 addresses, each after the ones whose text comes first.
pub open spec fn in_text_order(v: Seq<SocketAddr>) -> bool {
    &&& forall|i: int| 0 <= i < v.len() ==> (#[trigger] v[i]).ip is V4
    &&& forall|i: int, j: int|
        0 <= i < j < v.len() ==> text_before(#[trigger] v[i], #[trigger] v[j])
}

proof fn lemma_text_before_transitive(a: SocketAddr, b: SocketAddr, c: SocketAddr)
    requires
        text_before(a, b),
        text_before(b, c),
    ensures
        text_before(a, c),
{
    reveal(text_before);
    text::lemma_text_less_transitive(net::addr_text(a), net::addr_text(b), net::addr_text(c));
}

proof fn lemma_text_before_total(a: SocketAddr, b: SocketAddr)
    requires
        a.ip is V4,
        b.ip is V4,
    ensures
        text_before(a, b) || text_before(b, a) || a == b,
{
    reveal(text_before);
    text::lemma_text_less_total(net::addr_text(a), net::addr_text(b));
    match (a.ip, b.ip) {
        (IpAddr::V4(x), IpAddr::V4(y)) => {
            if net::addr_text(a) == net::addr_text(b) {
                net::v4_addr_text_is_injective(x, a.port, y, b.port);
            }
        },
        _ => {},
    }
}

/// Addresses in the order of their texts hold none twice.
pub proof fn targets_are_distinct(v: Seq<SocketAddr>)
    requires
        in_text_order(v),
    ensures
        v.no_duplicates(),
{
    assert forall|i: int, j: int| 0 <= i < j < v.len() implies v[i] != v[j] by {
        reveal(text_before);
        assert(text_before(v[i], v[j]));
        text::lemma_text_less_irreflexive(net::addr_text(v[i]));
    }
}

fn is_text_before(a: &SocketAddr, b: &SocketAddr) -> (r: bool)
    ensures
        r == text_before(*a, *b),
{
    proof {
        reveal(text_before);
    }
    let x = net::addr_string(a);
    let y = net::addr_string(b);
    text::is_text_less(&text::chars_of(x.as_str()), &text::chars_of(y.as_str()))
}

proof fn lemma_inserted_in_order(v: Seq<SocketAddr>, i: int, a: SocketAddr)
    requires
        in_text_order(v),
        a.ip is V4,
        0 <= i <= v.len(),
        forall|j: int| 0 <= j < i ==> text_before(#[trigger] v[j], a),
        i < v.len() ==> text_before(a, v[i]),
    ensures
        in_text_order(v.insert(i, a)),
{
    let w = v.insert(i, a);
    assert forall|p: int, q: int| 0 <= p < q < w.len() implies text_before(
        #[trigger] w[p],
        #[trigger] w[q],
    ) by {
        if q == i {
            assert(w[p] == v[p]);
        } else if p == i {
            assert(w[q] == v[q - 1]);
            if q - 1 > i {
                lemma_text_before_transitive(a, v[i], v[q - 1]);
            }
        } else {
            assert(w[p] == v[if p < i {
                p
            } else {
                p - 1
            }]);
            assert(w[q] == v[if q < i {
                q
            } else {
                q - 1
            }]);
        }
    }
    assert forall|p: int| 0 <= p < w.len() implies (#[trigger] w[p]).ip is V4 by {
        if p < i {
            assert(w[p] == v[p]);
        } else if p > i {
            assert(w[p] == v[p - 1]);
        }
    }
}

proof fn lemma_inserted_contains(v: Seq<SocketAddr>, i: int, a: SocketAddr, x: SocketAddr)
    requires
        0 <= i <= v.len(),
    ensures
        v.insert(i, a).contains(x) <==> (v.contains(x) || x == a),
{
    let w = v.insert(i, a);
    if v.contains(x) {
        let k = choose|k: int| 0 <= k < v.len() && v[k] == x;
        assert(w[if k < i {
            k
        } else {
            k + 1
        }] == x);
    }
    if x == a {
        assert(w[i] == x);
    }
    if w.contains(x) && x != a {
        let k = choose|k: int| 0 <= k < w.len() && w[k] == x;
        assert(v[if k < i {
            k
        } else {
            k - 1
        }] == x);
    }
}

/// Adds an address in its place, unless it is there already.
fn insert_in_text_order(v: &mut Vec<SocketAddr>, a: SocketAddr)
    requires
        in_text_order(old(v)@),
        a.ip is V4,
    ensures
        in_text_order(final(v)@),
        forall|x: SocketAddr| #[trigger]
            final(v)@.contains(x) <==> (old(v)@.contains(x) || x == a),
{
    let mut i: usize = 0;
    while i < v.len() && is_text_before(&v[i], &a)
        invariant
            v@ == old(v)@,
            i <= v@.len(),
            forall|j: int| 0 <= j < i ==> text_before(#[trigger] v@[j], a),
        decreases v.len() - i,
    {
        i = i + 1;
    }
    let ghost before = v@;
    if i < v.len() && v[i] == a {
        assert(before.contains(a));
        return ;
    }
    v.insert(i, a);
    proof {
        if i < before.len() {
            lemma_text_before_total(before[i as int], a);
        }
        lemma_inserted_in_order(before, i as int, a);
        assert forall|x: SocketAddr| #[trigger]
            v@.contains(x) <==> (before.contains(x) || x == a) by {
            lemma_inserted_contains(before, i as int, a, x);
        }
    }
}

proof fn lemma_targets_are_v4(ifs: Seq<IfAddr>, port: u16)
    ensures
        forall|i: int|
            0 <= i < targets_of(ifs, port).len() ==> (#[trigger] targets_of(ifs, port)[i]).ip is V4,
    decreases ifs.len(),
{
    if ifs.len() > 0 {
        lemma_targets_are_v4(ifs.drop_last(), port);
    }
}

impl DiscoveryCfg {
    /// The configuration for a machine with the given interfaces: the broadcast
    /// address of each, and the limited broadcast address, all on the discovery
    /// port, each once and in the order of their texts.
    pub fn for_interfaces(ifs: &Vec<IfAddr>) -> (r: DiscoveryCfg)
        ensures
            in_text_order(r.targets@),
            forall|x: SocketAddr| #[trigger]
                r.targets@.contains(x) <==> (targets_of(ifs@, DISCOVERY_PORT).contains(x) || x
                    == (SocketAddr { ip: IpAddr::V4(LIMITED_BROADCAST), port: DISCOVERY_PORT })),
            r.targets@.contains(SocketAddr { ip: IpAddr::V4(0xffff_ffff), port: 3240 }),
            r.timeout_ms == REPLY_TIMEOUT_MS,
            r.max_replies == MAX_REPLIES,
            r.timeout_ms == 900,
            r.max_replies == 64,
    {
        let found = compute_ipv4_broadcast_targets(ifs, DISCOVERY_PORT);
        let mut targets: Vec<SocketAddr> = Vec::new();
        let mut i: usize = 0;
        proof {
            lemma_targets_are_v4(ifs@, DISCOVERY_PORT);
        }
        while i < found.len()
            invariant
                i <= found@.len(),
                found@ == targets_of(ifs@, DISCOVERY_PORT),
                forall|j: int| 0 <= j < found@.len() ==> (#[trigger] found@[j]).ip is V4,
                in_text_order(targets@),
                forall|x: SocketAddr| #[trigger]
                    targets@.contains(x) <==> found@.take(i as int).contains(x),
            decreases found.len() - i,
        {
            let ghost before = targets@;
            insert_in_text_order(&mut targets, found[i]);
            proof {
                let t = found@.take(i as int);
                let u = found@.take(i + 1);
                assert forall|x: SocketAddr| #[trigger]
                    targets@.contains(x) <==> u.contains(x) by {
                    if t.contains(x) {
                        let k = choose|k: int| 0 <= k < t.len() && t[k] == x;
                        assert(u[k] == x);
                    }
                    if x == found@[i as int] {
                        assert(u[i as int] == x);
                    }
                    if u.contains(x) {
                        let k = choose|k: int| 0 <= k < u.len() && u[k] == x;
                        if k < i {
                            assert(t[k] == x);
                        }
                    }
                    assert(before.contains(x) <==> t.contains(x));
                }
            }
            i = i + 1;
        }
        assert(found@.take(found@.len() as int) =~= found@);
        insert_in_text_order(
            &mut targets,
            SocketAddr { ip: IpAddr::V4(LIMITED_BROADCAST), port: DISCOVERY_PORT },
        );
        DiscoveryCfg { targets, timeout_ms: REPLY_TIMEOUT_MS, max_replies: MAX_REPLIES }
    }
}

// ---------------------------------------------------------------------------
// Who answered
// ---------------------------------------------------------------------------
/// What happens while replies are waited for.
#[derive(Debug)]
pub enum DiscoveryEvent {
    /// The time is up.
    DeadlinePassed,
    /// Nothing more can be received.
    ReceiveFailed,
    /// A packet of `len` bytes came from `peer`; `info` is what it says, if it
    /// is a reply.
    Packet { len: usize, peer: SocketAddr, info: Option<DiscoverResp> },
}

/// The servers that have answered so far, in the order of their addresses.
#[derive(Debug)]
pub struct Discovery {
    found: Vec<DiscoveredServer>,
    max_replies: usize,
}

/// Servers in strictly increasing order of address.
pub open spec fn in_addr_order(v: Seq<ServerView>) -> bool {
    forall|i: int, j: int|
        0 <= i < j < v.len() ==> net::addr_less((#[trigger] v[i]).addr, (#[trigger] v[j]).addr)
}

/// The servers as a map from address to what was told last.
pub open spec fn as_map(v: Seq<ServerView>) -> Map<SocketAddr, DiscoverRespView> {
    Map::new(
        |a: SocketAddr| exists|i: int| 0 <= i < v.len() && (#[trigger] v[i]).addr == a,
        |a: SocketAddr|
            {
                let i = choose|i: int| 0 <= i < v.len() && (#[trigger] v[i]).addr == a;
                v[i].info
            },
    )
}

proof fn lemma_as_map(v: Seq<ServerView>, i: int)
    requires
        in_addr_order(v),
        0 <= i < v.len(),
    ensures
        as_map(v).contains_key(v[i].addr),
        as_map(v)[v[i].addr] == v[i].info,
{
    let a = v[i].addr;
    let k = choose|k: int| 0 <= k < v.len() && (#[trigger] v[k]).addr == a;
    assert(0 <= k < v.len() && v[k].addr == a);
    if k < i {
        assert(net::addr_less(v[k].addr, v[i].addr));
    } else if i < k {
        assert(net::addr_less(v[i].addr, v[k].addr));
    }
}

impl Discovery {
    /// The servers in order.
    pub closed spec fn servers(&self) -> Seq<ServerView> {
        server_views(self.found@)
    }

    /// How many servers are enough.
    pub closed spec fn limit(&self) -> nat {
        self.max_replies as nat
    }

    /// The servers are in strictly increasing order of address.
    pub open spec fn wf(&self) -> bool {
        in_addr_order(self.servers())
    }

    /// Nobody has answered yet.
    pub fn new(max_replies: usize) -> (r: Discovery)
        ensures
            r.wf(),
            r.servers() == Seq::<ServerView>::empty(),
            r.limit() == max_replies,
    {
        let r = Discovery { found: Vec::new(), max_replies };
        assert(r.servers() =~= Seq::<ServerView>::empty());
        r
    }

    /// Whether another packet is waited for: the time is not up and fewer
    /// servers than wanted have answered.
    pub fn wants_more(&self, deadline_passed: bool) -> (r: bool)
        ensures
            r == (!deadline_passed && self.servers().len() < self.limit()),
    {
        !deadline_passed && self.found.len() < self.max_replies
    }

    fn insert(&mut self, s: DiscoveredServer)
        requires
            old(self).wf(),
        ensures
            final(self).wf(),
            final(self).limit() == old(self).limit(),
            final(self).servers().len() <= old(self).servers().len() + 1,
            as_map(final(self).servers()) == as_map(old(self).servers()).insert(
                s@.addr,
                s@.info,
            ),
    {
        let ghost before = self.servers();
        let ghost sv = s@;
        let mut i: usize = 0;
        while i < self.found.len() && net::is_addr_less(&self.found[i].addr, &s.addr)
            invariant
                *self == *old(self),
                before == self.servers(),
                self.wf(),
                sv == s@,
                i <= self.found@.len(),
                forall|j: int| 0 <= j < i ==> net::addr_less((#[trigger] before[j]).addr, sv.addr),
            decreases self.found.len() - i,
        {
            assert(before[i as int] == self.found@[i as int]@);
            i = i + 1;
        }
        if i < self.found.len() {
            assert(before[i as int] == self.found@[i as int]@);
        }
        if i < self.found.len() && self.found[i].addr == s.addr {
            self.found.set(i, s);
            proof {
                let after = self.servers();
                assert(after =~= before.update(i as int, sv));
                assert(in_addr_order(after)) by {
                    assert forall|p: int, q: int| 0 <= p < q < after.len() implies net::addr_less(
                        (#[trigger] after[p]).addr,
                        (#[trigger] after[q]).addr,
                    ) by {
                        assert(after[p].addr == before[p].addr);
                        assert(after[q].addr == before[q].addr);
                    }
                }
                lemma_replaced(before, i as int, sv);
            }
        } else {
            self.found.insert(i, s);
            proof {
                let after = self.servers();
                assert(after =~= before.insert(i as int, sv));
                assert(in_addr_order(after)) by {
                    assert forall|p: int, q: int| 0 <= p < q < after.len() implies net::addr_less(
                        (#[trigger] after[p]).addr,
                        (#[trigger] after[q]).addr,
                    ) by {
                        if p < i && q == i {
                            assert(after[p] == before[p]);
                        } else if p == i {
                            assert(after[q] == before[q - 1]);
                            if q - 1 > i {
                                assert(net::addr_less(before[i as int].addr, before[q - 1].addr));
                            }
                        } else {
                            let pp = if p < i {
                                p
                            } else {
                                p - 1
                            };
                            let qq = if q < i {
                                q
                            } else {
                                q - 1
                            };
                            assert(after[p] == before[pp]);
                            assert(after[q] == before[qq]);
                        }
                    }
                }
                lemma_inserted(before, i as int, sv);
            }
        }
    }

    /// Takes note of an event; says whether to go on. A packet with a reply
    /// enters its sender, in place of what that sender told before; an empty
    /// packet and one that is no reply change nothing. While another packet was
    /// wanted, no more servers than wanted come of it.
    pub fn on_event(&mut self, event: DiscoveryEvent) -> (r: bool)
        requires
            old(self).wf(),
        ensures
            final(self).wf(),
            final(self).limit() == old(self).limit(),
            r == (event is Packet),
            old(self).servers().len() < old(self).limit() ==> final(self).servers().len()
                <= final(self).limit(),
            match event {
                DiscoveryEvent::Packet { len, peer, info: Some(v) } if len > 0 => as_map(
                    final(self).servers(),
                ) == as_map(old(self).servers()).insert(peer, v@),
                _ => final(self).servers() == old(self).servers(),
            },
    {
        match event {
            DiscoveryEvent::DeadlinePassed => false,
            DiscoveryEvent::ReceiveFailed => false,
            DiscoveryEvent::Packet { len, peer, info } => {
                if len > 0 {
                    if let Some(v) = info {
                        self.insert(DiscoveredServer { addr: peer, info: v });
                    }
                }
                true
            },
        }
    }

    /// The servers that have answered, in the order of their addresses.
    pub fn finish(self) -> (r: Vec<DiscoveredServer>)
        ensures
            server_views(r@) == self.servers(),
    {
        self.found
    }
}

proof fn lemma_replaced(before: Seq<ServerView>, i: int, s: ServerView)
    requires
        in_addr_order(before),
        0 <= i < before.len(),
        before[i].addr == s.addr,
        in_addr_order(before.update(i, s)),
    ensures
        as_map(before.update(i, s)) == as_map(before).insert(s.addr, s.info),
{
    let after = before.update(i, s);
    let m = as_map(after);
    let n = as_map(before).insert(s.addr, s.info);
    assert forall|a: SocketAddr| m.contains_key(a) == n.contains_key(a) by {
        if m.contains_key(a) {
            let k = choose|k: int| 0 <= k < after.len() && (#[trigger] after[k]).addr == a;
            assert(before[k].addr == a);
        }
        if n.contains_key(a) {
            if a == s.addr {
                assert(after[i].addr == a);
            } else {
                let k = choose|k: int| 0 <= k < before.len() && (#[trigger] before[k]).addr == a;
                assert(after[k].addr == a);
            }
        }
    }
    assert forall|a: SocketAddr| m.contains_key(a) implies m[a] == n[a] by {
        let k = choose|k: int| 0 <= k < after.len() && (#[trigger] after[k]).addr == a;
        lemma_as_map(after, k);
        lemma_as_map(after, i);
        lemma_as_map(before, k);
        if a != s.addr {
            assert(k != i);
            assert(after[k] == before[k]);
        }
    }
    assert(m =~= n);
}

proof fn lemma_inserted(before: Seq<ServerView>, i: int, s: ServerView)
    requires
        in_addr_order(before),
        0 <= i <= before.len(),
        in_addr_order(before.insert(i, s)),
    ensures
        as_map(before.insert(i, s)) == as_map(before).insert(s.addr, s.info),
{
    let after = before.insert(i, s);
    let m = as_map(after);
    let n = as_map(before).insert(s.addr, s.info);
    assert(after[i] == s);
    assert forall|a: SocketAddr| m.contains_key(a) == n.contains_key(a) by {
        if m.contains_key(a) {
            let k = choose|k: int| 0 <= k < after.len() && (#[trigger] after[k]).addr == a;
            if k < i {
                assert(before[k].addr == a);
            } else if k > i {
                assert(before[k - 1].addr == a);
            }
        }
        if n.contains_key(a) && a != s.addr {
            let k = choose|k: int| 0 <= k < before.len() && (#[trigger] before[k]).addr == a;
            if k < i {
                assert(after[k].addr == a);
            } else {
                assert(after[k + 1].addr == a);
            }
        }
    }
    assert forall|a: SocketAddr| m.contains_key(a) implies m[a] == n[a] by {
        let k = choose|k: int| 0 <= k < after.len() && (#[trigger] after[k]).addr == a;
        lemma_as_map(after, k);
        lemma_as_map(after, i);
        if k < i {
            assert(after[k] == before[k]);
            assert(net::addr_less(after[k].addr, after[i].addr));
            lemma_as_map(before, k);
        } else if k > i {
            assert(after[k] == before[k - 1]);
            assert(net::addr_less(after[i].addr, after[k].addr));
            lemma_as_map(before, k - 1);
        }
    }
    assert(m =~= n);
}

} // verus!
