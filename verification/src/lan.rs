//! Finding peers on the local network: a peer asks with a ping, by broadcast
//! and host by host, and gathers the pongs that come back within a window.

use vstd::prelude::*;

use crate::adapter::{Interface, Ipv4Net};
use crate::addr::{IpAddr, Ipv4Addr, SocketAddr};
use crate::sweep;
use crate::sweep::{SweepClock, SweepRoute};
use crate::text;

verus! {

/// The port of the rendezvous server.
pub const RENDEZVOUS_PORT: i32 = 21116;

/// How long a round of discovery waits for answers, in nanoseconds.
pub const DISCOVER_WINDOW: u64 = 3_000_000_000;

/// The nanoseconds from `since` to `now`; none where the clock stands before
/// `since`.
pub open spec fn elapsed_nanos(now: u64, since: u64) -> int {
    if now >= since {
        now - since
    } else {
        0
    }
}

/// The nanoseconds from `since` to `now`.
pub fn elapsed(now: u64, since: u64) -> (r: u64)
    ensures
        r == elapsed_nanos(now, since),
{
    now.saturating_sub(since)
}

/// The port on which peers listen for pings.
pub fn get_broadcast_port() -> (r: u16)
    ensures
        r == RENDEZVOUS_PORT + 3,
        r == 21119,
{
    (RENDEZVOUS_PORT + 3) as u16
}

// ---------------------------------------------------------------------------
// Hardware addresses
// ---------------------------------------------------------------------------

/// The two hexadecimal digits of a byte.
pub open spec fn hex_pair(b: u8) -> Seq<char> {
    seq![text::digit_char((b / 16) as nat), text::digit_char((b % 16) as nat)]
}

/// How a hardware address is written: `00:1a:2b:3c:4d:5e`.
pub open spec fn mac_text(m: Seq<u8>) -> Seq<char> {
    hex_pair(m[0]) + seq![':'] + hex_pair(m[1]) + seq![':'] + hex_pair(m[2]) + seq![':']
        + hex_pair(m[3]) + seq![':'] + hex_pair(m[4]) + seq![':'] + hex_pair(m[5])
}

/// Calls `default_net::interface::MacAddr::address`: the six bytes, each as two
/// hexadecimal digits in lower case, with colons between them.
#[verifier::external_body]
fn mac_address(octets: [u8; 6]) -> (r: String)
    ensures
        r@ == mac_text(octets@),
{
    default_net::interface::MacAddr::new(octets).address()
}

/// Whether an adapter has the address `ip`.
pub open spec fn has_ip(interface: Interface, ip: IpAddr) -> bool {
    match ip {
        IpAddr::V4(ip) => exists|i: int|
            0 <= i < interface.ipv4@.len() && (#[trigger] interface.ipv4@[i]).addr == ip,
        IpAddr::V6(ip) => interface.ipv6@.contains(ip),
    }
}

/// The hardware address of the first adapter that has the address `ip` and a
/// hardware address.
pub open spec fn mac_at(interfaces: Seq<Interface>, ip: IpAddr) -> Option<[u8; 6]>
    decreases interfaces.len(),
{
    if interfaces.len() == 0 {
        None
    } else if has_ip(interfaces[0], ip) && interfaces[0].mac is Some {
        interfaces[0].mac
    } else {
        mac_at(interfaces.drop_first(), ip)
    }
}

/// The text of that hardware address; empty where there is none.
pub open spec fn mac_text_at(interfaces: Seq<Interface>, ip: IpAddr) -> Seq<char> {
    match mac_at(interfaces, ip) {
        Some(m) => mac_text(m@),
        None => Seq::empty(),
    }
}

fn interface_has_ip(interface: &Interface, ip: IpAddr) -> (r: bool)
    ensures
        r == has_ip(*interface, ip),
{
    match ip {
        IpAddr::V4(v4) => {
            let n: usize = interface.ipv4.len();
            let mut i: usize = 0;
            while i < n
                invariant
                    ip == IpAddr::V4(v4),
                    i <= n == interface.ipv4@.len(),
                    forall|j: int| 0 <= j < i ==> (#[trigger] interface.ipv4@[j]).addr != v4,
                decreases n - i,
            {
                if interface.ipv4[i].addr == v4 {
                    assert(interface.ipv4@[i as int].addr == v4);
                    return true;
                }
                i += 1;
            }
            false
        },
        IpAddr::V6(v6) => {
            let n: usize = interface.ipv6.len();
            let mut i: usize = 0;
            while i < n
                invariant
                    ip == IpAddr::V6(v6),
                    i <= n == interface.ipv6@.len(),
                    forall|j: int| 0 <= j < i ==> interface.ipv6@[j] != v6,
                decreases n - i,
            {
                if interface.ipv6[i] == v6 {
                    assert(interface.ipv6@[i as int] == v6);
                    return true;
                }
                i += 1;
            }
            false
        },
    }
}

/// The hardware address of the adapter that has the address `ip`, if there is
/// one.
pub fn get_mac_by_ip(ip: IpAddr, interfaces: &Vec<Interface>) -> (r: Option<String>)
    ensures
        r is Some <==> mac_at(interfaces@, ip) is Some,
        r matches Some(m) ==> m@ == mac_text(mac_at(interfaces@, ip)->0@),
{
    let n: usize = interfaces.len();
    let mut i: usize = 0;
    assert(interfaces@.skip(0) == interfaces@);
    while i < n
        invariant
            i <= n == interfaces@.len(),
            mac_at(interfaces@, ip) == mac_at(interfaces@.skip(i as int), ip),
        decreases n - i,
    {
        let interface = &interfaces[i];
        assert(interfaces@.skip(i as int)[0] == *interface);
        assert(interfaces@.skip(i as int).drop_first() == interfaces@.skip(i + 1));
        if interface_has_ip(interface, ip) {
            if let Some(mac) = interface.mac {
                return Some(mac_address(mac));
            }
        }
        i += 1;
    }
    None
}

/// The hardware address of the adapter that has the address `ip`; empty where
/// there is none.
pub fn get_mac(ip: IpAddr, interfaces: &Vec<Interface>) -> (r: String)
    ensures
        r@ == mac_text_at(interfaces@, ip),
{
    match get_mac_by_ip(ip, interfaces) {
        Some(mac) => mac,
        None => String::new(),
    }
}

// ---------------------------------------------------------------------------
// Asking and answering
// ---------------------------------------------------------------------------

/// The message of discovery: a ping asks, a pong answers.
pub struct PeerDiscovery {
    pub cmd: String,
    pub mac: String,
    pub id: String,
    pub username: String,
    pub hostname: String,
    pub platform: String,
}

/// Whether the listener on port 21119 got its socket, and what to do if not.
#[derive(Clone, Copy, PartialEq, Eq, Structural, Debug)]
pub enum BindStep {
    /// Listen on the socket.
    Listen,
    /// Wait that many milliseconds and try again.
    Retry { wait: u64 },
    /// Wait that many milliseconds and report the last failure.
    GiveUp { wait: u64 },
}

/// How often the listener tries to get its socket.
pub const BIND_ATTEMPTS: u32 = 10;

/// How long it waits after a failure, in milliseconds.
pub const BIND_PAUSE: u64 = 500;

/// What the listener does after its try number `attempt`, counted from 0. A
/// port that was in use a moment ago may be free soon, so it tries ten times.
pub fn bind_step(attempt: u32, bound: bool) -> (r: BindStep)
    requires
        attempt < BIND_ATTEMPTS,
    ensures
        r == if bound {
            BindStep::Listen
        } else if attempt < 9 {
            BindStep::Retry { wait: 500 }
        } else {
            BindStep::GiveUp { wait: 500 }
        },
{
    if bound {
        BindStep::Listen
    } else if attempt < BIND_ATTEMPTS - 1 {
        BindStep::Retry { wait: BIND_PAUSE }
    } else {
        BindStep::GiveUp { wait: BIND_PAUSE }
    }
}

/// Whether a message asks for an answer: a ping from another peer, while
/// discovery is allowed.
pub fn wants_pong(msg: &PeerDiscovery, allowed: bool, id: &str) -> (r: bool)
    ensures
        r == (msg.cmd@ == "ping"@ && allowed && msg.id@ != id@),
{
    text::same_text(msg.cmd.as_str(), "ping") && allowed && !text::same_text(msg.id.as_str(), id)
}

/// The answer of the peer `id`, whose address towards the one who asks is
/// `self_addr`. The name `localhost` says nothing and is not given away.
pub fn pong(
    self_addr: IpAddr,
    interfaces: &Vec<Interface>,
    id: String,
    hostname: String,
    username: String,
    platform: String,
) -> (r: PeerDiscovery)
    ensures
        r.cmd@ == "pong"@,
        r.mac@ == mac_text_at(interfaces@, self_addr),
        r.id == id,
        r.hostname@ == if hostname@ == "localhost"@ {
            "unknown"@
        } else {
            hostname@
        },
        r.username == username,
        r.platform == platform,
{
    let hostname = if text::same_text(hostname.as_str(), "localhost") {
        "unknown".to_owned()
    } else {
        hostname
    };
    PeerDiscovery {
        cmd: "pong".to_owned(),
        mac: get_mac(self_addr, interfaces),
        id,
        username,
        hostname,
        platform,
    }
}

/// The question. A peer that cannot read its hardware address gives its id, so
/// that it does not find itself; others give none.
pub fn ping(id: Option<String>) -> (r: PeerDiscovery)
    ensures
        r.cmd@ == "ping"@,
        r.id@ == match id {
            Some(id) => id@,
            None => Seq::empty(),
        },
        r.mac@.len() == 0,
        r.username@.len() == 0,
        r.hostname@.len() == 0,
        r.platform@.len() == 0,
{
    let id = match id {
        Some(id) => id,
        None => String::new(),
    };
    PeerDiscovery {
        cmd: "ping".to_owned(),
        mac: String::new(),
        id,
        username: String::new(),
        hostname: String::new(),
        platform: String::new(),
    }
}

// ---------------------------------------------------------------------------
// A round of discovery
// ---------------------------------------------------------------------------

/// The addresses of one adapter.
pub open spec fn net_addrs(nets: Seq<Ipv4Net>) -> Seq<Ipv4Addr> {
    nets.map_values(|n: Ipv4Net| n.addr)
}

/// The IPv4 addresses of this machine, adapter by adapter.
pub open spec fn adapter_addrs(interfaces: Seq<Interface>) -> Seq<Ipv4Addr>
    decreases interfaces.len(),
{
    if interfaces.len() == 0 {
        Seq::empty()
    } else {
        adapter_addrs(interfaces.drop_last()) + net_addrs(interfaces.last().ipv4@)
    }
}

pub(crate) fn ipv4_addrs(interfaces: &Vec<Interface>) -> (r: Vec<Ipv4Addr>)
    ensures
        r@ == adapter_addrs(interfaces@),
{
    let mut r: Vec<Ipv4Addr> = Vec::new();
    let n: usize = interfaces.len();
    let mut i: usize = 0;
    assert(interfaces@.take(0) == Seq::<Interface>::empty());
    while i < n
        invariant
            i <= n == interfaces@.len(),
            r@ == adapter_addrs(interfaces@.take(i as int)),
        decreases n - i,
    {
        assert(interfaces@.take(i + 1).drop_last() == interfaces@.take(i as int));
        let nets = &interfaces[i].ipv4;
        let ghost before = r@;
        let ghost addrs = net_addrs(nets@);
        let m: usize = nets.len();
        let mut k: usize = 0;
        assert(before + addrs.take(0) == before);
        while k < m
            invariant
                k <= m == nets@.len(),
                addrs == net_addrs(nets@),
                r@ == before + addrs.take(k as int),
            decreases m - k,
        {
            r.push(nets[k].addr);
            assert(addrs.take(k + 1) == addrs.take(k as int).push(nets@[k as int].addr));
            k += 1;
        }
        assert(addrs.take(m as int) == addrs);
        i += 1;
    }
    assert(interfaces@.take(n as int) == interfaces@);
    r
}

/// The addresses to send the broadcast from: each IPv4 address of this machine,
/// and 0.0.0.0 in any case.
pub fn broadcast_sources(interfaces: &Vec<Interface>) -> (r: Vec<Ipv4Addr>)
    ensures
        r@ == adapter_addrs(interfaces@).push(Ipv4Addr::unspecified()),
{
    let mut r = ipv4_addrs(interfaces);
    r.push(Ipv4Addr::new(0, 0, 0, 0));
    r
}

/// What a round of discovery sends, how long it waits, and whether peers that
/// do not answer count as gone.
pub struct DiscoveryRound {
    pub broadcast: SocketAddr,
    pub port: u16,
    pub routes: Vec<SweepRoute>,
    pub window: u64,
    pub mark_stale_offline: bool,
}

/// Why there is no round of discovery.
#[derive(Clone, Copy, PartialEq, Eq, Structural, Debug)]
pub enum DiscoveryError {
    /// No socket could be bound to an IPv4 address.
    NoBindableAddress,
}

/// What this machine and its user have for a round of discovery: the sockets
/// that could be bound for the broadcast, the adapters, and the networks that
/// the user lists.
pub struct DiscoverySetup<'a> {
    pub sockets: usize,
    pub interfaces: &'a Vec<Interface>,
    pub extra: &'a str,
}

/// Whether `round` is the round of `overall` nanoseconds that sweeps if `sweep`
/// holds. Only a round over the full window tells which peers are gone.
pub open spec fn is_round(
    round: DiscoveryRound,
    overall: u64,
    sweep: bool,
    setup: DiscoverySetup,
) -> bool {
    &&& round.broadcast == (SocketAddr::V4 {
        ip: Ipv4Addr { a: 255, b: 255, c: 255, d: 255 },
        port: 21119,
    })
    &&& round.port == 21119
    &&& sweep ==> sweep::sweeps(
        round.routes@,
        sweep::sweep_areas(setup.interfaces@, setup.extra@),
    )
    &&& !sweep ==> round.routes@.len() == 0
    &&& round.window == overall
    &&& round.mark_stale_offline == (overall >= DISCOVER_WINDOW)
}

/// A round of discovery over `overall` nanoseconds: a broadcast, and a sweep if
/// `unicast_sweep` holds.
pub fn discover_within(overall: u64, unicast_sweep: bool, setup: &DiscoverySetup) -> (r: Result<
    DiscoveryRound,
    DiscoveryError,
>)
    ensures
        r is Err <==> setup.sockets == 0,
        r matches Err(e) ==> e == DiscoveryError::NoBindableAddress,
        r matches Ok(round) ==> is_round(round, overall, unicast_sweep, *setup),
{
    if setup.sockets == 0 {
        return Err(DiscoveryError::NoBindableAddress);
    }
    let port: u16 = get_broadcast_port();
    let routes = if unicast_sweep {
        sweep::unicast_sweep_plan(setup.interfaces, setup.extra)
    } else {
        Vec::new()
    };
    Ok(
        DiscoveryRound {
            broadcast: SocketAddr::V4 { ip: Ipv4Addr::new(255, 255, 255, 255), port },
            port,
            routes,
            window: overall,
            mark_stale_offline: overall >= DISCOVER_WINDOW,
        },
    )
}

/// A round of the regular discovery, at `now` in seconds of Unix time. It
/// sweeps only as often as the clock allows.
pub fn discover_impl_within(
    overall: u64,
    clock: &mut SweepClock,
    now: u64,
    setup: &DiscoverySetup,
) -> (r: Result<DiscoveryRound, DiscoveryError>)
    ensures
        r is Err <==> setup.sockets == 0,
        r matches Err(e) ==> e == DiscoveryError::NoBindableAddress,
        r matches Ok(round) ==> is_round(round, overall, old(clock).due(now), *setup),
        final(clock).last == if old(clock).due(now) {
            now
        } else {
            old(clock).last
        },
{
    let sweep = clock.sweep_due(now);
    discover_within(overall, sweep, setup)
}

/// A round of discovery before a connection. It always sweeps: what it does not
/// find cannot be connected to.
pub fn discover_lan_first_within(overall: u64, setup: &DiscoverySetup) -> (r: Result<
    DiscoveryRound,
    DiscoveryError,
>)
    ensures
        r is Err <==> setup.sockets == 0,
        r matches Err(e) ==> e == DiscoveryError::NoBindableAddress,
        r matches Ok(round) ==> is_round(round, overall, true, *setup),
{
    discover_within(overall, true, setup)
}

/// A round of the regular discovery over the full window.
pub fn discover_impl(clock: &mut SweepClock, now: u64, setup: &DiscoverySetup) -> (r: Result<
    DiscoveryRound,
    DiscoveryError,
>)
    ensures
        r is Err <==> setup.sockets == 0,
        r matches Err(e) ==> e == DiscoveryError::NoBindableAddress,
        r matches Ok(round) ==> is_round(round, DISCOVER_WINDOW, old(clock).due(now), *setup),
        final(clock).last == if old(clock).due(now) {
            now
        } else {
            old(clock).last
        },
{
    discover_impl_within(DISCOVER_WINDOW, clock, now, setup)
}

/// A round of the regular discovery over the full window, for a caller that
/// waits for its end.
pub fn discover(clock: &mut SweepClock, now: u64, setup: &DiscoverySetup) -> (r: Result<
    DiscoveryRound,
    DiscoveryError,
>)
    ensures
        r is Err <==> setup.sockets == 0,
        r matches Err(e) ==> e == DiscoveryError::NoBindableAddress,
        r matches Ok(round) ==> is_round(round, DISCOVER_WINDOW, old(clock).due(now), *setup),
        final(clock).last == if old(clock).due(now) {
            now
        } else {
            old(clock).last
        },
{
    discover_impl(clock, now, setup)
}

} // verus!
