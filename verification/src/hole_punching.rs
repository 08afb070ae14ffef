//! Making a way to a peer that the rendezvous server announced: over the local
//! network, through the routers on both sides, or through a relay server.

use vstd::prelude::*;

use crate::addr::{Ipv4Addr, SocketAddr};
use crate::addr_laws;
use crate::addr_text;
use crate::direct_server::DirectPort;
use crate::registration;
use crate::rendezvous_mediator::RendezvousMediator;
use crate::text;

verus! {

/// How long the same message again counts as a duplicate, in milliseconds.
pub const DUPLICATE_WINDOW: i64 = 100;

/// How often the message that a hole was punched is sent again over UDP.
pub const PUNCH_REPEATS: u64 = 2;

// ---------------------------------------------------------------------------
// Duplicates
// ---------------------------------------------------------------------------

/// The peer that was announced last, and when, in nanoseconds.
#[derive(Clone, Copy, PartialEq, Eq, Structural, Debug)]
pub struct LastMessage {
    pub addr: SocketAddr,
    pub at: u64,
}

impl LastMessage {
    /// No peer was announced before `now`.
    pub fn new(now: u64) -> (r: LastMessage)
        ensures
            r.addr == (SocketAddr::V4 { ip: Ipv4Addr::unspecified(), port: 0 }),
            r.at == now,
    {
        LastMessage { addr: SocketAddr::V4 { ip: Ipv4Addr::new(0, 0, 0, 0), port: 0 }, at: now }
    }

    /// Whether a message about `addr` at `now` repeats the last one.
    pub open spec fn repeats(self, addr: SocketAddr, now: u64) -> bool {
        self.addr == addr && registration::elapsed_millis(now, self.at) < DUPLICATE_WINDOW
    }

    /// Takes note of a message about `addr` and tells whether it repeats the last
    /// one.
    pub fn note(&mut self, addr: SocketAddr, now: u64) -> (r: bool)
        ensures
            r == old(self).repeats(addr, now),
            *final(self) == (LastMessage { addr, at: now }),
    {
        let r = self.addr == addr && registration::millis(now, self.at) < DUPLICATE_WINDOW;
        self.addr = addr;
        self.at = now;
        r
    }
}

// ---------------------------------------------------------------------------
// Relays
// ---------------------------------------------------------------------------

/// A way to a peer through a relay server.
pub struct Relay {
    /// The peer as the rendezvous server wrote it.
    pub socket_addr: Vec<u8>,
    pub relay_server: String,
    /// By which both sides are found to belong together.
    pub uuid: String,
    pub secure: bool,
    /// Whether this side tells the other about the relay.
    pub initiate: bool,
    /// The address over which this side can be reached by IPv6; empty for none.
    pub socket_addr_v6: Vec<u8>,
}

/// The message to the rendezvous server that this side comes to the relay.
pub struct RelayResponse {
    pub socket_addr: Vec<u8>,
    pub uuid: String,
    pub relay_server: String,
    pub id: Option<String>,
    pub version: String,
    pub socket_addr_v6: Vec<u8>,
}

/// The connection to make to the relay server.
pub struct RelayConnection {
    pub relay_server: String,
    pub uuid: String,
    pub secure: bool,
    pub ipv4: bool,
}

/// Whether `c` is a hexadecimal digit in lower case.
pub open spec fn is_lower_hex(c: char) -> bool {
    '0' <= c <= '9' || 'a' <= c <= 'f'
}

/// Whether `s` is the text of a random identifier: groups of 8, 4, 4, 4 and 12
/// hexadecimal digits with hyphens between them, of version 4 and the variant that
/// goes with it.
pub open spec fn is_uuid_v4(s: Seq<char>) -> bool {
    &&& s.len() == 36
    &&& forall|i: int|
        0 <= i < 36 ==> if i == 8 || i == 13 || i == 18 || i == 23 {
            #[trigger] s[i] == '-'
        } else {
            is_lower_hex(s[i])
        }
    &&& s[14] == '4'
    &&& s[19] == '8' || s[19] == '9' || s[19] == 'a' || s[19] == 'b'
}

/// A new identifier, by `uuid::Uuid::new_v4` and its `Display`. Which one is left
/// to chance; claimed is its form, and nothing of its being new. Where the system
/// has no randomness to give, the call does not return.
#[verifier::external_body]
fn new_uuid() -> (r: String)
    ensures
        is_uuid_v4(r@),
{
    uuid::Uuid::new_v4().to_string()
}

/// Whether the peer is on the local network, as its address shows.
pub open spec fn is_lan_ipv4(addr: SocketAddr) -> bool {
    addr matches SocketAddr::V4 { ip, .. } && ip.private()
}

fn lan_ipv4(addr: SocketAddr) -> (r: bool)
    ensures
        r == is_lan_ipv4(addr),
{
    match addr {
        SocketAddr::V4 { ip, .. } => ip.is_private(),
        SocketAddr::V6 { .. } => false,
    }
}

impl RendezvousMediator {
    /// The relay that the server asks for on behalf of a peer; none where the
    /// message repeats the last one. `addr` is what `socket_addr` stands for.
    pub fn handle_request_relay(
        last: &mut LastMessage,
        addr: SocketAddr,
        now: u64,
        socket_addr: Vec<u8>,
        relay_server: String,
        uuid: String,
        secure: bool,
    ) -> (r: Option<Relay>)
        ensures
            *final(last) == (LastMessage { addr, at: now }),
            r is None <==> old(last).repeats(addr, now),
            r matches Some(relay) ==> {
                &&& relay.socket_addr == socket_addr
                &&& relay.relay_server == relay_server
                &&& relay.uuid == uuid
                &&& relay.secure == secure
                &&& !relay.initiate
                &&& relay.socket_addr_v6@.len() == 0
            },
    {
        if last.note(addr, now) {
            return None;
        }
        Some(
            Relay {
                socket_addr,
                relay_server,
                uuid,
                secure,
                initiate: false,
                socket_addr_v6: Vec::new(),
            },
        )
    }

    /// A relay of this side's own choosing, under the identifier `uuid`.
    pub fn own_relay(
        socket_addr: Vec<u8>,
        relay_server: String,
        uuid: String,
        socket_addr_v6: Vec<u8>,
    ) -> (r: Relay)
        ensures
            r == (Relay {
                socket_addr,
                relay_server,
                uuid,
                secure: true,
                initiate: true,
                socket_addr_v6,
            }),
    {
        Relay { socket_addr, relay_server, uuid, secure: true, initiate: true, socket_addr_v6 }
    }

    /// A relay of this side's own choosing, under a new identifier.
    pub fn new_relay(socket_addr: Vec<u8>, relay_server: String, socket_addr_v6: Vec<u8>) -> (r:
        Relay)
        ensures
            r == (Relay {
                socket_addr,
                relay_server,
                uuid: r.uuid,
                secure: true,
                initiate: true,
                socket_addr_v6,
            }),
            is_uuid_v4(r.uuid@),
    {
        Self::own_relay(socket_addr, relay_server, new_uuid(), socket_addr_v6)
    }

    /// What to send to the rendezvous server, and the connection to make after
    /// that. Only a side that initiates the relay names it in the message.
    pub fn create_relay(&self, relay: Relay, id: String, version: String) -> (r: (
        RelayResponse,
        RelayConnection,
    ))
        ensures
            r.0.socket_addr == relay.socket_addr,
            r.0.version == version,
            r.0.socket_addr_v6 == relay.socket_addr_v6,
            if relay.initiate {
                &&& r.0.uuid@ == relay.uuid@
                &&& r.0.relay_server@ == relay.relay_server@
                &&& r.0.id == Some(id)
            } else {
                &&& r.0.uuid@.len() == 0
                &&& r.0.relay_server@.len() == 0
                &&& r.0.id is None
            },
            r.1.relay_server == relay.relay_server,
            r.1.uuid == relay.uuid,
            r.1.secure == relay.secure,
            r.1.ipv4 == self.ipv4,
    {
        let mut response = RelayResponse {
            socket_addr: relay.socket_addr,
            uuid: String::new(),
            relay_server: String::new(),
            id: None,
            version,
            socket_addr_v6: relay.socket_addr_v6,
        };
        if relay.initiate {
            response.uuid = relay.uuid.clone();
            response.relay_server = relay.relay_server.clone();
            response.id = Some(id);
        }
        (
            response,
            RelayConnection {
                relay_server: relay.relay_server,
                uuid: relay.uuid,
                secure: relay.secure,
                ipv4: self.ipv4,
            },
        )
    }
}

// ---------------------------------------------------------------------------
// The local network
// ---------------------------------------------------------------------------

/// What happened to a peer that may be on the same local network.
#[derive(Clone, Copy, PartialEq, Eq, Structural, Debug)]
pub enum IntranetEvent {
    /// The server announced it at `addr`, and at `addr_v6` over IPv6.
    Asked {
        addr: SocketAddr,
        addr_v6: SocketAddr,
        now: u64,
        proxy: bool,
        disable_tcp_listen: bool,
    },
    /// It was told the local address and waited for.
    Direct { ok: bool },
    /// There was no reason to tell it the local address.
    NotTried,
}

/// What to do for a peer that may be on the same local network.
#[derive(Clone, Copy, PartialEq, Eq, Structural, Debug)]
pub enum IntranetStep {
    /// Nothing: the message repeats the last one.
    Ignore,
    /// Try IPv6 beside the rest where `ipv6` holds. Tell the peer the local address
    /// and wait for it where `direct` holds.
    Proceed { ipv6: bool, direct: bool },
    /// Nothing more: the peer came.
    Done,
    /// Make a relay; nothing more after that.
    Relay,
}

/// What is done on `event`, where the server is reached over IPv4 or not and `last`
/// was announced last. A peer on the local network is answered even where this side
/// does not listen: it can still be called from here.
pub open spec fn intranet_step(ipv4: bool, last: LastMessage, event: IntranetEvent) ->
    IntranetStep {
    match event {
        IntranetEvent::Asked { addr, addr_v6, now, proxy, disable_tcp_listen } => if last.repeats(
            addr,
            now,
        ) {
            IntranetStep::Ignore
        } else {
            IntranetStep::Proceed {
                ipv6: addr_v6.port_part() > 0 && !proxy,
                direct: ipv4 && !proxy && (is_lan_ipv4(addr) || !disable_tcp_listen),
            }
        },
        IntranetEvent::Direct { ok } => if ok {
            IntranetStep::Done
        } else {
            IntranetStep::Relay
        },
        IntranetEvent::NotTried => IntranetStep::Relay,
    }
}

/// What happens next after a step: whether the peer came, where it was tried, or
/// that it was not tried. Nothing where the step is the last one.
pub open spec fn intranet_next(step: IntranetStep, came: bool) -> Option<IntranetEvent> {
    match step {
        IntranetStep::Proceed { direct, .. } => Some(
            if direct {
                IntranetEvent::Direct { ok: came }
            } else {
                IntranetEvent::NotTried
            },
        ),
        _ => None,
    }
}

/// The message to the rendezvous server with the local address.
pub struct LocalAddr {
    pub id: String,
    /// The peer.
    pub socket_addr: SocketAddr,
    pub local_addr: SocketAddr,
    pub relay_server: String,
    pub version: String,
    pub socket_addr_v6: Vec<u8>,
}

/// The address that `local` is announced as: only IPv4 can be, for an address is
/// written with its port behind a colon and read again.
pub open spec fn announced_local(local: SocketAddr) -> Option<SocketAddr> {
    match local {
        SocketAddr::V4 { .. } => Some(local),
        SocketAddr::V6 { .. } => None,
    }
}

impl RendezvousMediator {
    /// What to do for a peer that may be on the same local network.
    pub fn handle_intranet(&self, last: &mut LastMessage, event: IntranetEvent) -> (r:
        IntranetStep)
        ensures
            r == intranet_step(self.ipv4, *old(last), event),
            *final(last) == match event {
                IntranetEvent::Asked { addr, now, .. } => LastMessage { addr, at: now },
                _ => *old(last),
            },
    {
        match event {
            IntranetEvent::Asked { addr, addr_v6, now, proxy, disable_tcp_listen } => {
                if last.note(addr, now) {
                    return IntranetStep::Ignore;
                }
                IntranetStep::Proceed {
                    ipv6: addr_v6.port() > 0 && !proxy,
                    direct: self.ipv4 && !proxy && (lan_ipv4(addr) || !disable_tcp_listen),
                }
            },
            IntranetEvent::Direct { ok } => {
                if ok {
                    IntranetStep::Done
                } else {
                    IntranetStep::Relay
                }
            },
            IntranetEvent::NotTried => IntranetStep::Relay,
        }
    }

    /// What happens next after `step`. `came` is whether the peer came, where it was
    /// told the local address.
    pub fn after_intranet(step: IntranetStep, came: bool) -> (r: Option<IntranetEvent>)
        ensures
            r == intranet_next(step, came),
            step matches IntranetStep::Proceed { direct: false, .. } ==> r == Some(
                IntranetEvent::NotTried,
            ),
    {
        match step {
            IntranetStep::Proceed { direct, .. } => if direct {
                Some(IntranetEvent::Direct { ok: came })
            } else {
                Some(IntranetEvent::NotTried)
            },
            _ => None,
        }
    }

    /// The message with the local address; none where that address cannot be
    /// announced.
    pub fn handle_intranet_(
        id: String,
        peer_addr: SocketAddr,
        local: SocketAddr,
        relay_server: String,
        version: String,
        socket_addr_v6: Vec<u8>,
    ) -> (r: Option<LocalAddr>)
        ensures
            r == match announced_local(local) {
                Some(local_addr) => Some(
                    LocalAddr {
                        id,
                        socket_addr: peer_addr,
                        local_addr,
                        relay_server,
                        version,
                        socket_addr_v6,
                    },
                ),
                None => None,
            },
    {
        match bare_socket(local) {
            Some(local_addr) => Some(
                LocalAddr {
                    id,
                    socket_addr: peer_addr,
                    local_addr,
                    relay_server,
                    version,
                    socket_addr_v6,
                },
            ),
            None => None,
        }
    }
}

/// The address that the address of `local`, a colon and its port write.
fn bare_socket(local: SocketAddr) -> (r: Option<SocketAddr>)
    ensures
        r == announced_local(local),
{
    let mut s = addr_text::ip_to_string(local.ip());
    s.append(":");
    text::write_number(&mut s, local.port() as u64, 10);
    proof {
        reveal_strlit(":");
        assert(":"@ == seq![':']);
        addr_laws::law_bare_socket(local.ip_part(), local.port_part());
    }
    let chars = text::chars_of(s.as_str());
    addr_text::read_socket(chars.as_slice())
}

// ---------------------------------------------------------------------------
// Routers
// ---------------------------------------------------------------------------

/// How a router maps addresses.
#[derive(Clone, Copy, PartialEq, Eq, Structural, Debug)]
pub enum NatType {
    Unknown,
    Asymmetric,
    /// Each connection gets a mapping of its own, which nobody can foretell.
    Symmetric,
}

/// What the server says of a peer that wants to connect.
#[derive(Clone, Copy, PartialEq, Eq, Structural, Debug)]
pub struct PunchRequest {
    pub addr: SocketAddr,
    pub addr_v6: SocketAddr,
    pub nat_type: NatType,
    /// The port of the peer for UDP, where it is above 0.
    pub udp_port: i32,
    pub force_relay: bool,
}

/// What is known of this side.
#[derive(Clone, Copy, PartialEq, Eq, Structural, Debug)]
pub struct OwnNetwork {
    pub proxy: bool,
    pub nat_type: NatType,
    pub disable_tcp_listen: bool,
}

/// How to make the way to a peer.
#[derive(Clone, Copy, PartialEq, Eq, Structural, Debug)]
pub enum PunchWay {
    Relay,
    Udp { peer: SocketAddr },
    Tcp { peer: SocketAddr },
}

/// What to do for a peer that wants to connect.
#[derive(Clone, Copy, PartialEq, Eq, Structural, Debug)]
pub enum PunchStep {
    /// Nothing: the message repeats the last one.
    Ignore,
    /// Try IPv6 beside the rest where `ipv6` holds, then go this way.
    Proceed { ipv6: bool, way: PunchWay },
}

/// The message to the rendezvous server that a hole was punched.
pub struct PunchHoleSent {
    pub socket_addr: Vec<u8>,
    pub id: String,
    pub relay_server: String,
    pub nat_type: NatType,
    pub version: String,
    pub socket_addr_v6: Vec<u8>,
    /// The port for direct connections; 0 for none.
    pub upnp_port: i32,
}

/// Whether nothing but a relay leads to the peer.
pub open spec fn needs_relay(request: PunchRequest, own: OwnNetwork) -> bool {
    &&& {
        ||| request.nat_type == NatType::Symmetric
        ||| own.nat_type == NatType::Symmetric
        ||| own.proxy
        ||| request.force_relay
        ||| own.disable_tcp_listen && request.udp_port <= 0
    }
    &&& !is_lan_ipv4(request.addr)
}

/// The way to the peer.
pub open spec fn way_to(request: PunchRequest, own: OwnNetwork) -> PunchWay {
    if needs_relay(request, own) {
        PunchWay::Relay
    } else if request.udp_port > 0 {
        PunchWay::Udp { peer: request.addr.at_port((request.udp_port as int % 0x10000) as u16) }
    } else {
        PunchWay::Tcp { peer: request.addr }
    }
}

impl RendezvousMediator {
    /// What to do for a peer that wants to connect. A peer on the local network is
    /// never sent to a relay.
    pub fn handle_punch_hole(
        last: &mut LastMessage,
        request: PunchRequest,
        own: OwnNetwork,
        now: u64,
    ) -> (r: PunchStep)
        ensures
            *final(last) == (LastMessage { addr: request.addr, at: now }),
            r == if old(last).repeats(request.addr, now) {
                PunchStep::Ignore
            } else {
                PunchStep::Proceed {
                    ipv6: request.addr_v6.port_part() > 0 && !own.proxy && !request.force_relay,
                    way: way_to(request, own),
                }
            },
    {
        if last.note(request.addr, now) {
            return PunchStep::Ignore;
        }
        let relay = own.proxy || request.force_relay;
        let ipv6 = request.addr_v6.port() > 0 && !relay;
        if (request.nat_type == NatType::Symmetric || own.nat_type == NatType::Symmetric || relay
            || (own.disable_tcp_listen && request.udp_port <= 0)) && !lan_ipv4(request.addr) {
            return PunchStep::Proceed { ipv6, way: PunchWay::Relay };
        }
        if request.udp_port > 0 {
            let port: u16 = (request.udp_port % 0x10000) as u16;
            return PunchStep::Proceed {
                ipv6,
                way: PunchWay::Udp { peer: request.addr.with_port(port) },
            };
        }
        PunchStep::Proceed { ipv6, way: PunchWay::Tcp { peer: request.addr } }
    }

    /// The port for direct connections to tell a peer, so that it can connect to it;
    /// 0 where nobody listens. `status` is what is written of the listener.
    pub fn announced_port(status: &str, port: &mut DirectPort) -> (r: i32)
        ensures
            if status@ == "listening"@ {
                r == old(port).current() && final(port).port == Some(r)
            } else {
                r == 0 && *final(port) == *old(port)
            },
    {
        if text::same_text(status, "listening") {
            port.get_direct_port()
        } else {
            0
        }
    }

    /// The message that a hole was punched.
    pub fn punch_hole_sent(
        socket_addr: Vec<u8>,
        id: String,
        relay_server: String,
        own: OwnNetwork,
        version: String,
        socket_addr_v6: Vec<u8>,
        upnp_port: i32,
    ) -> (r: PunchHoleSent)
        ensures
            r == (PunchHoleSent {
                socket_addr,
                id,
                relay_server,
                nat_type: own.nat_type,
                version,
                socket_addr_v6,
                upnp_port,
            }),
    {
        PunchHoleSent {
            socket_addr,
            id,
            relay_server,
            nat_type: own.nat_type,
            version,
            socket_addr_v6,
            upnp_port,
        }
    }

    /// How long to wait before the message that a hole was punched is sent again
    /// over UDP, in milliseconds: not the same each time, as `rand` has it.
    pub fn punch_udp_hole(rand: u64) -> (r: u64)
        ensures
            r == rand % 20 + 10,
            10 <= r < 30,
    {
        rand % 20 + 10
    }
}

// ---------------------------------------------------------------------------
// Laws
// ---------------------------------------------------------------------------

/// A peer on the local network is never sent to a relay, whatever the routers are
/// like and whether this side listens or not.
pub proof fn law_lan_peers_need_no_relay(request: PunchRequest, own: OwnNetwork)
    requires
        is_lan_ipv4(request.addr),
    ensures
        way_to(request, own) != PunchWay::Relay,
{
}

/// A peer that is not on the local network goes through a relay where a router
/// maps each connection on its own, where a proxy is used and where it asks for it.
pub proof fn law_symmetric_routers_need_a_relay(request: PunchRequest, own: OwnNetwork)
    requires
        !is_lan_ipv4(request.addr),
        request.nat_type == NatType::Symmetric || own.nat_type == NatType::Symmetric || own.proxy
            || request.force_relay,
    ensures
        way_to(request, own) == PunchWay::Relay,
{
}

/// A peer that may be on the same local network and is no duplicate is told the
/// local address where this side is reached over IPv4 and without a proxy, and the
/// peer is on the local network or this side listens. If it came by that, no relay
/// is made; if it did not, or was not told, one is, and that is the last step.
pub proof fn law_intranet_ends_with_the_peer_or_one_relay(
    ipv4: bool,
    last: LastMessage,
    asked: IntranetEvent,
    came: bool,
)
    requires
        asked matches IntranetEvent::Asked { addr, now, .. } && !last.repeats(addr, now),
    ensures
        asked matches IntranetEvent::Asked { addr, now, proxy, disable_tcp_listen, .. } && ({
            let tried = ipv4 && !proxy && (is_lan_ipv4(addr) || !disable_tcp_listen);
            let first = intranet_step(ipv4, last, asked);
            let next = intranet_next(first, came);
            let second = intranet_step(ipv4, LastMessage { addr, at: now }, next->0);
            &&& next == Some(
                if tried {
                    IntranetEvent::Direct { ok: came }
                } else {
                    IntranetEvent::NotTried
                },
            )
            &&& second == if tried && came {
                IntranetStep::Done
            } else {
                IntranetStep::Relay
            }
            &&& intranet_next(second, came) is None
        }),
{
}

/// A message is handled once: right after it, the same one is a duplicate, and one
/// about another peer is not.
pub proof fn law_messages_are_handled_once(
    addr: SocketAddr,
    other: SocketAddr,
    now: u64,
    later: u64,
)
    ensures
        (LastMessage { addr, at: now }).repeats(addr, later) <==> registration::elapsed_millis(
            later,
            now,
        ) < DUPLICATE_WINDOW,
        other != addr ==> !(LastMessage { addr, at: now }).repeats(other, later),
{
}

} // verus!
