//! Which way leads to a peer that the rendezvous server announced, said in terms of
//! what is known of both sides.

use vstd::prelude::*;

use crate::addr::{Ipv4Addr, SocketAddr};
use crate::hole_punching;
use crate::hole_punching::{
    IntranetEvent, IntranetStep, LastMessage, NatType, OwnNetwork, PunchRequest, PunchWay,
};

verus! {

/// A relay is used only where it is needed. Between two routers that map each
/// connection alike, without a proxy, and where none is asked for, the way is over
/// UDP to the peer's address at the port it gave for that; where it gave none and
/// this side listens, over TCP to the peer's address. It makes no difference whether
/// the routers are known.
pub proof fn law_relays_are_the_last_resort(request: PunchRequest, own: OwnNetwork)
    requires
        request.nat_type != NatType::Symmetric,
        own.nat_type != NatType::Symmetric,
        !own.proxy,
        !request.force_relay,
        !own.disable_tcp_listen || request.udp_port > 0,
    ensures
        ({
            let way = hole_punching::way_to(request, own);
            let port = request.udp_port as int % 65_536;
            &&& way != PunchWay::Relay
            &&& request.udp_port <= 0 ==> way == (PunchWay::Tcp { peer: request.addr })
            &&& request.udp_port > 0 ==> way == (PunchWay::Udp {
                peer: match request.addr {
                    SocketAddr::V4 { ip, .. } => SocketAddr::V4 { ip, port: port as u16 },
                    SocketAddr::V6 { ip, scope, .. } => SocketAddr::V6 {
                        ip,
                        port: port as u16,
                        scope,
                    },
                },
            })
        }),
{
}

/// A peer with an address of a private network is reached without a relay whatever
/// is known of both sides: over UDP where it gave a port for that, else over TCP.
pub proof fn law_private_peers_are_reached_directly(
    request: PunchRequest,
    own: OwnNetwork,
    ip: Ipv4Addr,
    port: u16,
)
    requires
        request.addr == (SocketAddr::V4 { ip, port }),
        ip.a == 10 || ip.a == 172 && 16 <= ip.b <= 31 || ip.a == 192 && ip.b == 168,
    ensures
        request.udp_port > 0 ==> hole_punching::way_to(request, own) == (PunchWay::Udp {
            peer: SocketAddr::V4 { ip, port: (request.udp_port as int % 65_536) as u16 },
        }),
        request.udp_port <= 0 ==> hole_punching::way_to(request, own) == (PunchWay::Tcp {
            peer: request.addr,
        }),
{
}

/// Any other peer goes through a relay where one of the two routers maps each
/// connection on its own, where a proxy is used, where a relay is asked for, and
/// where this side does not listen and the peer gave no port for UDP.
pub proof fn law_where_relays_are_needed(request: PunchRequest, own: OwnNetwork)
    requires
        request.addr matches SocketAddr::V4 { ip, .. } ==> ip.a != 10 && !(ip.a == 172 && 16 <= ip.b
            <= 31) && !(ip.a == 192 && ip.b == 168),
        request.nat_type == NatType::Symmetric || own.nat_type == NatType::Symmetric || own.proxy
            || request.force_relay || own.disable_tcp_listen && request.udp_port <= 0,
    ensures
        hole_punching::way_to(request, own) == PunchWay::Relay,
{
}

/// A message is a duplicate exactly where the last one was about the same peer and
/// came less than a tenth of a second before.
pub proof fn law_duplicates(last: LastMessage, addr: SocketAddr, now: u64)
    ensures
        last.repeats(addr, now) <==> last.addr == addr && (now < last.at || (now - last.at)
            / 1_000_000 < 100),
{
}

/// A peer that the server takes to be on the same local network and that is no
/// duplicate: IPv6 is tried beside the rest where the peer gave a port for it and no
/// proxy is used; the local address is told where the server is reached over IPv4,
/// no proxy is used, and this side listens or the peer's address is a private one.
/// A duplicate is passed over.
pub proof fn law_peers_nearby(
    ipv4: bool,
    last: LastMessage,
    addr: SocketAddr,
    addr_v6: SocketAddr,
    now: u64,
    proxy: bool,
    disable_tcp_listen: bool,
)
    ensures
        ({
            let asked = IntranetEvent::Asked { addr, addr_v6, now, proxy, disable_tcp_listen };
            let step = hole_punching::intranet_step(ipv4, last, asked);
            let private = match addr {
                SocketAddr::V4 { ip, .. } => ip.a == 10 || ip.a == 172 && 16 <= ip.b <= 31 || ip.a
                    == 192 && ip.b == 168,
                SocketAddr::V6 { .. } => false,
            };
            let port_v6 = match addr_v6 {
                SocketAddr::V4 { port, .. } => port,
                SocketAddr::V6 { port, .. } => port,
            };
            let fresh = last.addr != addr || last.at <= now && (now - last.at) / 1_000_000 >= 100;
            &&& !fresh ==> step == IntranetStep::Ignore
            &&& fresh ==> step is Proceed
            &&& fresh && (proxy || port_v6 == 0) ==> !step->ipv6
            &&& fresh && !proxy && port_v6 > 0 ==> step->ipv6
            &&& fresh && (proxy || !ipv4) ==> !step->direct
            &&& fresh && !proxy && ipv4 && !disable_tcp_listen ==> step->direct
            &&& fresh && !proxy && ipv4 && disable_tcp_listen ==> step->direct == private
        }),
{
}

/// What follows a step for such a peer: whether it came, where it was told the local
/// address; that it was not told, where it was not; and nothing after any other step.
/// A peer that came is left alone, and a relay is made for any other.
pub proof fn law_what_follows_for_peers_nearby(
    ipv4: bool,
    last: LastMessage,
    step: IntranetStep,
    came: bool,
)
    ensures
        step is Proceed && step->direct ==> hole_punching::intranet_next(step, came) == Some(
            IntranetEvent::Direct { ok: came },
        ),
        step is Proceed && !step->direct ==> hole_punching::intranet_next(step, came) == Some(
            IntranetEvent::NotTried,
        ),
        !(step is Proceed) ==> hole_punching::intranet_next(step, came) is None,
        hole_punching::intranet_step(ipv4, last, IntranetEvent::Direct { ok: true })
            == IntranetStep::Done,
        hole_punching::intranet_step(ipv4, last, IntranetEvent::Direct { ok: false })
            == IntranetStep::Relay,
        hole_punching::intranet_step(ipv4, last, IntranetEvent::NotTried) == IntranetStep::Relay,
{
}

/// The local address can be told to a peer exactly where it is one of IPv4, and it
/// is told as it is.
pub proof fn law_local_addresses_told(local: SocketAddr)
    ensures
        local is V4 ==> hole_punching::announced_local(local) == Some(local),
        local is V6 ==> hole_punching::announced_local(local) is None,
{
}

} // verus!
