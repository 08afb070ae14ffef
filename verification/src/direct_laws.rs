//! Which address is announced and which hosts are tried, said in terms of the
//! adapters, the peers and the texts that name them.

use vstd::prelude::*;

use crate::adapter;
use crate::addr::{IpAddr, Ipv4Addr, Ipv6Addr, SocketAddr};
use crate::addr_laws;
use crate::addr_text;
use crate::direct_access;
use crate::direct_access::LanAddressCandidate;
use crate::lan_peer;
use crate::text;
use crate::text_laws;

verus! {

// ---------------------------------------------------------------------------
// The address to announce
// ---------------------------------------------------------------------------

/// An address of 192.168.0.0/16 scores above every one of 10.0.0.0/8 or
/// 172.16.0.0/12 that is not on the default adapter, or only on a virtual one:
/// whatever gateways and hardware either of them has.
pub proof fn law_home_networks_come_first(c: LanAddressCandidate, d: LanAddressCandidate)
    requires
        c.address.a == 192 && c.address.b == 168,
        d.address.a == 10 || d.address.a == 172 && 16 <= d.address.b <= 31,
        !d.is_default || adapter::virtual_adapter(d.name@),
    ensures
        direct_access::score(c) > direct_access::score(d),
{
}

/// So where no real adapter is the default one, an address of 192.168.0.0/16 is
/// chosen if there is one.
pub proof fn law_home_networks_are_chosen(candidates: Seq<LanAddressCandidate>, i: int, home: int)
    requires
        direct_access::is_choice(candidates, i),
        forall|j: int|
            0 <= j < candidates.len() && (#[trigger] candidates[j]).is_default
                ==> adapter::virtual_adapter(candidates[j].name@),
        0 <= home < candidates.len(),
        candidates[home].address.a == 192 && candidates[home].address.b == 168,
    ensures
        candidates[i].address.a == 192 && candidates[i].address.b == 168,
{
    let c = candidates[i];
    let h = candidates[home];
    if !(c.address.a == 192 && c.address.b == 168) {
        law_home_networks_come_first(h, c);
    }
}

/// Where a real adapter that is the default one has a private address, the address
/// of such an adapter is chosen.
pub proof fn law_default_adapters_are_chosen(
    candidates: Seq<LanAddressCandidate>,
    i: int,
    default: int,
)
    requires
        direct_access::is_choice(candidates, i),
        0 <= default < candidates.len(),
        candidates[default].is_default,
        !adapter::virtual_adapter(candidates[default].name@),
        ({
            let ip = candidates[default].address;
            ip.a == 10 || ip.a == 172 && 16 <= ip.b <= 31 || ip.a == 192 && ip.b == 168
        }),
    ensures
        candidates[i].is_default,
        !adapter::virtual_adapter(candidates[i].name@),
{
    if !candidates[i].is_default || adapter::virtual_adapter(candidates[i].name@) {
        direct_access::law_default_adapter_wins(candidates[default], candidates[i]);
    }
}

/// The candidate that is chosen is private. No private one scores above it, and none
/// that comes later scores as much: of two that score the same the later one is
/// chosen, and what is not private makes no difference.
pub proof fn law_the_last_of_the_best_is_chosen(
    candidates: Seq<LanAddressCandidate>,
    i: int,
    j: int,
)
    requires
        0 <= j < candidates.len(),
        ({
            let ip = candidates[j].address;
            ip.a == 10 || ip.a == 172 && 16 <= ip.b <= 31 || ip.a == 192 && ip.b == 168
        }),
        direct_access::is_choice(candidates, i),
    ensures
        0 <= i < candidates.len(),
        ({
            let ip = candidates[i].address;
            ip.a == 10 || ip.a == 172 && 16 <= ip.b <= 31 || ip.a == 192 && ip.b == 168
        }),
        direct_access::score(candidates[j]) <= direct_access::score(candidates[i]),
        j > i ==> direct_access::score(candidates[j]) < direct_access::score(candidates[i]),
{
}

/// What each thing that is known of an adapter adds to its score, all else being the
/// same.
pub proof fn law_what_adds_to_a_score(c: LanAddressCandidate, d: LanAddressCandidate)
    ensures
        ({
            let more = direct_access::score(c) - direct_access::score(d);
            let same_name = adapter::virtual_adapter(c.name@) == adapter::virtual_adapter(d.name@);
            let same_place = c.address.a == d.address.a && c.address.b == d.address.b;
            let same_gateway = c.has_gateway == d.has_gateway;
            let same_hardware = c.is_physical == d.is_physical;
            let same_route = c.is_default == d.is_default;
            &&& same_name && same_place && same_gateway && same_hardware && same_route ==> more == 0
            &&& same_name && same_place && same_gateway && same_route && c.is_physical
                && !d.is_physical ==> more == 50
            &&& same_name && same_place && same_hardware && same_route && c.has_gateway
                && !d.has_gateway ==> more == 50
            &&& same_name && same_place && same_gateway && same_hardware && c.is_default
                && !d.is_default ==> more == if adapter::virtual_adapter(c.name@) {
                0int
            } else {
                10_000
            }
            &&& same_place && same_gateway && same_hardware && same_route
                && !adapter::virtual_adapter(c.name@) && adapter::virtual_adapter(d.name@)
                ==> more == if c.is_default {
                10_500int
            } else {
                500
            }
            &&& same_name && same_gateway && same_hardware && same_route && c.address.a == 192
                && c.address.b == 168 && d.address.a == 10 ==> more == 4_800
            &&& same_name && same_gateway && same_hardware && same_route && c.address.a == 10
                && d.address.a == 172 && 16 <= d.address.b <= 31 ==> more == 100
            &&& same_name && same_gateway && same_hardware && same_route && c.address.a == 172
                && 16 <= c.address.b <= 31 && d.address.a == 8 ==> more == 100
        }),
{
}

/// An address is public exactly where its first octet is from 1 to 223 and it is in
/// none of the private networks, not loopback and not link-local.
pub proof fn law_public_addresses(ip: Ipv4Addr)
    ensures
        direct_access::public_ipv4(ip) <==> {
            &&& 1 <= ip.a <= 223
            &&& ip.a != 10
            &&& ip.a != 127
            &&& !(ip.a == 169 && ip.b == 254)
            &&& !(ip.a == 172 && 16 <= ip.b <= 31)
            &&& !(ip.a == 192 && ip.b == 168)
        },
{
}

/// The private networks, by octets.
pub proof fn law_private_addresses(ip: Ipv4Addr)
    ensures
        ip.private() <==> ip.a == 10 || ip.a == 172 && 16 <= ip.b <= 31 || ip.a == 192 && ip.b
            == 168,
        Ipv4Addr::unspecified() == (Ipv4Addr { a: 0, b: 0, c: 0, d: 0 }),
{
}

/// The addresses that lead to no other machine, by their parts.
pub proof fn law_addresses_of_no_other_machine(v4: Ipv4Addr, v6: Ipv6Addr)
    ensures
        IpAddr::V4(v4).loopback() <==> v4.a == 127,
        IpAddr::V4(v4).unspecified() <==> v4.a == 0 && v4.b == 0 && v4.c == 0 && v4.d == 0,
        IpAddr::V6(v6).loopback() <==> v6.s0 == 0 && v6.s1 == 0 && v6.s2 == 0 && v6.s3 == 0 && v6.s4
            == 0 && v6.s5 == 0 && v6.s6 == 0 && v6.s7 == 1,
        IpAddr::V6(v6).unspecified() <==> v6.s0 == 0 && v6.s1 == 0 && v6.s2 == 0 && v6.s3 == 0
            && v6.s4 == 0 && v6.s5 == 0 && v6.s6 == 0 && v6.s7 == 0,
{
    let s = v6.segments();
    assert(s[0] == v6.s0 && s[1] == v6.s1 && s[2] == v6.s2 && s[3] == v6.s3 && s[4] == v6.s4 && s[5]
        == v6.s5 && s[6] == v6.s6 && s[7] == v6.s7);
    if v6.s0 == 0 && v6.s1 == 0 && v6.s2 == 0 && v6.s3 == 0 && v6.s4 == 0 && v6.s5 == 0 && v6.s6
        == 0 {
        if v6.s7 == 0 {
            assert(s == seq![0u16, 0, 0, 0, 0, 0, 0, 0]);
        }
        if v6.s7 == 1 {
            assert(s == seq![0u16, 0, 0, 0, 0, 0, 0, 1]);
        }
    }
}

/// An address with a port gives back both, and another port leaves the rest of it.
pub proof fn law_addresses_with_ports(ip: IpAddr, a: SocketAddr, port: u16)
    ensures
        SocketAddr::at(ip, port).ip_part() == ip,
        SocketAddr::at(ip, port).port_part() == port,
        SocketAddr::at(ip, port) matches SocketAddr::V6 { scope, .. } ==> scope == 0,
        a.at_port(port).ip_part() == a.ip_part(),
        a.at_port(port).port_part() == port,
        a.at_port(a.port_part()) == a,
        a matches SocketAddr::V4 { ip: v4, port: given } ==> a.ip_part() == IpAddr::V4(v4)
            && a.port_part() == given,
        a matches SocketAddr::V6 { ip: v6, port: given, .. } ==> a.ip_part() == IpAddr::V6(v6)
            && a.port_part() == given,
{
}

// ---------------------------------------------------------------------------
// The hosts to try
// ---------------------------------------------------------------------------

/// At an address the usual port is tried first, then each of the ten that follow it,
/// as far as there are ports.
pub proof fn law_eleven_ports_are_tried(ip: IpAddr, default_port: u16)
    ensures
        ({
            let hosts = direct_access::hosts_at(ip, default_port);
            &&& default_port <= 65_525 ==> hosts.len() == 11
            &&& default_port > 65_525 ==> hosts.len() == 65_536 - default_port
            &&& forall|i: int|
                0 <= i < hosts.len() ==> #[trigger] hosts[i] == addr_text::socket_text(
                    SocketAddr::at(ip, (default_port + i) as u16),
                )
        }),
{
}

/// White space around a peer's address or id makes no difference.
pub proof fn law_white_space_around_peers(
    peers: Seq<lan_peer::PeerRecord>,
    before: Seq<char>,
    peer: Seq<char>,
    behind: Seq<char>,
    default_port: u16,
)
    requires
        forall|i: int| 0 <= i < before.len() ==> text::is_space(#[trigger] before[i]),
        forall|i: int| 0 <= i < behind.len() ==> text::is_space(#[trigger] behind[i]),
    ensures
        direct_access::hosts_of_address(before + peer + behind, default_port)
            == direct_access::hosts_of_address(peer, default_port),
        direct_access::hosts_of_lan_peer(peers, before + peer + behind, default_port)
            == direct_access::hosts_of_lan_peer(peers, peer, default_port),
{
    text_laws::law_trimming_forgets_white_space(before, peer, behind);
}

/// A text that is no address, with a port or without, has no hosts.
pub proof fn law_other_texts_have_no_hosts(peer: Seq<char>, default_port: u16)
    requires
        addr_text::socket_of(text::trimmed(peer)) is None,
        addr_text::ip_of(text::trimmed(peer)) is None,
    ensures
        direct_access::hosts_of_address(peer, default_port).len() == 0,
{
}

/// An address at which another machine can be reached is any but those of this
/// machine itself and the one that stands for none; a text that is no address is
/// none either.
pub proof fn law_usable_addresses(s: Seq<char>, v4: Ipv4Addr, v6: Ipv6Addr)
    ensures
        addr_text::ip_of(s) is None ==> direct_access::usable_ip(s) is None,
        addr_text::ip_of(s) == Some(IpAddr::V4(v4)) ==> direct_access::usable_ip(s) == if v4.a
            == 127 || v4 == (Ipv4Addr { a: 0, b: 0, c: 0, d: 0 }) {
            None
        } else {
            Some(IpAddr::V4(v4))
        },
        addr_text::ip_of(s) == Some(IpAddr::V6(v6)) ==> direct_access::usable_ip(s) == if v6.s0 == 0
            && v6.s1 == 0 && v6.s2 == 0 && v6.s3 == 0 && v6.s4 == 0 && v6.s5 == 0 && v6.s6 == 0
            && v6.s7 <= 1 {
            None
        } else {
            Some(IpAddr::V6(v6))
        },
{
    reveal(direct_access::usable_ip);
    law_addresses_of_no_other_machine(v4, v6);
}

/// Peers are asked for hosts in the order in which they were found: more peers add
/// hosts at the end, and change none of those before.
pub proof fn law_hosts_come_in_the_order_of_peers(
    peers: Seq<lan_peer::PeerRecord>,
    more: Seq<lan_peer::PeerRecord>,
    peer: Seq<char>,
    default_port: u16,
)
    ensures
        direct_access::hosts_of_lan_peer(peers, peer, default_port).is_prefix_of(
            direct_access::hosts_of_lan_peer(peers + more, peer, default_port),
        ),
{
    let id = text::trimmed(peer);
    if id.len() > 0 {
        lemma_online_split(peers, more, id);
        lemma_hosts_prefix(
            direct_access::online_ips(peers, id),
            direct_access::online_ips(more, id),
            default_port,
        );
    }
}

/// The addresses of one peer are tried in the order in which it gave them.
pub proof fn law_hosts_come_in_the_order_of_addresses(
    peers: Seq<lan_peer::PeerRecord>,
    found: lan_peer::PeerRecord,
    more: Seq<(Seq<char>, Seq<char>)>,
    peer: Seq<char>,
    default_port: u16,
)
    ensures
        direct_access::hosts_of_lan_peer(peers.push(found), peer, default_port).is_prefix_of(
            direct_access::hosts_of_lan_peer(
                peers.push(lan_peer::PeerRecord { ip_mac: found.ip_mac + more, ..found }),
                peer,
                default_port,
            ),
        ),
{
    let id = text::trimmed(peer);
    let longer = lan_peer::PeerRecord { ip_mac: found.ip_mac + more, ..found };
    if id.len() > 0 {
        assert(peers.push(found).drop_last() == peers);
        assert(peers.push(longer).drop_last() == peers);
        let ips = direct_access::online_ips(peers.push(found), id);
        if found.online && found.id == id {
            lemma_usable_split(found.ip_mac, more);
            let known = direct_access::online_ips(peers, id);
            let a = direct_access::usable_ips(found.ip_mac);
            let b = direct_access::usable_ips(more);
            assert(known + (a + b) == known + a + b);
            lemma_hosts_prefix(ips, b, default_port);
        } else {
            assert(ips + Seq::empty() == ips);
            lemma_hosts_prefix(ips, Seq::empty(), default_port);
        }
    }
}

/// A peer with one address is tried there on the usual ports, in their order.
pub proof fn law_hosts_at_one_address(
    found: lan_peer::PeerRecord,
    ip: IpAddr,
    peer: Seq<char>,
    default_port: u16,
)
    requires
        text::trimmed(peer).len() > 0,
        found.online,
        found.id == text::trimmed(peer),
        found.ip_mac.len() == 1,
        direct_access::usable_ip(found.ip_mac[0].0) == Some(ip),
    ensures
        direct_access::hosts_of_lan_peer(seq![found], peer, default_port)
            == direct_access::hosts_at(ip, default_port),
{
    let id = text::trimmed(peer);
    let hosts = direct_access::hosts_at(ip, default_port);
    let one = seq![found];
    let none = Seq::<lan_peer::PeerRecord>::empty();
    assert(one.drop_last() == none);
    assert(direct_access::online_ips(none, id) == Seq::<IpAddr>::empty());
    let entries = found.ip_mac;
    assert(entries.drop_last() == Seq::<(Seq<char>, Seq<char>)>::empty());
    assert(direct_access::usable_ips(entries.drop_last()) == Seq::<IpAddr>::empty());
    assert(direct_access::usable_ips(entries) == seq![ip]);
    assert(direct_access::online_ips(one, id) == seq![ip]);
    let ips = seq![ip];
    assert(ips.drop_last() == Seq::<IpAddr>::empty());
    assert(direct_access::each_first(ips.drop_last()) == Seq::<IpAddr>::empty());
    assert(direct_access::each_first(ips) == ips);
    assert(direct_access::hosts_at_all(ips.drop_last(), default_port) == Seq::<Seq<char>>::empty());
    assert(direct_access::hosts_at_all(ips, default_port) == hosts);
    assert forall|i: int, j: int| 0 <= i < hosts.len() && 0 <= j < hosts.len() && i != j implies
        hosts[i] != hosts[j] by {
        let a = SocketAddr::at(ip, (default_port + i) as u16);
        let b = SocketAddr::at(ip, (default_port + j) as u16);
        addr_laws::law_socket_read_back(a);
        addr_laws::law_socket_read_back(b);
        assert(a != b);
    }
    lemma_distinct_stay(hosts);
}

proof fn lemma_distinct_stay<A>(s: Seq<A>)
    requires
        s.no_duplicates(),
    ensures
        direct_access::each_first(s) == s,
    decreases s.len(),
{
    if s.len() > 0 {
        let front = s.drop_last();
        lemma_distinct_stay(front);
        assert(s == front.push(s.last()));
        if front.contains(s.last()) {
            let i = choose|i: int| 0 <= i < front.len() && front[i] == s.last();
            assert(s[i] == s[s.len() - 1]);
        }
    }
}

proof fn lemma_first_prefix<A>(s: Seq<A>, more: Seq<A>)
    ensures
        direct_access::each_first(s).is_prefix_of(direct_access::each_first(s + more)),
    decreases more.len(),
{
    if more.len() == 0 {
        assert(s + more == s);
    } else {
        lemma_first_prefix(s, more.drop_last());
        assert((s + more).drop_last() == s + more.drop_last());
    }
}

/// The first of each, of some items and some more: those of the ones, then others.
proof fn lemma_first_split<A>(s: Seq<A>, more: Seq<A>) -> (rest: Seq<A>)
    ensures
        direct_access::each_first(s + more) == direct_access::each_first(s) + rest,
{
    lemma_first_prefix(s, more);
    let a = direct_access::each_first(s);
    let b = direct_access::each_first(s + more);
    let rest = b.skip(a.len() as int);
    assert(b == a + rest) by {
        assert forall|i: int| 0 <= i < b.len() implies b[i] == (a + rest)[i] by {
            if i < a.len() {
                assert(b.subrange(0, a.len() as int)[i] == b[i]);
            }
        }
        assert(b =~= a + rest);
    }
    rest
}

proof fn lemma_hosts_split(ips: Seq<IpAddr>, more: Seq<IpAddr>, default_port: u16)
    ensures
        direct_access::hosts_at_all(ips + more, default_port) == direct_access::hosts_at_all(
            ips,
            default_port,
        ) + direct_access::hosts_at_all(more, default_port),
    decreases more.len(),
{
    let a = direct_access::hosts_at_all(ips, default_port);
    if more.len() == 0 {
        assert(ips + more == ips);
        assert(a + direct_access::hosts_at_all(more, default_port) == a);
    } else {
        lemma_hosts_split(ips, more.drop_last(), default_port);
        assert((ips + more).drop_last() == ips + more.drop_last());
        assert((ips + more).last() == more.last());
    }
}

proof fn lemma_hosts_prefix(ips: Seq<IpAddr>, more: Seq<IpAddr>, default_port: u16)
    ensures
        direct_access::each_first(
            direct_access::hosts_at_all(direct_access::each_first(ips), default_port),
        ).is_prefix_of(
            direct_access::each_first(
                direct_access::hosts_at_all(direct_access::each_first(ips + more), default_port),
            ),
        ),
{
    let rest = lemma_first_split(ips, more);
    let first = direct_access::each_first(ips);
    lemma_hosts_split(first, rest, default_port);
    lemma_first_prefix(
        direct_access::hosts_at_all(first, default_port),
        direct_access::hosts_at_all(rest, default_port),
    );
}

proof fn lemma_online_split(
    peers: Seq<lan_peer::PeerRecord>,
    more: Seq<lan_peer::PeerRecord>,
    id: Seq<char>,
)
    ensures
        direct_access::online_ips(peers + more, id) == direct_access::online_ips(peers, id)
            + direct_access::online_ips(more, id),
    decreases more.len(),
{
    let a = direct_access::online_ips(peers, id);
    if more.len() == 0 {
        assert(peers + more == peers);
        assert(a + direct_access::online_ips(more, id) == a);
    } else {
        lemma_online_split(peers, more.drop_last(), id);
        assert((peers + more).drop_last() == peers + more.drop_last());
        assert((peers + more).last() == more.last());
    }
}

proof fn lemma_usable_split(
    entries: Seq<(Seq<char>, Seq<char>)>,
    more: Seq<(Seq<char>, Seq<char>)>,
)
    ensures
        direct_access::usable_ips(entries + more) == direct_access::usable_ips(entries)
            + direct_access::usable_ips(more),
    decreases more.len(),
{
    let a = direct_access::usable_ips(entries);
    if more.len() == 0 {
        assert(entries + more == entries);
        assert(a + direct_access::usable_ips(more) == a);
    } else {
        lemma_usable_split(entries, more.drop_last());
        assert((entries + more).drop_last() == entries + more.drop_last());
        assert((entries + more).last() == more.last());
    }
}

} // verus!
