//! Connections straight to a peer's address: which local address to announce,
//! and which addresses and ports to try for a peer.

use vstd::prelude::*;

use crate::adapter;
use crate::addr::{IpAddr, Ipv4Addr, SocketAddr};
use crate::addr_laws;
use crate::addr_text;
use crate::lan_peer;
use crate::lan_peer::DiscoveryPeer;
use crate::text;

verus! {

/// How many ports above the default one a peer may have fallen back to.
pub const DIRECT_PORT_RANGE: u16 = 10;

/// An address of this machine, with what is known of its adapter.
#[derive(Clone, Debug)]
pub struct LanAddressCandidate {
    pub address: Ipv4Addr,
    pub name: String,
    pub is_default: bool,
    pub has_gateway: bool,
    pub is_physical: bool,
}

/// The preference for the network that `ip` is in: the usual home networks
/// first, then those of companies.
pub open spec fn network_bonus(ip: Ipv4Addr) -> int {
    if ip.a == 192 && ip.b == 168 {
        5000
    } else if ip.a == 10 {
        200
    } else if ip.a == 172 && 16 <= ip.b <= 31 {
        100
    } else {
        0
    }
}

/// How well a candidate suits as the address on the local network. A virtual
/// adapter is marked down and gains nothing from being the default route.
pub open spec fn score(c: LanAddressCandidate) -> int {
    let is_virtual = adapter::virtual_adapter(c.name@);
    (if is_virtual {
        -500int
    } else {
        0
    }) + (if c.is_physical {
        50int
    } else {
        0
    }) + (if c.has_gateway {
        50int
    } else {
        0
    }) + (if c.is_default && !is_virtual {
        10_000int
    } else {
        0
    }) + network_bonus(c.address)
}

/// Whether candidate `i` is the one to take: private, with the highest score
/// of the private ones, and the last of those with that score.
pub open spec fn is_choice(candidates: Seq<LanAddressCandidate>, i: int) -> bool {
    &&& 0 <= i < candidates.len()
    &&& candidates[i].address.private()
    &&& forall|j: int|
        0 <= j < candidates.len() && (#[trigger] candidates[j]).address.private() ==> score(
            candidates[j],
        ) <= score(candidates[i]) && (j > i ==> score(candidates[j]) < score(candidates[i]))
}

/// The address of the candidate that suits best as the address on the local
/// network, if one of them is private.
pub fn choose_lan_ipv4(candidates: &[LanAddressCandidate]) -> (r: Option<Ipv4Addr>)
    ensures
        r is None <==> forall|i: int|
            0 <= i < candidates@.len() ==> !(#[trigger] candidates@[i]).address.private(),
        r matches Some(ip) ==> exists|i: int|
            #[trigger] is_choice(candidates@, i) && candidates@[i].address == ip,
{
    let n: usize = candidates.len();
    let mut best: Option<(usize, i32)> = None;
    let mut i: usize = 0;
    while i < n
        invariant
            i <= n == candidates@.len(),
            best is None ==> forall|j: int|
                0 <= j < i ==> !(#[trigger] candidates@[j]).address.private(),
            best matches Some((b, s)) ==> b < i && s == score(candidates@[b as int]) && is_choice(
                candidates@.take(i as int),
                b as int,
            ),
        decreases n - i,
    {
        let ghost seen = candidates@.take(i as int);
        let ghost next = candidates@.take(i + 1);
        assert(forall|j: int| 0 <= j < i ==> next[j] == #[trigger] seen[j]);
        assert(next[i as int] == candidates@[i as int]);
        if candidates[i].address.is_private() {
            let s: i32 = lan_candidate_score(&candidates[i]);
            let better = match best {
                None => true,
                Some((_, b)) => b <= s,
            };
            if better {
                assert(is_choice(next, i as int)) by {
                    assert forall|j: int|
                        0 <= j < next.len() && (#[trigger] next[j]).address.private() implies score(
                        next[j],
                    ) <= score(next[i as int]) && (j > i ==> score(next[j]) < score(
                        next[i as int],
                    )) by {
                        if j < i {
                            assert(next[j] == seen[j]);
                            assert(candidates@[j] == seen[j]);
                        }
                    }
                }
                best = Some((i, s));
            }
        }
        proof {
            if let Some((b, _)) = best {
                if b < i {
                    assert(is_choice(next, b as int)) by {
                        assert(seen[b as int] == next[b as int]);
                        assert forall|j: int|
                            0 <= j < next.len() && (
                            #[trigger] next[j]).address.private() implies score(next[j]) <= score(
                            next[b as int],
                        ) && (j > b ==> score(next[j]) < score(next[b as int])) by {
                            if j < i {
                                assert(next[j] == seen[j]);
                            }
                        }
                    }
                }
            }
        }
        i += 1;
    }
    assert(candidates@.take(n as int) == candidates@);
    match best {
        None => None,
        Some((b, _)) => {
            assert(is_choice(candidates@, b as int));
            Some(candidates[b].address)
        },
    }
}

/// The score of a candidate.
pub fn lan_candidate_score(candidate: &LanAddressCandidate) -> (r: i32)
    ensures
        r == score(*candidate),
{
    let is_virtual = adapter::is_virtual_adapter(candidate.name.as_str());
    let mut score: i32 = 0;
    if is_virtual {
        score -= 500;
    }
    if candidate.is_physical {
        score += 50;
    }
    if candidate.has_gateway {
        score += 50;
    }
    if candidate.is_default && !is_virtual {
        score += 10_000;
    }
    let ip = candidate.address;
    if ip.a == 192 && ip.b == 168 {
        score += 5000;
    } else if ip.a == 10 {
        score += 200;
    } else if ip.a == 172 && 16 <= ip.b && ip.b <= 31 {
        score += 100;
    }
    score
}

/// Whether `ip` is an address on the public internet.
pub open spec fn public_ipv4(ip: Ipv4Addr) -> bool {
    &&& !ip.private()
    &&& ip.a != 127
    &&& !(ip.a == 169 && ip.b == 254)
    &&& 0 < ip.a < 224
}

/// Whether `address` is an address on the public internet: not private, not
/// loopback, not link-local, not multicast, broadcast or unspecified, and not
/// in the networks that are kept for later use.
pub fn is_public_ipv4(address: Ipv4Addr) -> (r: bool)
    ensures
        r == public_ipv4(address),
{
    let first: u8 = address.a;
    !address.is_private() && !address.is_loopback() && !address.is_link_local()
        && !address.is_multicast() && !address.is_broadcast() && !address.is_unspecified() && first
        != 0 && first < 240
}

/// How many ports are tried from `default_port` on.
pub open spec fn port_count(default_port: u16) -> nat {
    if default_port <= u16::MAX - DIRECT_PORT_RANGE {
        (DIRECT_PORT_RANGE + 1) as nat
    } else {
        (u16::MAX - default_port + 1) as nat
    }
}

/// `ip` with each of the ports that a peer there may listen on: `default_port`
/// and those that follow it.
pub open spec fn hosts_at(ip: IpAddr, default_port: u16) -> Seq<Seq<char>> {
    Seq::new(
        port_count(default_port),
        |i: int| addr_text::socket_text(SocketAddr::at(ip, (default_port + i) as u16)),
    )
}

/// `ip` with each of the ports that a peer there may listen on.
pub fn hosts_for_ip(ip: IpAddr, default_port: u16) -> (r: Vec<String>)
    ensures
        text::strings(r@) == hosts_at(ip, default_port),
{
    let last: u16 = default_port.saturating_add(DIRECT_PORT_RANGE);
    let count: u16 = last - default_port + 1;
    let mut r: Vec<String> = Vec::new();
    let mut i: u16 = 0;
    while i < count
        invariant
            i <= count == port_count(default_port),
            default_port + count - 1 <= u16::MAX,
            text::strings(r@) == hosts_at(ip, default_port).take(i as int),
        decreases count - i,
    {
        let host = addr_text::socket_to_string(SocketAddr::new(ip, default_port + i));
        let ghost before = text::strings(r@);
        r.push(host);
        assert(text::strings(r@) == before.push(host@));
        assert(hosts_at(ip, default_port).take(i + 1) == hosts_at(ip, default_port).take(
            i as int,
        ).push(host@));
        i += 1;
    }
    assert(hosts_at(ip, default_port).take(count as int) == hosts_at(ip, default_port));
    r
}

/// The hosts to try for a peer that is given by its address: the address with
/// its port, or with each of the usual ports where it has none; none where
/// `peer` is no address.
pub open spec fn hosts_of_address(peer: Seq<char>, default_port: u16) -> Seq<Seq<char>> {
    let peer = text::trimmed(peer);
    match addr_text::socket_of(peer) {
        Some(a) => seq![addr_text::socket_text(a)],
        None => match addr_text::ip_of(peer) {
            Some(ip) => hosts_at(ip, default_port),
            None => Seq::empty(),
        },
    }
}

/// The hosts to try for a peer that is given by its address.
pub fn direct_peer_hosts(peer: &str, default_port: u16) -> (r: Vec<String>)
    ensures
        text::strings(r@) == hosts_of_address(peer@, default_port),
{
    let chars = text::chars_of(peer);
    let peer = text::trim(chars.as_slice());
    let mut r: Vec<String> = Vec::new();
    if let Some(a) = addr_text::read_socket(peer) {
        r.push(addr_text::socket_to_string(a));
        assert(text::strings(r@) == seq![addr_text::socket_text(a)]);
        return r;
    }
    if let Some(ip) = addr_text::read_ip(peer) {
        return hosts_for_ip(ip, default_port);
    }
    assert(text::strings(r@) == Seq::<Seq<char>>::empty());
    r
}

/// The address that `s` writes, if another machine can be reached there.
#[verifier::opaque]
pub open spec fn usable_ip(s: Seq<char>) -> Option<IpAddr> {
    match addr_text::ip_of(s) {
        Some(ip) => if ip.loopback() || ip.unspecified() {
            None
        } else {
            Some(ip)
        },
        None => None,
    }
}

/// The addresses in `entries` at which another machine can be reached.
pub open spec fn usable_ips(entries: Seq<(Seq<char>, Seq<char>)>) -> Seq<IpAddr>
    decreases entries.len(),
{
    if entries.len() == 0 {
        Seq::empty()
    } else {
        let before = usable_ips(entries.drop_last());
        match usable_ip(entries.last().0) {
            Some(ip) => before.push(ip),
            None => before,
        }
    }
}

/// The addresses of the peers named `id` that answered the last time.
pub open spec fn online_ips(peers: Seq<lan_peer::PeerRecord>, id: Seq<char>) -> Seq<IpAddr>
    decreases peers.len(),
{
    if peers.len() == 0 {
        Seq::empty()
    } else {
        let before = online_ips(peers.drop_last(), id);
        if peers.last().online && peers.last().id == id {
            before + usable_ips(peers.last().ip_mac)
        } else {
            before
        }
    }
}

/// The items of `s`, each once, in the order in which they come first.
pub open spec fn each_first<A>(s: Seq<A>) -> Seq<A>
    decreases s.len(),
{
    if s.len() == 0 {
        s
    } else {
        let before = each_first(s.drop_last());
        if before.contains(s.last()) {
            before
        } else {
            before.push(s.last())
        }
    }
}

/// The hosts to try at the addresses `ips`.
pub open spec fn hosts_at_all(ips: Seq<IpAddr>, default_port: u16) -> Seq<Seq<char>>
    decreases ips.len(),
{
    if ips.len() == 0 {
        Seq::empty()
    } else {
        hosts_at_all(ips.drop_last(), default_port) + hosts_at(ips.last(), default_port)
    }
}

/// The hosts to try for a peer that is given by its id and was found on the
/// local network: every address at which it answered the last time, each with
/// each of the usual ports.
pub open spec fn hosts_of_lan_peer(
    peers: Seq<lan_peer::PeerRecord>,
    peer: Seq<char>,
    default_port: u16,
) -> Seq<Seq<char>> {
    let id = text::trimmed(peer);
    if id.len() == 0 {
        Seq::empty()
    } else {
        each_first(hosts_at_all(each_first(online_ips(peers, id)), default_port))
    }
}

fn read_usable_ip(s: &str) -> (r: Option<IpAddr>)
    ensures
        r == usable_ip(s@),
{
    reveal(usable_ip);
    let chars = text::chars_of(s);
    match addr_text::read_ip(chars.as_slice()) {
        Some(ip) => if ip.is_loopback() || ip.is_unspecified() {
            None
        } else {
            Some(ip)
        },
        None => None,
    }
}

fn add_ip(ips: &mut Vec<IpAddr>, ip: IpAddr)
    ensures
        final(ips)@ == if old(ips)@.contains(ip) {
            old(ips)@
        } else {
            old(ips)@.push(ip)
        },
{
    let n: usize = ips.len();
    let mut i: usize = 0;
    while i < n
        invariant
            i <= n == ips@.len(),
            ips@ == old(ips)@,
            forall|j: int| 0 <= j < i ==> ips@[j] != ip,
        decreases n - i,
    {
        if ips[i] == ip {
            assert(ips@[i as int] == ip);
            return ;
        }
        i += 1;
    }
    ips.push(ip);
}

fn add_host(hosts: &mut Vec<String>, host: &String)
    ensures
        text::strings(final(hosts)@) == if text::strings(old(hosts)@).contains(host@) {
            text::strings(old(hosts)@)
        } else {
            text::strings(old(hosts)@).push(host@)
        },
{
    let n: usize = hosts.len();
    let mut i: usize = 0;
    let ghost texts = text::strings(hosts@);
    while i < n
        invariant
            i <= n == hosts@.len() == texts.len(),
            hosts@ == old(hosts)@,
            texts == text::strings(hosts@),
            forall|j: int| 0 <= j < i ==> texts[j] != host@,
        decreases n - i,
    {
        if hosts[i] == *host {
            assert(texts[i as int] == host@);
            return ;
        }
        i += 1;
    }
    let copy = host.clone();
    hosts.push(copy);
    assert(text::strings(hosts@) == texts.push(host@));
}

/// The hosts to try for a peer that is given by its id, among the peers that
/// were found on the local network.
pub fn lan_peer_hosts(peer: &str, default_port: u16, peers: &Vec<DiscoveryPeer>) -> (r: Vec<
    String,
>)
    ensures
        text::strings(r@) == hosts_of_lan_peer(lan_peer::records(peers@), peer@, default_port),
{
    let chars = text::chars_of(peer);
    let id = text::trim(chars.as_slice());
    let mut hosts: Vec<String> = Vec::new();
    if id.len() == 0 {
        assert(text::strings(hosts@) == Seq::<Seq<char>>::empty());
        return hosts;
    }
    let ghost known = lan_peer::records(peers@);
    let mut ips: Vec<IpAddr> = Vec::new();
    let n: usize = peers.len();
    let mut i: usize = 0;
    assert(known.take(0) == Seq::<lan_peer::PeerRecord>::empty());
    while i < n
        invariant
            i <= n == peers@.len(),
            known == lan_peer::records(peers@),
            ips@ == each_first(online_ips(known.take(i as int), id@)),
        decreases n - i,
    {
        let p = &peers[i];
        let ghost found = online_ips(known.take(i as int), id@);
        assert(known.take(i + 1).drop_last() == known.take(i as int));
        assert(known.take(i + 1).last() == p@);
        let named = text::same_as(p.id.as_str(), id);
        if p.online && named {
            let m: usize = p.ip_mac.len();
            let mut k: usize = 0;
            let ghost entries = p.ip_mac@;
            assert(entries.take(0) == Seq::<(Seq<char>, Seq<char>)>::empty());
            assert(found + usable_ips(entries.take(0)) == found);
            while k < m
                invariant
                    k <= m == entries.len(),
                    entries == p.ip_mac@,
                    ips@ == each_first(found + usable_ips(entries.take(k as int))),
                decreases m - k,
            {
                let ghost seen = found + usable_ips(entries.take(k as int));
                assert(entries.take(k + 1).drop_last() == entries.take(k as int));
                if let Some(ip) = read_usable_ip(p.ip_mac.ip(k)) {
                    assert(found + usable_ips(entries.take(k + 1)) == seen.push(ip));
                    assert(seen.push(ip).drop_last() == seen);
                    add_ip(&mut ips, ip);
                }
                k += 1;
            }
            assert(entries.take(m as int) == entries);
        }
        i += 1;
    }
    assert(known.take(n as int) == known);
    let count: usize = ips.len();
    let mut j: usize = 0;
    assert(ips@.take(0) == Seq::<IpAddr>::empty());
    assert(text::strings(hosts@) == Seq::<Seq<char>>::empty());
    while j < count
        invariant
            j <= count == ips@.len(),
            text::strings(hosts@) == each_first(hosts_at_all(ips@.take(j as int), default_port)),
        decreases count - j,
    {
        let ghost before = hosts_at_all(ips@.take(j as int), default_port);
        assert(ips@.take(j + 1).drop_last() == ips@.take(j as int));
        let more = hosts_for_ip(ips[j], default_port);
        let ghost all = hosts_at(ips@[j as int], default_port);
        let m: usize = more.len();
        let mut k: usize = 0;
        assert(before + all.take(0) == before);
        while k < m
            invariant
                k <= m == more@.len() == all.len(),
                all == text::strings(more@),
                text::strings(hosts@) == each_first(before + all.take(k as int)),
            decreases m - k,
        {
            let ghost seen = before + all.take(k as int);
            assert(before + all.take(k + 1) == seen.push(all[k as int]));
            assert(seen.push(all[k as int]).drop_last() == seen);
            add_host(&mut hosts, &more[k]);
            k += 1;
        }
        assert(all.take(m as int) == all);
        j += 1;
    }
    assert(ips@.take(count as int) == ips@);
    hosts
}

// ---------------------------------------------------------------------------
// Laws
// ---------------------------------------------------------------------------

/// The default adapter, if it is no virtual one, beats every adapter that is
/// virtual or not the default, whatever networks they are in.
pub proof fn law_default_adapter_wins(c: LanAddressCandidate, d: LanAddressCandidate)
    requires
        c.is_default,
        !adapter::virtual_adapter(c.name@),
        !d.is_default || adapter::virtual_adapter(d.name@),
    ensures
        score(c) > score(d),
{
}

/// Of two adapters in the same network that differ only in that one of them is
/// virtual, the other wins.
pub proof fn law_virtual_adapters_lose(c: LanAddressCandidate, d: LanAddressCandidate)
    requires
        !adapter::virtual_adapter(c.name@),
        adapter::virtual_adapter(d.name@),
        c.is_default == d.is_default,
        c.has_gateway == d.has_gateway,
        c.is_physical == d.is_physical,
        network_bonus(c.address) == network_bonus(d.address),
    ensures
        score(c) > score(d),
{
}

/// No address is both private and public.
pub proof fn law_private_is_not_public(ip: Ipv4Addr)
    ensures
        !(ip.private() && public_ipv4(ip)),
{
}

/// A peer that is given by an address with a port is tried there and nowhere
/// else; one that is given by an address alone, on each of the usual ports.
pub proof fn law_given_ports_are_kept(a: SocketAddr, ip: IpAddr, default_port: u16)
    ensures
        hosts_of_address(addr_text::socket_text(a), default_port) == seq![
            addr_text::socket_text(a),
        ],
        hosts_of_address(addr_text::ip_text(ip), default_port) == hosts_at(ip, default_port),
{
    addr_laws::law_addresses_are_trimmed(ip, a);
    addr_laws::law_socket_read_back(a);
    addr_laws::law_ip_is_no_socket(ip);
    addr_laws::law_ip_read_back(ip);
}

/// The same items, each once.
proof fn lemma_each_first<A>(s: Seq<A>)
    ensures
        each_first(s).no_duplicates(),
        forall|x: A| #[trigger] each_first(s).contains(x) <==> s.contains(x),
    decreases s.len(),
{
    if s.len() > 0 {
        let front = s.drop_last();
        let before = each_first(front);
        lemma_each_first(front);
        assert forall|x: A| #[trigger] each_first(s).contains(x) <==> s.contains(x) by {
            if s.contains(x) {
                let i = choose|i: int| 0 <= i < s.len() && s[i] == x;
                if i < front.len() {
                    assert(front[i] == x);
                    assert(before.contains(x));
                    let k = choose|k: int| 0 <= k < before.len() && before[k] == x;
                    assert(each_first(s)[k] == x);
                } else if !before.contains(s.last()) {
                    assert(each_first(s)[before.len() as int] == x);
                }
            }
            if each_first(s).contains(x) {
                let k = choose|k: int| 0 <= k < each_first(s).len() && each_first(s)[k] == x;
                if k < before.len() {
                    assert(before[k] == x);
                    assert(before.contains(x));
                    let i = choose|i: int| 0 <= i < front.len() && front[i] == x;
                    assert(s[i] == x);
                } else {
                    assert(s.last() == x);
                }
            }
        }
    }
}

/// Whether `host` is one of the usual hosts at the address `ip`.
pub open spec fn is_host_at(host: Seq<char>, ip: IpAddr, default_port: u16) -> bool {
    exists|port: u16|
        default_port <= port && port - default_port <= DIRECT_PORT_RANGE && host == (
        #[trigger] addr_text::socket_text(SocketAddr::at(ip, port)))
}

/// Whether the address `ip` stands among `entries`, and another machine can be
/// reached there.
pub open spec fn lists_usable(entries: Seq<(Seq<char>, Seq<char>)>, ip: IpAddr) -> bool {
    exists|k: int| 0 <= k < entries.len() && usable_ip((#[trigger] entries[k]).0) == Some(ip)
}

/// Whether a peer that is named `id` and answered the last time gave the address
/// `ip`, and another machine can be reached there.
pub open spec fn gave_address(
    peers: Seq<lan_peer::PeerRecord>,
    id: Seq<char>,
    ip: IpAddr,
) -> bool {
    exists|i: int|
        0 <= i < peers.len() && (#[trigger] peers[i]).online && peers[i].id == id && lists_usable(
            peers[i].ip_mac,
            ip,
        )
}

proof fn lemma_hosts_at(ip: IpAddr, default_port: u16, host: Seq<char>)
    ensures
        hosts_at(ip, default_port).contains(host) <==> is_host_at(host, ip, default_port),
{
    let hosts = hosts_at(ip, default_port);
    if hosts.contains(host) {
        let i = choose|i: int| 0 <= i < hosts.len() && hosts[i] == host;
        let port = (default_port + i) as u16;
        assert(host == addr_text::socket_text(SocketAddr::at(ip, port)));
    }
    if is_host_at(host, ip, default_port) {
        let port = choose|port: u16|
            default_port <= port && port - default_port <= DIRECT_PORT_RANGE && host == (
            #[trigger] addr_text::socket_text(SocketAddr::at(ip, port)));
        assert(hosts[port - default_port] == host);
    }
}

proof fn lemma_hosts_at_all(ips: Seq<IpAddr>, default_port: u16, host: Seq<char>)
    ensures
        hosts_at_all(ips, default_port).contains(host) <==> exists|ip: IpAddr| #[trigger]
            ips.contains(ip) && is_host_at(host, ip, default_port),
    decreases ips.len(),
{
    let all = hosts_at_all(ips, default_port);
    if ips.len() > 0 {
        let front = ips.drop_last();
        let before = hosts_at_all(front, default_port);
        let more = hosts_at(ips.last(), default_port);
        lemma_hosts_at_all(front, default_port, host);
        lemma_hosts_at(ips.last(), default_port, host);
        if all.contains(host) {
            let i = choose|i: int| 0 <= i < all.len() && all[i] == host;
            if i < before.len() {
                assert(before[i] == host);
                let ip = choose|ip: IpAddr| #[trigger]
                    front.contains(ip) && is_host_at(host, ip, default_port);
                let k = choose|k: int| 0 <= k < front.len() && front[k] == ip;
                assert(ips[k] == ip);
                assert(ips.contains(ip));
            } else {
                assert(more[i - before.len()] == host);
                assert(ips.contains(ips.last()));
            }
        }
        if exists|ip: IpAddr| #[trigger] ips.contains(ip) && is_host_at(host, ip, default_port) {
            let ip = choose|ip: IpAddr| #[trigger]
                ips.contains(ip) && is_host_at(host, ip, default_port);
            let k = choose|k: int| 0 <= k < ips.len() && ips[k] == ip;
            if k < front.len() {
                assert(front[k] == ip);
                assert(front.contains(ip));
                let i = choose|i: int| 0 <= i < before.len() && before[i] == host;
                assert(all[i] == host);
            } else {
                let i = choose|i: int| 0 <= i < more.len() && more[i] == host;
                assert(all[before.len() + i] == host);
            }
        }
    }
}

proof fn lemma_usable_ips(entries: Seq<(Seq<char>, Seq<char>)>, ip: IpAddr)
    ensures
        usable_ips(entries).contains(ip) <==> lists_usable(entries, ip),
    decreases entries.len(),
{
    if entries.len() > 0 {
        let front = entries.drop_last();
        let before = usable_ips(front);
        let all = usable_ips(entries);
        lemma_usable_ips(front, ip);
        if all.contains(ip) {
            let i = choose|i: int| 0 <= i < all.len() && all[i] == ip;
            if i < before.len() {
                assert(before[i] == ip);
                let k = choose|k: int|
                    0 <= k < front.len() && usable_ip((#[trigger] front[k]).0) == Some(ip);
                assert(entries[k] == front[k]);
            } else {
                assert(usable_ip(entries[entries.len() - 1].0) == Some(ip));
            }
        }
        if lists_usable(entries, ip) {
            let k = choose|k: int|
                0 <= k < entries.len() && usable_ip((#[trigger] entries[k]).0) == Some(ip);
            if k < front.len() {
                assert(front[k] == entries[k]);
                let i = choose|i: int| 0 <= i < before.len() && before[i] == ip;
                assert(all[i] == ip);
            } else {
                assert(all[before.len() as int] == ip);
            }
        }
    }
}

proof fn lemma_online_ips(peers: Seq<lan_peer::PeerRecord>, id: Seq<char>, ip: IpAddr)
    ensures
        online_ips(peers, id).contains(ip) <==> gave_address(peers, id, ip),
    decreases peers.len(),
{
    if peers.len() > 0 {
        let front = peers.drop_last();
        let before = online_ips(front, id);
        let all = online_ips(peers, id);
        let last = peers.last();
        let more = usable_ips(last.ip_mac);
        lemma_online_ips(front, id, ip);
        lemma_usable_ips(last.ip_mac, ip);
        assert(peers[peers.len() - 1] == last);
        if all.contains(ip) {
            let j = choose|j: int| 0 <= j < all.len() && all[j] == ip;
            if j < before.len() {
                assert(before[j] == ip);
                let i = choose|i: int|
                    0 <= i < front.len() && (#[trigger] front[i]).online && front[i].id == id
                        && lists_usable(front[i].ip_mac, ip);
                assert(peers[i] == front[i]);
            } else {
                assert(more[j - before.len()] == ip);
            }
        }
        if gave_address(peers, id, ip) {
            let i = choose|i: int|
                0 <= i < peers.len() && (#[trigger] peers[i]).online && peers[i].id == id
                    && lists_usable(peers[i].ip_mac, ip);
            if i < front.len() {
                assert(front[i] == peers[i]);
                assert(gave_address(front, id, ip));
                let j = choose|j: int| 0 <= j < before.len() && before[j] == ip;
                assert(all[j] == ip);
            } else {
                let j = choose|j: int| 0 <= j < more.len() && more[j] == ip;
                assert(all[before.len() + j] == ip);
            }
        }
    }
}

/// The hosts to try for a peer on the local network are the usual hosts at the
/// addresses that it gave when it answered the last time: all of them, no others,
/// and none twice.
pub proof fn law_lan_hosts_are_those_that_answered(
    peers: Seq<lan_peer::PeerRecord>,
    peer: Seq<char>,
    default_port: u16,
    host: Seq<char>,
)
    requires
        text::trimmed(peer).len() > 0,
    ensures
        hosts_of_lan_peer(peers, peer, default_port).contains(host) <==> exists|ip: IpAddr|
            #[trigger] gave_address(peers, text::trimmed(peer), ip) && is_host_at(
                host,
                ip,
                default_port,
            ),
        hosts_of_lan_peer(peers, peer, default_port).no_duplicates(),
{
    let id = text::trimmed(peer);
    let online = online_ips(peers, id);
    let ips = each_first(online);
    let all = hosts_at_all(ips, default_port);
    lemma_each_first(online);
    lemma_each_first(all);
    lemma_hosts_at_all(ips, default_port, host);
    if all.contains(host) {
        let ip = choose|ip: IpAddr| #[trigger]
            ips.contains(ip) && is_host_at(host, ip, default_port);
        lemma_online_ips(peers, id, ip);
        assert(gave_address(peers, id, ip));
    }
    if exists|ip: IpAddr| #[trigger]
        gave_address(peers, id, ip) && is_host_at(host, ip, default_port) {
        let ip = choose|ip: IpAddr| #[trigger]
            gave_address(peers, id, ip) && is_host_at(host, ip, default_port);
        lemma_online_ips(peers, id, ip);
        assert(ips.contains(ip));
    }
    assert(hosts_of_lan_peer(peers, peer, default_port) == each_first(all));
}

/// A peer whose id is empty or not known, or that did not answer the last time,
/// has no hosts.
pub proof fn law_silent_peers_have_no_hosts(
    peers: Seq<lan_peer::PeerRecord>,
    peer: Seq<char>,
    default_port: u16,
)
    requires
        text::trimmed(peer).len() == 0 || forall|i: int|
            0 <= i < peers.len() ==> (#[trigger] peers[i]).id != text::trimmed(peer)
                || !peers[i].online,
    ensures
        hosts_of_lan_peer(peers, peer, default_port) == Seq::<Seq<char>>::empty(),
{
    if text::trimmed(peer).len() > 0 {
        lemma_no_online_ips(peers, text::trimmed(peer));
    }
}

proof fn lemma_no_online_ips(peers: Seq<lan_peer::PeerRecord>, id: Seq<char>)
    requires
        forall|i: int|
            0 <= i < peers.len() ==> (#[trigger] peers[i]).id != id || !peers[i].online,
    ensures
        online_ips(peers, id) == Seq::<IpAddr>::empty(),
    decreases peers.len(),
{
    if peers.len() > 0 {
        let front = peers.drop_last();
        assert forall|i: int| 0 <= i < front.len() implies (#[trigger] front[i]).id != id
            || !front[i].online by {
            assert(front[i] == peers[i]);
        }
        lemma_no_online_ips(front, id);
        assert(peers[peers.len() - 1] == peers.last());
    }
}

} // verus!
