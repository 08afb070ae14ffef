//! What a round of discovery sends and what becomes of the answers, said in terms of
//! the adapters, the messages and the list of known peers.

use vstd::prelude::*;

use crate::adapter;
use crate::adapter::Interface;
use crate::addr::{IpAddr, Ipv4Addr, Ipv6Addr, SocketAddr};
use crate::lan;
use crate::lan::{DiscoveryRound, DiscoverySetup};
use crate::lan_peer;
use crate::lan_peer::{DiscoveryPeer, PeerRecord};
use crate::replies;
use crate::replies::{PeerBook, ResponseWaiter};
use crate::sweep;
use crate::text;
use crate::text_laws;
use crate::wake;
use crate::wake::WakePacket;

verus! {

// ---------------------------------------------------------------------------
// Adapters
// ---------------------------------------------------------------------------

/// An adapter is virtual exactly where its name, in small letters, has one of these
/// words for a part.
pub proof fn law_virtual_names(name: Seq<char>)
    ensures
        adapter::virtual_adapter(name) <==> {
            let s = text::lowercase(name);
            ||| text::has_part(s, "virtual"@)
            ||| text::has_part(s, "vethernet"@)
            ||| text::has_part(s, "vmware"@)
            ||| text::has_part(s, "vbox"@)
            ||| text::has_part(s, "hyper-v"@)
            ||| text::has_part(s, "wsl"@)
            ||| text::has_part(s, "docker"@)
            ||| text::has_part(s, "tailscale"@)
            ||| text::has_part(s, "wireguard"@)
            ||| text::has_part(s, "vpn"@)
            ||| text::has_part(s, "loopback"@)
            ||| text::has_part(s, "bluetooth"@)
            ||| text::has_part(s, "bt"@)
            ||| text::has_part(s, "pseudo"@)
            ||| text::has_part(s, "tun"@)
            ||| text::has_part(s, "tap"@)
            ||| text::has_part(s, "ppp"@)
            ||| text::has_part(s, "teredo"@)
            ||| text::has_part(s, "6to4"@)
        },
{
    let s = text::lowercase(name);
    reveal_strlit("virtual");
    reveal_strlit("virtualbox");
    reveal_strlit("tun");
    reveal_strlit("tunnel");
    reveal_strlit("tap");
    reveal_strlit("isatap");
    if text::has_part(s, "virtualbox"@) {
        assert("virtualbox"@.subrange(0, 7) == "virtual"@);
        lemma_part_of_part(s, "virtualbox"@, "virtual"@, 0);
    }
    if text::has_part(s, "tunnel"@) {
        assert("tunnel"@.subrange(0, 3) == "tun"@);
        lemma_part_of_part(s, "tunnel"@, "tun"@, 0);
    }
    if text::has_part(s, "isatap"@) {
        assert("isatap"@.subrange(3, 6) == "tap"@);
        lemma_part_of_part(s, "isatap"@, "tap"@, 3);
    }
}

proof fn lemma_part_of_part(s: Seq<char>, whole: Seq<char>, part: Seq<char>, at: int)
    requires
        text::has_part(s, whole),
        0 <= at,
        at + part.len() <= whole.len(),
        whole.subrange(at, at + part.len()) == part,
    ensures
        text::has_part(s, part),
{
    let (before, behind) = text_laws::lemma_part_splits(s, whole);
    let left = before + whole.take(at);
    let right = whole.skip(at + part.len()) + behind;
    assert(whole == whole.take(at) + part + whole.skip(at + part.len()));
    assert(s == left + part + right);
    text_laws::law_parts_are_found(left, part, right);
}

/// An adapter has the IPv4 addresses and the IPv6 addresses that it is listed with.
pub proof fn law_addresses_of_an_adapter(interface: Interface, v4: Ipv4Addr, v6: Ipv6Addr, i: int)
    ensures
        0 <= i < interface.ipv4@.len() && interface.ipv4@[i].addr == v4 ==> lan::has_ip(
            interface,
            IpAddr::V4(v4),
        ),
        0 <= i < interface.ipv6@.len() && interface.ipv6@[i] == v6 ==> lan::has_ip(
            interface,
            IpAddr::V6(v6),
        ),
        (forall|j: int|
            0 <= j < interface.ipv4@.len() ==> (#[trigger] interface.ipv4@[j]).addr != v4)
            ==> !lan::has_ip(interface, IpAddr::V4(v4)),
        (forall|j: int| 0 <= j < interface.ipv6@.len() ==> #[trigger] interface.ipv6@[j] != v6)
            ==> !lan::has_ip(interface, IpAddr::V6(v6)),
{
}

/// The hardware address for an address is that of the first adapter with that address
/// which has a hardware address.
pub proof fn law_hardware_address_of_the_first(interfaces: Seq<Interface>, ip: IpAddr, i: int)
    requires
        0 <= i < interfaces.len(),
        lan::has_ip(interfaces[i], ip),
        interfaces[i].mac is Some,
        forall|j: int|
            0 <= j < i ==> !lan::has_ip(#[trigger] interfaces[j], ip) || interfaces[j].mac is None,
    ensures
        lan::mac_at(interfaces, ip) == interfaces[i].mac,
        lan::mac_text_at(interfaces, ip) == lan::mac_text(interfaces[i].mac->0@),
    decreases i,
{
    if i > 0 {
        let rest = interfaces.drop_first();
        assert(!lan::has_ip(interfaces[0], ip) || interfaces[0].mac is None);
        assert(rest[i - 1] == interfaces[i]);
        assert forall|j: int| 0 <= j < i - 1 implies !lan::has_ip(#[trigger] rest[j], ip)
            || rest[j].mac is None by {
            assert(rest[j] == interfaces[j + 1]);
        }
        law_hardware_address_of_the_first(rest, ip, i - 1);
    }
}

/// Where there is no such adapter there is no hardware address, and an empty text
/// stands for it.
pub proof fn law_no_hardware_address(interfaces: Seq<Interface>, ip: IpAddr)
    requires
        forall|j: int|
            0 <= j < interfaces.len() ==> !lan::has_ip(#[trigger] interfaces[j], ip)
                || interfaces[j].mac is None,
    ensures
        lan::mac_at(interfaces, ip) is None,
        lan::mac_text_at(interfaces, ip).len() == 0,
    decreases interfaces.len(),
{
    if interfaces.len() > 0 {
        let rest = interfaces.drop_first();
        assert(!lan::has_ip(interfaces[0], ip) || interfaces[0].mac is None);
        assert forall|j: int| 0 <= j < rest.len() implies !lan::has_ip(#[trigger] rest[j], ip)
            || rest[j].mac is None by {
            assert(rest[j] == interfaces[j + 1]);
        }
        law_no_hardware_address(rest, ip);
    }
}

/// A hardware address is written as two digits for each byte, with a colon behind
/// every byte but the last.
pub proof fn law_hardware_address_text(m: Seq<u8>, k: int)
    requires
        m.len() == 6,
        0 <= k < 6,
    ensures
        lan::mac_text(m).len() == 17,
        lan::mac_text(m)[3 * k] == text::digit_char((m[k] / 16) as nat),
        lan::mac_text(m)[3 * k + 1] == text::digit_char((m[k] % 16) as nat),
        k < 5 ==> lan::mac_text(m)[3 * k + 2] == ':',
{
}

/// The addresses of this machine are those of each adapter, one adapter after the
/// other.
pub proof fn law_addresses_adapter_by_adapter(first: Seq<Interface>, more: Seq<Interface>)
    ensures
        lan::adapter_addrs(first + more) == lan::adapter_addrs(first) + lan::adapter_addrs(more),
    decreases more.len(),
{
    let a = lan::adapter_addrs(first);
    if more.len() == 0 {
        assert(first + more == first);
        assert(a + lan::adapter_addrs(more) == a);
    } else {
        law_addresses_adapter_by_adapter(first, more.drop_last());
        assert((first + more).drop_last() == first + more.drop_last());
        assert((first + more).last() == more.last());
    }
}

/// The addresses of one adapter are all that it has, in their order: private or not,
/// virtual or not.
pub proof fn law_addresses_of_one_adapter(interface: Interface, i: int)
    requires
        0 <= i < interface.ipv4@.len(),
    ensures
        lan::adapter_addrs(seq![interface]).len() == interface.ipv4@.len(),
        lan::adapter_addrs(seq![interface])[i] == interface.ipv4@[i].addr,
{
    let one = seq![interface];
    assert(one.drop_last() == Seq::<Interface>::empty());
    assert(lan::adapter_addrs(one.drop_last()) == Seq::<Ipv4Addr>::empty());
    assert(lan::adapter_addrs(one) == lan::net_addrs(interface.ipv4@));
}

// ---------------------------------------------------------------------------
// Rounds
// ---------------------------------------------------------------------------

/// A round of discovery asks everybody at 255.255.255.255, port 21119, and waits as
/// long as it is told. Peers that do not answer count as gone exactly where it waits
/// three seconds or more. It sweeps where it is told to, and probes nobody where not.
pub proof fn law_what_a_round_does(
    round: DiscoveryRound,
    overall: u64,
    sweep: bool,
    setup: DiscoverySetup,
)
    requires
        lan::is_round(round, overall, sweep, setup),
    ensures
        round.broadcast == (SocketAddr::V4 {
            ip: Ipv4Addr { a: 255, b: 255, c: 255, d: 255 },
            port: 21_119,
        }),
        round.port == 21_119,
        round.window == overall,
        round.mark_stale_offline <==> overall >= 3_000_000_000,
        sweep ==> sweep::sweeps(
            round.routes@,
            sweep::sweep_areas(setup.interfaces@, setup.extra@),
        ),
        !sweep ==> round.routes@.len() == 0,
{
}

// ---------------------------------------------------------------------------
// Answers on one socket
// ---------------------------------------------------------------------------

/// The address of this machine towards a peer is asked of the routing table exactly
/// where the socket has none of its own: none that is known, or the one that stands
/// for all.
pub proof fn law_when_the_route_is_asked(waiter: ResponseWaiter, v4: Ipv4Addr, v6: Ipv6Addr)
    ensures
        waiter.local is None ==> waiter.by_route(),
        waiter.local == Some(IpAddr::V4(v4)) ==> (waiter.by_route() <==> v4.a == 0 && v4.b == 0
            && v4.c == 0 && v4.d == 0),
        waiter.local == Some(IpAddr::V6(v6)) ==> (waiter.by_route() <==> v6.s0 == 0 && v6.s1 == 0
            && v6.s2 == 0 && v6.s3 == 0 && v6.s4 == 0 && v6.s5 == 0 && v6.s6 == 0 && v6.s7 == 0),
{
    crate::direct_laws::law_addresses_of_no_other_machine(v4, v6);
}

/// The hardware address that this machine compares answers with: by the route, that
/// of the adapter to which it leads, or none; else that of the socket's own address,
/// which is looked up once.
pub proof fn law_own_hardware_address(
    waiter: ResponseWaiter,
    route: Option<IpAddr>,
    interfaces: Seq<Interface>,
    ip: IpAddr,
)
    ensures
        ({
            let own = waiter.local_mac(route, interfaces);
            &&& waiter.by_route() && route is None ==> own.len() == 0
            &&& waiter.by_route() && route == Some(ip) ==> own == lan::mac_text_at(interfaces, ip)
            &&& !waiter.by_route() && waiter.mac is Some ==> own == waiter.mac->0@
            &&& !waiter.by_route() && waiter.mac is None && waiter.local == Some(ip) ==> own
                == lan::mac_text_at(interfaces, ip)
        }),
{
}

// ---------------------------------------------------------------------------
// The list of known peers
// ---------------------------------------------------------------------------

/// What is known of a list of peers is what is known of each, in their order.
pub proof fn law_records_one_by_one(peers: Seq<DiscoveryPeer>, i: int)
    requires
        0 <= i < peers.len(),
    ensures
        lan_peer::records(peers).len() == peers.len(),
        lan_peer::records(peers)[i].id == peers[i].id@,
        lan_peer::records(peers)[i].ip_mac == peers[i].ip_mac@,
        lan_peer::records(peers)[i].username == peers[i].username@,
        lan_peer::records(peers)[i].hostname == peers[i].hostname@,
        lan_peer::records(peers)[i].platform == peers[i].platform@,
        lan_peer::records(peers)[i].online == peers[i].online,
{
}

/// Marking peers as gone changes nothing else of them.
pub proof fn law_marked_peers(known: Seq<PeerRecord>, i: int)
    requires
        0 <= i < known.len(),
    ensures
        replies::all_offline(known).len() == known.len(),
        !replies::all_offline(known)[i].online,
        replies::all_offline(known)[i].id == known[i].id,
        replies::all_offline(known)[i].ip_mac == known[i].ip_mac,
        replies::all_offline(known)[i].username == known[i].username,
        replies::all_offline(known)[i].hostname == known[i].hostname,
        replies::all_offline(known)[i].platform == known[i].platform,
{
}

/// The first flag that is set is found, and none where none is.
pub proof fn law_first_flag(flags: Seq<bool>, i: int)
    ensures
        0 <= i < flags.len() && flags[i] && (forall|j: int| 0 <= j < i ==> !#[trigger] flags[j])
            ==> replies::first_set(flags) == Some(i),
        (forall|j: int| 0 <= j < flags.len() ==> !#[trigger] flags[j]) ==> replies::first_set(flags)
            is None,
    decreases flags.len(),
{
    if flags.len() > 0 {
        let front = flags.drop_last();
        law_first_flag(front, i);
        assert(forall|j: int| 0 <= j < front.len() ==> #[trigger] front[j] == flags[j]);
        if 0 <= i < flags.len() && flags[i] && (forall|j: int|
            0 <= j < i ==> !#[trigger] flags[j]) {
            if i < front.len() {
                assert(front[i]);
            } else {
                assert forall|j: int| 0 <= j < front.len() implies !#[trigger] front[j] by {
                    assert(!flags[j]);
                }
            }
        }
        if forall|j: int| 0 <= j < flags.len() ==> !#[trigger] flags[j] {
            assert forall|j: int| 0 <= j < front.len() implies !#[trigger] front[j] by {
                assert(!flags[j]);
            }
            assert(!flags[flags.len() - 1]);
        }
    }
}

/// A peer that answers for the first time in a round is listed as it answered, with
/// nothing kept of what was known before. One that answers again keeps the addresses
/// of the answer before. Either way it stands first and the others follow in their
/// order, without the record that it had.
pub proof fn law_list_after_an_answer(
    known: Seq<PeerRecord>,
    peer: PeerRecord,
    i: int,
    again: bool,
)
    requires
        0 <= i < known.len(),
    ensures
        ({
            let new = replies::after_answer(known, peer, None, again);
            let next = replies::after_answer(known, peer, Some(i), again);
            &&& new == seq![peer] + known
            &&& next.len() == known.len()
            &&& forall|j: int| 0 <= j < i ==> #[trigger] next[j + 1] == known[j]
            &&& forall|j: int| i < j < known.len() ==> next[j] == #[trigger] known[j]
            &&& !again ==> next[0] == peer
            &&& again ==> {
                &&& next[0].id == peer.id
                &&& next[0].username == peer.username
                &&& next[0].hostname == peer.hostname
                &&& next[0].platform == peer.platform
                &&& next[0].online
                &&& next[0].ip_mac == lan_peer::with_entries(peer.ip_mac, known[i].ip_mac)
            }
        }),
{
}

/// What a list of known peers becomes when it takes an answer: the record of the same
/// peer, if one is, gives way to the answer.
pub proof fn law_taking_an_answer(
    before: PeerBook,
    after: PeerBook,
    peer: PeerRecord,
    same: Seq<bool>,
    i: int,
)
    requires
        replies::took(before, after, peer, same),
        same.len() == before.peers@.len(),
    ensures
        (forall|j: int| 0 <= j < same.len() ==> !#[trigger] same[j]) ==> after.known() == seq![peer]
            + before.known(),
        0 <= i < same.len() && same[i] && (forall|j: int| 0 <= j < i ==> !#[trigger] same[j])
            && !before.has_answered(peer.id) ==> after.known() == seq![peer]
            + before.known().remove(i),
        0 <= i < same.len() && same[i] && (forall|j: int| 0 <= j < i ==> !#[trigger] same[j])
            && before.has_answered(peer.id) ==> after.known() == seq![
            PeerRecord {
                ip_mac: lan_peer::with_entries(peer.ip_mac, before.known()[i].ip_mac),
                online: true,
                ..peer
            },
        ] + before.known().remove(i),
        after.has_answered(peer.id),
        forall|id: Seq<char>|
            id != peer.id ==> (#[trigger] after.has_answered(id) <==> before.has_answered(id)),
{
    law_first_flag(same, i);
    assert(after.has_answered(peer.id) <==> peer.id == peer.id || before.has_answered(peer.id));
}

/// A peer has answered in a round exactly where its id was taken down.
pub proof fn law_who_has_answered(book: PeerBook, id: Seq<char>, i: int)
    ensures
        0 <= i < book.answered@.len() && book.answered@[i]@ == id ==> book.has_answered(id),
        (forall|j: int| 0 <= j < book.answered@.len() ==> (#[trigger] book.answered@[j])@ != id)
            ==> !book.has_answered(id),
        book.known() == lan_peer::records(book.peers@),
{
    let ids = text::strings(book.answered@);
    if 0 <= i < book.answered@.len() && book.answered@[i]@ == id {
        assert(ids[i] == id);
    }
    if book.has_answered(id) {
        let k = choose|k: int| 0 <= k < ids.len() && ids[k] == id;
        assert(book.answered@[k]@ == id);
    }
}

// ---------------------------------------------------------------------------
// Addresses of one peer
// ---------------------------------------------------------------------------

/// An address that is listed gets the new hardware address in its place.
pub proof fn law_listed_addresses_are_replaced(
    s: Seq<(Seq<char>, Seq<char>)>,
    i: int,
    mac: Seq<char>,
)
    requires
        0 <= i < s.len(),
        forall|j: int| 0 <= j < i ==> (#[trigger] s[j]).0 != s[i].0,
    ensures
        lan_peer::with_entry(s, s[i].0, mac) == s.update(i, (s[i].0, mac)),
    decreases i,
{
    let ip = s[i].0;
    if i > 0 {
        let rest = s.drop_first();
        assert(s[0].0 != ip);
        assert(rest[i - 1] == s[i]);
        assert forall|j: int| 0 <= j < i - 1 implies (#[trigger] rest[j]).0 != rest[i - 1].0 by {
            assert(rest[j] == s[j + 1]);
        }
        law_listed_addresses_are_replaced(rest, i - 1, mac);
        assert(seq![s[0]] + rest.update(i - 1, (ip, mac)) == s.update(i, (ip, mac)));
    }
}

/// An address that is not listed comes last.
pub proof fn law_new_addresses_come_last(
    s: Seq<(Seq<char>, Seq<char>)>,
    ip: Seq<char>,
    mac: Seq<char>,
)
    requires
        forall|j: int| 0 <= j < s.len() ==> (#[trigger] s[j]).0 != ip,
    ensures
        lan_peer::with_entry(s, ip, mac) == s.push((ip, mac)),
    decreases s.len(),
{
    if s.len() > 0 {
        let rest = s.drop_first();
        assert(s[0].0 != ip);
        assert forall|j: int| 0 <= j < rest.len() implies (#[trigger] rest[j]).0 != ip by {
            assert(rest[j] == s[j + 1]);
        }
        law_new_addresses_come_last(rest, ip, mac);
        assert(seq![s[0]] + rest.push((ip, mac)) == s.push((ip, mac)));
    } else {
        assert(s.push((ip, mac)) == seq![(ip, mac)]);
    }
}

/// Entries are put in one after the other.
pub proof fn law_entries_in_turn(
    s: Seq<(Seq<char>, Seq<char>)>,
    t: Seq<(Seq<char>, Seq<char>)>,
    ip: Seq<char>,
    mac: Seq<char>,
)
    ensures
        lan_peer::with_entries(s, Seq::empty()) == s,
        lan_peer::with_entries(s, t.push((ip, mac))) == lan_peer::with_entry(
            lan_peer::with_entries(s, t),
            ip,
            mac,
        ),
{
    assert(t.push((ip, mac)).drop_last() == t);
}

// ---------------------------------------------------------------------------
// Waking
// ---------------------------------------------------------------------------

/// Each hardware address is sent one datagram from each address of this machine, one
/// hardware address after the other.
pub proof fn law_datagrams_to_wake(macs: Seq<Seq<u8>>, from: Seq<Ipv4Addr>, i: int, k: int)
    requires
        0 <= i < macs.len(),
        0 <= k < from.len(),
    ensures
        ({
            let all = wake::packets_for_all(macs, from);
            let n = from.len();
            &&& all.len() == macs.len() * n
            &&& 0 <= i * n + k < all.len()
            &&& all[i * n + k] == (macs[i], from[k])
        }),
    decreases macs.len(),
{
    let front = macs.drop_last();
    let n = from.len();
    let before = wake::packets_for_all(front, from);
    let all = wake::packets_for_all(macs, from);
    lemma_datagram_count(macs, from);
    lemma_datagram_count(front, from);
    assert((front.len() + 1) * n == front.len() * n + n) by (nonlinear_arith);
    if i < front.len() {
        law_datagrams_to_wake(front, from, i, k);
        assert(all[i * n + k] == before[i * n + k]);
    } else {
        assert(i == front.len());
        assert(all[i * n + k] == wake::packets_for(macs.last(), from)[k]);
    }
}

proof fn lemma_datagram_count(macs: Seq<Seq<u8>>, from: Seq<Ipv4Addr>)
    ensures
        wake::packets_for_all(macs, from).len() == macs.len() * from.len(),
    decreases macs.len(),
{
    if macs.len() > 0 {
        let front = macs.drop_last();
        lemma_datagram_count(front, from);
        assert((front.len() + 1) * from.len() == front.len() * from.len() + from.len())
            by (nonlinear_arith);
    } else {
        assert(0 * from.len() == 0) by (nonlinear_arith);
    }
}

/// Hardware addresses are read entry by entry; what cannot be read is left out.
pub proof fn law_hardware_addresses_entry_by_entry(
    entries: Seq<(Seq<char>, Seq<char>)>,
    ip: Seq<char>,
    mac: Seq<char>,
)
    ensures
        wake::readable_macs(Seq::empty()).len() == 0,
        wake::mac_of(mac) is None ==> wake::readable_macs(entries.push((ip, mac)))
            == wake::readable_macs(entries),
        wake::mac_of(mac) matches Some(m) ==> wake::readable_macs(entries.push((ip, mac)))
            == wake::readable_macs(entries).push(m),
{
    assert(entries.push((ip, mac)).drop_last() == entries);
}

/// The peer that is woken is the first with its id; nobody is where none has it.
pub proof fn law_first_peer_of_a_name(known: Seq<PeerRecord>, id: Seq<char>, i: int)
    ensures
        0 <= i < known.len() && known[i].id == id && (forall|j: int|
            0 <= j < i ==> (#[trigger] known[j]).id != id) ==> wake::first_named(known, id) == Some(
            known[i],
        ),
        (forall|j: int| 0 <= j < known.len() ==> (#[trigger] known[j]).id != id)
            ==> wake::first_named(known, id) is None,
    decreases known.len(),
{
    if known.len() > 0 {
        let rest = known.drop_first();
        law_first_peer_of_a_name(rest, id, i - 1);
        assert(forall|j: int| 0 <= j < rest.len() ==> #[trigger] rest[j] == known[j + 1]);
        if 0 < i < known.len() && known[i].id == id && (forall|j: int|
            0 <= j < i ==> (#[trigger] known[j]).id != id) {
            assert(known[0].id != id);
            assert forall|j: int| 0 <= j < i - 1 implies (#[trigger] rest[j]).id != id by {
                assert(known[j + 1].id != id);
            }
            assert(rest[i - 1] == known[i]);
        }
        if forall|j: int| 0 <= j < known.len() ==> (#[trigger] known[j]).id != id {
            assert(known[0].id != id);
            assert forall|j: int| 0 <= j < rest.len() implies (#[trigger] rest[j]).id != id by {
                assert(known[j + 1].id != id);
            }
        }
    }
}

/// What lists of datagrams and of hardware addresses hold, one by one.
pub proof fn law_datagrams_one_by_one(list: Seq<WakePacket>, macs: Seq<[u8; 6]>, i: int)
    ensures
        wake::packets(list).len() == list.len(),
        0 <= i < list.len() ==> wake::packets(list)[i] == (list[i].mac@, list[i].from),
        wake::mac_views(macs).len() == macs.len(),
        0 <= i < macs.len() ==> wake::mac_views(macs)[i] == macs[i]@,
{
}

/// The datagrams for what a peer announced, one by one.
pub proof fn law_announced_addresses_are_woken(
    sent: Seq<(Seq<u8>, Ipv4Addr)>,
    entries: Seq<(Seq<char>, Seq<char>)>,
    from: Seq<Ipv4Addr>,
    k: int,
    m: Seq<u8>,
    i: int,
)
    requires
        wake::wakes_announced(sent, entries, from),
        0 <= k < entries.len(),
        m.len() == 6,
        entries[k].1 == lan::mac_text(m),
        0 <= i < from.len(),
    ensures
        sent.contains((m, from[i])),
{
}

} // verus!
