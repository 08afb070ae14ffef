//! Waking a peer that sleeps, by a datagram to its hardware address.

use vstd::prelude::*;

use crate::adapter::Interface;
use crate::addr::Ipv4Addr;
use crate::lan;
use crate::lan_peer;
use crate::lan_peer::{DiscoveryPeer, PeerRecord};
use crate::text;

verus! {

/// What `wol::MacAddr` reads from a text: the six bytes of a hardware address,
/// or nothing.
pub uninterp spec fn mac_of(s: Seq<char>) -> Option<Seq<u8>>;

/// Calls the `FromStr` of `wol::MacAddr`. What it reads depends on the text
/// alone. A text of six bytes as `lan::mac_text` writes them is read as those
/// bytes, and a text that is empty or longer than that is not read. What it makes
/// of other texts is not said here.
#[verifier::external_body]
fn parse_mac(s: &str) -> (r: Option<[u8; 6]>)
    ensures
        mac_of(s@) == match r {
            Some(m) => Some(m@),
            None => None,
        },
        forall|m: Seq<u8>|
            m.len() == 6 && s@ == #[trigger] lan::mac_text(m) ==> r is Some && r->0@ == m,
        s@.len() == 0 || s@.len() > 17 ==> r is None,
{
    match s.parse::<wol::MacAddr>() {
        Ok(m) => Some(m.0),
        Err(_) => None,
    }
}

/// A datagram that wakes the machine with the hardware address `mac`, sent from
/// the address `from`.
pub struct WakePacket {
    pub mac: [u8; 6],
    pub from: Ipv4Addr,
}

/// What a list of datagrams holds.
pub open spec fn packets(v: Seq<WakePacket>) -> Seq<(Seq<u8>, Ipv4Addr)> {
    v.map_values(|p: WakePacket| (p.mac@, p.from))
}

/// What a list of hardware addresses holds.
pub open spec fn mac_views(v: Seq<[u8; 6]>) -> Seq<Seq<u8>> {
    v.map_values(|m: [u8; 6]| m@)
}

/// `mac` with each of the addresses `from`.
pub open spec fn packets_for(mac: Seq<u8>, from: Seq<Ipv4Addr>) -> Seq<(Seq<u8>, Ipv4Addr)> {
    from.map_values(|ip: Ipv4Addr| (mac, ip))
}

/// Each of `macs` with each of the addresses `from`.
pub open spec fn packets_for_all(macs: Seq<Seq<u8>>, from: Seq<Ipv4Addr>) -> Seq<
    (Seq<u8>, Ipv4Addr),
>
    decreases macs.len(),
{
    if macs.len() == 0 {
        Seq::empty()
    } else {
        packets_for_all(macs.drop_last(), from) + packets_for(macs.last(), from)
    }
}

/// The hardware addresses that can be read in `entries`.
pub open spec fn readable_macs(entries: Seq<(Seq<char>, Seq<char>)>) -> Seq<Seq<u8>>
    decreases entries.len(),
{
    if entries.len() == 0 {
        Seq::empty()
    } else {
        let before = readable_macs(entries.drop_last());
        match mac_of(entries.last().1) {
            Some(m) => before.push(m),
            None => before,
        }
    }
}

/// The first record of the peer `id`.
pub open spec fn first_named(known: Seq<PeerRecord>, id: Seq<char>) -> Option<PeerRecord>
    decreases known.len(),
{
    if known.len() == 0 {
        None
    } else if known[0].id == id {
        Some(known[0])
    } else {
        first_named(known.drop_first(), id)
    }
}

/// The datagrams that wake the machines with the hardware addresses `macs`: one
/// for each, from each IPv4 address of this machine.
pub fn wake_packets(macs: &Vec<[u8; 6]>, interfaces: &Vec<Interface>) -> (r: Vec<WakePacket>)
    ensures
        packets(r@) == packets_for_all(mac_views(macs@), lan::adapter_addrs(interfaces@)),
{
    let from = lan::ipv4_addrs(interfaces);
    let ghost all = mac_views(macs@);
    let mut r: Vec<WakePacket> = Vec::new();
    let n: usize = macs.len();
    let mut i: usize = 0;
    assert(all.take(0) == Seq::<Seq<u8>>::empty());
    assert(packets(r@) == Seq::<(Seq<u8>, Ipv4Addr)>::empty());
    while i < n
        invariant
            i <= n == macs@.len(),
            all == mac_views(macs@),
            from@ == lan::adapter_addrs(interfaces@),
            packets(r@) == packets_for_all(all.take(i as int), from@),
        decreases n - i,
    {
        assert(all.take(i + 1).drop_last() == all.take(i as int));
        assert(all.take(i + 1).last() == macs@[i as int]@);
        let ghost before = packets(r@);
        let ghost more = packets_for(macs@[i as int]@, from@);
        let m: usize = from.len();
        let mut k: usize = 0;
        assert(before + more.take(0) == before);
        while k < m
            invariant
                i < n == macs@.len(),
                k <= m == from@.len(),
                more == packets_for(macs@[i as int]@, from@),
                packets(r@) == before + more.take(k as int),
            decreases m - k,
        {
            let ghost so_far = packets(r@);
            let packet = WakePacket { mac: macs[i], from: from[k] };
            r.push(packet);
            assert(packets(r@) == so_far.push((macs@[i as int]@, from@[k as int])));
            assert(more.take(k + 1) == more.take(k as int).push(more[k as int]));
            k += 1;
        }
        assert(more.take(m as int) == more);
        i += 1;
    }
    assert(all.take(n as int) == all);
    r
}

/// Whether the datagrams `sent` wake a peer at each hardware address that stands
/// in `entries` as a peer announces it, from each of the addresses `from`.
pub open spec fn wakes_announced(
    sent: Seq<(Seq<u8>, Ipv4Addr)>,
    entries: Seq<(Seq<char>, Seq<char>)>,
    from: Seq<Ipv4Addr>,
) -> bool {
    forall|k: int, m: Seq<u8>, i: int|
        #![trigger entries[k].1, lan::mac_text(m), from[i]]
        0 <= k < entries.len() && m.len() == 6 && entries[k].1 == lan::mac_text(m) && 0 <= i
            < from.len() ==> sent.contains((m, from[i]))
}

/// Whether each hardware address that stands in `entries` as a peer announces it
/// is read.
spec fn reads_announced(entries: Seq<(Seq<char>, Seq<char>)>) -> bool {
    forall|k: int, m: Seq<u8>|
        #![trigger entries[k].1, lan::mac_text(m)]
        0 <= k < entries.len() && m.len() == 6 && entries[k].1 == lan::mac_text(m) ==> mac_of(
            entries[k].1,
        ) == Some(m)
}

proof fn lemma_readable(entries: Seq<(Seq<char>, Seq<char>)>, k: int, m: Seq<u8>)
    requires
        0 <= k < entries.len(),
        mac_of(entries[k].1) == Some(m),
    ensures
        readable_macs(entries).contains(m),
    decreases entries.len(),
{
    let front = entries.drop_last();
    let all = readable_macs(entries);
    if k < front.len() {
        assert(front[k] == entries[k]);
        lemma_readable(front, k, m);
        let i = choose|i: int|
            0 <= i < readable_macs(front).len() && readable_macs(front)[i] == m;
        assert(all[i] == m);
    } else {
        assert(all[readable_macs(front).len() as int] == m);
    }
}

proof fn lemma_packets(macs: Seq<Seq<u8>>, from: Seq<Ipv4Addr>, j: int, i: int)
    requires
        0 <= j < macs.len(),
        0 <= i < from.len(),
    ensures
        packets_for_all(macs, from).contains((macs[j], from[i])),
    decreases macs.len(),
{
    let front = macs.drop_last();
    let before = packets_for_all(front, from);
    let all = packets_for_all(macs, from);
    if j < front.len() {
        lemma_packets(front, from, j, i);
        assert(front[j] == macs[j]);
        let x = choose|x: int| 0 <= x < before.len() && before[x] == (macs[j], from[i]);
        assert(all[x] == (macs[j], from[i]));
    } else {
        assert(packets_for(macs.last(), from)[i] == (macs[j], from[i]));
        assert(all[before.len() + i] == (macs[j], from[i]));
    }
}

proof fn lemma_wakes_announced(entries: Seq<(Seq<char>, Seq<char>)>, from: Seq<Ipv4Addr>)
    requires
        reads_announced(entries),
    ensures
        wakes_announced(packets_for_all(readable_macs(entries), from), entries, from),
{
    let macs = readable_macs(entries);
    assert forall|k: int, m: Seq<u8>, i: int|
        #![trigger entries[k].1, lan::mac_text(m), from[i]]
        0 <= k < entries.len() && m.len() == 6 && entries[k].1 == lan::mac_text(m) && 0 <= i
            < from.len() implies packets_for_all(macs, from).contains((m, from[i])) by {
        lemma_readable(entries, k, m);
        let j = choose|j: int| 0 <= j < macs.len() && macs[j] == m;
        lemma_packets(macs, from, j, i);
    }
}

/// The datagrams that wake the peer `id`: to each of its hardware addresses
/// that can be read, from each IPv4 address of this machine. None where no
/// known peer has that id. Every hardware address that the peer announced in a
/// pong of its own is among them.
pub fn send_wol(id: &str, peers: &Vec<DiscoveryPeer>, interfaces: &Vec<Interface>) -> (r: Vec<
    WakePacket,
>)
    ensures
        packets(r@) == match first_named(lan_peer::records(peers@), id@) {
            Some(peer) => packets_for_all(
                readable_macs(peer.ip_mac),
                lan::adapter_addrs(interfaces@),
            ),
            None => Seq::empty(),
        },
        first_named(lan_peer::records(peers@), id@) matches Some(peer) ==> wakes_announced(
            packets(r@),
            peer.ip_mac,
            lan::adapter_addrs(interfaces@),
        ),
{
    let ghost known = lan_peer::records(peers@);
    let n: usize = peers.len();
    let mut i: usize = 0;
    assert(known.skip(0) == known);
    while i < n
        invariant
            i <= n == peers@.len(),
            known == lan_peer::records(peers@),
            first_named(known, id@) == first_named(known.skip(i as int), id@),
        decreases n - i,
    {
        let peer = &peers[i];
        assert(known.skip(i as int)[0] == peer@);
        assert(known.skip(i as int).drop_first() == known.skip(i + 1));
        if text::same_text(peer.id.as_str(), id) {
            let macs = peer_macs(peer);
            proof {
                lemma_wakes_announced(peer.ip_mac@, lan::adapter_addrs(interfaces@));
            }
            return wake_packets(&macs, interfaces);
        }
        i += 1;
    }
    let r: Vec<WakePacket> = Vec::new();
    assert(packets(r@) == Seq::<(Seq<u8>, Ipv4Addr)>::empty());
    r
}

fn peer_macs(peer: &DiscoveryPeer) -> (r: Vec<[u8; 6]>)
    ensures
        mac_views(r@) == readable_macs(peer.ip_mac@),
        reads_announced(peer.ip_mac@),
{
    let mut macs: Vec<[u8; 6]> = Vec::new();
    let ghost entries = peer.ip_mac@;
    let m: usize = peer.ip_mac.len();
    let mut k: usize = 0;
    assert(entries.take(0) == Seq::<(Seq<char>, Seq<char>)>::empty());
    assert(mac_views(macs@) == Seq::<Seq<u8>>::empty());
    while k < m
        invariant
            k <= m == entries.len(),
            entries == peer.ip_mac@,
            mac_views(macs@) == readable_macs(entries.take(k as int)),
            reads_announced(entries.take(k as int)),
        decreases m - k,
    {
        assert(entries.take(k + 1).drop_last() == entries.take(k as int));
        let ghost before = mac_views(macs@);
        if let Some(mac) = parse_mac(peer.ip_mac.mac(k)) {
            macs.push(mac);
            assert(mac_views(macs@) == before.push(mac@));
        }
        assert(reads_announced(entries.take(k + 1))) by {
            let next = entries.take(k + 1);
            assert forall|x: int, b: Seq<u8>|
                #![trigger next[x].1, lan::mac_text(b)]
                0 <= x < next.len() && b.len() == 6 && next[x].1 == lan::mac_text(b) implies mac_of(
                next[x].1,
            ) == Some(b) by {
                if x < k {
                    assert(entries.take(k as int)[x].1 == next[x].1);
                }
            }
        }
        k += 1;
    }
    assert(entries.take(m as int) == entries);
    macs
}

} // verus!
