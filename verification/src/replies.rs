//! Gathering the answers to a round of discovery and keeping the list of known
//! peers up to date with them.

use vstd::prelude::*;

use crate::adapter::Interface;
use crate::addr::IpAddr;
use crate::addr_text;
use crate::direct_access;
use crate::lan;
use crate::lan::PeerDiscovery;
use crate::lan_peer;
use crate::lan_peer::{DiscoveryPeer, IpMacList, PeerRecord};
use crate::text;

verus! {

// ---------------------------------------------------------------------------
// Waiting for answers on one socket
// ---------------------------------------------------------------------------

/// How long a socket waits for the next answer, in milliseconds.
pub const QUIET_LIMIT: u64 = 3_000;

/// A socket that waits for answers. Times are in nanoseconds on a clock that
/// does not go back.
pub struct ResponseWaiter {
    /// The address that the socket is bound to, if it is known.
    pub local: Option<IpAddr>,
    /// How long to wait in all.
    pub overall: u64,
    /// When the wait began.
    pub started: u64,
    /// When the last answer came.
    pub last_recv: u64,
    /// The hardware address for `local`, once it was looked up.
    pub mac: Option<String>,
}

impl ResponseWaiter {
    /// Whether the address that this machine has towards a peer is not known
    /// from the socket.
    pub open spec fn by_route(self) -> bool {
        match self.local {
            None => true,
            Some(ip) => ip.unspecified(),
        }
    }

    /// The hardware address that this machine has towards a peer. `route` is
    /// its address towards that peer as the routing table has it.
    pub open spec fn local_mac(self, route: Option<IpAddr>, interfaces: Seq<Interface>) -> Seq<
        char,
    > {
        if self.by_route() {
            match route {
                Some(ip) => lan::mac_text_at(interfaces, ip),
                None => Seq::empty(),
            }
        } else {
            match self.mac {
                Some(m) => m@,
                None => lan::mac_text_at(interfaces, self.local->0),
            }
        }
    }

    /// Starts to wait at `now`.
    pub fn new(local: Option<IpAddr>, overall: u64, now: u64) -> (r: ResponseWaiter)
        ensures
            r.local == local,
            r.overall == overall,
            r.started == now,
            r.last_recv == now,
            r.mac is None,
    {
        ResponseWaiter { local, overall, started: now, last_recv: now, mac: None }
    }

    /// Whether the address that this machine has towards a peer has to be asked
    /// of the routing table.
    pub fn needs_route(&self) -> (r: bool)
        ensures
            r == self.by_route(),
    {
        match self.local {
            None => true,
            Some(ip) => ip.is_unspecified(),
        }
    }

    /// Takes the message `p` that came from the address `from` at `now`, and
    /// returns the peer that answered. A pong with this machine's own hardware
    /// address is no answer; one without any is taken where this machine's own
    /// is not known either.
    pub fn on_message(
        &mut self,
        p: &PeerDiscovery,
        from: IpAddr,
        route: Option<IpAddr>,
        interfaces: &Vec<Interface>,
        now: u64,
    ) -> (r: Option<DiscoveryPeer>)
        ensures
            r is Some <==> p.cmd@ == "pong"@ && {
                let own = old(self).local_mac(route, interfaces@);
                own.len() == 0 && p.mac@.len() == 0 || own != p.mac@
            },
            r matches Some(peer) ==> peer@ == (PeerRecord {
                id: p.id@,
                ip_mac: seq![(addr_text::ip_text(from), p.mac@)],
                username: p.username@,
                hostname: p.hostname@,
                platform: p.platform@,
                online: true,
            }) && peer.ip_mac.wf(),
            final(self).local == old(self).local,
            final(self).overall == old(self).overall,
            final(self).started == old(self).started,
            final(self).last_recv == now,
            p.cmd@ != "pong"@ || old(self).by_route() ==> final(self).mac == old(self).mac,
            p.cmd@ == "pong"@ && !old(self).by_route() ==> final(self).mac is Some,
            p.cmd@ == "pong"@ && !old(self).by_route() ==> final(self).mac->0@ == old(
                self).local_mac(route, interfaces@),
    {
        self.last_recv = now;
        if !text::same_text(p.cmd.as_str(), "pong") {
            return None;
        }
        let own = if self.needs_route() {
            match route {
                Some(ip) => lan::get_mac(ip, interfaces),
                None => String::new(),
            }
        } else {
            match &self.mac {
                Some(m) => m.clone(),
                None => {
                    let m = match self.local {
                        Some(ip) => lan::get_mac(ip, interfaces),
                        None => String::new(),
                    };
                    self.mac = Some(m.clone());
                    m
                },
            }
        };
        if own.as_str().is_empty() && p.mac.as_str().is_empty() || !(own == p.mac) {
            let mut ip_mac = IpMacList::new();
            ip_mac.insert(addr_text::ip_to_string(from), p.mac.clone());
            assert(ip_mac@ == seq![(addr_text::ip_text(from), p.mac@)]);
            Some(
                DiscoveryPeer {
                    id: p.id.clone(),
                    ip_mac,
                    username: p.username.clone(),
                    hostname: p.hostname.clone(),
                    platform: p.platform.clone(),
                    online: true,
                },
            )
        } else {
            None
        }
    }

    /// Whether the wait is over at `now`: the time is up, or nothing came for
    /// too long.
    pub fn finished(&self, now: u64) -> (r: bool)
        ensures
            r == (lan::elapsed_nanos(now, self.started) >= self.overall || lan::elapsed_nanos(
                now,
                self.last_recv,
            ) / 1_000_000 > QUIET_LIMIT),
            r <==> self.overall == 0 || now - self.started >= self.overall || (now
                - self.last_recv) / 1_000_000 > 3_000,
    {
        lan::elapsed(now, self.started) >= self.overall || lan::elapsed(now, self.last_recv)
            / 1_000_000 > QUIET_LIMIT
    }
}

// ---------------------------------------------------------------------------
// The list of known peers
// ---------------------------------------------------------------------------

/// How long to wait between two writes of the list, in milliseconds.
pub const WRITE_PAUSE: u64 = 300;

/// The list of known peers during a round of discovery.
pub struct PeerBook {
    pub peers: Vec<DiscoveryPeer>,
    /// The ids that answered in this round.
    pub answered: Vec<String>,
    /// When the list was written the last time in this round.
    pub last_write: Option<u64>,
}

/// The records with `online` taken away.
pub open spec fn all_offline(s: Seq<PeerRecord>) -> Seq<PeerRecord> {
    s.map_values(|p: PeerRecord| PeerRecord { online: false, ..p })
}

/// The first place of `flags` that is set.
pub open spec fn first_set(flags: Seq<bool>) -> Option<int>
    decreases flags.len(),
{
    if flags.len() == 0 {
        None
    } else {
        match first_set(flags.drop_last()) {
            Some(i) => Some(i),
            None => if flags.last() {
                Some(flags.len() - 1)
            } else {
                None
            },
        }
    }
}

/// `peer` with the addresses of `known` put over its own.
pub open spec fn merged(peer: PeerRecord, known: PeerRecord) -> PeerRecord {
    PeerRecord {
        ip_mac: lan_peer::with_entries(peer.ip_mac, known.ip_mac),
        online: true,
        ..peer
    }
}

/// The list `known` after `peer` answered: it stands first, and its record from
/// before, at place `same`, is gone. If it answered already in this round, the
/// addresses of that answer are kept.
pub open spec fn after_answer(
    known: Seq<PeerRecord>,
    peer: PeerRecord,
    same: Option<int>,
    again: bool,
) -> Seq<PeerRecord> {
    match same {
        None => seq![peer] + known,
        Some(i) => seq![if again {
            merged(peer, known[i])
        } else {
            peer
        }] + known.remove(i),
    }
}

/// Whether the list `after` is the list `before` after `peer` answered, where `same`
/// tells for each peer in `before` whether it is the same.
pub open spec fn took(before: PeerBook, after: PeerBook, peer: PeerRecord, same: Seq<bool>) -> bool {
    &&& after.known() == after_answer(
        before.known(),
        peer,
        first_set(same),
        before.has_answered(peer.id),
    )
    &&& forall|id: Seq<char>| #[trigger]
        after.has_answered(id) <==> id == peer.id || before.has_answered(id)
}

fn find_set(flags: &Vec<bool>) -> (r: Option<usize>)
    ensures
        r is Some <==> first_set(flags@) is Some,
        r matches Some(i) ==> first_set(flags@) == Some(i as int) && i < flags@.len(),
{
    let n: usize = flags.len();
    let mut i: usize = 0;
    let mut r: Option<usize> = None;
    while i < n
        invariant
            i <= n == flags@.len(),
            r is Some <==> first_set(flags@.take(i as int)) is Some,
            r matches Some(k) ==> first_set(flags@.take(i as int)) == Some(k as int) && k < i,
        decreases n - i,
    {
        assert(flags@.take(i + 1).drop_last() == flags@.take(i as int));
        if r.is_none() && flags[i] {
            r = Some(i);
        }
        i += 1;
    }
    assert(flags@.take(n as int) == flags@);
    r
}

impl PeerBook {
    /// The addresses of every peer are each listed once.
    pub open spec fn wf(&self) -> bool {
        lan_peer::peers_wf(self.peers@)
    }

    /// What is known of the peers.
    pub open spec fn known(&self) -> Seq<PeerRecord> {
        lan_peer::records(self.peers@)
    }

    /// Whether the peer `id` answered in this round.
    pub open spec fn has_answered(&self, id: Seq<char>) -> bool {
        text::strings(self.answered@).contains(id)
    }

    /// Opens the list for a round of discovery. Where `mark_stale_offline`
    /// holds, no peer counts as online until it answers.
    pub fn open(peers: Vec<DiscoveryPeer>, mark_stale_offline: bool) -> (r: PeerBook)
        requires
            lan_peer::peers_wf(peers@),
        ensures
            r.wf(),
            r.known() == if mark_stale_offline {
                all_offline(lan_peer::records(peers@))
            } else {
                lan_peer::records(peers@)
            },
            forall|id: Seq<char>| !r.has_answered(id),
            r.last_write is None,
    {
        let mut peers = peers;
        let ghost before = lan_peer::records(peers@);
        if mark_stale_offline {
            let n: usize = peers.len();
            let mut i: usize = 0;
            while i < n
                invariant
                    i <= n == peers@.len() == before.len(),
                    lan_peer::peers_wf(peers@),
                    forall|j: int|
                        0 <= j < i ==> (#[trigger] peers@[j])@ == (PeerRecord {
                            online: false,
                            ..before[j]
                        }),
                    forall|j: int| i <= j < n ==> (#[trigger] peers@[j])@ == before[j],
                decreases n - i,
            {
                peers[i].online = false;
                i += 1;
            }
            assert(lan_peer::records(peers@) == all_offline(before));
        }
        PeerBook { peers, answered: Vec::new(), last_write: None }
    }

    /// Takes the answer of `peer` at `now`. `same` tells for each known peer
    /// whether it is the same as `peer`. Returns whether the list is to be
    /// written now.
    pub fn receive(&mut self, peer: DiscoveryPeer, same: &Vec<bool>, now: u64) -> (r: bool)
        requires
            old(self).wf(),
            peer.ip_mac.wf(),
            same@.len() == old(self).peers@.len(),
        ensures
            final(self).wf(),
            took(*old(self), *final(self), peer@, same@),
            r == match old(self).last_write {
                None => true,
                Some(t) => lan::elapsed_nanos(now, t) / 1_000_000 > WRITE_PAUSE,
            },
            old(self).last_write matches Some(t) ==> (r <==> (now - t) / 1_000_000 > 300),
            final(self).last_write == if r {
                Some(now)
            } else {
                old(self).last_write
            },
    {
        let mut peer = peer;
        let ghost seen = text::strings(self.answered@);
        let ghost id = peer.id@;
        let again = self.answered_already(&peer.id);
        if !again {
            let copy = peer.id.clone();
            self.answered.push(copy);
            assert(text::strings(self.answered@) == seen.push(id));
        }
        let ghost answered = self.answered@;
        let ghost before = self.known();
        if let Some(pos) = find_set(same) {
            let old_peer = self.peers.remove(pos);
            assert(old_peer@ == before[pos as int]);
            if again {
                peer.ip_mac.extend(&old_peer.ip_mac);
                peer.online = true;
            }
            assert(self.known() == before.remove(pos as int));
            assert(lan_peer::peers_wf(self.peers@));
        }
        let ghost rest = self.known();
        let ghost top = peer@;
        self.peers.insert(0, peer);
        assert(self.known() == seq![top] + rest);
        let write = match self.last_write {
            None => true,
            Some(t) => lan::elapsed(now, t) / 1_000_000 > WRITE_PAUSE,
        };
        if write {
            self.last_write = Some(now);
        }
        proof {
            assert forall|x: Seq<char>| #[trigger] self.has_answered(x) <==> x == id
                || seen.contains(x) by {
                let now_seen = text::strings(answered);
                if !again {
                    if seen.contains(x) {
                        let k = choose|k: int| 0 <= k < seen.len() && seen[k] == x;
                        assert(now_seen[k] == x);
                    }
                    assert(now_seen[seen.len() as int] == id);
                    if now_seen.contains(x) {
                        let k = choose|k: int| 0 <= k < now_seen.len() && now_seen[k] == x;
                        if k < seen.len() {
                            assert(seen[k] == x);
                        }
                    }
                }
            }
        }
        write
    }

    fn answered_already(&self, id: &String) -> (r: bool)
        ensures
            r == self.has_answered(id@),
    {
        let n: usize = self.answered.len();
        let mut i: usize = 0;
        let ghost ids = text::strings(self.answered@);
        while i < n
            invariant
                i <= n == self.answered@.len() == ids.len(),
                ids == text::strings(self.answered@),
                forall|j: int| 0 <= j < i ==> ids[j] != id@,
            decreases n - i,
        {
            if self.answered[i] == *id {
                assert(ids[i as int] == id@);
                return true;
            }
            i += 1;
        }
        false
    }
}

// ---------------------------------------------------------------------------
// Laws
// ---------------------------------------------------------------------------

/// A peer that answers stands first in the list and is online; the others keep
/// their order, and no peer but the one that it was before goes.
pub proof fn law_answering_peer_comes_first(
    known: Seq<PeerRecord>,
    peer: PeerRecord,
    same: Option<int>,
    again: bool,
)
    requires
        peer.online,
        same matches Some(i) ==> 0 <= i < known.len(),
    ensures
        ({
            let next = after_answer(known, peer, same, again);
            &&& next.len() == known.len() + (if same is Some {
                0int
            } else {
                1
            })
            &&& next[0].id == peer.id
            &&& next[0].online
            &&& next.skip(1) == match same {
                Some(i) => known.remove(i),
                None => known,
            }
        }),
{
    let next = after_answer(known, peer, same, again);
    match same {
        Some(i) => {
            assert(next.skip(1) == known.remove(i));
        },
        None => {
            assert(next.skip(1) == known);
        },
    }
}

pub proof fn lemma_with_entries(s: Seq<(Seq<char>, Seq<char>)>, t: Seq<(Seq<char>, Seq<char>)>)
    requires
        lan_peer::each_once(s),
    ensures
        lan_peer::each_once(lan_peer::with_entries(s, t)),
        forall|x: Seq<char>| #[trigger]
            lan_peer::lists(lan_peer::with_entries(s, t), x) <==> lan_peer::lists(s, x)
                || lan_peer::lists(t, x),
    decreases t.len(),
{
    if t.len() > 0 {
        let front = t.drop_last();
        let before = lan_peer::with_entries(s, front);
        lemma_with_entries(s, front);
        lan_peer::lemma_with_entry(before, t.last().0, t.last().1);
        assert forall|x: Seq<char>| #[trigger]
            lan_peer::lists(lan_peer::with_entries(s, t), x) <==> lan_peer::lists(s, x)
                || lan_peer::lists(t, x) by {
            assert(lan_peer::lists(before, x) <==> lan_peer::lists(s, x) || lan_peer::lists(
                front,
                x,
            ));
            if lan_peer::lists(front, x) {
                let i = choose|i: int| 0 <= i < front.len() && (#[trigger] front[i]).0 == x;
                assert(t[i].0 == x);
            }
            if lan_peer::lists(t, x) {
                let i = choose|i: int| 0 <= i < t.len() && (#[trigger] t[i]).0 == x;
                if i < front.len() {
                    assert(front[i].0 == x);
                } else {
                    assert(t.last().0 == x);
                }
            }
            if x == t.last().0 {
                assert(t[t.len() - 1].0 == x);
            }
        }
    }
}

/// A peer that answers over several adapters in one round has all the addresses of
/// its answers, each once.
pub proof fn law_answers_gather_addresses(peer: PeerRecord, known: PeerRecord, ip: Seq<char>)
    requires
        lan_peer::each_once(peer.ip_mac),
    ensures
        lan_peer::lists(merged(peer, known).ip_mac, ip) <==> lan_peer::lists(peer.ip_mac, ip)
            || lan_peer::lists(known.ip_mac, ip),
        lan_peer::each_once(merged(peer, known).ip_mac),
{
    lemma_with_entries(peer.ip_mac, known.ip_mac);
}

/// After the list was opened for a round in which stale peers are marked, no peer
/// has hosts to try until it answers.
pub proof fn law_stale_peers_have_no_hosts(
    known: Seq<PeerRecord>,
    peer: Seq<char>,
    default_port: u16,
)
    ensures
        direct_access::hosts_of_lan_peer(all_offline(known), peer, default_port)
            == Seq::<Seq<char>>::empty(),
{
    direct_access::law_silent_peers_have_no_hosts(all_offline(known), peer, default_port);
}

} // verus!
