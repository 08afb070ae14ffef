//! What is known of the peers that answered on the local network.

use vstd::prelude::*;

verus! {

/// The addresses at which a peer was seen, each once, and the hardware address
/// that it gave there.
pub struct IpMacList {
    entries: Vec<(String, String)>,
}

/// What a list of addresses says.
pub open spec fn entry_views(v: Seq<(String, String)>) -> Seq<(Seq<char>, Seq<char>)> {
    v.map_values(|e: (String, String)| (e.0@, e.1@))
}

/// Whether `ip` is one of the addresses in `s`.
pub open spec fn lists(s: Seq<(Seq<char>, Seq<char>)>, ip: Seq<char>) -> bool {
    exists|i: int| 0 <= i < s.len() && (#[trigger] s[i]).0 == ip
}

/// `s` with the hardware address `mac` for `ip`: in the place that `ip` has
/// already, or at the end.
pub open spec fn with_entry(s: Seq<(Seq<char>, Seq<char>)>, ip: Seq<char>, mac: Seq<char>) -> Seq<
    (Seq<char>, Seq<char>),
>
    decreases s.len(),
{
    if s.len() == 0 {
        seq![(ip, mac)]
    } else if s[0].0 == ip {
        s.update(0, (ip, mac))
    } else {
        seq![s[0]] + with_entry(s.drop_first(), ip, mac)
    }
}

/// `s` with the entries of `t` put into it one after the other.
pub open spec fn with_entries(
    s: Seq<(Seq<char>, Seq<char>)>,
    t: Seq<(Seq<char>, Seq<char>)>,
) -> Seq<(Seq<char>, Seq<char>)>
    decreases t.len(),
{
    if t.len() == 0 {
        s
    } else {
        with_entry(with_entries(s, t.drop_last()), t.last().0, t.last().1)
    }
}

/// Whether every address stands in `s` once.
pub open spec fn each_once(s: Seq<(Seq<char>, Seq<char>)>) -> bool {
    forall|i: int, j: int| 0 <= i < j < s.len() ==> (#[trigger] s[i]).0 != (#[trigger] s[j]).0
}

impl View for IpMacList {
    type V = Seq<(Seq<char>, Seq<char>)>;

    closed spec fn view(&self) -> Seq<(Seq<char>, Seq<char>)> {
        entry_views(self.entries@)
    }
}

pub proof fn lemma_with_entry(s: Seq<(Seq<char>, Seq<char>)>, ip: Seq<char>, mac: Seq<char>)
    requires
        each_once(s),
    ensures
        each_once(with_entry(s, ip, mac)),
        forall|x: Seq<char>| #[trigger]
            lists(with_entry(s, ip, mac), x) <==> x == ip || lists(s, x),
    decreases s.len(),
{
    let r = with_entry(s, ip, mac);
    if s.len() == 0 {
        assert(r[0].0 == ip);
    } else if s[0].0 == ip {
        assert(r[0].0 == ip);
        assert forall|x: Seq<char>| #[trigger] lists(r, x) <==> x == ip || lists(s, x) by {
            if lists(r, x) {
                let i = choose|i: int| 0 <= i < r.len() && (#[trigger] r[i]).0 == x;
                if i > 0 {
                    assert(s[i].0 == x);
                }
            }
            if lists(s, x) {
                let i = choose|i: int| 0 <= i < s.len() && (#[trigger] s[i]).0 == x;
                assert(r[i].0 == x);
            }
        }
        assert forall|i: int, j: int| 0 <= i < j < r.len() implies (#[trigger] r[i]).0 != (
        #[trigger] r[j]).0 by {
            assert(s[i].0 != s[j].0);
        }
    } else {
        let rest = s.drop_first();
        assert forall|i: int, j: int| 0 <= i < j < rest.len() implies (#[trigger] rest[i]).0 != (
        #[trigger] rest[j]).0 by {
            assert(s[i + 1].0 != s[j + 1].0);
        }
        lemma_with_entry(rest, ip, mac);
        let tail = with_entry(rest, ip, mac);
        assert(!lists(rest, s[0].0)) by {
            if lists(rest, s[0].0) {
                let i = choose|i: int| 0 <= i < rest.len() && (#[trigger] rest[i]).0 == s[0].0;
                assert(s[0].0 != s[i + 1].0);
            }
        }
        assert(!lists(tail, s[0].0));
        assert forall|i: int, j: int| 0 <= i < j < r.len() implies (#[trigger] r[i]).0 != (
        #[trigger] r[j]).0 by {
            assert(r[j] == tail[j - 1]);
            if i == 0 {
                assert(tail[j - 1].0 != s[0].0);
            } else {
                assert(r[i] == tail[i - 1]);
            }
        }
        assert forall|x: Seq<char>| #[trigger] lists(r, x) <==> x == ip || lists(s, x) by {
            if lists(r, x) {
                let i = choose|i: int| 0 <= i < r.len() && (#[trigger] r[i]).0 == x;
                if i == 0 {
                    assert(s[0].0 == x);
                } else {
                    assert(tail[i - 1].0 == x);
                    assert(lists(tail, x));
                    if lists(rest, x) {
                        let k = choose|k: int| 0 <= k < rest.len() && (#[trigger] rest[k]).0 == x;
                        assert(s[k + 1].0 == x);
                    }
                }
            }
            if lists(s, x) {
                let i = choose|i: int| 0 <= i < s.len() && (#[trigger] s[i]).0 == x;
                if i == 0 {
                    assert(r[0].0 == x);
                } else {
                    assert(rest[i - 1].0 == x);
                    assert(lists(rest, x));
                    assert(lists(tail, x));
                    let k = choose|k: int| 0 <= k < tail.len() && (#[trigger] tail[k]).0 == x;
                    assert(r[k + 1].0 == x);
                }
            }
            if x == ip {
                assert(lists(tail, x));
                let k = choose|k: int| 0 <= k < tail.len() && (#[trigger] tail[k]).0 == x;
                assert(r[k + 1].0 == x);
            }
        }
    }
}

impl IpMacList {
    /// Every address stands in the list once.
    pub open spec fn wf(&self) -> bool {
        each_once(self@)
    }

    /// A list without addresses.
    pub fn new() -> (r: IpMacList)
        ensures
            r.wf(),
            r@ == Seq::<(Seq<char>, Seq<char>)>::empty(),
    {
        let r = IpMacList { entries: Vec::new() };
        assert(r@ == Seq::<(Seq<char>, Seq<char>)>::empty());
        r
    }

    /// How many addresses are in the list.
    pub fn len(&self) -> (r: usize)
        ensures
            r == self@.len(),
    {
        self.entries.len()
    }

    /// The address at place `i`.
    pub fn ip(&self, i: usize) -> (r: &str)
        requires
            i < self@.len(),
        ensures
            r@ == self@[i as int].0,
    {
        self.entries[i].0.as_str()
    }

    /// The hardware address at place `i`.
    pub fn mac(&self, i: usize) -> (r: &str)
        requires
            i < self@.len(),
        ensures
            r@ == self@[i as int].1,
    {
        self.entries[i].1.as_str()
    }

    /// Puts the hardware address `mac` for `ip` into the list.
    pub fn insert(&mut self, ip: String, mac: String)
        requires
            old(self).wf(),
        ensures
            final(self).wf(),
            final(self)@ == with_entry(old(self)@, ip@, mac@),
    {
        let ghost all = self@;
        proof {
            lemma_with_entry(all, ip@, mac@);
        }
        let n: usize = self.entries.len();
        let mut i: usize = 0;
        assert(all.subrange(0, n as int) == all);
        assert(with_entry(all, ip@, mac@) == all.take(0) + with_entry(
            all.subrange(0, n as int),
            ip@,
            mac@,
        ));
        while i < n
            invariant
                i <= n == self.entries@.len(),
                self@ == all,
                all == old(self)@,
                each_once(with_entry(all, ip@, mac@)),
                with_entry(all, ip@, mac@) == all.take(i as int) + with_entry(
                    all.subrange(i as int, n as int),
                    ip@,
                    mac@,
                ),
            decreases n - i,
        {
            let ghost rest = all.subrange(i as int, n as int);
            assert(rest[0] == all[i as int]);
            assert(all[i as int].0 == self.entries@[i as int].0@);
            if self.entries[i].0 == ip {
                self.entries.set(i, (ip, mac));
                assert(self@ == all.take(i as int) + rest.update(0, (ip@, mac@)));
                return ;
            }
            assert(rest.drop_first() == all.subrange(i + 1, n as int));
            assert(all.take(i as int) + (seq![rest[0]] + with_entry(rest.drop_first(), ip@, mac@))
                == all.take(i + 1) + with_entry(all.subrange(i + 1, n as int), ip@, mac@));
            i += 1;
        }
        self.entries.push((ip, mac));
        assert(all.take(n as int) == all);
        assert(self@ == all + seq![(ip@, mac@)]);
    }

    /// Puts the entries of `other` into the list one after the other.
    pub fn extend(&mut self, other: &IpMacList)
        requires
            old(self).wf(),
        ensures
            final(self).wf(),
            final(self)@ == with_entries(old(self)@, other@),
    {
        let n: usize = other.entries.len();
        let mut i: usize = 0;
        assert(other@.take(0) == Seq::<(Seq<char>, Seq<char>)>::empty());
        while i < n
            invariant
                i <= n == other.entries@.len() == other@.len(),
                self.wf(),
                self@ == with_entries(old(self)@, other@.take(i as int)),
            decreases n - i,
        {
            assert(other@.take(i + 1).drop_last() == other@.take(i as int));
            assert(other@.take(i + 1).last() == other@[i as int]);
            self.insert(other.entries[i].0.clone(), other.entries[i].1.clone());
            i += 1;
        }
        assert(other@.take(n as int) == other@);
    }
}

/// A peer that answered on the local network.
pub struct DiscoveryPeer {
    pub id: String,
    pub ip_mac: IpMacList,
    pub username: String,
    pub hostname: String,
    pub platform: String,
    pub online: bool,
}

/// What is known of a peer.
pub struct PeerRecord {
    pub id: Seq<char>,
    pub ip_mac: Seq<(Seq<char>, Seq<char>)>,
    pub username: Seq<char>,
    pub hostname: Seq<char>,
    pub platform: Seq<char>,
    pub online: bool,
}

impl View for DiscoveryPeer {
    type V = PeerRecord;

    open spec fn view(&self) -> PeerRecord {
        PeerRecord {
            id: self.id@,
            ip_mac: self.ip_mac@,
            username: self.username@,
            hostname: self.hostname@,
            platform: self.platform@,
            online: self.online,
        }
    }
}

/// What is known of each peer in a list.
pub open spec fn records(v: Seq<DiscoveryPeer>) -> Seq<PeerRecord> {
    v.map_values(|p: DiscoveryPeer| p@)
}

/// Whether the addresses of each peer in a list are each in it once.
pub open spec fn peers_wf(v: Seq<DiscoveryPeer>) -> bool {
    forall|i: int| 0 <= i < v.len() ==> (#[trigger] v[i]).ip_mac.wf()
}

} // verus!
