//! What a sweep covers, said in terms of the adapters and of the list of the user.

use vstd::prelude::*;

use crate::adapter;
use crate::adapter::{Interface, Ipv4Net};
use crate::addr::Ipv4Addr;
use crate::addr_text;
use crate::sweep;
use crate::sweep::{SweepArea, SweepClock, SweepRoute};
use crate::text;

verus! {

// ---------------------------------------------------------------------------
// The networks of this machine
// ---------------------------------------------------------------------------

/// Every adapter that is not virtual is swept at each of its private addresses: the
/// plan has a route that starts from that address and whose targets are all other
/// hosts of its network and nothing else. The network is at most the one that the
/// first three octets name; a smaller one is named by the last octet too, and its
/// first and last address are no hosts.
pub proof fn law_own_networks_are_swept_whole(
    plan: Seq<SweepRoute>,
    interfaces: Seq<Interface>,
    extra: Seq<char>,
    i: int,
    k: int,
)
    requires
        sweep::sweeps(plan, sweep::sweep_areas(interfaces, extra)),
        0 <= i < interfaces.len(),
        !adapter::virtual_adapter(interfaces[i].name@),
        0 <= k < interfaces[i].ipv4@.len(),
        ({
            let ip = interfaces[i].ipv4@[k].addr;
            ip.a == 10 || ip.a == 172 && 16 <= ip.b <= 31 || ip.a == 192 && ip.b == 168
        }),
    ensures
        ({
            let ip = interfaces[i].ipv4@[k].addr;
            let prefix = interfaces[i].ipv4@[k].prefix_len;
            let size: int = if prefix <= 24 {
                256
            } else if prefix == 25 {
                128
            } else if prefix == 26 {
                64
            } else if prefix == 27 {
                32
            } else if prefix == 28 {
                16
            } else if prefix == 29 {
                8
            } else {
                4
            };
            exists|r: int|
                0 <= r < plan.len() && (#[trigger] plan[r]).local == ip
                    && plan[r].targets@.no_duplicates() && forall|host: Ipv4Addr| #[trigger]
                    plan[r].targets@.contains(host) <==> {
                        &&& host != ip
                        &&& host.a == ip.a && host.b == ip.b && host.c == ip.c
                        &&& host.d as int / size == ip.d as int / size
                        &&& 0 < host.d as int % size < size - 1
                    }
        }),
{
    let net = interfaces[i].ipv4@[k];
    let ip = net.addr;
    let own = sweep::own_areas(interfaces);
    let all = sweep::sweep_areas(interfaces, extra);
    lemma_own_area(interfaces, i, k);
    let r = choose|r: int|
        0 <= r < own.len() && #[trigger] own[r] == (SweepArea {
            ip,
            prefix: sweep::own_prefix(net.prefix_len),
            own: true,
        });
    sweep::law_extra_areas_start_elsewhere(own, sweep::sweep_subnets(extra));
    assert(all.take(own.len() as int)[r] == own[r]);
    assert(plan[r].local == all[r].local());
    assert forall|host: Ipv4Addr| #[trigger] plan[r].targets@.contains(host) <==> {
        let size = sweep::block(sweep::own_prefix(net.prefix_len));
        &&& host != ip
        &&& host.a == ip.a && host.b == ip.b && host.c == ip.c
        &&& host.d as int / size == ip.d as int / size
        &&& 0 < host.d as int % size < size - 1
    } by {
        lemma_own_target(all[r], host);
    }
    lemma_own_targets_distinct(all[r]);
    lemma_small_blocks();
}

proof fn lemma_small_blocks()
    ensures
        sweep::block(24) == 256,
        sweep::block(25) == 128,
        sweep::block(26) == 64,
        sweep::block(27) == 32,
        sweep::block(28) == 16,
        sweep::block(29) == 8,
        sweep::block(30) == 4,
{
    reveal_with_fuel(sweep::block, 10);
}

proof fn lemma_own_targets_distinct(area: SweepArea)
    requires
        area.own,
        24 <= area.prefix <= 30,
    ensures
        area.targets().no_duplicates(),
{
    sweep::law_targets_are_hosts(area.ip, area.prefix);
    lemma_filter_no_duplicates(
        sweep::sweep_targets(area.ip, area.prefix),
        sweep::other_than(area.ip),
    );
}

proof fn lemma_filter_no_duplicates(s: Seq<Ipv4Addr>, keep: spec_fn(Ipv4Addr) -> bool)
    requires
        s.no_duplicates(),
    ensures
        s.filter(keep).no_duplicates(),
    decreases s.len(),
{
    reveal(Seq::filter);
    if s.len() > 0 {
        let rest = s.drop_last();
        assert forall|i: int, j: int| 0 <= i < rest.len() && 0 <= j < rest.len() && i != j implies
            rest[i] != rest[j] by {
            assert(rest[i] == s[i] && rest[j] == s[j]);
        }
        lemma_filter_no_duplicates(rest, keep);
        let kept = rest.filter(keep);
        if keep(s.last()) {
            assert(s.filter(keep) == kept.push(s.last()));
            assert forall|i: int| 0 <= i < kept.len() implies kept[i] != s.last() by {
                assert(kept.contains(kept[i]));
                rest.lemma_filter_contains_rev(keep, kept[i]);
                let j = choose|j: int| 0 <= j < rest.len() && rest[j] == kept[i];
                assert(rest[j] == s[j]);
            }
        }
    }
}

/// The hosts of a network of a private address, by octets.
proof fn lemma_own_target(area: SweepArea, host: Ipv4Addr)
    requires
        area.own,
        24 <= area.prefix <= 30,
    ensures
        area.targets().contains(host) <==> {
            let ip = area.ip;
            let size = sweep::block(area.prefix);
            &&& host != ip
            &&& host.a == ip.a && host.b == ip.b && host.c == ip.c
            &&& host.d as int / size == ip.d as int / size
            &&& 0 < host.d as int % size < size - 1
        },
{
    let ip = area.ip;
    let all = sweep::sweep_targets(ip, area.prefix);
    let keep = sweep::other_than(ip);
    let first = sweep::network_of(ip, area.prefix);
    let size = sweep::block(area.prefix);
    lemma_small_blocks();
    lemma_in_network(ip, host, area.prefix);
    sweep::law_targets_are_hosts(ip, area.prefix);
    if first < host.value() < first + size - 1 {
        sweep::law_small_networks_are_swept_whole(ip, area.prefix, host);
        if host != ip {
            let j = choose|j: int| 0 <= j < all.len() && all[j] == host;
            assert(keep(all[j]));
            all.lemma_filter_contains(keep, j);
        }
    }
    if area.targets().contains(host) {
        all.lemma_filter_contains_rev(keep, host);
        let kept = area.targets();
        let m = choose|m: int| 0 <= m < kept.len() && kept[m] == host;
        broadcast use vstd::seq_lib::group_filter_ensures;

        assert(keep(kept[m]));
        let j = choose|j: int| 0 <= j < all.len() && all[j] == host;
        assert(first < all[j].value() < first + size - 1);
    }
}

/// Being a host of a small network, by octets.
proof fn lemma_in_network(ip: Ipv4Addr, host: Ipv4Addr, prefix: int)
    requires
        24 <= prefix <= 30,
    ensures
        ({
            let size = sweep::block(prefix);
            let first = sweep::network_of(ip, prefix);
            first < host.value() < first + size - 1 <==> {
                &&& host.a == ip.a && host.b == ip.b && host.c == ip.c
                &&& host.d as int / size == ip.d as int / size
                &&& 0 < host.d as int % size < size - 1
            }
        }),
{
    lemma_small_blocks();
    let size = sweep::block(prefix);
    let first = sweep::network_of(ip, prefix);
    let v = ip.value();
    let w = host.value();
    let hi = ip.a * 0x1_0000 + ip.b * 0x100 + ip.c;
    let hj = host.a * 0x1_0000 + host.b * 0x100 + host.c;
    let d = ip.d as int;
    let e = host.d as int;
    assert(v == hi * 0x100 + d);
    assert(w == hj * 0x100 + e);
    assert(hi == hj <==> host.a == ip.a && host.b == ip.b && host.c == ip.c);
    assert(first == v / size * size);
    if size == 256 {
        assert(first == hi * 256);
    } else if size == 128 {
        assert(v / 128 == hi * 2 + d / 128);
    } else if size == 64 {
        assert(v / 64 == hi * 4 + d / 64);
    } else if size == 32 {
        assert(v / 32 == hi * 8 + d / 32);
    } else if size == 16 {
        assert(v / 16 == hi * 16 + d / 16);
    } else if size == 8 {
        assert(v / 8 == hi * 32 + d / 8);
    } else {
        assert(v / 4 == hi * 64 + d / 4);
    }
    let q = d / size * size;
    assert(first == hi * 0x100 + q);
}

proof fn lemma_own_area(interfaces: Seq<Interface>, i: int, k: int)
    requires
        0 <= i < interfaces.len(),
        !adapter::virtual_adapter(interfaces[i].name@),
        0 <= k < interfaces[i].ipv4@.len(),
        interfaces[i].ipv4@[k].addr.private(),
    ensures
        ({
            let own = sweep::own_areas(interfaces);
            let net = interfaces[i].ipv4@[k];
            exists|r: int|
                0 <= r < own.len() && #[trigger] own[r] == (SweepArea {
                    ip: net.addr,
                    prefix: sweep::own_prefix(net.prefix_len),
                    own: true,
                })
        }),
    decreases interfaces.len(),
{
    let own = sweep::own_areas(interfaces);
    let net = interfaces[i].ipv4@[k];
    let wanted = SweepArea {
        ip: net.addr,
        prefix: sweep::own_prefix(net.prefix_len),
        own: true,
    };
    let before = sweep::own_areas(interfaces.drop_last());
    if i < interfaces.len() - 1 {
        assert(interfaces.drop_last()[i] == interfaces[i]);
        lemma_own_area(interfaces.drop_last(), i, k);
        let r = choose|r: int| 0 <= r < before.len() && #[trigger] before[r] == wanted;
        assert(own[r] == before[r]);
    } else {
        let more = sweep::adapter_areas(interfaces[i].ipv4@);
        lemma_adapter_area(interfaces[i].ipv4@, k);
        let r = choose|r: int| 0 <= r < more.len() && #[trigger] more[r] == wanted;
        assert(own[before.len() + r] == more[r]);
    }
}

proof fn lemma_adapter_area(nets: Seq<Ipv4Net>, k: int)
    requires
        0 <= k < nets.len(),
        nets[k].addr.private(),
    ensures
        exists|r: int|
            0 <= r < sweep::adapter_areas(nets).len() && #[trigger] sweep::adapter_areas(nets)[r]
                == (SweepArea {
                ip: nets[k].addr,
                prefix: sweep::own_prefix(nets[k].prefix_len),
                own: true,
            }),
    decreases nets.len(),
{
    let all = sweep::adapter_areas(nets);
    let wanted = SweepArea {
        ip: nets[k].addr,
        prefix: sweep::own_prefix(nets[k].prefix_len),
        own: true,
    };
    let before = sweep::adapter_areas(nets.drop_last());
    if k < nets.len() - 1 {
        assert(nets.drop_last()[k] == nets[k]);
        lemma_adapter_area(nets.drop_last(), k);
        let r = choose|r: int| 0 <= r < before.len() && #[trigger] before[r] == wanted;
        assert(all[r] == before[r]);
    } else {
        assert(all[before.len() as int] == wanted);
    }
}

/// Nothing else of this machine's own is swept: a route that starts from an address
/// starts from a private one of an adapter that is not virtual.
pub proof fn law_nothing_else_is_swept(
    plan: Seq<SweepRoute>,
    interfaces: Seq<Interface>,
    extra: Seq<char>,
    r: int,
)
    requires
        sweep::sweeps(plan, sweep::sweep_areas(interfaces, extra)),
        0 <= r < plan.len(),
        plan[r].local != (Ipv4Addr { a: 0, b: 0, c: 0, d: 0 }),
    ensures
        ({
            let ip = plan[r].local;
            &&& ip.a == 10 || ip.a == 172 && 16 <= ip.b <= 31 || ip.a == 192 && ip.b == 168
            &&& exists|i: int, k: int|
                0 <= i < interfaces.len() && 0 <= k < interfaces[i].ipv4@.len()
                    && !adapter::virtual_adapter(interfaces[i].name@)
                    && #[trigger] interfaces[i].ipv4@[k].addr == ip
        }),
{
    let own = sweep::own_areas(interfaces);
    let all = sweep::sweep_areas(interfaces, extra);
    lemma_extra_are_listed(own, sweep::sweep_subnets(extra));
    sweep::law_extra_areas_start_elsewhere(own, sweep::sweep_subnets(extra));
    assert(plan[r].local == all[r].local());
    if r >= own.len() {
        assert(!all[r].own);
    }
    assert(all.take(own.len() as int)[r] == own[r]);
    sweep::law_own_areas_are_private(interfaces);
    lemma_own_area_source(interfaces, r);
}

proof fn lemma_own_area_source(interfaces: Seq<Interface>, r: int)
    requires
        0 <= r < sweep::own_areas(interfaces).len(),
    ensures
        exists|i: int, k: int|
            0 <= i < interfaces.len() && 0 <= k < interfaces[i].ipv4@.len()
                && !adapter::virtual_adapter(interfaces[i].name@)
                && #[trigger] interfaces[i].ipv4@[k].addr == sweep::own_areas(interfaces)[r].ip,
    decreases interfaces.len(),
{
    let own = sweep::own_areas(interfaces);
    let before = sweep::own_areas(interfaces.drop_last());
    let last = interfaces.len() - 1;
    if r < before.len() {
        assert(own[r] == before[r]);
        lemma_own_area_source(interfaces.drop_last(), r);
        let (i, k) = choose|i: int, k: int|
            0 <= i < interfaces.drop_last().len() && 0 <= k
                < interfaces.drop_last()[i].ipv4@.len() && !adapter::virtual_adapter(
                interfaces.drop_last()[i].name@,
            ) && #[trigger] interfaces.drop_last()[i].ipv4@[k].addr == before[r].ip;
        assert(interfaces[i] == interfaces.drop_last()[i]);
        assert(interfaces[i].ipv4@[k].addr == own[r].ip);
    } else {
        let nets = interfaces[last].ipv4@;
        let more = sweep::adapter_areas(nets);
        assert(own[r] == more[r - before.len()]);
        lemma_adapter_area_source(nets, r - before.len());
        let k = choose|k: int|
            0 <= k < nets.len() && (#[trigger] nets[k]).addr == more[r - before.len()].ip;
        assert(interfaces[last].ipv4@[k].addr == own[r].ip);
    }
}

proof fn lemma_adapter_area_source(nets: Seq<Ipv4Net>, r: int)
    requires
        0 <= r < sweep::adapter_areas(nets).len(),
    ensures
        exists|k: int|
            0 <= k < nets.len() && (#[trigger] nets[k]).addr == sweep::adapter_areas(nets)[r].ip,
    decreases nets.len(),
{
    let all = sweep::adapter_areas(nets);
    let before = sweep::adapter_areas(nets.drop_last());
    if r < before.len() {
        assert(all[r] == before[r]);
        lemma_adapter_area_source(nets.drop_last(), r);
        let k = choose|k: int|
            0 <= k < nets.drop_last().len() && (#[trigger] nets.drop_last()[k]).addr
                == before[r].ip;
        assert(nets[k] == nets.drop_last()[k]);
    } else {
        assert(all[r].ip == nets[nets.len() - 1].addr);
    }
}

/// Adapters are swept one after the other, each on its own: sweeping some and some
/// more is sweeping the ones, and after them the others.
pub proof fn law_adapters_are_swept_in_turn(first: Seq<Interface>, more: Seq<Interface>)
    ensures
        sweep::own_areas(first + more) == sweep::own_areas(first) + sweep::own_areas(more),
    decreases more.len(),
{
    if more.len() == 0 {
        assert(first + more == first);
        assert(sweep::own_areas(first) + sweep::own_areas(more) == sweep::own_areas(first));
    } else {
        law_adapters_are_swept_in_turn(first, more.drop_last());
        assert((first + more).drop_last() == first + more.drop_last());
        assert((first + more).last() == more.last());
    }
}

/// So are the addresses of one adapter.
pub proof fn law_addresses_are_swept_in_turn(first: Seq<Ipv4Net>, more: Seq<Ipv4Net>)
    ensures
        sweep::adapter_areas(first + more) == sweep::adapter_areas(first) + sweep::adapter_areas(
            more,
        ),
    decreases more.len(),
{
    if more.len() == 0 {
        assert(first + more == first);
        assert(sweep::adapter_areas(first) + sweep::adapter_areas(more) == sweep::adapter_areas(
            first,
        ));
    } else {
        law_addresses_are_swept_in_turn(first, more.drop_last());
        assert((first + more).drop_last() == first + more.drop_last());
        assert((first + more).last() == more.last());
    }
}

/// One address is swept once where it is private, with a prefix length that is cut
/// to 24 at the least and 30 at the most, and not at all where it is not.
pub proof fn law_one_address_is_swept_once(net: Ipv4Net)
    ensures
        ({
            let ip = net.addr;
            let areas = sweep::adapter_areas(seq![net]);
            let private = ip.a == 10 || ip.a == 172 && 16 <= ip.b <= 31 || ip.a == 192 && ip.b
                == 168;
            &&& !private ==> areas.len() == 0
            &&& private ==> areas.len() == 1 && areas[0].own && areas[0].ip == ip
            &&& private && net.prefix_len < 24 ==> areas[0].prefix == 24
            &&& private && 24 <= net.prefix_len <= 30 ==> areas[0].prefix == net.prefix_len
            &&& private && net.prefix_len > 30 ==> areas[0].prefix == 30
        }),
{
    reveal_with_fuel(sweep::adapter_areas, 2);
}

// ---------------------------------------------------------------------------
// Hosts by number
// ---------------------------------------------------------------------------

/// A network has two to the power of what its prefix length leaves of 32 addresses.
pub proof fn law_network_sizes(prefix: int)
    requires
        0 <= prefix <= 32,
    ensures
        sweep::block(prefix) == vstd::arithmetic::power2::pow2((32 - prefix) as nat),
    decreases 32 - prefix,
{
    if prefix == 32 {
        vstd::arithmetic::power2::lemma2_to64();
    } else {
        law_network_sizes(prefix + 1);
        vstd::arithmetic::power2::lemma_pow2_unfold((32 - prefix) as nat);
    }
}

/// The hosts that are probed in a network are those after its first address, one by
/// one: all but the last address, or the first 254. The first address of a network
/// is the one at or before the given one whose number its size divides.
pub proof fn law_hosts_are_probed_in_order(ip: Ipv4Addr, prefix: int, i: int)
    requires
        1 <= prefix <= 32,
        0 <= i < sweep::sweep_targets(ip, prefix).len(),
    ensures
        ({
            let size = vstd::arithmetic::power2::pow2((32 - prefix) as nat) as int;
            let number = ip.a * 0x100_0000 + ip.b * 0x1_0000 + ip.c * 0x100 + ip.d;
            let targets = sweep::sweep_targets(ip, prefix);
            let host = targets[i];
            let at = host.a * 0x100_0000 + host.b * 0x1_0000 + host.c * 0x100 + host.d;
            &&& size - 2 <= 254 ==> targets.len() == size - 2
            &&& size - 2 > 254 ==> targets.len() == 254
            &&& at == number - number % size + 1 + i
        }),
{
    law_network_sizes(prefix);
    sweep::lemma_network(ip, prefix);
    let size = sweep::block(prefix);
    let v = ip.value();
    crate::addr::law_address_numbers(ip, sweep::network_of(ip, prefix) + 1 + i);
    assert(v / size * size == v - v % size) by {
        vstd::arithmetic::div_mod::lemma_fundamental_div_mod(v, size);
        assert(v / size * size == size * (v / size)) by (nonlinear_arith);
    }
}

/// Where a network has no hosts nothing is probed, and only there.
pub proof fn law_networks_without_hosts(ip: Ipv4Addr, prefix: int)
    requires
        1 <= prefix <= 32,
    ensures
        sweep::sweep_targets(ip, prefix).len() == 0 <==> prefix >= 31,
{
    assert(sweep::block(31) == 2 && sweep::block(32) == 1) by {
        reveal_with_fuel(sweep::block, 3);
    }
    if prefix <= 30 {
        lemma_wide_block(prefix);
    }
}

proof fn lemma_wide_block(prefix: int)
    requires
        prefix <= 30,
    ensures
        sweep::block(prefix) >= 4,
    decreases 30 - prefix,
{
    if prefix == 30 {
        lemma_small_blocks();
    } else {
        lemma_wide_block(prefix + 1);
    }
}

// ---------------------------------------------------------------------------
// The networks of the user
// ---------------------------------------------------------------------------

proof fn lemma_extra_are_listed(areas: Seq<SweepArea>, nets: Seq<(Ipv4Addr, u32)>)
    ensures
        areas.len() <= sweep::with_extra(areas, nets).len(),
        forall|r: int|
            areas.len() <= r < sweep::with_extra(areas, nets).len() ==> {
                let area = #[trigger] sweep::with_extra(areas, nets)[r];
                !area.own && exists|j: int|
                    0 <= j < nets.len() && #[trigger] nets[j].0 == area.ip && nets[j].1
                        == area.prefix
            },
    decreases nets.len(),
{
    if nets.len() > 0 {
        let before = sweep::with_extra(areas, nets.drop_last());
        let all = sweep::with_extra(areas, nets);
        lemma_extra_are_listed(areas, nets.drop_last());
        assert forall|r: int| areas.len() <= r < all.len() implies {
            let area = #[trigger] all[r];
            !area.own && exists|j: int|
                0 <= j < nets.len() && #[trigger] nets[j].0 == area.ip && nets[j].1 == area.prefix
        } by {
            if r < before.len() {
                assert(all[r] == before[r]);
                let j = choose|j: int|
                    0 <= j < nets.drop_last().len() && #[trigger] nets.drop_last()[j].0
                        == before[r].ip && nets.drop_last()[j].1 == before[r].prefix;
                assert(nets[j] == nets.drop_last()[j]);
                assert(nets[j].0 == all[r].ip);
            } else {
                let j = nets.len() - 1;
                assert(nets[j].0 == all[r].ip);
            }
        }
    }
}

/// A route that starts from no address of this machine's own is for a network that
/// the user listed, and has the hosts of that one for targets.
pub proof fn law_other_routes_are_listed(
    plan: Seq<SweepRoute>,
    interfaces: Seq<Interface>,
    extra: Seq<char>,
    r: int,
)
    requires
        sweep::sweeps(plan, sweep::sweep_areas(interfaces, extra)),
        sweep::own_areas(interfaces).len() <= r < plan.len(),
    ensures
        plan[r].local == (Ipv4Addr { a: 0, b: 0, c: 0, d: 0 }),
        exists|j: int|
            0 <= j < sweep::sweep_subnets(extra).len() && plan[r].targets@ == sweep::sweep_targets(
                (#[trigger] sweep::sweep_subnets(extra)[j]).0,
                sweep::sweep_subnets(extra)[j].1 as int,
            ),
{
    let own = sweep::own_areas(interfaces);
    let nets = sweep::sweep_subnets(extra);
    let all = sweep::sweep_areas(interfaces, extra);
    lemma_extra_are_listed(own, nets);
    assert(!all[r].own);
    assert(plan[r].local == all[r].local());
    let j = choose|j: int|
        0 <= j < nets.len() && #[trigger] nets[j].0 == all[r].ip && nets[j].1 == all[r].prefix;
    assert(plan[r].targets@ == sweep::sweep_targets(nets[j].0, nets[j].1 as int));
}

/// Every network that the user lists is swept, unless one that starts at the same
/// address is already.
pub proof fn law_listed_networks_are_swept(
    areas: Seq<SweepArea>,
    nets: Seq<(Ipv4Addr, u32)>,
    net: (Ipv4Addr, u32),
)
    ensures
        ({
            let before = sweep::with_extra(areas, nets);
            let all = sweep::with_extra(areas, nets.push(net));
            let first = sweep::network_of(net.0, net.1 as int);
            let known = exists|r: int|
                0 <= r < before.len() && sweep::network_of(
                    (#[trigger] before[r]).ip,
                    before[r].prefix,
                ) == first;
            &&& sweep::with_extra(areas, Seq::empty()) == areas
            &&& known ==> all == before
            &&& !known ==> all == before.push(
                SweepArea { ip: net.0, prefix: net.1 as int, own: false },
            )
        }),
{
    let before = sweep::with_extra(areas, nets);
    let first = sweep::network_of(net.0, net.1 as int);
    assert(nets.push(net).drop_last() == nets);
    if sweep::covers(before, first) {
        let r = choose|r: int|
            0 <= r < before.len() && (#[trigger] before[r]).network() == first;
        assert(sweep::network_of(before[r].ip, before[r].prefix) == first);
    }
    if exists|r: int|
        0 <= r < before.len() && sweep::network_of((#[trigger] before[r]).ip, before[r].prefix)
            == first {
        let r = choose|r: int|
            0 <= r < before.len() && sweep::network_of((#[trigger] before[r]).ip, before[r].prefix)
                == first;
        assert(before[r].network() == first);
    }
}

/// So in the plan every network that the user lists has a route. It starts from no
/// address of this machine's own and its targets are the hosts of that network, unless
/// the same first address is that of one of this machine's own networks or of one that
/// is listed before.
pub proof fn law_plan_has_every_listed_network(
    plan: Seq<SweepRoute>,
    interfaces: Seq<Interface>,
    extra: Seq<char>,
    j: int,
)
    requires
        sweep::sweeps(plan, sweep::sweep_areas(interfaces, extra)),
        0 <= j < sweep::sweep_subnets(extra).len(),
        forall|k: int|
            0 <= k < j ==> sweep::network_of(
                (#[trigger] sweep::sweep_subnets(extra)[k]).0,
                sweep::sweep_subnets(extra)[k].1 as int,
            ) != sweep::network_of(
                sweep::sweep_subnets(extra)[j].0,
                sweep::sweep_subnets(extra)[j].1 as int,
            ),
        forall|r: int|
            0 <= r < sweep::own_areas(interfaces).len() ==> sweep::network_of(
                (#[trigger] sweep::own_areas(interfaces)[r]).ip,
                sweep::own_areas(interfaces)[r].prefix,
            ) != sweep::network_of(
                sweep::sweep_subnets(extra)[j].0,
                sweep::sweep_subnets(extra)[j].1 as int,
            ),
    ensures
        exists|r: int|
            0 <= r < plan.len() && (#[trigger] plan[r]).local == (Ipv4Addr {
                a: 0,
                b: 0,
                c: 0,
                d: 0,
            }) && plan[r].targets@ == sweep::sweep_targets(
                sweep::sweep_subnets(extra)[j].0,
                sweep::sweep_subnets(extra)[j].1 as int,
            ),
{
    let nets = sweep::sweep_subnets(extra);
    let own = sweep::own_areas(interfaces);
    let all = sweep::sweep_areas(interfaces, extra);
    lemma_extra_area(own, nets, j);
    let r = choose|r: int|
        0 <= r < all.len() && #[trigger] all[r] == (SweepArea {
            ip: nets[j].0,
            prefix: nets[j].1 as int,
            own: false,
        });
    assert(plan[r].local == all[r].local());
}

proof fn lemma_extra_area(areas: Seq<SweepArea>, nets: Seq<(Ipv4Addr, u32)>, j: int)
    requires
        0 <= j < nets.len(),
        forall|k: int|
            0 <= k < j ==> sweep::network_of((#[trigger] nets[k]).0, nets[k].1 as int)
                != sweep::network_of(nets[j].0, nets[j].1 as int),
        forall|r: int|
            0 <= r < areas.len() ==> sweep::network_of((#[trigger] areas[r]).ip, areas[r].prefix)
                != sweep::network_of(nets[j].0, nets[j].1 as int),
    ensures
        exists|r: int|
            0 <= r < sweep::with_extra(areas, nets).len() && #[trigger] sweep::with_extra(
                areas,
                nets,
            )[r] == (SweepArea { ip: nets[j].0, prefix: nets[j].1 as int, own: false }),
    decreases nets.len(),
{
    let front = nets.drop_last();
    let before = sweep::with_extra(areas, front);
    let all = sweep::with_extra(areas, nets);
    let wanted = SweepArea { ip: nets[j].0, prefix: nets[j].1 as int, own: false };
    assert(forall|k: int| 0 <= k < front.len() ==> #[trigger] front[k] == nets[k]);
    if j < front.len() {
        assert forall|k: int| 0 <= k < j implies sweep::network_of(
            (#[trigger] front[k]).0,
            front[k].1 as int,
        ) != sweep::network_of(front[j].0, front[j].1 as int) by {
            assert(front[k] == nets[k]);
        }
        lemma_extra_area(areas, front, j);
        let r = choose|r: int| 0 <= r < before.len() && #[trigger] before[r] == wanted;
        assert(all[r] == before[r]);
    } else {
        let first = wanted.network();
        if sweep::covers(before, first) {
            let r = choose|r: int|
                0 <= r < before.len() && (#[trigger] before[r]).network() == first;
            sweep::law_extra_areas_start_elsewhere(areas, front);
            if r < areas.len() {
                assert(before.take(areas.len() as int)[r] == areas[r]);
            } else {
                lemma_extra_are_listed(areas, front);
                let k = choose|k: int|
                    0 <= k < front.len() && #[trigger] front[k].0 == before[r].ip && front[k].1
                        == before[r].prefix;
                assert(front[k] == nets[k]);
            }
        }
        assert(all[before.len() as int] == wanted);
    }
}

/// A text that is added to the list, behind a comma, a semicolon or white space, adds
/// the network that it names. It adds nothing where it names none, or where the list
/// names eight already.
pub proof fn law_listed_texts_are_read(raw: Seq<char>, sep: char, token: Seq<char>)
    requires
        sep == ',' || sep == ';' || text::is_space(sep),
        forall|i: int|
            0 <= i < token.len() ==> (#[trigger] token[i]) != ',' && token[i] != ';'
                && !text::is_space(token[i]),
    ensures
        ({
            let before = sweep::sweep_subnets(raw);
            let all = sweep::sweep_subnets(raw.push(sep) + token);
            let named = sweep::subnet_of(token);
            &&& before.len() <= 8
            &&& before.len() == 8 || named is None ==> all == before
            &&& before.len() < 8 && named is Some ==> all == before.push(named->0)
        }),
{
    let f = sweep::list_separator();
    lemma_pieces_end(raw.push(sep), token, f);
    assert(raw.push(sep).drop_last() == raw);
    let p = text::pieces(raw, f);
    let q = text::pieces(raw.push(sep), f);
    assert(q == p.push(Seq::empty()));
    assert(q.drop_last() == p);
    let t = text::pieces(raw.push(sep) + token, f);
    assert(Seq::<char>::empty() + token == token);
    assert(t == p.push(token));
    assert(t.drop_last() == p);
}

/// A list that is one text names the network that this text names, if any.
pub proof fn law_one_listed_text_is_read(token: Seq<char>)
    requires
        forall|i: int|
            0 <= i < token.len() ==> (#[trigger] token[i]) != ',' && token[i] != ';'
                && !text::is_space(token[i]),
    ensures
        sweep::subnet_of(token) is None ==> sweep::sweep_subnets(token).len() == 0,
        sweep::subnet_of(token) matches Some(net) ==> sweep::sweep_subnets(token) == seq![net],
{
    let f = sweep::list_separator();
    lemma_pieces_end(Seq::empty(), token, f);
    assert(Seq::<char>::empty() + token == token);
    let t = text::pieces(token, f);
    assert(text::pieces(Seq::empty(), f) == seq![Seq::<char>::empty()]);
    assert(t == seq![token]);
    assert(t.drop_last() == Seq::<Seq<char>>::empty());
    assert(sweep::subnets_of(t.drop_last()) == Seq::<(Ipv4Addr, u32)>::empty());
}

proof fn lemma_pieces_end(head: Seq<char>, token: Seq<char>, f: spec_fn(char) -> bool)
    requires
        forall|i: int| 0 <= i < token.len() ==> !f(#[trigger] token[i]),
    ensures
        text::pieces(head, f).len() > 0,
        text::pieces(head + token, f) == text::pieces(head, f).drop_last().push(
            text::pieces(head, f).last() + token,
        ),
    decreases token.len(),
{
    text::lemma_pieces_nonempty(head, f);
    let p = text::pieces(head, f);
    if token.len() == 0 {
        assert(head + token == head);
        assert(p.last() + token == p.last());
        assert(p == p.drop_last().push(p.last()));
    } else {
        let rest = token.drop_last();
        assert forall|i: int| 0 <= i < rest.len() implies !f(#[trigger] rest[i]) by {
            assert(rest[i] == token[i]);
        }
        lemma_pieces_end(head, rest, f);
        assert((head + token).drop_last() == head + rest);
        assert((head + token).last() == token[token.len() - 1]);
        let q = text::pieces(head + rest, f);
        assert(q.drop_last() == p.drop_last());
        assert((p.last() + rest).push(token.last()) == p.last() + token);
    }
}

/// A network is named by an address, a slash and a prefix length from 8 to 30. A text
/// without a slash names none.
pub proof fn law_named_networks(address: Seq<char>, prefix: Seq<char>)
    requires
        !address.contains('/'),
    ensures
        ({
            let s = address + seq!['/'] + prefix;
            let ip = addr_text::ipv4_of(address);
            let length = text::unsigned_of(prefix);
            &&& sweep::subnet_of(address) is None
            &&& ip is None || length is None ==> sweep::subnet_of(s) is None
            &&& ip is Some && length is Some && 8 <= length->0 <= 30 ==> sweep::subnet_of(s)
                == Some((ip->0, length->0 as u32))
            &&& length is Some && (length->0 < 8 || length->0 > 30) ==> sweep::subnet_of(s) is None
        }),
{
    let s = address + seq!['/'] + prefix;
    lemma_first_at(address, '/', prefix, 0);
    lemma_first_nowhere(address, '/', 0);
    assert(s.take(address.len() as int) == address);
    assert(s.skip((address.len() + 1) as int) == prefix);
}

proof fn lemma_first_at(before: Seq<char>, c: char, behind: Seq<char>, from: int)
    requires
        !before.contains(c),
        0 <= from <= before.len(),
    ensures
        addr_text::first_from(before + seq![c] + behind, c, from) == Some(before.len() as int),
    decreases before.len() - from,
{
    let s = before + seq![c] + behind;
    if from < before.len() {
        assert(s[from] == before[from]);
        assert(before.contains(before[from]));
        lemma_first_at(before, c, behind, from + 1);
    } else {
        assert(s[from] == c);
    }
}

proof fn lemma_first_nowhere(s: Seq<char>, c: char, from: int)
    requires
        !s.contains(c),
        0 <= from <= s.len(),
    ensures
        addr_text::first_from(s, c, from) is None,
    decreases s.len() - from,
{
    if from < s.len() {
        assert(s.contains(s[from]));
        lemma_first_nowhere(s, c, from + 1);
    }
}

// ---------------------------------------------------------------------------
// How often
// ---------------------------------------------------------------------------

/// The regular discovery sweeps exactly where 45 seconds or more have passed.
pub proof fn law_sweeps_come_after_45_seconds(clock: SweepClock, now: u64)
    ensures
        clock.due(now) <==> now >= clock.last + 45,
{
}

} // verus!
