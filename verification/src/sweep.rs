//! Probing the hosts of whole networks one by one.
//!
//! Some peers never see a broadcast but answer a datagram that is sent to
//! their own address. They are found by asking every host of the networks
//! that this machine is in, and of networks that the user names.

use vstd::prelude::*;
use vstd::slice::slice_subrange;

use crate::adapter;
use crate::adapter::{Interface, Ipv4Net};
use crate::addr::Ipv4Addr;
use crate::addr_text;
use crate::text;

verus! {

/// How many hosts of one network are probed at most.
pub const SWEEP_HOST_LIMIT: usize = 254;

/// How many networks the user can name.
pub const EXTRA_SWEEP_SUBNET_LIMIT: usize = 8;

/// How many seconds lie between two sweeps of the regular discovery.
pub const SWEEP_MIN_INTERVAL: u64 = 45;

// ---------------------------------------------------------------------------
// The networks that the user names
// ---------------------------------------------------------------------------

/// What stands between two networks in a list.
pub open spec fn list_separator() -> spec_fn(char) -> bool {
    |c: char| c == ',' || c == ';' || text::is_space(c)
}

/// The network that `s` names, an address and a prefix length with a slash
/// between them. The prefix length is from 8 to 30.
pub open spec fn subnet_of(s: Seq<char>) -> Option<(Ipv4Addr, u32)> {
    match addr_text::first_from(s, '/', 0) {
        Some(i) => match (addr_text::ipv4_of(s.take(i)), text::unsigned_of(s.skip(i + 1))) {
            (Some(ip), Some(prefix)) => if 8 <= prefix <= 30 {
                Some((ip, prefix as u32))
            } else {
                None
            },
            _ => None,
        },
        None => None,
    }
}

/// The networks that the texts in `list` name; what names none is left out.
pub open spec fn subnets_of(list: Seq<Seq<char>>) -> Seq<(Ipv4Addr, u32)>
    decreases list.len(),
{
    if list.len() == 0 {
        Seq::empty()
    } else {
        let before = subnets_of(list.drop_last());
        match subnet_of(list.last()) {
            Some(net) => before.push(net),
            None => before,
        }
    }
}

/// The first `n` items of `s`, or all where there are fewer.
pub open spec fn at_most<A>(s: Seq<A>, n: int) -> Seq<A> {
    if s.len() <= n {
        s
    } else {
        s.take(n)
    }
}

/// The networks that `raw` lists: what is no network is passed over, and what
/// comes after the limit is left out.
pub open spec fn sweep_subnets(raw: Seq<char>) -> Seq<(Ipv4Addr, u32)> {
    at_most(subnets_of(text::pieces(raw, list_separator())), EXTRA_SWEEP_SUBNET_LIMIT as int)
}

fn read_subnet(s: &[char]) -> (r: Option<(Ipv4Addr, u32)>)
    ensures
        r == subnet_of(s@),
{
    let n: usize = s.len();
    match addr_text::find_char(s, '/') {
        Some(i) => {
            assert(s@.subrange(0, i as int) == s@.take(i as int));
            assert(s@.subrange(i + 1, n as int) == s@.skip(i + 1));
            match (
                addr_text::read_ipv4(slice_subrange(s, 0, i)),
                text::read_unsigned(slice_subrange(s, i + 1, n)),
            ) {
                (Some(ip), Some(prefix)) => if 8 <= prefix && prefix <= 30 {
                    Some((ip, prefix))
                } else {
                    None
                },
                _ => None,
            }
        },
        None => None,
    }
}

/// Reads a list of networks, with commas, semicolons or white space between
/// them. One mistake does not spoil the rest of the list.
pub fn parse_sweep_subnets(raw: &str) -> (r: Vec<(Ipv4Addr, u32)>)
    ensures
        r@ == sweep_subnets(raw@),
{
    let chars = text::chars_of(raw);
    let sep = |c: char| -> (b: bool)
        ensures
            b == (c == ',' || c == ';' || text::is_space(c)),
        { c == ',' || c == ';' || text::space(c) };
    let list = text::split(chars.as_slice(), sep, Ghost(list_separator()));
    let ghost tokens = text::texts(list@);
    let n: usize = list.len();
    let mut r: Vec<(Ipv4Addr, u32)> = Vec::new();
    let mut i: usize = 0;
    assert(tokens.take(0) == Seq::<Seq<char>>::empty());
    while i < n
        invariant
            i <= n == list@.len(),
            tokens == text::texts(list@),
            r@ == at_most(subnets_of(tokens.take(i as int)), EXTRA_SWEEP_SUBNET_LIMIT as int),
        decreases n - i,
    {
        assert(tokens.take(i + 1).drop_last() == tokens.take(i as int));
        assert(tokens.take(i + 1).last() == list@[i as int]@);
        if r.len() < EXTRA_SWEEP_SUBNET_LIMIT {
            if let Some(net) = read_subnet(list[i].as_slice()) {
                r.push(net);
            }
        }
        i += 1;
    }
    assert(tokens.take(n as int) == tokens);
    r
}

/// The networks to sweep besides those that this machine is in, as the user
/// lists them in `option`. There are none where the option is empty.
pub fn extra_sweep_subnets(option: &str) -> (r: Vec<(Ipv4Addr, u32)>)
    ensures
        r@ == sweep_subnets(option@),
{
    parse_sweep_subnets(option)
}

// ---------------------------------------------------------------------------
// The hosts of a network
// ---------------------------------------------------------------------------

/// How many addresses a network with this prefix length has.
pub open spec fn block(prefix: int) -> int
    decreases 32 - prefix,
{
    if prefix >= 32 {
        1
    } else {
        2 * block(prefix + 1)
    }
}

/// How many networks there are with this prefix length.
pub open spec fn block_count(prefix: int) -> int
    decreases prefix,
{
    if prefix <= 0 {
        1
    } else {
        2 * block_count(prefix - 1)
    }
}

/// The number of the first address of the network that `ip` is in.
pub open spec fn network_of(ip: Ipv4Addr, prefix: int) -> int {
    ip.value() / block(prefix) * block(prefix)
}

/// How many hosts of a network with this prefix length are probed: all, the
/// first and the last address being none, up to the limit.
pub open spec fn host_count(prefix: int) -> nat {
    if block(prefix) <= 2 {
        0
    } else if block(prefix) - 2 <= SWEEP_HOST_LIMIT {
        (block(prefix) - 2) as nat
    } else {
        SWEEP_HOST_LIMIT as nat
    }
}

/// The hosts to probe in the network that `ip` is in.
pub open spec fn sweep_targets(ip: Ipv4Addr, prefix: int) -> Seq<Ipv4Addr> {
    Seq::new(host_count(prefix), |i: int| Ipv4Addr::at_value(network_of(ip, prefix) + 1 + i))
}

pub proof fn lemma_block(prefix: int)
    requires
        0 <= prefix <= 32,
    ensures
        block(prefix) >= 1,
        block(prefix) * block_count(prefix) == 0x1_0000_0000,
    decreases prefix,
{
    if prefix == 0 {
        assert(block(0) == 0x1_0000_0000) by {
            reveal_with_fuel(block, 33);
        }
    } else {
        lemma_block(prefix - 1);
        let b = block(prefix);
        let c = block_count(prefix - 1);
        assert(block(prefix - 1) == 2 * b);
        assert(b * (2 * c) == (2 * b) * c) by (nonlinear_arith);
    }
}

/// The network of an address holds the address, and ends within the addresses
/// that there are.
pub proof fn lemma_network(ip: Ipv4Addr, prefix: int)
    requires
        0 <= prefix <= 32,
    ensures
        block(prefix) >= 1,
        0 <= network_of(ip, prefix) <= ip.value() < network_of(ip, prefix) + block(prefix)
            <= 0x1_0000_0000,
{
    lemma_block(prefix);
    crate::addr::law_address_numbers(ip, 0);
    let v = ip.value();
    let b = block(prefix);
    let k = block_count(prefix);
    assert(0 <= v / b * b <= v < v / b * b + b <= b * k) by (nonlinear_arith)
        requires
            0 <= v < b * k,
            b >= 1,
    ;
}

fn block_size(prefix: u32) -> (r: u64)
    requires
        prefix <= 32,
    ensures
        r == block(prefix as int),
        1 <= r <= 0x1_0000_0000,
{
    let mut r: u64 = 1;
    let mut p: u32 = 32;
    proof {
        lemma_block(32);
    }
    while p > prefix
        invariant
            prefix <= p <= 32,
            r == block(p as int),
            1 <= r <= 0x1_0000_0000,
        decreases p,
    {
        proof {
            lemma_block(p - 1);
            lemma_count_positive(p - 1);
            let b = block(p - 1);
            let k = block_count(p - 1);
            assert(b <= b * k) by (nonlinear_arith)
                requires
                    b >= 1,
                    k >= 1,
            ;
        }
        r = 2 * r;
        p -= 1;
    }
    r
}

proof fn lemma_count_positive(prefix: int)
    ensures
        block_count(prefix) >= 1,
    decreases prefix,
{
    if prefix > 0 {
        lemma_count_positive(prefix - 1);
    }
}

/// The hosts to probe in the network with the prefix length `prefix_len` that
/// `network_addr` is in.
pub fn sweep_targets_in(network_addr: Ipv4Addr, prefix_len: u32) -> (r: Vec<Ipv4Addr>)
    requires
        1 <= prefix_len <= 32,
    ensures
        r@ == sweep_targets(network_addr, prefix_len as int),
{
    let size: u64 = block_size(prefix_len);
    let value: u64 = network_addr.to_bits() as u64;
    proof {
        lemma_network(network_addr, prefix_len as int);
    }
    let network: u64 = value / size * size;
    let count: u64 = if size <= 2 {
        0
    } else if size - 2 <= SWEEP_HOST_LIMIT as u64 {
        size - 2
    } else {
        SWEEP_HOST_LIMIT as u64
    };
    let mut r: Vec<Ipv4Addr> = Vec::new();
    let mut i: u64 = 0;
    while i < count
        invariant
            i <= count == host_count(prefix_len as int),
            count > 0 ==> count <= size - 2,
            network == network_of(network_addr, prefix_len as int),
            network + size <= 0x1_0000_0000,
            r@ == sweep_targets(network_addr, prefix_len as int).take(i as int),
        decreases count - i,
    {
        let ip = Ipv4Addr::from_bits((network + 1 + i) as u32);
        r.push(ip);
        assert(sweep_targets(network_addr, prefix_len as int).take(i + 1) == sweep_targets(
            network_addr,
            prefix_len as int,
        ).take(i as int).push(ip));
        i += 1;
    }
    assert(sweep_targets(network_addr, prefix_len as int).take(count as int) == sweep_targets(
        network_addr,
        prefix_len as int,
    ));
    r
}

// ---------------------------------------------------------------------------
// The plan of a sweep
// ---------------------------------------------------------------------------

/// Hosts to probe through one socket, bound to the address `local`. The
/// address 0.0.0.0 leaves the way out to the routing table.
pub struct SweepRoute {
    pub local: Ipv4Addr,
    pub targets: Vec<Ipv4Addr>,
}

/// A network to sweep: the one that `ip` is in. Where `own` holds, `ip` is this
/// machine's address there.
pub struct SweepArea {
    pub ip: Ipv4Addr,
    pub prefix: int,
    pub own: bool,
}

impl SweepArea {
    /// The number of the first address of the network.
    pub open spec fn network(self) -> int {
        network_of(self.ip, self.prefix)
    }

    /// The address to send from.
    pub open spec fn local(self) -> Ipv4Addr {
        if self.own {
            self.ip
        } else {
            Ipv4Addr::unspecified()
        }
    }

    /// The hosts to probe; this machine itself is none of them.
    pub open spec fn targets(self) -> Seq<Ipv4Addr> {
        if self.own {
            sweep_targets(self.ip, self.prefix).filter(other_than(self.ip))
        } else {
            sweep_targets(self.ip, self.prefix)
        }
    }
}

/// Whether an address is another one than `ip`.
pub open spec fn other_than(ip: Ipv4Addr) -> spec_fn(Ipv4Addr) -> bool {
    |x: Ipv4Addr| x != ip
}

/// The prefix length to sweep with: wider networks are cut down to 24.
pub open spec fn own_prefix(prefix_len: u8) -> int {
    if prefix_len < 24 {
        24
    } else if prefix_len > 30 {
        30
    } else {
        prefix_len as int
    }
}

/// The networks to sweep at the addresses `nets` of one adapter: only private
/// ones.
pub open spec fn adapter_areas(nets: Seq<Ipv4Net>) -> Seq<SweepArea>
    decreases nets.len(),
{
    if nets.len() == 0 {
        Seq::empty()
    } else {
        let before = adapter_areas(nets.drop_last());
        let net = nets.last();
        if net.addr.private() {
            before.push(SweepArea { ip: net.addr, prefix: own_prefix(net.prefix_len), own: true })
        } else {
            before
        }
    }
}

/// The networks to sweep that this machine is in; virtual adapters are passed
/// over.
pub open spec fn own_areas(interfaces: Seq<Interface>) -> Seq<SweepArea>
    decreases interfaces.len(),
{
    if interfaces.len() == 0 {
        Seq::empty()
    } else {
        let before = own_areas(interfaces.drop_last());
        if adapter::virtual_adapter(interfaces.last().name@) {
            before
        } else {
            before + adapter_areas(interfaces.last().ipv4@)
        }
    }
}

/// Whether one of `areas` starts at the address with the number `network`.
pub open spec fn covers(areas: Seq<SweepArea>, network: int) -> bool {
    exists|i: int| 0 <= i < areas.len() && (#[trigger] areas[i]).network() == network
}

/// `areas` and those of `nets` that start where none before them does.
pub open spec fn with_extra(areas: Seq<SweepArea>, nets: Seq<(Ipv4Addr, u32)>) -> Seq<SweepArea>
    decreases nets.len(),
{
    if nets.len() == 0 {
        areas
    } else {
        let before = with_extra(areas, nets.drop_last());
        let area = SweepArea { ip: nets.last().0, prefix: nets.last().1 as int, own: false };
        if covers(before, area.network()) {
            before
        } else {
            before.push(area)
        }
    }
}

/// The networks to sweep: those that this machine is in, then those that the
/// user lists in `extra`.
pub open spec fn sweep_areas(interfaces: Seq<Interface>, extra: Seq<char>) -> Seq<SweepArea> {
    with_extra(own_areas(interfaces), sweep_subnets(extra))
}

/// Whether `plan` sweeps `areas`, one after the other.
pub open spec fn sweeps(plan: Seq<SweepRoute>, areas: Seq<SweepArea>) -> bool {
    &&& plan.len() == areas.len()
    &&& forall|i: int|
        0 <= i < plan.len() ==> (#[trigger] plan[i]).local == areas[i].local()
            && plan[i].targets@ == areas[i].targets()
}

/// Whether `covered` holds the numbers of the first addresses of `areas`.
pub open spec fn are_networks(covered: Seq<u32>, areas: Seq<SweepArea>) -> bool {
    &&& covered.len() == areas.len()
    &&& forall|i: int|
        0 <= i < covered.len() ==> (#[trigger] covered[i]) as int == areas[i].network()
}

fn network_number(ip: Ipv4Addr, prefix: u32) -> (r: u32)
    requires
        prefix <= 32,
    ensures
        r == network_of(ip, prefix as int),
{
    let size: u64 = block_size(prefix);
    let value: u64 = ip.to_bits() as u64;
    proof {
        lemma_network(ip, prefix as int);
    }
    (value / size * size) as u32
}

fn own_targets(host: Ipv4Addr, prefix: u32) -> (r: Vec<Ipv4Addr>)
    requires
        1 <= prefix <= 32,
    ensures
        r@ == (SweepArea { ip: host, prefix: prefix as int, own: true }).targets(),
{
    let all = sweep_targets_in(host, prefix);
    let n: usize = all.len();
    let mut r: Vec<Ipv4Addr> = Vec::new();
    let mut i: usize = 0;
    assert(all@.take(0).filter(other_than(host)) == Seq::<Ipv4Addr>::empty());
    while i < n
        invariant
            i <= n == all@.len(),
            r@ == all@.take(i as int).filter(other_than(host)),
        decreases n - i,
    {
        assert(all@.take(i + 1).drop_last() == all@.take(i as int));
        assert(all@.take(i + 1).last() == all@[i as int]);
        reveal(Seq::filter);
        if all[i] != host {
            r.push(all[i]);
        }
        i += 1;
    }
    assert(all@.take(n as int) == all@);
    r
}

fn is_covered(covered: &Vec<u32>, network: u32) -> (r: bool)
    ensures
        r == covered@.contains(network),
{
    let n: usize = covered.len();
    let mut i: usize = 0;
    while i < n
        invariant
            i <= n == covered@.len(),
            forall|j: int| 0 <= j < i ==> covered@[j] != network,
        decreases n - i,
    {
        if covered[i] == network {
            assert(covered@[i as int] == network);
            return true;
        }
        i += 1;
    }
    false
}

proof fn lemma_covered(covered: Seq<u32>, areas: Seq<SweepArea>, network: u32)
    requires
        are_networks(covered, areas),
    ensures
        covered.contains(network) == covers(areas, network as int),
{
    if covered.contains(network) {
        let i = choose|i: int| 0 <= i < covered.len() && covered[i] == network;
        assert(areas[i].network() == network);
    }
    if covers(areas, network as int) {
        let i = choose|i: int|
            0 <= i < areas.len() && (#[trigger] areas[i]).network() == network as int;
        assert(covered[i] == network);
    }
}

/// Which hosts to probe, and from which of this machine's addresses: the
/// private networks of its adapters, then the networks that the user lists in
/// `extra`.
pub fn unicast_sweep_plan(interfaces: &Vec<Interface>, extra: &str) -> (r: Vec<SweepRoute>)
    ensures
        sweeps(r@, sweep_areas(interfaces@, extra@)),
{
    let mut plan: Vec<SweepRoute> = Vec::new();
    let mut covered: Vec<u32> = Vec::new();
    let ghost mut areas: Seq<SweepArea> = Seq::empty();
    let n: usize = interfaces.len();
    let mut i: usize = 0;
    assert(interfaces@.take(0) == Seq::<Interface>::empty());
    while i < n
        invariant
            i <= n == interfaces@.len(),
            areas == own_areas(interfaces@.take(i as int)),
            sweeps(plan@, areas),
            are_networks(covered@, areas),
        decreases n - i,
    {
        let interface = &interfaces[i];
        assert(interfaces@.take(i + 1).drop_last() == interfaces@.take(i as int));
        assert(interfaces@.take(i + 1).last() == *interface);
        if !adapter::is_virtual_adapter(interface.name.as_str()) {
            let ghost before = areas;
            let nets = &interface.ipv4;
            let m: usize = nets.len();
            let mut k: usize = 0;
            assert(nets@.take(0) == Seq::<Ipv4Net>::empty());
            assert(before + adapter_areas(nets@.take(0)) == before);
            while k < m
                invariant
                    k <= m == nets@.len(),
                    areas == before + adapter_areas(nets@.take(k as int)),
                    sweeps(plan@, areas),
                    are_networks(covered@, areas),
                decreases m - k,
            {
                let net = nets[k];
                let host = net.addr;
                assert(nets@.take(k + 1).drop_last() == nets@.take(k as int));
                assert(nets@.take(k + 1).last() == net);
                if host.is_private() {
                    let prefix: u32 = if net.prefix_len < 24 {
                        24
                    } else if net.prefix_len > 30 {
                        30
                    } else {
                        net.prefix_len as u32
                    };
                    let ghost area = SweepArea { ip: host, prefix: prefix as int, own: true };
                    let network: u32 = network_number(host, prefix);
                    let targets = own_targets(host, prefix);
                    covered.push(network);
                    plan.push(SweepRoute { local: host, targets });
                    proof {
                        areas = areas.push(area);
                        assert(areas == before + adapter_areas(nets@.take(k + 1)));
                    }
                }
                k += 1;
            }
            assert(nets@.take(m as int) == nets@);
        }
        i += 1;
    }
    assert(interfaces@.take(n as int) == interfaces@);
    let subnets = extra_sweep_subnets(extra);
    let ghost own = areas;
    let count: usize = subnets.len();
    let mut j: usize = 0;
    assert(subnets@.take(0) == Seq::<(Ipv4Addr, u32)>::empty());
    while j < count
        invariant
            j <= count == subnets@.len(),
            subnets@ == sweep_subnets(extra@),
            areas == with_extra(own, subnets@.take(j as int)),
            sweeps(plan@, areas),
            are_networks(covered@, areas),
        decreases count - j,
    {
        proof {
            law_extra_subnets_are_bounded(extra@);
        }
        let (ip, prefix) = subnets[j];
        assert(8 <= subnets@[j as int].1 <= 30);
        assert(subnets@.take(j + 1).drop_last() == subnets@.take(j as int));
        assert(subnets@.take(j + 1).last() == subnets@[j as int]);
        let network: u32 = network_number(ip, prefix);
        proof {
            lemma_covered(covered@, areas, network);
        }
        if !is_covered(&covered, network) {
            let ghost area = SweepArea { ip, prefix: prefix as int, own: false };
            let targets = sweep_targets_in(ip, prefix);
            covered.push(network);
            plan.push(SweepRoute { local: Ipv4Addr::new(0, 0, 0, 0), targets });
            proof {
                areas = areas.push(area);
            }
        }
        j += 1;
    }
    assert(subnets@.take(count as int) == subnets@);
    plan
}

proof fn lemma_subnets_valid(list: Seq<Seq<char>>)
    ensures
        forall|i: int|
            0 <= i < subnets_of(list).len() ==> 8 <= (#[trigger] subnets_of(list)[i]).1 <= 30,
    decreases list.len(),
{
    if list.len() > 0 {
        lemma_subnets_valid(list.drop_last());
        let before = subnets_of(list.drop_last());
        let all = subnets_of(list);
        assert forall|i: int| 0 <= i < all.len() implies 8 <= (#[trigger] all[i]).1 <= 30 by {
            if i < before.len() {
                assert(all[i] == before[i]);
            }
        }
    }
}

/// Whatever the user lists, there are at most eight networks, and each has a
/// prefix length from 8 to 30.
pub proof fn law_extra_subnets_are_bounded(raw: Seq<char>)
    ensures
        sweep_subnets(raw).len() <= EXTRA_SWEEP_SUBNET_LIMIT,
        forall|i: int|
            0 <= i < sweep_subnets(raw).len() ==> 8 <= (#[trigger] sweep_subnets(raw)[i]).1 <= 30,
{
    lemma_subnets_valid(text::pieces(raw, list_separator()));
}

/// Where the user lists nothing, nothing more is swept: a text of separators
/// alone names no network.
pub proof fn law_nothing_listed_nothing_added(raw: Seq<char>)
    requires
        forall|i: int| 0 <= i < raw.len() ==> list_separator()(#[trigger] raw[i]),
    ensures
        sweep_subnets(raw) == Seq::<(Ipv4Addr, u32)>::empty(),
        forall|interfaces: Seq<Interface>|
            #[trigger] sweep_areas(interfaces, raw) == own_areas(interfaces),
    decreases raw.len(),
{
    lemma_only_separators(raw);
    let tokens = text::pieces(raw, list_separator());
    lemma_empty_texts_name_nothing(tokens);
}

proof fn lemma_only_separators(raw: Seq<char>)
    requires
        forall|i: int| 0 <= i < raw.len() ==> list_separator()(#[trigger] raw[i]),
    ensures
        forall|i: int|
            0 <= i < text::pieces(raw, list_separator()).len() ==> (#[trigger] text::pieces(
                raw,
                list_separator(),
            )[i]).len() == 0,
    decreases raw.len(),
{
    if raw.len() > 0 {
        let rest = raw.drop_last();
        assert forall|i: int| 0 <= i < rest.len() implies list_separator()(#[trigger] rest[i]) by {
            assert(rest[i] == raw[i]);
        }
        lemma_only_separators(rest);
        let before = text::pieces(rest, list_separator());
        let all = text::pieces(raw, list_separator());
        assert(raw.last() == raw[raw.len() - 1]);
        assert forall|i: int| 0 <= i < all.len() implies (#[trigger] all[i]).len() == 0 by {
            if i < before.len() {
                assert(all[i] == before[i]);
            }
        }
    }
}

proof fn lemma_empty_texts_name_nothing(list: Seq<Seq<char>>)
    requires
        forall|i: int| 0 <= i < list.len() ==> (#[trigger] list[i]).len() == 0,
    ensures
        subnets_of(list) == Seq::<(Ipv4Addr, u32)>::empty(),
    decreases list.len(),
{
    if list.len() > 0 {
        let rest = list.drop_last();
        assert forall|i: int| 0 <= i < rest.len() implies (#[trigger] rest[i]).len() == 0 by {
            assert(rest[i] == list[i]);
        }
        lemma_empty_texts_name_nothing(rest);
        assert(list.last() == list[list.len() - 1]);
    }
}

/// The hosts that are probed are in the network, none is its first or its last
/// address, none is probed twice, and there are at most 254.
pub proof fn law_targets_are_hosts(ip: Ipv4Addr, prefix: int)
    requires
        1 <= prefix <= 32,
    ensures
        sweep_targets(ip, prefix).len() <= SWEEP_HOST_LIMIT,
        sweep_targets(ip, prefix).no_duplicates(),
        forall|i: int|
            0 <= i < sweep_targets(ip, prefix).len() ==> network_of(ip, prefix) < (
            #[trigger] sweep_targets(ip, prefix)[i]).value() < network_of(ip, prefix) + block(
                prefix,
            ) - 1,
{
    let t = sweep_targets(ip, prefix);
    lemma_network(ip, prefix);
    assert forall|i: int| 0 <= i < t.len() implies network_of(ip, prefix) < (
    #[trigger] t[i]).value() < network_of(ip, prefix) + block(prefix) - 1 && t[i].value()
        == network_of(ip, prefix) + 1 + i by {
        crate::addr::law_address_numbers(ip, network_of(ip, prefix) + 1 + i);
    }
    assert forall|i: int, j: int| 0 <= i < t.len() && 0 <= j < t.len() && i != j implies t[i]
        != t[j] by {
        assert(t[i].value() != t[j].value());
    }
}

/// Every host of a network with a prefix length of 24 or more is probed.
pub proof fn law_small_networks_are_swept_whole(ip: Ipv4Addr, prefix: int, host: Ipv4Addr)
    requires
        24 <= prefix <= 32,
        network_of(ip, prefix) < host.value() < network_of(ip, prefix) + block(prefix) - 1,
    ensures
        sweep_targets(ip, prefix).contains(host),
{
    lemma_block_small(prefix);
    lemma_network(ip, prefix);
    crate::addr::law_address_numbers(host, 0);
    let i = host.value() - network_of(ip, prefix) - 1;
    assert(sweep_targets(ip, prefix)[i] == host);
}

proof fn lemma_block_small(prefix: int)
    requires
        24 <= prefix <= 32,
    ensures
        1 <= block(prefix) <= 256,
        prefix <= 30 ==> block(prefix) >= 4,
{
    assert(block(32) == 1 && block(31) == 2 && block(30) == 4 && block(29) == 8 && block(28) == 16
        && block(27) == 32 && block(26) == 64 && block(25) == 128 && block(24) == 256) by {
        reveal_with_fuel(block, 10);
    }
}

proof fn lemma_adapter_areas(nets: Seq<Ipv4Net>)
    ensures
        forall|i: int|
            0 <= i < adapter_areas(nets).len() ==> {
                let area = #[trigger] adapter_areas(nets)[i];
                area.own && area.ip.private() && 24 <= area.prefix <= 30
            },
    decreases nets.len(),
{
    if nets.len() > 0 {
        lemma_adapter_areas(nets.drop_last());
        let before = adapter_areas(nets.drop_last());
        let all = adapter_areas(nets);
        assert forall|i: int| 0 <= i < all.len() implies {
            let area = #[trigger] all[i];
            area.own && area.ip.private() && 24 <= area.prefix <= 30
        } by {
            if i < before.len() {
                assert(all[i] == before[i]);
            }
        }
    }
}

/// Only private networks of this machine's adapters are swept, and never more
/// of one than a network with the prefix length 24 holds.
pub proof fn law_own_areas_are_private(interfaces: Seq<Interface>)
    ensures
        forall|i: int|
            0 <= i < own_areas(interfaces).len() ==> {
                let area = #[trigger] own_areas(interfaces)[i];
                area.own && area.ip.private() && 24 <= area.prefix <= 30
            },
    decreases interfaces.len(),
{
    if interfaces.len() > 0 {
        law_own_areas_are_private(interfaces.drop_last());
        lemma_adapter_areas(interfaces.last().ipv4@);
        let before = own_areas(interfaces.drop_last());
        let more = adapter_areas(interfaces.last().ipv4@);
        let all = own_areas(interfaces);
        assert forall|i: int| 0 <= i < all.len() implies {
            let area = #[trigger] all[i];
            area.own && area.ip.private() && 24 <= area.prefix <= 30
        } by {
            if i < before.len() {
                assert(all[i] == before[i]);
            } else {
                assert(all[i] == more[i - before.len()]);
            }
        }
    }
}

/// In a private network of this machine there is always a host to probe; every
/// host that is probed is private, and none is this machine.
pub proof fn law_own_targets(area: SweepArea)
    requires
        area.own,
        area.ip.private(),
        24 <= area.prefix <= 30,
    ensures
        area.targets().len() > 0,
        forall|i: int|
            0 <= i < area.targets().len() ==> (#[trigger] area.targets()[i]).private()
                && area.targets()[i] != area.ip && sweep_targets(area.ip, area.prefix).contains(
                area.targets()[i],
            ),
{
    let all = sweep_targets(area.ip, area.prefix);
    let kept = area.targets();
    let pred = other_than(area.ip);
    lemma_block_small(area.prefix);
    law_targets_are_hosts(area.ip, area.prefix);
    lemma_network(area.ip, area.prefix);
    broadcast use vstd::seq_lib::group_filter_ensures;

    assert forall|i: int| 0 <= i < kept.len() implies (#[trigger] kept[i]).private() && kept[i]
        != area.ip && all.contains(kept[i]) by {
        assert(pred(kept[i]));
        assert(kept.contains(kept[i]));
        all.lemma_filter_contains_rev(pred, kept[i]);
        let j = choose|j: int| 0 <= j < all.len() && all[j] == kept[i];
        lemma_same_24(area.ip, all[j], area.prefix);
    }
    let other = if all[0] != area.ip {
        all[0]
    } else {
        all[1]
    };
    assert(all[0] != all[1]);
    assert(all.contains(other));
    assert(pred(other));
    assert(kept.contains(other));
}

proof fn lemma_same_24(ip: Ipv4Addr, host: Ipv4Addr, prefix: int)
    requires
        24 <= prefix <= 30,
        network_of(ip, prefix) <= host.value() < network_of(ip, prefix) + block(prefix),
    ensures
        host.a == ip.a && host.b == ip.b && host.c == ip.c,
{
    lemma_block_small(prefix);
    lemma_network(ip, prefix);
    let b = block(prefix);
    let n = network_of(ip, prefix);
    assert(b == 4 || b == 8 || b == 16 || b == 32 || b == 64 || b == 128 || b == 256) by {
        reveal_with_fuel(block, 10);
    }
    let hi = ip.a * 0x1_0000 + ip.b * 0x100 + ip.c;
    let v = ip.value();
    let d = ip.d as int;
    let hi2 = host.a * 0x1_0000 + host.b * 0x100 + host.c;
    assert(ip.value() == hi * 0x100 + ip.d);
    assert(host.value() == hi2 * 0x100 + host.d);
    assert(n == ip.value() / b * b);
    assert(hi * 0x100 <= n && n + b <= hi * 0x100 + 0x100) by {
        if b == 4 {
            assert(v / 4 == hi * 64 + d / 4);
        } else if b == 8 {
            assert(v / 8 == hi * 32 + d / 8);
        } else if b == 16 {
            assert(v / 16 == hi * 16 + d / 16);
        } else if b == 32 {
            assert(v / 32 == hi * 8 + d / 32);
        } else if b == 64 {
            assert(v / 64 == hi * 4 + d / 64);
        } else if b == 128 {
            assert(v / 128 == hi * 2 + d / 128);
        } else {
            assert(v / 256 == hi);
        }
    }
    assert(hi == hi2);
}

/// A network that the user lists is not swept a second time where one that is
/// swept already starts at the same address, and at most eight are added.
pub proof fn law_extra_areas_start_elsewhere(areas: Seq<SweepArea>, nets: Seq<(Ipv4Addr, u32)>)
    ensures
        areas.len() <= with_extra(areas, nets).len() <= areas.len() + nets.len(),
        with_extra(areas, nets).take(areas.len() as int) == areas,
        forall|i: int, j: int|
            0 <= i < j < with_extra(areas, nets).len() && areas.len() <= j ==> (
            #[trigger] with_extra(areas, nets)[i]).network() != (#[trigger] with_extra(
                areas,
                nets,
            )[j]).network(),
    decreases nets.len(),
{
    if nets.len() > 0 {
        law_extra_areas_start_elsewhere(areas, nets.drop_last());
        let before = with_extra(areas, nets.drop_last());
        let all = with_extra(areas, nets);
        assert(all.take(areas.len() as int) == before.take(areas.len() as int));
        assert forall|i: int, j: int| 0 <= i < j < all.len() && areas.len() <= j implies (
        #[trigger] all[i]).network() != (#[trigger] all[j]).network() by {
            assert(all[i] == before[i]);
            if j < before.len() {
                assert(all[j] == before[j]);
            } else {
                assert(before[i].network() != all[j].network());
            }
        }
    } else {
        assert(with_extra(areas, nets).take(areas.len() as int) == areas);
    }
}

// ---------------------------------------------------------------------------
// How often to sweep
// ---------------------------------------------------------------------------

/// When the regular discovery swept the last time, in seconds of Unix time; 0
/// where it never did.
pub struct SweepClock {
    pub last: u64,
}

impl SweepClock {
    /// Whether enough time has passed at `now` for another sweep.
    pub open spec fn due(self, now: u64) -> bool {
        now - self.last >= SWEEP_MIN_INTERVAL
    }

    /// Whether the regular discovery sweeps at `now`; if so, that is the time
    /// of the last sweep.
    pub fn sweep_due(&mut self, now: u64) -> (r: bool)
        ensures
            r == old(self).due(now),
            final(self).last == if r {
                now
            } else {
                old(self).last
            },
    {
        if now.saturating_sub(self.last) < SWEEP_MIN_INTERVAL {
            return false;
        }
        self.last = now;
        true
    }
}

/// Between two sweeps of the regular discovery lie at least 45 seconds.
pub proof fn law_sweeps_keep_their_distance(clock: SweepClock, first: u64, second: u64)
    requires
        clock.due(first),
        (SweepClock { last: first }).due(second),
    ensures
        second - first >= 45,
{
}

} // verus!
