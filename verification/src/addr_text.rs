//! Internet addresses as text: `192.168.1.8`, `2001:db8::8`,
//! `192.168.1.8:21118`, `[2001:db8::8]:21118`.

use vstd::prelude::*;
use vstd::slice::slice_subrange;

use crate::addr::{IpAddr, Ipv4Addr, Ipv6Addr, SocketAddr};
use crate::text;

verus! {

// ---------------------------------------------------------------------------
// Reading
// ---------------------------------------------------------------------------

/// One part of a dotted address: a number up to 255 without zeros in front.
pub open spec fn octet_of(s: Seq<char>) -> Option<u8> {
    if s.len() > 1 && s[0] == '0' {
        None
    } else {
        match text::number_up_to(s, 10, 255) {
            Some(n) => Some(n as u8),
            None => None,
        }
    }
}

/// The IPv4 address that `s` writes: four octets with dots between them.
pub open spec fn ipv4_of(s: Seq<char>) -> Option<Ipv4Addr> {
    let p = text::split_by(s, '.');
    if p.len() != 4 {
        None
    } else {
        match (octet_of(p[0]), octet_of(p[1]), octet_of(p[2]), octet_of(p[3])) {
            (Some(a), Some(b), Some(c), Some(d)) => Some(Ipv4Addr { a, b, c, d }),
            _ => None,
        }
    }
}

/// One group of an IPv6 address: one to four hexadecimal digits.
pub open spec fn group_of(s: Seq<char>) -> Option<u16> {
    if s.len() > 4 {
        None
    } else {
        match text::number_up_to(s, 16, 0xffff) {
            Some(n) => Some(n as u16),
            None => None,
        }
    }
}

/// The two groups that an IPv4 address makes at the end of an IPv6 address.
pub open spec fn groups_of_ipv4(ip: Ipv4Addr) -> Seq<u16> {
    seq![(ip.a * 0x100 + ip.b) as u16, (ip.c * 0x100 + ip.d) as u16]
}

/// The groups that the parts `p` write, if each is a group.
pub open spec fn hex_groups_of(p: Seq<Seq<char>>) -> Option<Seq<u16>>
    decreases p.len(),
{
    if p.len() == 0 {
        Some(Seq::empty())
    } else {
        match (hex_groups_of(p.drop_last()), group_of(p.last())) {
            (Some(before), Some(g)) => Some(before.push(g)),
            _ => None,
        }
    }
}

/// The groups that `s` writes, with colons between them; none where `s` is
/// empty. Where `dotted` holds the last two may be written as an IPv4 address.
pub open spec fn groups_of(s: Seq<char>, dotted: bool) -> Option<Seq<u16>> {
    let p = text::split_by(s, ':');
    if s.len() == 0 {
        Some(Seq::empty())
    } else if dotted && ipv4_of(p.last()) is Some {
        match hex_groups_of(p.drop_last()) {
            Some(before) => Some(before + groups_of_ipv4(ipv4_of(p.last())->0)),
            None => None,
        }
    } else {
        hex_groups_of(p)
    }
}

/// The first place at or after `i` where two colons follow each other in `s`.
pub open spec fn gap_from(s: Seq<char>, i: int) -> Option<int>
    decreases s.len() - i,
{
    if i + 1 >= s.len() {
        None
    } else if s[i] == ':' && s[i + 1] == ':' {
        Some(i)
    } else {
        gap_from(s, i + 1)
    }
}

/// `n` groups of zero.
pub open spec fn zero_groups(n: int) -> Seq<u16> {
    Seq::new(n as nat, |i: int| 0u16)
}

/// The eight groups that `s` writes: all of them, or some with `::` in the
/// place of one or more groups of zero.
pub open spec fn ipv6_groups_of(s: Seq<char>) -> Option<Seq<u16>> {
    match gap_from(s, 0) {
        None => match groups_of(s, true) {
            Some(g) => if g.len() == 8 {
                Some(g)
            } else {
                None
            },
            None => None,
        },
        Some(i) => match (groups_of(s.take(i), false), groups_of(s.skip(i + 2), true)) {
            (Some(head), Some(tail)) => if head.len() + tail.len() <= 7 {
                Some(head + zero_groups(8 - head.len() - tail.len()) + tail)
            } else {
                None
            },
            _ => None,
        },
    }
}

/// The IPv6 address that `s` writes.
pub open spec fn ipv6_of(s: Seq<char>) -> Option<Ipv6Addr> {
    match ipv6_groups_of(s) {
        Some(g) => Some(Ipv6Addr::of_segments(g)),
        None => None,
    }
}

/// The address that `s` writes.
pub open spec fn ip_of(s: Seq<char>) -> Option<IpAddr> {
    match ipv4_of(s) {
        Some(ip) => Some(IpAddr::V4(ip)),
        None => match ipv6_of(s) {
            Some(ip) => Some(IpAddr::V6(ip)),
            None => None,
        },
    }
}

/// The port that `s` writes.
pub open spec fn port_of(s: Seq<char>) -> Option<u16> {
    match text::number_up_to(s, 10, 0xffff) {
        Some(n) => Some(n as u16),
        None => None,
    }
}

/// The IPv4 address and port that `s` writes, with a colon between them.
pub open spec fn socket_v4_of(s: Seq<char>) -> Option<SocketAddr> {
    let p = text::split_by(s, ':');
    if p.len() != 2 {
        None
    } else {
        match (ipv4_of(p[0]), port_of(p[1])) {
            (Some(ip), Some(port)) => Some(SocketAddr::V4 { ip, port }),
            _ => None,
        }
    }
}

/// The first place at or after `i` where `c` stands in `s`.
pub open spec fn first_from(s: Seq<char>, c: char, i: int) -> Option<int>
    decreases s.len() - i,
{
    if i >= s.len() {
        None
    } else if s[i] == c {
        Some(i)
    } else {
        first_from(s, c, i + 1)
    }
}

/// The IPv6 address and the number of the interface that `s` writes, with a
/// percent sign between them; 0 where no interface is named.
pub open spec fn scoped_of(s: Seq<char>) -> Option<(Ipv6Addr, u32)> {
    let p = text::split_by(s, '%');
    if p.len() == 1 {
        match ipv6_of(p[0]) {
            Some(ip) => Some((ip, 0)),
            None => None,
        }
    } else if p.len() == 2 {
        match (ipv6_of(p[0]), text::number_up_to(p[1], 10, u32::MAX as nat)) {
            (Some(ip), Some(scope)) => Some((ip, scope as u32)),
            _ => None,
        }
    } else {
        None
    }
}

/// The IPv6 address and port that `s` writes: the address in square brackets,
/// a colon, the port.
pub open spec fn socket_v6_of(s: Seq<char>) -> Option<SocketAddr> {
    match first_from(s, ']', 0) {
        Some(j) => if s[0] == '[' && j + 1 < s.len() && s[j + 1] == ':' {
            match (scoped_of(s.subrange(1, j)), port_of(s.skip(j + 2))) {
                (Some((ip, scope)), Some(port)) => Some(SocketAddr::V6 { ip, port, scope }),
                _ => None,
            }
        } else {
            None
        },
        None => None,
    }
}

/// The address and port that `s` writes.
pub open spec fn socket_of(s: Seq<char>) -> Option<SocketAddr> {
    match socket_v4_of(s) {
        Some(a) => Some(a),
        None => socket_v6_of(s),
    }
}

fn read_octet(s: &[char]) -> (r: Option<u8>)
    ensures
        r == octet_of(s@),
{
    if s.len() > 1 && s[0] == '0' {
        return None;
    }
    match text::read_number(s, 10, 255) {
        Some(n) => Some(n as u8),
        None => None,
    }
}

/// Reads an IPv4 address.
pub fn read_ipv4(s: &[char]) -> (r: Option<Ipv4Addr>)
    ensures
        r == ipv4_of(s@),
{
    let p = text::split_on(s, '.');
    let ghost parts = text::texts(p@);
    if p.len() != 4 {
        return None;
    }
    assert(parts[0] == p@[0]@ && parts[1] == p@[1]@ && parts[2] == p@[2]@ && parts[3] == p@[3]@);
    match (
        read_octet(p[0].as_slice()),
        read_octet(p[1].as_slice()),
        read_octet(p[2].as_slice()),
        read_octet(p[3].as_slice()),
    ) {
        (Some(a), Some(b), Some(c), Some(d)) => Some(Ipv4Addr { a, b, c, d }),
        _ => None,
    }
}

fn read_group(s: &[char]) -> (r: Option<u16>)
    ensures
        r == group_of(s@),
{
    if s.len() > 4 {
        return None;
    }
    match text::read_number(s, 16, 0xffff) {
        Some(n) => Some(n as u16),
        None => None,
    }
}

proof fn lemma_hex_groups_prefix(p: Seq<Seq<char>>, n: int)
    requires
        0 <= n <= p.len(),
        hex_groups_of(p.take(n)) is None,
    ensures
        hex_groups_of(p) is None,
    decreases p.len() - n,
{
    if n < p.len() {
        assert(p.take(n + 1).drop_last() == p.take(n));
        lemma_hex_groups_prefix(p, n + 1);
    } else {
        assert(p.take(n) == p);
    }
}

/// Reads the first `n` parts of `p` as groups.
fn read_hex_groups(p: &Vec<Vec<char>>, n: usize) -> (r: Option<Vec<u16>>)
    requires
        n <= p@.len(),
    ensures
        r is Some <==> hex_groups_of(text::texts(p@).take(n as int)) is Some,
        r matches Some(g) ==> hex_groups_of(text::texts(p@).take(n as int)) == Some(g@),
{
    let ghost parts = text::texts(p@).take(n as int);
    let mut g: Vec<u16> = Vec::new();
    let mut i: usize = 0;
    assert(hex_groups_of(parts.take(0)) == Some(g@));
    while i < n
        invariant
            i <= n <= p@.len(),
            parts == text::texts(p@).take(n as int),
            hex_groups_of(parts.take(i as int)) == Some(g@),
        decreases n - i,
    {
        assert(parts.take(i + 1).drop_last() == parts.take(i as int));
        assert(parts.take(i + 1).last() == p@[i as int]@);
        match read_group(p[i].as_slice()) {
            Some(x) => {
                g.push(x);
            },
            None => {
                proof {
                    lemma_hex_groups_prefix(parts, i + 1);
                }
                return None;
            },
        }
        i += 1;
    }
    assert(parts.take(n as int) == parts);
    Some(g)
}

/// Reads groups with colons between them.
fn read_groups(s: &[char], dotted: bool) -> (r: Option<Vec<u16>>)
    ensures
        r is Some <==> groups_of(s@, dotted) is Some,
        r matches Some(g) ==> groups_of(s@, dotted) == Some(g@),
{
    if s.len() == 0 {
        return Some(Vec::new());
    }
    let p = text::split_on(s, ':');
    let ghost parts = text::texts(p@);
    let n: usize = p.len();
    proof {
        text::lemma_pieces_nonempty(s@, text::is_char(':'));
        assert(parts.len() == n);
        assert(parts.last() == p@[n - 1]@);
        assert(parts.take(n as int) == parts);
        assert(parts.take(n - 1) == parts.drop_last());
    }
    if dotted {
        if let Some(ip) = read_ipv4(p[n - 1].as_slice()) {
            return match read_hex_groups(&p, n - 1) {
                Some(g) => {
                    let mut g = g;
                    let ghost before = g@;
                    g.push(ip.a as u16 * 0x100 + ip.b as u16);
                    g.push(ip.c as u16 * 0x100 + ip.d as u16);
                    assert(g@ == before + groups_of_ipv4(ip));
                    Some(g)
                },
                None => None,
            };
        }
    }
    read_hex_groups(&p, n)
}

fn find_gap(s: &[char]) -> (r: Option<usize>)
    ensures
        r is Some <==> gap_from(s@, 0) is Some,
        r matches Some(i) ==> gap_from(s@, 0) == Some(i as int) && i + 2 <= s@.len(),
{
    let n: usize = s.len();
    if n < 2 {
        return None;
    }
    let mut i: usize = 0;
    while i < n - 1
        invariant
            2 <= n == s@.len(),
            i <= n - 1,
            gap_from(s@, 0) == gap_from(s@, i as int),
        decreases n - i,
    {
        if s[i] == ':' && s[i + 1] == ':' {
            return Some(i);
        }
        i += 1;
    }
    None
}

/// Reads an IPv6 address.
pub fn read_ipv6(s: &[char]) -> (r: Option<Ipv6Addr>)
    ensures
        r == ipv6_of(s@),
{
    let n: usize = s.len();
    let mut g: Vec<u16> = Vec::new();
    match find_gap(s) {
        None => {
            match read_groups(s, true) {
                Some(all) => {
                    if all.len() != 8 {
                        return None;
                    }
                    g = all;
                },
                None => {
                    return None;
                },
            }
        },
        Some(i) => {
            assert(s@.subrange(0, i as int) == s@.take(i as int));
            assert(s@.subrange(i + 2, n as int) == s@.skip(i + 2));
            let head = read_groups(slice_subrange(s, 0, i), false);
            let tail = read_groups(slice_subrange(s, i + 2, n), true);
            match (head, tail) {
                (Some(head), Some(tail)) => {
                    let h: usize = head.len();
                    let t: usize = tail.len();
                    if h > 7 || t > 7 || h + t > 7 {
                        return None;
                    }
                    g = head;
                    let mut k: usize = 0;
                    while k < 8 - h - t
                        invariant
                            h == head@.len(),
                            h + t <= 7,
                            k <= 8 - h - t,
                            g@ == head@ + zero_groups(k as int),
                        decreases 8 - k,
                    {
                        g.push(0);
                        assert(zero_groups(k + 1) == zero_groups(k as int).push(0));
                        k += 1;
                    }
                    let mut j: usize = 0;
                    while j < t
                        invariant
                            j <= t == tail@.len(),
                            h == head@.len(),
                            h + t <= 7,
                            g@ == head@ + zero_groups(8 - h - t) + tail@.take(j as int),
                        decreases t - j,
                    {
                        g.push(tail[j]);
                        assert(tail@.take(j + 1) == tail@.take(j as int).push(tail@[j as int]));
                        j += 1;
                    }
                    assert(tail@.take(t as int) == tail@);
                },
                _ => {
                    return None;
                },
            }
        },
    }
    assert(ipv6_groups_of(s@) == Some(g@));
    assert(g@.len() == 8);
    Some(
        Ipv6Addr {
            s0: g[0],
            s1: g[1],
            s2: g[2],
            s3: g[3],
            s4: g[4],
            s5: g[5],
            s6: g[6],
            s7: g[7],
        },
    )
}

/// Reads an IPv4 or an IPv6 address.
pub fn read_ip(s: &[char]) -> (r: Option<IpAddr>)
    ensures
        r == ip_of(s@),
{
    match read_ipv4(s) {
        Some(ip) => Some(IpAddr::V4(ip)),
        None => match read_ipv6(s) {
            Some(ip) => Some(IpAddr::V6(ip)),
            None => None,
        },
    }
}

fn read_port(s: &[char]) -> (r: Option<u16>)
    ensures
        r == port_of(s@),
{
    match text::read_number(s, 10, 0xffff) {
        Some(n) => Some(n as u16),
        None => None,
    }
}

fn read_socket_v4(s: &[char]) -> (r: Option<SocketAddr>)
    ensures
        r == socket_v4_of(s@),
{
    let p = text::split_on(s, ':');
    let ghost parts = text::texts(p@);
    if p.len() != 2 {
        return None;
    }
    assert(parts[0] == p@[0]@ && parts[1] == p@[1]@);
    match (read_ipv4(p[0].as_slice()), read_port(p[1].as_slice())) {
        (Some(ip), Some(port)) => Some(SocketAddr::V4 { ip, port }),
        _ => None,
    }
}

fn read_scoped(s: &[char]) -> (r: Option<(Ipv6Addr, u32)>)
    ensures
        r == scoped_of(s@),
{
    let p = text::split_on(s, '%');
    let ghost parts = text::texts(p@);
    if p.len() == 1 {
        assert(parts[0] == p@[0]@);
        match read_ipv6(p[0].as_slice()) {
            Some(ip) => Some((ip, 0)),
            None => None,
        }
    } else if p.len() == 2 {
        assert(parts[0] == p@[0]@ && parts[1] == p@[1]@);
        match (read_ipv6(p[0].as_slice()), text::read_number(p[1].as_slice(), 10, 0xffff_ffff)) {
            (Some(ip), Some(scope)) => Some((ip, scope as u32)),
            _ => None,
        }
    } else {
        None
    }
}

/// The first place where `c` stands in `s`.
pub fn find_char(s: &[char], c: char) -> (r: Option<usize>)
    ensures
        r is Some <==> first_from(s@, c, 0) is Some,
        r matches Some(i) ==> first_from(s@, c, 0) == Some(i as int) && i < s@.len(),
{
    let n: usize = s.len();
    let mut i: usize = 0;
    while i < n
        invariant
            i <= n == s@.len(),
            first_from(s@, c, 0) == first_from(s@, c, i as int),
        decreases n - i,
    {
        if s[i] == c {
            return Some(i);
        }
        i += 1;
    }
    None
}

fn read_socket_v6(s: &[char]) -> (r: Option<SocketAddr>)
    ensures
        r == socket_v6_of(s@),
{
    let n: usize = s.len();
    match find_char(s, ']') {
        Some(j) => {
            if s[0] == '[' && j < n - 1 && s[j + 1] == ':' {
                assert(s@[j as int] == ']') by {
                    lemma_first_from(s@, ']', 0);
                }
                assert(s@.subrange(j + 2, n as int) == s@.skip(j + 2));
                match (
                    read_scoped(slice_subrange(s, 1, j)),
                    read_port(slice_subrange(s, j + 2, n)),
                ) {
                    (Some((ip, scope)), Some(port)) => Some(SocketAddr::V6 { ip, port, scope }),
                    _ => None,
                }
            } else {
                None
            }
        },
        None => None,
    }
}

proof fn lemma_first_from(s: Seq<char>, c: char, i: int)
    requires
        0 <= i,
    ensures
        first_from(s, c, i) matches Some(j) ==> i <= j < s.len() && s[j] == c,
    decreases s.len() - i,
{
    if i < s.len() && s[i] != c {
        lemma_first_from(s, c, i + 1);
    }
}

/// Reads an address with a port.
pub fn read_socket(s: &[char]) -> (r: Option<SocketAddr>)
    ensures
        r == socket_of(s@),
{
    match read_socket_v4(s) {
        Some(a) => Some(a),
        None => read_socket_v6(s),
    }
}

// ---------------------------------------------------------------------------
// Writing
// ---------------------------------------------------------------------------

/// How an IPv4 address is written.
pub open spec fn ipv4_text(ip: Ipv4Addr) -> Seq<char> {
    text::number_text(ip.a as nat, 10) + seq!['.'] + text::number_text(ip.b as nat, 10) + seq!['.']
        + text::number_text(ip.c as nat, 10) + seq!['.'] + text::number_text(ip.d as nat, 10)
}

/// How groups are written: hexadecimal, with colons between them.
pub open spec fn groups_text(g: Seq<u16>) -> Seq<char>
    decreases g.len(),
{
    if g.len() == 0 {
        Seq::empty()
    } else if g.len() == 1 {
        text::number_text(g[0] as nat, 16)
    } else {
        groups_text(g.drop_last()) + seq![':'] + text::number_text(g.last() as nat, 16)
    }
}

/// How many groups of zero follow each other in `g` from place `i` on.
pub open spec fn zeros_at(g: Seq<u16>, i: int) -> nat
    decreases g.len() - i,
{
    if 0 <= i < g.len() && g[i] == 0 {
        1 + zeros_at(g, i + 1)
    } else {
        0
    }
}

/// The place among the first `n` of `g` from which the most groups of zero
/// follow each other; the first such place.
pub open spec fn longest_zeros(g: Seq<u16>, n: int) -> int
    decreases n,
{
    if n <= 1 {
        0
    } else {
        let best = longest_zeros(g, n - 1);
        if zeros_at(g, n - 1) > zeros_at(g, best) {
            n - 1
        } else {
            best
        }
    }
}

/// Whether an IPv6 address stands for an IPv4 address (::ffff:a.b.c.d).
pub open spec fn is_mapped(ip: Ipv6Addr) -> bool {
    ip.s0 == 0 && ip.s1 == 0 && ip.s2 == 0 && ip.s3 == 0 && ip.s4 == 0 && ip.s5 == 0xffff
}

/// The IPv4 address in the last two groups.
pub open spec fn mapped_ipv4(ip: Ipv6Addr) -> Ipv4Addr {
    Ipv4Addr {
        a: (ip.s6 / 0x100) as u8,
        b: (ip.s6 % 0x100) as u8,
        c: (ip.s7 / 0x100) as u8,
        d: (ip.s7 % 0x100) as u8,
    }
}

/// How groups are written where two or more that are zero follow each other:
/// the first longest run of them is left out and `::` stands in its place.
pub open spec fn ipv6_groups_text(g: Seq<u16>) -> Seq<char> {
    let i = longest_zeros(g, 8);
    let n = zeros_at(g, i);
    if n > 1 {
        groups_text(g.take(i)) + seq![':', ':'] + groups_text(g.skip(i + n))
    } else {
        groups_text(g)
    }
}

/// How an IPv6 address is written.
pub open spec fn ipv6_text(ip: Ipv6Addr) -> Seq<char> {
    if is_mapped(ip) {
        seq![':', ':', 'f', 'f', 'f', 'f', ':'] + ipv4_text(mapped_ipv4(ip))
    } else {
        ipv6_groups_text(ip.segments())
    }
}

/// How an address is written.
pub open spec fn ip_text(ip: IpAddr) -> Seq<char> {
    match ip {
        IpAddr::V4(ip) => ipv4_text(ip),
        IpAddr::V6(ip) => ipv6_text(ip),
    }
}

/// How an address with a port is written.
pub open spec fn socket_text(a: SocketAddr) -> Seq<char> {
    match a {
        SocketAddr::V4 { ip, port } => ipv4_text(ip) + seq![':'] + text::number_text(
            port as nat,
            10,
        ),
        SocketAddr::V6 { ip, port, scope } => seq!['['] + ipv6_text(ip) + (if scope == 0 {
            Seq::empty()
        } else {
            seq!['%'] + text::number_text(scope as nat, 10)
        }) + seq![']', ':'] + text::number_text(port as nat, 10),
    }
}

fn write_ipv4(out: &mut String, ip: Ipv4Addr)
    ensures
        final(out)@ == old(out)@ + ipv4_text(ip),
{
    proof {
        reveal_strlit(".");
        assert("."@ == seq!['.']);
    }
    text::write_number(out, ip.a as u64, 10);
    out.append(".");
    text::write_number(out, ip.b as u64, 10);
    out.append(".");
    text::write_number(out, ip.c as u64, 10);
    out.append(".");
    text::write_number(out, ip.d as u64, 10);
    assert(out@ == old(out)@ + ipv4_text(ip));
}

/// Appends the groups of `g` from place `from` up to place `to`.
fn write_groups(out: &mut String, g: &Vec<u16>, from: usize, to: usize)
    requires
        from <= to <= g@.len(),
    ensures
        final(out)@ == old(out)@ + groups_text(g@.subrange(from as int, to as int)),
{
    proof {
        reveal_strlit(":");
        assert(":"@ == seq![':']);
    }
    let ghost part = g@.subrange(from as int, to as int);
    let mut i: usize = from;
    assert(part.take(0) == Seq::<u16>::empty());
    assert(out@ == old(out)@ + groups_text(part.take(0)));
    while i < to
        invariant
            from <= i <= to <= g@.len(),
            part == g@.subrange(from as int, to as int),
            ":"@ == seq![':'],
            out@ == old(out)@ + groups_text(part.take(i - from)),
        decreases to - i,
    {
        let ghost seen = part.take(i + 1 - from);
        assert(seen.drop_last() == part.take(i - from));
        assert(seen.last() == g@[i as int]);
        if i > from {
            out.append(":");
        }
        text::write_number(out, g[i] as u64, 16);
        assert(out@ == old(out)@ + groups_text(seen));
        i += 1;
    }
    assert(part.take(to - from) == part);
}

fn count_zeros(g: &Vec<u16>, i: usize) -> (r: usize)
    requires
        i <= g@.len() <= 8,
    ensures
        r == zeros_at(g@, i as int),
        i + r <= g@.len(),
    decreases g@.len() - i,
{
    if i < g.len() && g[i] == 0 {
        1 + count_zeros(g, i + 1)
    } else {
        0
    }
}

fn write_ipv6(out: &mut String, ip: Ipv6Addr)
    ensures
        final(out)@ == old(out)@ + ipv6_text(ip),
{
    if ip.s0 == 0 && ip.s1 == 0 && ip.s2 == 0 && ip.s3 == 0 && ip.s4 == 0 && ip.s5 == 0xffff {
        proof {
            reveal_strlit("::ffff:");
            assert("::ffff:"@ == seq![':', ':', 'f', 'f', 'f', 'f', ':']);
        }
        out.append("::ffff:");
        write_ipv4(
            out,
            Ipv4Addr {
                a: (ip.s6 / 0x100) as u8,
                b: (ip.s6 % 0x100) as u8,
                c: (ip.s7 / 0x100) as u8,
                d: (ip.s7 % 0x100) as u8,
            },
        );
        assert(out@ == old(out)@ + ipv6_text(ip));
        return ;
    }
    let g = ip.to_segments();
    let mut best: usize = 0;
    let mut best_len: usize = count_zeros(&g, 0);
    let mut i: usize = 1;
    while i < 8
        invariant
            1 <= i <= 8,
            g@.len() == 8,
            best < i,
            best == longest_zeros(g@, i as int),
            best_len == zeros_at(g@, best as int),
            best + best_len <= 8,
        decreases 8 - i,
    {
        let len: usize = count_zeros(&g, i);
        if len > best_len {
            best = i;
            best_len = len;
        }
        i += 1;
    }
    if best_len > 1 {
        proof {
            reveal_strlit("::");
            assert("::"@ == seq![':', ':']);
        }
        write_groups(out, &g, 0, best);
        out.append("::");
        write_groups(out, &g, best + best_len, 8);
        assert(g@.subrange(0, best as int) == g@.take(best as int));
        assert(g@.subrange(best + best_len, 8) == g@.skip(best + best_len));
    } else {
        write_groups(out, &g, 0, 8);
        assert(g@.subrange(0, 8) == g@);
    }
    assert(out@ == old(out)@ + ipv6_text(ip));
}

/// The text of an address.
pub fn ip_to_string(ip: IpAddr) -> (r: String)
    ensures
        r@ == ip_text(ip),
{
    let mut r = String::new();
    match ip {
        IpAddr::V4(ip) => {
            write_ipv4(&mut r, ip);
        },
        IpAddr::V6(ip) => {
            write_ipv6(&mut r, ip);
        },
    }
    assert(r@ == ip_text(ip));
    r
}

/// The text of an address with a port.
pub fn socket_to_string(a: SocketAddr) -> (r: String)
    ensures
        r@ == socket_text(a),
{
    proof {
        reveal_strlit(":");
        reveal_strlit("[");
        reveal_strlit("%");
        reveal_strlit("]:");
        assert(":"@ == seq![':']);
        assert("["@ == seq!['[']);
        assert("%"@ == seq!['%']);
        assert("]:"@ == seq![']', ':']);
    }
    let mut r = String::new();
    match a {
        SocketAddr::V4 { ip, port } => {
            write_ipv4(&mut r, ip);
            r.append(":");
            text::write_number(&mut r, port as u64, 10);
        },
        SocketAddr::V6 { ip, port, scope } => {
            r.append("[");
            write_ipv6(&mut r, ip);
            if scope != 0 {
                r.append("%");
                text::write_number(&mut r, scope as u64, 10);
            }
            r.append("]:");
            text::write_number(&mut r, port as u64, 10);
        },
    }
    assert(r@ == socket_text(a));
    r
}

} // verus!
