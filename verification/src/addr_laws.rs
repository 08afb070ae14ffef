//! What is written as an address is read back as the same address.

use vstd::prelude::*;

use crate::addr::{IpAddr, Ipv4Addr, Ipv6Addr, SocketAddr};
use crate::addr_text;
use crate::text;

verus! {

// ---------------------------------------------------------------------------
// Numbers
// ---------------------------------------------------------------------------

proof fn lemma_digit_char(d: nat, base: nat)
    requires
        base == 10 || base == 16,
        d < base,
    ensures
        text::digit_of(text::digit_char(d), base) == Some(d),
        text::digit_char(d) == '0' ==> d == 0,
{
}

/// A number is written as digits, the first of which is no zero unless the
/// number is zero, and they write that number.
pub proof fn lemma_number_text(n: nat, base: nat)
    requires
        base == 10 || base == 16,
    ensures
        text::number_text(n, base).len() > 0,
        text::all_digits(text::number_text(n, base), base),
        text::number_of(text::number_text(n, base), base) == n,
        text::number_text(n, base)[0] == '0' ==> n == 0,
    decreases n,
{
    let s = text::number_text(n, base);
    if n < base {
        lemma_digit_char(n, base);
        assert(s.drop_last() == Seq::<char>::empty());
        reveal_with_fuel(text::number_of, 2);
    } else {
        vstd::arithmetic::div_mod::lemma_div_decreases(n as int, base as int);
        vstd::arithmetic::div_mod::lemma_fundamental_div_mod(n as int, base as int);
        vstd::arithmetic::mul::lemma_mul_is_commutative(base as int, (n / base) as int);
        lemma_number_text(n / base, base);
        lemma_digit_char(n % base, base);
        let front = text::number_text(n / base, base);
        assert(s.drop_last() == front);
        assert(s[0] == front[0]);
        assert forall|i: int| 0 <= i < s.len() implies text::digit_of(#[trigger] s[i], base)
            is Some by {
            if i < front.len() {
                assert(s[i] == front[i]);
            }
        }
    }
}

proof fn lemma_number_read_back(n: nat, base: nat, max: nat)
    requires
        base == 10 || base == 16,
        n <= max,
    ensures
        text::number_up_to(text::number_text(n, base), base, max) == Some(n),
{
    lemma_number_text(n, base);
}

/// No character that is no digit stands in a number.
pub proof fn lemma_number_has_no(n: nat, base: nat, c: char)
    requires
        base == 10 || base == 16,
        text::digit_of(c, base) is None,
    ensures
        !text::number_text(n, base).contains(c),
{
    lemma_number_text(n, base);
}

/// A group takes four digits at most.
proof fn lemma_group_digits(n: nat)
    requires
        n <= 0xffff,
    ensures
        text::number_text(n, 16).len() <= 4,
{
    reveal_with_fuel(text::number_text, 4);
    assert(n / 16 / 16 / 16 < 16);
}

// ---------------------------------------------------------------------------
// Pieces
// ---------------------------------------------------------------------------

/// A text without the separator is one piece.
pub proof fn lemma_split_one(s: Seq<char>, c: char)
    requires
        !s.contains(c),
    ensures
        text::split_by(s, c) == seq![s],
    decreases s.len(),
{
    if s.len() > 0 {
        let front = s.drop_last();
        assert(s.contains(s.last()));
        assert forall|x: char| front.contains(x) implies s.contains(x) by {
            let i = choose|i: int| 0 <= i < front.len() && front[i] == x;
            assert(s[i] == x);
        }
        lemma_split_one(front, c);
        assert(front.push(s.last()) == s);
        assert(text::split_by(s, c) == seq![front].drop_last().push(seq![front].last().push(s.last())));
    }
}

/// What follows the last separator is a piece of its own.
pub proof fn lemma_split_last(a: Seq<char>, c: char, b: Seq<char>)
    requires
        !b.contains(c),
    ensures
        text::split_by(a.push(c) + b, c) == text::split_by(a, c).push(b),
    decreases b.len(),
{
    let s = a.push(c) + b;
    if b.len() == 0 {
        assert(s == a.push(c));
        assert(s.drop_last() == a);
        assert(b == Seq::<char>::empty());
    } else {
        let front = b.drop_last();
        assert(b.contains(b.last()));
        assert forall|x: char| front.contains(x) implies b.contains(x) by {
            let i = choose|i: int| 0 <= i < front.len() && front[i] == x;
            assert(b[i] == x);
        }
        lemma_split_last(a, c, front);
        assert(s.drop_last() == a.push(c) + front);
        assert(s.last() == b.last());
        let before = text::split_by(a, c).push(front);
        assert(before.drop_last() == text::split_by(a, c));
        assert(before.last().push(b.last()) == b);
    }
}

/// The first piece begins as the text does.
proof fn lemma_first_piece(s: Seq<char>, c: char)
    requires
        s.len() > 0,
        s[0] != c,
    ensures
        text::split_by(s, c).len() > 0,
        text::split_by(s, c)[0].len() > 0,
        text::split_by(s, c)[0][0] == s[0],
    decreases s.len(),
{
    let before = text::split_by(s.drop_last(), c);
    if s.len() == 1 {
        assert(s.drop_last() == Seq::<char>::empty());
        assert(before == seq![s.drop_last()]);
    } else {
        lemma_first_piece(s.drop_last(), c);
    }
}

/// A text with the separator in it has two pieces at least.
proof fn lemma_split_two(s: Seq<char>, c: char)
    requires
        s.contains(c),
    ensures
        text::split_by(s, c).len() >= 2,
    decreases s.len(),
{
    let i = choose|i: int| 0 <= i < s.len() && s[i] == c;
    let front = s.drop_last();
    text::lemma_pieces_nonempty(front, text::is_char(c));
    if s.last() != c {
        assert(front[i] == c);
        lemma_split_two(front, c);
    }
}

// ---------------------------------------------------------------------------
// IPv4
// ---------------------------------------------------------------------------

proof fn lemma_octet(n: u8)
    ensures
        addr_text::octet_of(text::number_text(n as nat, 10)) == Some(n),
{
    lemma_number_text(n as nat, 10);
    lemma_number_read_back(n as nat, 10, 255);
    if n == 0 {
        assert(text::number_text(0, 10).len() == 1);
    }
}

/// The four parts of an IPv4 address, with `prefix` in front of the first.
proof fn lemma_dotted(prefix: Seq<char>, ip: Ipv4Addr)
    requires
        !prefix.contains('.'),
    ensures
        text::split_by(prefix + addr_text::ipv4_text(ip), '.') == seq![
            prefix + text::number_text(ip.a as nat, 10),
            text::number_text(ip.b as nat, 10),
            text::number_text(ip.c as nat, 10),
            text::number_text(ip.d as nat, 10),
        ],
{
    let a = text::number_text(ip.a as nat, 10);
    let b = text::number_text(ip.b as nat, 10);
    let c = text::number_text(ip.c as nat, 10);
    let d = text::number_text(ip.d as nat, 10);
    lemma_number_has_no(ip.a as nat, 10, '.');
    lemma_number_has_no(ip.b as nat, 10, '.');
    lemma_number_has_no(ip.c as nat, 10, '.');
    lemma_number_has_no(ip.d as nat, 10, '.');
    let t1 = prefix + a;
    assert(!t1.contains('.')) by {
        assert forall|i: int| 0 <= i < t1.len() implies t1[i] != '.' by {
            if i < prefix.len() {
                assert(prefix.contains(t1[i]));
            } else {
                assert(a.contains(t1[i]));
            }
        }
    }
    let t2 = t1.push('.') + b;
    let t3 = t2.push('.') + c;
    let t4 = t3.push('.') + d;
    lemma_split_one(t1, '.');
    lemma_split_last(t1, '.', b);
    lemma_split_last(t2, '.', c);
    lemma_split_last(t3, '.', d);
    assert(prefix + addr_text::ipv4_text(ip) == t4);
    assert(text::split_by(t4, '.') == seq![t1, b, c, d]);
}

/// An IPv4 address that is written is read back.
pub proof fn law_ipv4_read_back(ip: Ipv4Addr)
    ensures
        addr_text::ipv4_of(addr_text::ipv4_text(ip)) == Some(ip),
{
    let none = Seq::<char>::empty();
    lemma_dotted(none, ip);
    assert(none + addr_text::ipv4_text(ip) == addr_text::ipv4_text(ip));
    assert(none + text::number_text(ip.a as nat, 10) == text::number_text(ip.a as nat, 10));
    lemma_octet(ip.a);
    lemma_octet(ip.b);
    lemma_octet(ip.c);
    lemma_octet(ip.d);
}

/// An IPv4 address is written with digits and dots.
proof fn lemma_ipv4_has_no(ip: Ipv4Addr, c: char)
    requires
        c != '.',
        text::digit_of(c, 10) is None,
    ensures
        !addr_text::ipv4_text(ip).contains(c),
        addr_text::ipv4_text(ip).len() > 0,
{
    lemma_number_has_no(ip.a as nat, 10, c);
    lemma_number_has_no(ip.b as nat, 10, c);
    lemma_number_has_no(ip.c as nat, 10, c);
    lemma_number_has_no(ip.d as nat, 10, c);
    let a = text::number_text(ip.a as nat, 10);
    let b = text::number_text(ip.b as nat, 10);
    let p = text::number_text(ip.c as nat, 10);
    let d = text::number_text(ip.d as nat, 10);
    let s = addr_text::ipv4_text(ip);
    assert forall|i: int| 0 <= i < s.len() implies s[i] != c by {
        let x = s[i];
        let i1 = a.len();
        let i2 = i1 + 1 + b.len();
        let i3 = i2 + 1 + p.len();
        if i < i1 {
            assert(x == a[i] && a.contains(x));
        } else if i == i1 {
            assert(x == '.');
        } else if i < i2 {
            assert(x == b[i - i1 - 1] && b.contains(x));
        } else if i == i2 {
            assert(x == '.');
        } else if i < i3 {
            assert(x == p[i - i2 - 1] && p.contains(x));
        } else if i == i3 {
            assert(x == '.');
        } else {
            assert(x == d[i - i3 - 1] && d.contains(x));
        }
    }
}

/// The address and port that an IPv4 address with a port writes.
proof fn lemma_socket_v4(ip: Ipv4Addr, port: u16)
    ensures
        addr_text::socket_of(
            addr_text::ipv4_text(ip) + seq![':'] + text::number_text(port as nat, 10),
        ) == Some(SocketAddr::V4 { ip, port }),
{
    let t = addr_text::ipv4_text(ip);
    let p = text::number_text(port as nat, 10);
    lemma_ipv4_has_no(ip, ':');
    lemma_number_has_no(port as nat, 10, ':');
    lemma_split_one(t, ':');
    lemma_split_last(t, ':', p);
    assert(t + seq![':'] + p == t.push(':') + p);
    law_ipv4_read_back(ip);
    lemma_number_read_back(port as nat, 10, 0xffff);
}

// ---------------------------------------------------------------------------
// IPv6
// ---------------------------------------------------------------------------

/// How each of the groups `g` is written.
spec fn group_texts(g: Seq<u16>) -> Seq<Seq<char>> {
    g.map_values(|n: u16| text::number_text(n as nat, 16))
}

/// Whether no two colons follow each other in `s`.
spec fn has_no_gap(s: Seq<char>) -> bool {
    forall|i: int| 0 <= i && i + 1 < s.len() ==> !(#[trigger] s[i] == ':' && s[i + 1] == ':')
}

proof fn lemma_group(n: u16)
    ensures
        addr_text::group_of(text::number_text(n as nat, 16)) == Some(n),
{
    lemma_group_digits(n as nat);
    lemma_number_read_back(n as nat, 16, 0xffff);
}

/// Groups are written as pieces between colons, which are read back one by one.
proof fn lemma_groups_text(g: Seq<u16>)
    requires
        g.len() > 0,
    ensures
        text::split_by(addr_text::groups_text(g), ':') == group_texts(g),
        addr_text::hex_groups_of(group_texts(g)) == Some(g),
        addr_text::groups_text(g).len() > 0,
        addr_text::groups_text(g)[0] != ':',
        addr_text::groups_text(g).last() != ':',
        has_no_gap(addr_text::groups_text(g)),
        forall|c: char|
            c != ':' && text::digit_of(c, 16) is None ==> !(
            #[trigger] addr_text::groups_text(g).contains(c)),
        g.len() > 1 ==> addr_text::groups_text(g).contains(':'),
    decreases g.len(),
{
    let s = addr_text::groups_text(g);
    let front = g.drop_last();
    let w = text::number_text(g.last() as nat, 16);
    lemma_number_text(g.last() as nat, 16);
    lemma_number_has_no(g.last() as nat, 16, ':');
    lemma_group(g.last());
    assert(w.contains(w[0]));
    assert(w.contains(w.last()));
    assert(group_texts(g).drop_last() == group_texts(front));
    assert(group_texts(g).last() == w);
    assert(front.push(g.last()) == g);
    if g.len() == 1 {
        lemma_split_one(w, ':');
        assert(group_texts(g) == seq![w]);
        assert(front == Seq::<u16>::empty());
        assert(group_texts(front) == Seq::<Seq<char>>::empty());
        assert(s == w);
        assert forall|i: int| 0 <= i && i + 1 < s.len() implies !(#[trigger] s[i] == ':' && s[i + 1]
            == ':') by {
            assert(w.contains(w[i]));
        }
    } else {
        let t = addr_text::groups_text(front);
        lemma_groups_text(front);
        lemma_split_last(t, ':', w);
        assert(s == t.push(':') + w);
        assert(group_texts(front).push(w) == group_texts(g));
        assert forall|i: int| 0 <= i && i + 1 < s.len() implies !(#[trigger] s[i] == ':' && s[i + 1]
            == ':') by {
            if i + 1 < t.len() {
                assert(s[i] == t[i] && s[i + 1] == t[i + 1]);
            } else if i + 1 == t.len() {
                assert(s[i] == t.last());
            } else if i == t.len() {
                assert(s[i + 1] == w[0]);
            } else {
                assert(s[i] == w[i - t.len() - 1]);
                assert(w.contains(s[i]));
            }
        }
        assert(s[t.len() as int] == ':');
        assert forall|c: char| c != ':' && text::digit_of(c, 16) is None implies !(
        #[trigger] s.contains(c)) by {
            assert(!t.contains(c));
            assert forall|i: int| 0 <= i < s.len() implies s[i] != c by {
                if i < t.len() {
                    assert(s[i] == t[i]);
                } else if i > t.len() {
                    assert(s[i] == w[i - t.len() - 1]);
                }
            }
        }
    }
}

/// Groups that are written are read back, also where the last two might be an
/// IPv4 address.
proof fn lemma_groups_read_back(g: Seq<u16>, dotted: bool)
    ensures
        addr_text::groups_of(addr_text::groups_text(g), dotted) == Some(g),
{
    if g.len() == 0 {
        assert(g == Seq::<u16>::empty());
    } else {
        lemma_groups_text(g);
        let p = group_texts(g);
        let w = text::number_text(g.last() as nat, 16);
        assert(p.last() == w);
        lemma_number_has_no(g.last() as nat, 16, '.');
        lemma_split_one(w, '.');
    }
}

proof fn lemma_no_gap(s: Seq<char>, i: int)
    requires
        0 <= i,
        has_no_gap(s),
    ensures
        addr_text::gap_from(s, i) is None,
    decreases s.len() - i,
{
    if i + 1 < s.len() {
        assert(!(s[i] == ':' && s[i + 1] == ':'));
        lemma_no_gap(s, i + 1);
    }
}

pub proof fn lemma_gap_at(s: Seq<char>, i: int, j: int)
    requires
        0 <= i <= j,
        j + 1 < s.len(),
        s[j] == ':',
        s[j + 1] == ':',
        forall|k: int| i <= k < j ==> !(#[trigger] s[k] == ':' && s[k + 1] == ':'),
    ensures
        addr_text::gap_from(s, i) == Some(j),
    decreases j - i,
{
    if i < j {
        assert(!(s[i] == ':' && s[i + 1] == ':'));
        lemma_gap_at(s, i + 1, j);
    }
}

pub proof fn lemma_zeros_at(g: Seq<u16>, i: int)
    requires
        0 <= i <= g.len(),
    ensures
        i + addr_text::zeros_at(g, i) <= g.len(),
        forall|k: int| i <= k < i + addr_text::zeros_at(g, i) ==> #[trigger] g[k] == 0,
    decreases g.len() - i,
{
    if i < g.len() && g[i] == 0 {
        lemma_zeros_at(g, i + 1);
    }
}

pub proof fn lemma_longest_zeros(g: Seq<u16>, n: int)
    requires
        1 <= n <= g.len(),
    ensures
        0 <= addr_text::longest_zeros(g, n) < n,
    decreases n,
{
    if n > 1 {
        lemma_longest_zeros(g, n - 1);
    }
}

/// Where `::` stands for a run of zeros, it is found and filled in again.
proof fn lemma_groups_text_with_gap(g: Seq<u16>, i: int, n: int)
    requires
        g.len() == 8,
        0 <= i,
        2 <= n,
        i + n <= 8,
        forall|k: int| i <= k < i + n ==> #[trigger] g[k] == 0,
    ensures
        addr_text::ipv6_groups_of(
            addr_text::groups_text(g.take(i)) + seq![':', ':'] + addr_text::groups_text(
                g.skip(i + n),
            ),
        ) == Some(g),
{
    let a = addr_text::groups_text(g.take(i));
    let b = addr_text::groups_text(g.skip(i + n));
    let s = a + seq![':', ':'] + b;
    let j = a.len() as int;
    if i > 0 {
        lemma_groups_text(g.take(i));
    }
    assert(s[j] == ':' && s[j + 1] == ':');
    assert forall|k: int| 0 <= k < j implies !(#[trigger] s[k] == ':' && s[k + 1] == ':') by {
        assert(s[k] == a[k]);
        if k + 1 < j {
            assert(s[k + 1] == a[k + 1]);
        } else {
            assert(a[k] == a.last());
        }
    }
    lemma_gap_at(s, 0, j);
    assert(s.take(j) == a);
    assert(s.skip(j + 2) == b);
    lemma_groups_read_back(g.take(i), false);
    lemma_groups_read_back(g.skip(i + n), true);
    assert(g.take(i) + addr_text::zero_groups(n) + g.skip(i + n) == g);
}

/// How `::ffff:` and an IPv4 address are read.
proof fn lemma_mapped(ip: Ipv4Addr)
    ensures
        addr_text::ipv6_groups_of(
            seq![':', ':', 'f', 'f', 'f', 'f', ':'] + addr_text::ipv4_text(ip),
        ) == Some(
            seq![0u16, 0, 0, 0, 0, 0xffff, (ip.a * 0x100 + ip.b) as u16, (ip.c * 0x100
                + ip.d) as u16],
        ),
{
    let t = addr_text::ipv4_text(ip);
    let f = seq!['f', 'f', 'f', 'f'];
    let s = seq![':', ':', 'f', 'f', 'f', 'f', ':'] + t;
    let rest = f.push(':') + t;
    assert(addr_text::gap_from(s, 0) == Some(0int));
    assert(s.take(0) == Seq::<char>::empty());
    assert(s.skip(2) == rest);
    lemma_ipv4_has_no(ip, ':');
    lemma_split_one(f, ':');
    lemma_split_last(f, ':', t);
    law_ipv4_read_back(ip);
    let p = text::split_by(rest, ':');
    assert(p == seq![f, t]);
    assert(p.drop_last() == seq![f]);
    assert(seq![f].drop_last() == Seq::<Seq<char>>::empty());
    assert(text::number_of(f, 16) == 0xffff) by {
        assert(f.drop_last() == seq!['f', 'f', 'f']);
        assert(seq!['f', 'f', 'f'].drop_last() == seq!['f', 'f']);
        assert(seq!['f', 'f'].drop_last() == seq!['f']);
        assert(seq!['f'].drop_last() == Seq::<char>::empty());
        reveal_with_fuel(text::number_of, 5);
    }
    assert(text::number_up_to(f, 16, 0xffff) == Some(0xffffnat));
    assert(addr_text::group_of(f) == Some(0xffffu16));
    reveal_with_fuel(addr_text::hex_groups_of, 2);
    assert(addr_text::hex_groups_of(seq![f]) == Some(Seq::<u16>::empty().push(0xffffu16)));
    let tail = Seq::<u16>::empty().push(0xffffu16) + addr_text::groups_of_ipv4(ip);
    assert(addr_text::groups_of(rest, true) == Some(tail));
    assert(Seq::<u16>::empty() + addr_text::zero_groups(5) + tail == seq![
        0u16,
        0,
        0,
        0,
        0,
        0xffff,
        (ip.a * 0x100 + ip.b) as u16,
        (ip.c * 0x100 + ip.d) as u16,
    ]);
}

proof fn lemma_mapped_read_back(ip: Ipv6Addr)
    requires
        addr_text::is_mapped(ip),
    ensures
        addr_text::ipv6_groups_of(addr_text::ipv6_text(ip)) == Some(ip.segments()),
{
    let v4 = addr_text::mapped_ipv4(ip);
    lemma_mapped(v4);
    assert(v4.a * 0x100 + v4.b == ip.s6);
    assert(v4.c * 0x100 + v4.d == ip.s7);
    assert(ip.segments() == seq![
        0u16,
        0,
        0,
        0,
        0,
        0xffff,
        (v4.a * 0x100 + v4.b) as u16,
        (v4.c * 0x100 + v4.d) as u16,
    ]);
}

proof fn lemma_groups_text_read_back(g: Seq<u16>)
    requires
        g.len() == 8,
    ensures
        addr_text::ipv6_groups_of(addr_text::ipv6_groups_text(g)) == Some(g),
{
    let i = addr_text::longest_zeros(g, 8);
    let n = addr_text::zeros_at(g, i) as int;
    lemma_longest_zeros(g, 8);
    lemma_zeros_at(g, i);
    if n > 1 {
        lemma_groups_text_with_gap(g, i, n);
    } else {
        lemma_groups_text(g);
        lemma_no_gap(addr_text::groups_text(g), 0);
        lemma_groups_read_back(g, true);
    }
}

/// An IPv6 address that is written is read back.
pub proof fn law_ipv6_read_back(ip: Ipv6Addr)
    ensures
        addr_text::ipv6_of(addr_text::ipv6_text(ip)) == Some(ip),
{
    assert(Ipv6Addr::of_segments(ip.segments()) == ip);
    if addr_text::is_mapped(ip) {
        lemma_mapped_read_back(ip);
    } else {
        lemma_groups_text_read_back(ip.segments());
    }
}

/// An IPv6 address is written with hexadecimal digits, colons and dots, and with
/// a colon at least.
proof fn lemma_ipv6_has_no(ip: Ipv6Addr, c: char)
    requires
        c != ':',
        c != '.' || !addr_text::is_mapped(ip),
        text::digit_of(c, 16) is None,
    ensures
        !addr_text::ipv6_text(ip).contains(c),
        addr_text::ipv6_text(ip).contains(':'),
{
    let s = addr_text::ipv6_text(ip);
    let g = ip.segments();
    if addr_text::is_mapped(ip) {
        let v4 = addr_text::mapped_ipv4(ip);
        let t = addr_text::ipv4_text(v4);
        let head = seq![':', ':', 'f', 'f', 'f', 'f', ':'];
        lemma_ipv4_has_no(v4, c);
        assert(s[0] == ':');
        assert forall|k: int| 0 <= k < s.len() implies s[k] != c by {
            if k < 7 {
                assert(s[k] == head[k]);
            } else {
                assert(s[k] == t[k - 7]);
            }
        }
    } else {
        let i = addr_text::longest_zeros(g, 8);
        let n = addr_text::zeros_at(g, i) as int;
        lemma_longest_zeros(g, 8);
        lemma_zeros_at(g, i);
        if n > 1 {
            let a = addr_text::groups_text(g.take(i));
            let b = addr_text::groups_text(g.skip(i + n));
            if i > 0 {
                lemma_groups_text(g.take(i));
            }
            if i + n < 8 {
                lemma_groups_text(g.skip(i + n));
            }
            assert(!a.contains(c));
            assert(!b.contains(c));
            assert(s[a.len() as int] == ':');
            assert forall|k: int| 0 <= k < s.len() implies s[k] != c by {
                if k < a.len() {
                    assert(s[k] == a[k]);
                } else if k >= a.len() + 2 {
                    assert(s[k] == b[k - a.len() - 2]);
                }
            }
        } else {
            lemma_groups_text(g);
        }
    }
}

/// An address that is written is read back.
pub proof fn law_ip_read_back(ip: IpAddr)
    ensures
        addr_text::ip_of(addr_text::ip_text(ip)) == Some(ip),
{
    match ip {
        IpAddr::V4(ip) => {
            law_ipv4_read_back(ip);
        },
        IpAddr::V6(ip) => {
            law_ipv6_read_back(ip);
            let s = addr_text::ipv6_text(ip);
            if addr_text::is_mapped(ip) {
                let v4 = addr_text::mapped_ipv4(ip);
                let head = seq![':', ':', 'f', 'f', 'f', 'f', ':'];
                lemma_dotted(head, v4);
                let first = head + text::number_text(v4.a as nat, 10);
                assert(first[0] == ':');
                assert(text::digit_of(first[0], 10) is None);
            } else {
                lemma_ipv6_has_no(ip, '.');
                lemma_split_one(s, '.');
            }
        },
    }
}

// ---------------------------------------------------------------------------
// Addresses with a port
// ---------------------------------------------------------------------------

proof fn lemma_first_at(s: Seq<char>, c: char, i: int, j: int)
    requires
        0 <= i <= j < s.len(),
        s[j] == c,
        forall|k: int| i <= k < j ==> #[trigger] s[k] != c,
    ensures
        addr_text::first_from(s, c, i) == Some(j),
    decreases j - i,
{
    if i < j {
        lemma_first_at(s, c, i + 1, j);
    }
}

/// An address with a port that is written is read back.
pub proof fn law_socket_read_back(a: SocketAddr)
    ensures
        addr_text::socket_of(addr_text::socket_text(a)) == Some(a),
{
    match a {
        SocketAddr::V4 { ip, port } => {
            lemma_socket_v4(ip, port);
        },
        SocketAddr::V6 { ip, port, scope } => {
            let s = addr_text::socket_text(a);
            let t = addr_text::ipv6_text(ip);
            let z = if scope == 0 {
                Seq::empty()
            } else {
                seq!['%'] + text::number_text(scope as nat, 10)
            };
            let p = text::number_text(port as nat, 10);
            let inner = t + z;
            let j = 1 + inner.len() as int;
            assert(s == seq!['['] + inner + seq![']', ':'] + p);
            assert(s[0] == '[');
            lemma_first_piece(s, ':');
            let first = text::split_by(s, ':')[0];
            lemma_first_piece(first, '.');
            let octet = text::split_by(first, '.')[0];
            assert(octet[0] == '[');
            assert(text::digit_of(octet[0], 10) is None);
            assert(addr_text::octet_of(octet) is None);
            assert(addr_text::ipv4_of(first) is None);
            assert(addr_text::socket_v4_of(s) is None);
            lemma_ipv6_has_no(ip, ']');
            lemma_ipv6_has_no(ip, '%');
            lemma_number_has_no(scope as nat, 10, ']');
            lemma_number_has_no(scope as nat, 10, '%');
            assert forall|k: int| 0 <= k < j implies #[trigger] s[k] != ']' by {
                if 1 <= k < 1 + t.len() {
                    assert(s[k] == t[k - 1]);
                    assert(t.contains(s[k]));
                } else if 1 + t.len() < k {
                    let w = text::number_text(scope as nat, 10);
                    assert(s[k] == w[k - t.len() - 2]);
                    assert(w.contains(s[k]));
                }
            }
            lemma_first_at(s, ']', 0, j);
            assert(s.subrange(1, j) == inner);
            assert(s.skip(j + 2) == p);
            lemma_number_read_back(port as nat, 10, 0xffff);
            law_ipv6_read_back(ip);
            lemma_split_one(t, '%');
            if scope == 0 {
                assert(inner == t);
            } else {
                let w = text::number_text(scope as nat, 10);
                lemma_split_last(t, '%', w);
                assert(inner == t.push('%') + w);
                lemma_number_read_back(scope as nat, 10, u32::MAX as nat);
            }
        },
    }
}

/// An address and a port with a colon between them write an address with a port
/// where it is IPv4, and nothing where it is IPv6: there the brackets are missing.
pub proof fn law_bare_socket(ip: IpAddr, port: u16)
    ensures
        addr_text::socket_of(
            addr_text::ip_text(ip) + seq![':'] + text::number_text(port as nat, 10),
        ) == match ip {
            IpAddr::V4(ip) => Some(SocketAddr::V4 { ip, port }),
            IpAddr::V6(_) => None,
        },
{
    match ip {
        IpAddr::V4(ip) => {
            lemma_socket_v4(ip, port);
        },
        IpAddr::V6(ip) => {
            let t = addr_text::ipv6_text(ip);
            let p = text::number_text(port as nat, 10);
            let s = t + seq![':'] + p;
            assert(s == t.push(':') + p);
            lemma_ipv6_has_no(ip, '[');
            lemma_number_has_no(port as nat, 10, ':');
            lemma_split_two(t, ':');
            lemma_split_last(t, ':', p);
            assert(t.contains(t[0]));
            assert(s[0] != '[');
        },
    }
}

/// A text with the separator in it twice has three pieces at least.
proof fn lemma_split_three(s: Seq<char>, c: char, i: int, j: int)
    requires
        0 <= i < j < s.len(),
        s[i] == c,
        s[j] == c,
    ensures
        text::split_by(s, c).len() >= 3,
    decreases s.len(),
{
    let front = s.drop_last();
    assert(front[i] == c);
    if s.last() != c {
        assert(front[j] == c);
        lemma_split_three(front, c, i, j);
    } else {
        assert(front.contains(c));
        lemma_split_two(front, c);
    }
}

/// An IPv6 address is written with two colons at least.
proof fn lemma_ipv6_colons(ip: Ipv6Addr)
    ensures
        text::split_by(addr_text::ipv6_text(ip), ':').len() >= 3,
{
    let s = addr_text::ipv6_text(ip);
    let g = ip.segments();
    if addr_text::is_mapped(ip) {
        lemma_split_three(s, ':', 0, 1);
    } else {
        let i = addr_text::longest_zeros(g, 8);
        let n = addr_text::zeros_at(g, i) as int;
        if n > 1 {
            let a = addr_text::groups_text(g.take(i));
            lemma_split_three(s, ':', a.len() as int, a.len() as int + 1);
        } else {
            lemma_groups_text(g);
        }
    }
}

/// An address without a port writes no address with a port.
pub proof fn law_ip_is_no_socket(ip: IpAddr)
    ensures
        addr_text::socket_of(addr_text::ip_text(ip)) is None,
{
    match ip {
        IpAddr::V4(ip) => {
            let s = addr_text::ipv4_text(ip);
            lemma_ipv4_has_no(ip, ':');
            lemma_ipv4_has_no(ip, '[');
            lemma_split_one(s, ':');
            assert(s.contains(s[0]));
        },
        IpAddr::V6(ip) => {
            let s = addr_text::ipv6_text(ip);
            lemma_ipv6_colons(ip);
            lemma_ipv6_has_no(ip, '[');
            assert(s.contains(s[0]));
        },
    }
}

/// A text that neither begins nor ends with white space is trimmed.
proof fn lemma_trimmed(s: Seq<char>)
    requires
        s.len() > 0,
        !text::is_space(s[0]),
        !text::is_space(s.last()),
    ensures
        text::trimmed(s) == s,
{
}

/// Addresses are written without white space around them.
pub proof fn law_addresses_are_trimmed(ip: IpAddr, a: SocketAddr)
    ensures
        text::trimmed(addr_text::ip_text(ip)) == addr_text::ip_text(ip),
        text::trimmed(addr_text::socket_text(a)) == addr_text::socket_text(a),
{
    lemma_ip_has_no_space(ip);
    lemma_trimmed(addr_text::ip_text(ip));
    let t = addr_text::socket_text(a);
    let p = text::number_text(a.port_part() as nat, 10);
    lemma_number_text(a.port_part() as nat, 10);
    assert(t.last() == p.last());
    assert(text::digit_of(p[p.len() - 1], 10) is Some);
    if let SocketAddr::V4 { ip, .. } = a {
        lemma_ip_has_no_space(IpAddr::V4(ip));
        assert(t[0] == addr_text::ipv4_text(ip)[0]);
    } else {
        assert(t[0] == '[');
    }
    lemma_trimmed(t);
}

proof fn lemma_ip_has_no_space(ip: IpAddr)
    ensures
        addr_text::ip_text(ip).len() > 0,
        !text::is_space(addr_text::ip_text(ip)[0]),
        !text::is_space(addr_text::ip_text(ip).last()),
{
    let s = addr_text::ip_text(ip);
    match ip {
        IpAddr::V4(ip) => {
            lemma_ipv4_has_no(ip, ' ');
            if text::is_space(s[0]) {
                lemma_ipv4_has_no(ip, s[0]);
            }
            if text::is_space(s.last()) {
                lemma_ipv4_has_no(ip, s.last());
            }
        },
        IpAddr::V6(ip) => {
            lemma_ipv6_has_no(ip, ' ');
            if text::is_space(s[0]) {
                lemma_ipv6_has_no(ip, s[0]);
            }
            if text::is_space(s.last()) {
                lemma_ipv6_has_no(ip, s.last());
            }
        },
    }
    assert(s.contains(s[0]));
    assert(s.contains(s.last()));
}

} // verus!
