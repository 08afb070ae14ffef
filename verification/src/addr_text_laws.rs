//! Which texts are addresses and how addresses are written, said in terms of the
//! parts of a text.

use vstd::prelude::*;

use crate::addr::{IpAddr, Ipv4Addr, Ipv6Addr, SocketAddr};
use crate::addr_laws;
use crate::addr_text;
use crate::text;

verus! {

// ---------------------------------------------------------------------------
// Parts
// ---------------------------------------------------------------------------

/// A text is its parts with the separator between them, and none of the parts holds
/// the separator.
pub proof fn law_texts_are_their_parts(s: Seq<char>, c: char)
    ensures
        text::split_by(s, c).len() > 0,
        text::joined(text::split_by(s, c), seq![c]) == s,
        forall|i: int|
            0 <= i < text::split_by(s, c).len() ==> !(#[trigger] text::split_by(s, c)[i]).contains(
                c,
            ),
    decreases s.len(),
{
    let all = text::split_by(s, c);
    if s.len() == 0 {
        assert(all == seq![s]);
    } else {
        let front = s.drop_last();
        let before = text::split_by(front, c);
        law_texts_are_their_parts(front, c);
        let x = s.last();
        assert(s == front.push(x));
        if x == c {
            assert(all.drop_last() == before);
            assert(text::joined(all, seq![c]) == front + seq![c] + Seq::empty());
        } else {
            let head = before.drop_last();
            let last = before.last();
            assert(all == head.push(last.push(x)));
            assert(before == head.push(last));
            assert(all.drop_last() == head);
            if head.len() == 0 {
                assert(text::joined(before, seq![c]) == last);
            } else {
                assert(text::joined(all, seq![c]) == text::joined(head, seq![c]) + seq![c]
                    + last.push(x));
                assert(text::joined(before, seq![c]) == text::joined(head, seq![c]) + seq![c]
                    + last);
                assert(text::joined(head, seq![c]) + seq![c] + last.push(x) == (text::joined(
                    head,
                    seq![c],
                ) + seq![c] + last).push(x));
            }
            assert forall|i: int| 0 <= i < all.len() implies !(#[trigger] all[i]).contains(c) by {
                if i < head.len() {
                    assert(all[i] == before[i]);
                } else {
                    assert(before[head.len() as int] == last);
                    assert forall|k: int| 0 <= k < all[i].len() implies all[i][k] != c by {
                        if k < last.len() {
                            assert(last.contains(last[k]));
                        }
                    }
                }
            }
        }
    }
}

/// Parts that do not hold the separator come apart again as they were put together.
pub proof fn law_parts_come_apart(list: Seq<Seq<char>>, c: char)
    requires
        list.len() > 0,
        forall|i: int| 0 <= i < list.len() ==> !(#[trigger] list[i]).contains(c),
    ensures
        text::split_by(text::joined(list, seq![c]), c) == list,
    decreases list.len(),
{
    let last = list[list.len() - 1];
    assert(!last.contains(c));
    if list.len() == 1 {
        addr_laws::lemma_split_one(last, c);
        assert(list == seq![last]);
    } else {
        let front = list.drop_last();
        assert forall|i: int| 0 <= i < front.len() implies !(#[trigger] front[i]).contains(c) by {
            assert(front[i] == list[i]);
        }
        law_parts_come_apart(front, c);
        let a = text::joined(front, seq![c]);
        addr_laws::lemma_split_last(a, c, last);
        assert(a + seq![c] + last == a.push(c) + last);
        assert(front.push(last) == list);
    }
}

// ---------------------------------------------------------------------------
// IPv4
// ---------------------------------------------------------------------------

/// A number without zeros in front is written in one way.
proof fn lemma_one_way(s: Seq<char>)
    requires
        s.len() > 0,
        text::all_digits(s, 10),
        s.len() == 1 || s[0] != '0',
    ensures
        text::number_text(text::number_of(s, 10), 10) == s,
        s[0] != '0' ==> text::number_of(s, 10) >= 1,
    decreases s.len(),
{
    let front = s.drop_last();
    let x = s.last();
    assert(text::digit_of(s[s.len() - 1], 10) is Some);
    let d = text::digit_of(x, 10)->0;
    assert(text::digit_char(d) == x);
    if s.len() == 1 {
        assert(text::number_of(front, 10) == 0);
        assert(text::number_text(d, 10) == seq![x]);
        assert(s == seq![x]);
    } else {
        assert forall|i: int| 0 <= i < front.len() implies text::digit_of(#[trigger] front[i], 10)
            is Some by {
            assert(text::digit_of(s[i], 10) is Some);
        }
        assert(front[0] == s[0]);
        lemma_one_way(front);
        let m = text::number_of(front, 10);
        let n = text::number_of(s, 10);
        assert(n == m * 10 + d);
        assert(n / 10 == m && n % 10 == d);
        assert(s == front.push(x));
    }
}

/// A text is an IPv4 address exactly where it is how that address is written.
pub proof fn law_ipv4_is_written_in_one_way(s: Seq<char>, ip: Ipv4Addr)
    ensures
        addr_text::ipv4_of(s) == Some(ip) <==> s == text::number_text(ip.a as nat, 10) + "."@
            + text::number_text(ip.b as nat, 10) + "."@ + text::number_text(ip.c as nat, 10) + "."@
            + text::number_text(ip.d as nat, 10),
{
    reveal_strlit(".");
    assert("."@ == seq!['.']);
    addr_laws::law_ipv4_read_back(ip);
    if addr_text::ipv4_of(s) == Some(ip) {
        let p = text::split_by(s, '.');
        law_texts_are_their_parts(s, '.');
        lemma_octet_text(p[0], ip.a);
        lemma_octet_text(p[1], ip.b);
        lemma_octet_text(p[2], ip.c);
        lemma_octet_text(p[3], ip.d);
        lemma_joined_four(p, '.');
    }
}

proof fn lemma_octet_text(s: Seq<char>, n: u8)
    requires
        addr_text::octet_of(s) == Some(n),
    ensures
        s == text::number_text(n as nat, 10),
{
    lemma_one_way(s);
}

proof fn lemma_joined_four(p: Seq<Seq<char>>, c: char)
    requires
        p.len() == 4,
    ensures
        text::joined(p, seq![c]) == p[0] + seq![c] + p[1] + seq![c] + p[2] + seq![c] + p[3],
{
    let p3 = p.drop_last();
    let p2 = p3.drop_last();
    let p1 = p2.drop_last();
    assert(text::joined(p1, seq![c]) == p[0]);
    assert(text::joined(p2, seq![c]) == p[0] + seq![c] + p[1]);
    assert(text::joined(p3, seq![c]) == p[0] + seq![c] + p[1] + seq![c] + p[2]);
}

// ---------------------------------------------------------------------------
// IPv6
// ---------------------------------------------------------------------------

/// A group is one to four hexadecimal digits, and counts as the number they write.
pub proof fn law_groups_are_hexadecimal(s: Seq<char>)
    ensures
        addr_text::group_of(s) is Some <==> 1 <= s.len() <= 4 && forall|i: int|
            0 <= i < s.len() ==> 48 <= (#[trigger] s[i]) as int <= 57 || 97 <= s[i] as int <= 102
                || 65 <= s[i] as int <= 70,
        addr_text::group_of(s) matches Some(g) ==> g == text::number_of(s, 16),
{
    if text::all_digits(s, 16) {
        assert forall|i: int| 0 <= i < s.len() implies 48 <= (#[trigger] s[i]) as int <= 57 || 97
            <= s[i] as int <= 102 || 65 <= s[i] as int <= 70 by {
            assert(text::digit_of(s[i], 16) is Some);
        }
        if s.len() <= 4 {
            lemma_hex_bound(s);
        }
    }
}

proof fn lemma_hex_bound(s: Seq<char>)
    requires
        s.len() <= 4,
    ensures
        s.len() == 0 ==> text::number_of(s, 16) <= 0,
        s.len() == 1 ==> text::number_of(s, 16) <= 0xf,
        s.len() == 2 ==> text::number_of(s, 16) <= 0xff,
        s.len() == 3 ==> text::number_of(s, 16) <= 0xfff,
        s.len() == 4 ==> text::number_of(s, 16) <= 0xffff,
    decreases s.len(),
{
    if s.len() > 0 {
        lemma_hex_bound(s.drop_last());
    }
}

proof fn lemma_group_chars(s: Seq<char>)
    requires
        addr_text::group_of(s) is Some,
    ensures
        s.len() > 0,
        !s.contains(':'),
        !s.contains('.'),
        addr_text::ipv4_of(s) is None,
{
    assert forall|i: int| 0 <= i < s.len() implies s[i] != ':' && s[i] != '.' by {
        assert(text::digit_of(s[i], 16) is Some);
    }
    addr_laws::lemma_split_one(s, '.');
}

proof fn lemma_hex_groups(p: Seq<Seq<char>>)
    ensures
        addr_text::hex_groups_of(p) is Some <==> forall|i: int|
            0 <= i < p.len() ==> addr_text::group_of(#[trigger] p[i]) is Some,
        addr_text::hex_groups_of(p) matches Some(g) ==> g.len() == p.len() && forall|i: int|
            0 <= i < p.len() ==> addr_text::group_of(#[trigger] p[i]) == Some(g[i]),
    decreases p.len(),
{
    if p.len() > 0 {
        let front = p.drop_last();
        lemma_hex_groups(front);
        assert(forall|i: int| 0 <= i < front.len() ==> #[trigger] front[i] == p[i]);
        assert(p.last() == p[p.len() - 1]);
        if forall|i: int| 0 <= i < p.len() ==> addr_text::group_of(#[trigger] p[i]) is Some {
            assert forall|i: int| 0 <= i < front.len() implies addr_text::group_of(
                #[trigger] front[i],
            ) is Some by {
                assert(addr_text::group_of(p[i]) is Some);
            }
        }
        if addr_text::hex_groups_of(p) is Some {
            let g = addr_text::hex_groups_of(p)->0;
            assert forall|i: int| 0 <= i < p.len() implies addr_text::group_of(#[trigger] p[i])
                == Some(g[i]) by {
                if i < front.len() {
                    assert(addr_text::group_of(front[i]) is Some);
                }
            }
        }
    }
}

/// Texts that are not empty and hold no colon, with colons between them, have no two
/// colons in a row and begin and end with something else.
proof fn lemma_joined_has_no_gap(list: Seq<Seq<char>>)
    requires
        list.len() > 0,
        forall|i: int|
            0 <= i < list.len() ==> (#[trigger] list[i]).len() > 0 && !list[i].contains(':'),
    ensures
        ({
            let s = text::joined(list, seq![':']);
            &&& s.len() > 0
            &&& s[0] != ':'
            &&& s.last() != ':'
            &&& forall|k: int|
                0 <= k && k + 1 < s.len() ==> !(#[trigger] s[k] == ':' && s[k + 1] == ':')
        }),
    decreases list.len(),
{
    let s = text::joined(list, seq![':']);
    let last = list[list.len() - 1];
    assert(last.len() > 0 && !last.contains(':'));
    assert forall|k: int| 0 <= k < last.len() implies last[k] != ':' by {
        assert(last.contains(last[k]));
    }
    if list.len() > 1 {
        let front = list.drop_last();
        assert forall|i: int| 0 <= i < front.len() implies (#[trigger] front[i]).len() > 0
            && !front[i].contains(':') by {
            assert(front[i] == list[i]);
        }
        lemma_joined_has_no_gap(front);
        let a = text::joined(front, seq![':']);
        assert(s == a + seq![':'] + last);
        assert forall|k: int| 0 <= k && k + 1 < s.len() implies !(#[trigger] s[k] == ':' && s[k + 1]
            == ':') by {
            if k + 1 < a.len() {
                assert(s[k] == a[k] && s[k + 1] == a[k + 1]);
            } else if k + 1 == a.len() {
                assert(s[k] == a.last());
            } else {
                assert(s[k + 1] == last[k - a.len()]);
            }
        }
        assert(s[0] == a[0]);
        assert(s.last() == last[last.len() - 1]);
    } else {
        assert(s == last);
    }
}

proof fn lemma_gap_nowhere(s: Seq<char>, i: int)
    requires
        0 <= i,
        forall|k: int|
            0 <= k && k + 1 < s.len() ==> !(#[trigger] s[k] == ':' && s[k + 1] == ':'),
    ensures
        addr_text::gap_from(s, i) is None,
    decreases s.len() - i,
{
    if i + 1 < s.len() {
        assert(!(s[i] == ':' && s[i + 1] == ':'));
        lemma_gap_nowhere(s, i + 1);
    }
}

/// What the parts of one side of an IPv6 address are read as.
proof fn lemma_side(list: Seq<Seq<char>>, dotted: bool)
    requires
        forall|i: int|
            0 <= i < list.len() ==> (#[trigger] list[i]).len() > 0 && !list[i].contains(':'),
        dotted && list.len() > 0 ==> addr_text::ipv4_of(list.last()) is None,
    ensures
        addr_text::groups_of(text::joined(list, seq![':']), dotted) == addr_text::hex_groups_of(
            list,
        ),
{
    if list.len() > 0 {
        law_parts_come_apart(list, ':');
        lemma_joined_has_no_gap(list);
    } else {
        assert(addr_text::hex_groups_of(list) == Some(Seq::<u16>::empty()));
    }
}

/// What the parts of one side are read as where the last is an IPv4 address.
proof fn lemma_dotted_side(list: Seq<Seq<char>>, ip: Ipv4Addr)
    requires
        forall|i: int|
            0 <= i < list.len() ==> (#[trigger] list[i]).len() > 0 && !list[i].contains(':'),
        list.len() > 0,
        addr_text::ipv4_of(list.last()) == Some(ip),
    ensures
        addr_text::groups_of(text::joined(list, seq![':']), true) == match addr_text::hex_groups_of(
            list.drop_last(),
        ) {
            Some(g) => Some(g + seq![(ip.a * 0x100 + ip.b) as u16, (ip.c * 0x100 + ip.d) as u16]),
            None => None,
        },
{
    law_parts_come_apart(list, ':');
    lemma_joined_has_no_gap(list);
}

/// A text without two colons in a row is an IPv6 address exactly where it is eight
/// groups with colons between them, and then it is the address of those groups. (A
/// dotted address in the place of the last two groups is left to another law.)
#[verifier::rlimit(40)]
pub proof fn law_eight_groups(list: Seq<Seq<char>>)
    requires
        list.len() > 0,
        forall|i: int|
            0 <= i < list.len() ==> (#[trigger] list[i]).len() > 0 && !list[i].contains(':'),
        addr_text::ipv4_of(list.last()) is None,
    ensures
        ({
            let r = addr_text::ipv6_of(text::joined(list, seq![':']));
            let good = list.len() == 8 && forall|i: int|
                0 <= i < list.len() ==> addr_text::group_of(#[trigger] list[i]) is Some;
            &&& r is Some <==> good
            &&& good ==> r == Some(
                Ipv6Addr {
                    s0: addr_text::group_of(list[0])->0,
                    s1: addr_text::group_of(list[1])->0,
                    s2: addr_text::group_of(list[2])->0,
                    s3: addr_text::group_of(list[3])->0,
                    s4: addr_text::group_of(list[4])->0,
                    s5: addr_text::group_of(list[5])->0,
                    s6: addr_text::group_of(list[6])->0,
                    s7: addr_text::group_of(list[7])->0,
                },
            )
        }),
{
    let s = text::joined(list, seq![':']);
    lemma_joined_has_no_gap(list);
    lemma_gap_nowhere(s, 0);
    lemma_side(list, true);
    lemma_hex_groups(list);
}

/// The groups of the parts of a text; 0 for what is none.
pub open spec fn groups_in(list: Seq<Seq<char>>) -> Seq<u16> {
    list.map_values(
        |s: Seq<char>|
            match addr_text::group_of(s) {
                Some(g) => g,
                None => 0,
            },
    )
}

proof fn lemma_groups_in(list: Seq<Seq<char>>)
    requires
        forall|i: int| 0 <= i < list.len() ==> addr_text::group_of(#[trigger] list[i]) is Some,
    ensures
        addr_text::hex_groups_of(list) == Some(groups_in(list)),
{
    lemma_hex_groups(list);
    let g = addr_text::hex_groups_of(list)->0;
    assert forall|i: int| 0 <= i < list.len() implies g[i] == groups_in(list)[i] by {
        assert(addr_text::group_of(list[i]) == Some(g[i]));
    }
    assert(g == groups_in(list));
}

proof fn lemma_gap_between(head: Seq<Seq<char>>, tail: Seq<char>)
    requires
        forall|i: int|
            0 <= i < head.len() ==> (#[trigger] head[i]).len() > 0 && !head[i].contains(':'),
    ensures
        ({
            let a = text::joined(head, seq![':']);
            let s = a + seq![':', ':'] + tail;
            &&& addr_text::gap_from(s, 0) == Some(a.len() as int)
            &&& s.take(a.len() as int) == a
            &&& s.skip(a.len() + 2int) == tail
        }),
{
    let a = text::joined(head, seq![':']);
    let s = a + seq![':', ':'] + tail;
    let j = a.len() as int;
    assert(s.take(j) == a);
    assert(s.skip(j + 2) == tail);
    assert(s[j] == ':' && s[j + 1] == ':');
    if head.len() > 0 {
        lemma_joined_has_no_gap(head);
    }
    assert forall|k: int| 0 <= k < j implies !(#[trigger] s[k] == ':' && s[k + 1] == ':') by {
        assert(s[k] == a[k]);
        if k + 1 < j {
            assert(s[k + 1] == a[k + 1]);
        } else {
            assert(a[k] == a.last());
        }
    }
    addr_laws::lemma_gap_at(s, 0, j);
}

/// A text with two colons in a row is an IPv6 address exactly where groups stand on
/// both sides of them, seven at most or none, with colons between them. The two colons
/// stand for as many groups of zero as are missing to eight: one at least.
#[verifier::rlimit(40)]
pub proof fn law_left_out_groups(head: Seq<Seq<char>>, tail: Seq<Seq<char>>)
    requires
        forall|i: int|
            0 <= i < head.len() ==> (#[trigger] head[i]).len() > 0 && !head[i].contains(':'),
        forall|i: int|
            0 <= i < tail.len() ==> (#[trigger] tail[i]).len() > 0 && !tail[i].contains(':'),
        tail.len() > 0 ==> addr_text::ipv4_of(tail.last()) is None,
    ensures
        ({
            let s = text::joined(head, seq![':']) + seq![':', ':'] + text::joined(tail, seq![':']);
            let r = addr_text::ipv6_of(s);
            let good = head.len() + tail.len() <= 7 && (forall|i: int|
                0 <= i < head.len() ==> addr_text::group_of(#[trigger] head[i]) is Some) && (forall|
                i: int,
            |
                0 <= i < tail.len() ==> addr_text::group_of(#[trigger] tail[i]) is Some);
            &&& r is Some <==> good
            &&& good ==> r->0.segments() == groups_in(head) + Seq::new(
                (8 - head.len() - tail.len()) as nat,
                |i: int| 0u16,
            ) + groups_in(tail)
        }),
{
    let b = text::joined(tail, seq![':']);
    let s = text::joined(head, seq![':']) + seq![':', ':'] + b;
    lemma_gap_between(head, b);
    lemma_side(head, false);
    lemma_side(tail, true);
    lemma_hex_groups(head);
    lemma_hex_groups(tail);
    let good = head.len() + tail.len() <= 7 && (forall|i: int|
        0 <= i < head.len() ==> addr_text::group_of(#[trigger] head[i]) is Some) && (forall|i: int|
        0 <= i < tail.len() ==> addr_text::group_of(#[trigger] tail[i]) is Some);
    if good {
        lemma_groups_in(head);
        lemma_groups_in(tail);
        let n = 8 - head.len() - tail.len();
        let g = groups_in(head) + addr_text::zero_groups(n) + groups_in(tail);
        assert(addr_text::ipv6_groups_of(s) == Some(g));
        assert(Ipv6Addr::of_segments(g).segments() == g);
        assert(addr_text::zero_groups(n) == Seq::new(n as nat, |i: int| 0u16));
    }
}

/// The last two groups may be written as an IPv4 address: without two colons in a row,
/// behind six groups.
#[verifier::rlimit(40)]
pub proof fn law_dotted_end_of_eight(list: Seq<Seq<char>>, ip: Ipv4Addr)
    requires
        forall|i: int| 0 <= i < list.len() ==> addr_text::group_of(#[trigger] list[i]) is Some,
    ensures
        ({
            let s = text::joined(list.push(addr_text::ipv4_text(ip)), seq![':']);
            let last = seq![(ip.a * 0x100 + ip.b) as u16, (ip.c * 0x100 + ip.d) as u16];
            &&& addr_text::ipv6_of(s) is Some <==> list.len() == 6
            &&& list.len() == 6 ==> addr_text::ipv6_of(s)->0.segments() == groups_in(list) + last
        }),
{
    let all = list.push(addr_text::ipv4_text(ip));
    let s = text::joined(all, seq![':']);
    lemma_dotted_parts(list, ip);
    lemma_joined_has_no_gap(all);
    lemma_gap_nowhere(s, 0);
    let g = groups_in(list) + seq![(ip.a * 0x100 + ip.b) as u16, (ip.c * 0x100 + ip.d) as u16];
    if list.len() == 6 {
        assert(Ipv6Addr::of_segments(g).segments() == g);
    }
}

/// With two colons in a row, an IPv4 address may stand for the last two groups behind
/// them, beside five other groups at most.
#[verifier::rlimit(40)]
pub proof fn law_dotted_end_behind_left_out_groups(
    head: Seq<Seq<char>>,
    tail: Seq<Seq<char>>,
    ip: Ipv4Addr,
)
    requires
        forall|i: int| 0 <= i < head.len() ==> addr_text::group_of(#[trigger] head[i]) is Some,
        forall|i: int| 0 <= i < tail.len() ==> addr_text::group_of(#[trigger] tail[i]) is Some,
    ensures
        ({
            let s = text::joined(head, seq![':']) + seq![':', ':'] + text::joined(
                tail.push(addr_text::ipv4_text(ip)),
                seq![':'],
            );
            let last = seq![(ip.a * 0x100 + ip.b) as u16, (ip.c * 0x100 + ip.d) as u16];
            let y = groups_in(tail) + last;
            &&& addr_text::ipv6_of(s) is Some <==> head.len() + tail.len() <= 5
            &&& head.len() + tail.len() <= 5 ==> addr_text::ipv6_of(s)->0.segments() == groups_in(
                head,
            ) + Seq::new((8 - groups_in(head).len() - y.len()) as nat, |i: int| 0u16) + y
        }),
{
    let b = text::joined(tail.push(addr_text::ipv4_text(ip)), seq![':']);
    let s = text::joined(head, seq![':']) + seq![':', ':'] + b;
    lemma_dotted_parts(tail, ip);
    lemma_groups_in(head);
    assert forall|i: int| 0 <= i < head.len() implies (#[trigger] head[i]).len() > 0
        && !head[i].contains(':') by {
        assert(addr_text::group_of(head[i]) is Some);
        lemma_group_chars(head[i]);
    }
    lemma_side(head, false);
    lemma_gap_between(head, b);
    let g = groups_in(tail) + seq![(ip.a * 0x100 + ip.b) as u16, (ip.c * 0x100 + ip.d) as u16];
    lemma_both_sides(s, text::joined(head, seq![':']).len() as int, groups_in(head), g);
}

/// A text whose two sides are groups is an IPv6 address where they leave out one group
/// at least.
proof fn lemma_both_sides(s: Seq<char>, j: int, x: Seq<u16>, y: Seq<u16>)
    requires
        addr_text::gap_from(s, 0) == Some(j),
        addr_text::groups_of(s.take(j), false) == Some(x),
        addr_text::groups_of(s.skip(j + 2), true) == Some(y),
    ensures
        addr_text::ipv6_of(s) is Some <==> x.len() + y.len() <= 7,
        x.len() + y.len() <= 7 ==> addr_text::ipv6_of(s)->0.segments() == x + Seq::new(
            (8 - x.len() - y.len()) as nat,
            |i: int| 0u16,
        ) + y,
{
    if x.len() + y.len() <= 7 {
        let n = 8 - x.len() - y.len();
        let h = x + addr_text::zero_groups(n) + y;
        assert(addr_text::zero_groups(n) == Seq::new(n as nat, |i: int| 0u16));
        assert(addr_text::ipv6_groups_of(s) == Some(h));
        assert(Ipv6Addr::of_segments(h).segments() == h);
    }
}

/// Groups with an IPv4 address behind them: what they are read as.
proof fn lemma_dotted_parts(list: Seq<Seq<char>>, ip: Ipv4Addr)
    requires
        forall|i: int| 0 <= i < list.len() ==> addr_text::group_of(#[trigger] list[i]) is Some,
    ensures
        ({
            let all = list.push(addr_text::ipv4_text(ip));
            &&& forall|i: int|
                0 <= i < all.len() ==> (#[trigger] all[i]).len() > 0 && !all[i].contains(':')
            &&& addr_text::groups_of(text::joined(all, seq![':']), true) == Some(
                groups_in(list) + seq![
                    (ip.a * 0x100 + ip.b) as u16,
                    (ip.c * 0x100 + ip.d) as u16,
                ],
            )
        }),
{
    let all = list.push(addr_text::ipv4_text(ip));
    lemma_dotted_chars(ip);
    assert forall|i: int| 0 <= i < all.len() implies (#[trigger] all[i]).len() > 0
        && !all[i].contains(':') by {
        if i < list.len() {
            assert(addr_text::group_of(list[i]) is Some);
            lemma_group_chars(list[i]);
        }
    }
    addr_laws::law_ipv4_read_back(ip);
    assert(all.drop_last() == list);
    lemma_dotted_side(all, ip);
    lemma_groups_in(list);
}

proof fn lemma_dotted_chars(ip: Ipv4Addr)
    ensures
        addr_text::ipv4_text(ip).len() > 0,
        !addr_text::ipv4_text(ip).contains(':'),
{
    let s = addr_text::ipv4_text(ip);
    let a = text::number_text(ip.a as nat, 10);
    let b = text::number_text(ip.b as nat, 10);
    let c = text::number_text(ip.c as nat, 10);
    let d = text::number_text(ip.d as nat, 10);
    addr_laws::lemma_number_text(ip.a as nat, 10);
    addr_laws::lemma_number_has_no(ip.a as nat, 10, ':');
    addr_laws::lemma_number_has_no(ip.b as nat, 10, ':');
    addr_laws::lemma_number_has_no(ip.c as nat, 10, ':');
    addr_laws::lemma_number_has_no(ip.d as nat, 10, ':');
    assert forall|i: int| 0 <= i < s.len() implies s[i] != ':' by {
        let x = a.len() as int;
        let y = x + 1 + b.len();
        let z = y + 1 + c.len();
        if i < x {
            assert(s[i] == a[i]);
            assert(a.contains(a[i]));
        } else if x < i < y {
            assert(s[i] == b[i - x - 1]);
            assert(b.contains(b[i - x - 1]));
        } else if y < i < z {
            assert(s[i] == c[i - y - 1]);
            assert(c.contains(c[i - y - 1]));
        } else if z < i {
            assert(s[i] == d[i - z - 1]);
            assert(d.contains(d[i - z - 1]));
        }
    }
}

/// Whether `list` is groups; where `dotted` holds, the last one may be an IPv4 address
/// instead.
pub open spec fn are_groups(list: Seq<Seq<char>>, dotted: bool) -> bool {
    forall|i: int|
        0 <= i < list.len() ==> addr_text::group_of(#[trigger] list[i]) is Some || dotted && i
            == list.len() - 1 && addr_text::ipv4_of(list[i]) is Some
}

/// Nothing else is an IPv6 address: every text that is read as one is groups with
/// colons between them, or such groups on both sides of two colons in a row, or on one
/// side, or on none.
pub proof fn law_what_ipv6_looks_like(s: Seq<char>)
    requires
        addr_text::ipv6_of(s) is Some,
    ensures
        exists|head: Seq<Seq<char>>, tail: Seq<Seq<char>>|
            #[trigger] are_groups(head, false) && #[trigger] are_groups(tail, true) && (s
                == text::joined(tail, seq![':']) || s == text::joined(head, seq![':']) + seq![
                ':',
                ':',
            ] + text::joined(tail, seq![':'])),
{
    match addr_text::gap_from(s, 0) {
        None => {
            let tail = lemma_parts_of_side(s, true);
            assert(are_groups(Seq::empty(), false));
        },
        Some(i) => {
            lemma_gap_is_there(s, 0);
            let head = lemma_parts_of_side(s.take(i), false);
            let tail = lemma_parts_of_side(s.skip(i + 2), true);
            assert(s == s.take(i) + seq![':', ':'] + s.skip(i + 2));
            assert(s == text::joined(head, seq![':']) + seq![':', ':'] + text::joined(
                tail,
                seq![':'],
            ));
        },
    }
}

/// The parts of one side of an IPv6 address that was read.
proof fn lemma_parts_of_side(s: Seq<char>, dotted: bool) -> (list: Seq<Seq<char>>)
    requires
        addr_text::groups_of(s, dotted) is Some,
    ensures
        are_groups(list, dotted),
        s == text::joined(list, seq![':']),
{
    if s.len() == 0 {
        let list = Seq::<Seq<char>>::empty();
        assert(s == text::joined(list, seq![':']));
        list
    } else {
        let p = text::split_by(s, ':');
        law_texts_are_their_parts(s, ':');
        if dotted && addr_text::ipv4_of(p.last()) is Some {
            lemma_hex_groups(p.drop_last());
            assert forall|i: int| 0 <= i < p.len() - 1 implies addr_text::group_of(#[trigger] p[i])
                is Some by {
                assert(addr_text::group_of(p.drop_last()[i]) is Some);
            }
        } else {
            lemma_hex_groups(p);
        }
        p
    }
}

proof fn lemma_gap_is_there(s: Seq<char>, from: int)
    requires
        0 <= from,
    ensures
        addr_text::gap_from(s, from) matches Some(i) ==> from <= i && i + 1 < s.len() && s[i] == ':'
            && s[i + 1] == ':',
    decreases s.len() - from,
{
    if from + 1 < s.len() && !(s[from] == ':' && s[from + 1] == ':') {
        lemma_gap_is_there(s, from + 1);
    }
}

/// A text is an address where it is one of IPv4 or, failing that, of IPv6, and none
/// where it is neither.
pub proof fn law_addresses_of_both_kinds(s: Seq<char>)
    ensures
        addr_text::ipv4_of(s) matches Some(ip) ==> addr_text::ip_of(s) == Some(IpAddr::V4(ip)),
        addr_text::ipv4_of(s) is None && addr_text::ipv6_of(s) is Some ==> addr_text::ip_of(s)
            == Some(IpAddr::V6(addr_text::ipv6_of(s)->0)),
        addr_text::ipv4_of(s) is None && addr_text::ipv6_of(s) is None ==> addr_text::ip_of(s)
            is None,
{
}

// ---------------------------------------------------------------------------
// Ports
// ---------------------------------------------------------------------------

/// A port is digits that write a number up to 65535.
pub proof fn law_ports_are_numbers(s: Seq<char>)
    ensures
        addr_text::port_of(s) is Some <==> s.len() > 0 && (forall|i: int|
            0 <= i < s.len() ==> 48 <= #[trigger] s[i] as int <= 57) && text::number_of(s, 10)
            <= 65_535,
        addr_text::port_of(s) matches Some(p) ==> p == text::number_of(s, 10),
{
    if text::all_digits(s, 10) {
        assert forall|i: int| 0 <= i < s.len() implies 48 <= #[trigger] s[i] as int <= 57 by {
            assert(text::digit_of(s[i], 10) is Some);
        }
    }
}

/// An IPv4 address with a port is the address, a colon and the port, and nothing else
/// with one colon in it is an address with a port, but what begins with a bracket.
pub proof fn law_ipv4_with_port(address: Seq<char>, port: Seq<char>)
    requires
        !address.contains(':'),
        !port.contains(':'),
        address.len() > 0 ==> address[0] != '[',
    ensures
        ({
            let r = addr_text::socket_of(address + seq![':'] + port);
            let ip = addr_text::ipv4_of(address);
            let p = addr_text::port_of(port);
            &&& r is Some <==> ip is Some && p is Some
            &&& ip is Some && p is Some ==> r == Some(SocketAddr::V4 { ip: ip->0, port: p->0 })
        }),
{
    let s = address + seq![':'] + port;
    let list = seq![address, port];
    assert(list.drop_last() == seq![address]);
    assert(text::joined(seq![address], seq![':']) == address);
    assert(text::joined(list, seq![':']) == s);
    law_parts_come_apart(list, ':');
    if address.len() > 0 {
        assert(s[0] == address[0]);
    } else {
        assert(s[0] == ':');
    }
}

/// An IPv6 address with a port is the address in square brackets, a colon and the
/// port. Behind the address the number of an interface may stand, with a percent sign
/// before it; without one it counts as 0.
pub proof fn law_ipv6_with_port(address: Seq<char>, scope: Seq<char>, port: Seq<char>)
    requires
        !address.contains(']'),
        !address.contains('%'),
        !scope.contains(']'),
        !scope.contains('%'),
    ensures
        ({
            let bare = addr_text::socket_of(seq!['['] + address + seq![']', ':'] + port);
            let scoped = addr_text::socket_of(
                seq!['['] + address + seq!['%'] + scope + seq![']', ':'] + port,
            );
            let ip = addr_text::ipv6_of(address);
            let p = addr_text::port_of(port);
            let z = text::number_up_to(scope, 10, 4_294_967_295);
            &&& bare is Some <==> ip is Some && p is Some
            &&& ip is Some && p is Some ==> bare == Some(
                SocketAddr::V6 { ip: ip->0, port: p->0, scope: 0 },
            )
            &&& scoped is Some <==> ip is Some && p is Some && z is Some
            &&& ip is Some && p is Some && z is Some ==> scoped == Some(
                SocketAddr::V6 { ip: ip->0, port: p->0, scope: z->0 as u32 },
            )
        }),
{
    lemma_scoped(address, scope);
    let inner = address + seq!['%'] + scope;
    assert(!inner.contains(']')) by {
        assert forall|i: int| 0 <= i < inner.len() implies inner[i] != ']' by {
            if i < address.len() {
                assert(address.contains(address[i]));
            } else if i > address.len() {
                assert(scope.contains(scope[i - address.len() - 1]));
            }
        }
    }
    lemma_bracketed(address, port);
    lemma_bracketed(inner, port);
    assert(seq!['['] + inner + seq![']', ':'] + port == seq!['['] + address + seq!['%'] + scope
        + seq![']', ':'] + port);
}

/// What is read of an address, with the number of an interface behind it or without.
proof fn lemma_scoped(address: Seq<char>, scope: Seq<char>)
    requires
        !address.contains('%'),
        !scope.contains('%'),
    ensures
        addr_text::scoped_of(address) == match addr_text::ipv6_of(address) {
            Some(ip) => Some((ip, 0u32)),
            None => None,
        },
        addr_text::scoped_of(address + seq!['%'] + scope) == match (
            addr_text::ipv6_of(address),
            text::number_up_to(scope, 10, 4_294_967_295),
        ) {
            (Some(ip), Some(z)) => Some((ip, z as u32)),
            _ => None,
        },
{
    addr_laws::lemma_split_one(address, '%');
    let list = seq![address, scope];
    assert(list.drop_last() == seq![address]);
    assert(text::joined(seq![address], seq!['%']) == address);
    assert(text::joined(list, seq!['%']) == address + seq!['%'] + scope);
    law_parts_come_apart(list, '%');
}

/// Nothing else is an address with a port: every text that is read as one is an IPv4
/// address, a colon and the port, or something in square brackets, a colon and the
/// port.
pub proof fn law_what_addresses_with_ports_look_like(s: Seq<char>)
    requires
        addr_text::socket_of(s) is Some,
    ensures
        exists|inner: Seq<char>, port: Seq<char>|
            #![trigger addr_text::scoped_of(inner), addr_text::port_of(port)]
            addr_text::port_of(port) is Some && (s == inner + seq![':'] + port
                && addr_text::ipv4_of(inner) is Some || s == seq!['['] + inner + seq![']', ':']
                + port && addr_text::scoped_of(inner) is Some),
{
    if addr_text::socket_v4_of(s) is Some {
        let p = text::split_by(s, ':');
        law_texts_are_their_parts(s, ':');
        assert(text::joined(p.drop_last(), seq![':']) == p[0]);
        assert(s == p[0] + seq![':'] + p[1]);
        let read = (addr_text::scoped_of(p[0]), addr_text::port_of(p[1]));
    } else {
        let j = addr_text::first_from(s, ']', 0)->0;
        lemma_first_is_there(s, ']', 0);
        let inner = s.subrange(1, j);
        let port = s.skip(j + 2);
        assert(s == seq!['['] + inner + seq![']', ':'] + port);
    }
}

proof fn lemma_first_is_there(s: Seq<char>, c: char, from: int)
    requires
        0 <= from,
    ensures
        addr_text::first_from(s, c, from) matches Some(i) ==> from <= i < s.len() && s[i] == c,
    decreases s.len() - from,
{
    if from < s.len() && s[from] != c {
        lemma_first_is_there(s, c, from + 1);
    }
}

/// What is read of a text in square brackets and a port behind it.
proof fn lemma_bracketed(inner: Seq<char>, port: Seq<char>)
    requires
        !inner.contains(']'),
    ensures
        addr_text::socket_of(seq!['['] + inner + seq![']', ':'] + port) == match (
            addr_text::scoped_of(inner),
            addr_text::port_of(port),
        ) {
            (Some((ip, scope)), Some(port)) => Some(SocketAddr::V6 { ip, port, scope }),
            _ => None,
        },
{
    let s = seq!['['] + inner + seq![']', ':'] + port;
    let j = inner.len() + 1;
    lemma_first_bracket(inner, port, 0);
    assert(s.subrange(1, j as int) == inner);
    assert(s.skip(j + 2int) == port);
    assert(addr_text::socket_v4_of(s) is None) by {
        let p = text::split_by(s, ':');
        lemma_bracket_first(s);
        if p.len() == 2 && addr_text::ipv4_of(p[0]) is Some {
            let ip = addr_text::ipv4_of(p[0])->0;
            law_ipv4_is_written_in_one_way(p[0], ip);
            addr_laws::lemma_number_text(ip.a as nat, 10);
            let a = text::number_text(ip.a as nat, 10);
            assert(p[0][0] == a[0]);
            assert(text::digit_of(a[0], 10) is Some);
        }
    }
}

/// The first part of a text that begins with a bracket begins with it.
proof fn lemma_bracket_first(s: Seq<char>)
    requires
        s.len() > 0,
        s[0] == '[',
    ensures
        text::split_by(s, ':').len() > 0,
        text::split_by(s, ':')[0].len() > 0,
        text::split_by(s, ':')[0][0] == '[',
    decreases s.len(),
{
    let before = text::split_by(s.drop_last(), ':');
    if s.len() == 1 {
        assert(s.drop_last() == Seq::<char>::empty());
        assert(before == seq![s.drop_last()]);
    } else {
        lemma_bracket_first(s.drop_last());
    }
}

proof fn lemma_first_bracket(inner: Seq<char>, port: Seq<char>, from: int)
    requires
        !inner.contains(']'),
        0 <= from <= inner.len() + 1,
    ensures
        addr_text::first_from(seq!['['] + inner + seq![']', ':'] + port, ']', from) == Some(
            inner.len() + 1int,
        ),
    decreases inner.len() + 1 - from,
{
    let s = seq!['['] + inner + seq![']', ':'] + port;
    if from <= inner.len() {
        if from > 0 {
            assert(s[from] == inner[from - 1]);
            assert(inner.contains(inner[from - 1]));
        } else {
            assert(s[0] == '[');
        }
        lemma_first_bracket(inner, port, from + 1);
    } else {
        assert(s[from] == ']');
    }
}

// ---------------------------------------------------------------------------
// Writing
// ---------------------------------------------------------------------------

/// The texts of groups.
pub open spec fn group_words(g: Seq<u16>) -> Seq<Seq<char>> {
    g.map_values(|n: u16| text::number_text(n as nat, 16))
}

proof fn lemma_groups_written(g: Seq<u16>)
    ensures
        addr_text::groups_text(g) == text::joined(group_words(g), seq![':']),
    decreases g.len(),
{
    if g.len() > 1 {
        lemma_groups_written(g.drop_last());
        assert(group_words(g).drop_last() == group_words(g.drop_last()));
    }
}

/// How addresses are written. One of IPv6 that stands for one of IPv4 is written as
/// that one behind `::ffff:`. In any other a run of groups that are zero, two at least,
/// is left out: the longest, the first of those that are as long. Where there is no
/// such run, all groups are written.
pub proof fn law_how_ipv6_is_written(ip: Ipv6Addr)
    ensures
        ({
            let g = ip.segments();
            let s = addr_text::ipv6_text(ip);
            let mapped = ip.s0 == 0 && ip.s1 == 0 && ip.s2 == 0 && ip.s3 == 0 && ip.s4 == 0 && ip.s5
                == 0xffff;
            let lonely = forall|k: int| 0 <= k < 7 ==> !(#[trigger] g[k] == 0 && g[k + 1] == 0);
            &&& mapped ==> s == seq![':', ':', 'f', 'f', 'f', 'f', ':'] + addr_text::ipv4_text(
                Ipv4Addr {
                    a: (ip.s6 / 256) as u8,
                    b: (ip.s6 % 256) as u8,
                    c: (ip.s7 / 256) as u8,
                    d: (ip.s7 % 256) as u8,
                },
            )
            &&& !mapped && lonely ==> s == text::joined(group_words(g), seq![':'])
            &&& !mapped && !lonely ==> exists|i: int, n: int| #[trigger]
                is_left_out(g, i, n) && s == text::joined(group_words(g.take(i)), seq![':'])
                    + seq![':', ':'] + text::joined(group_words(g.skip(i + n)), seq![':'])
        }),
{
    let g = ip.segments();
    let i = addr_text::longest_zeros(g, 8);
    let n = addr_text::zeros_at(g, i) as int;
    addr_laws::lemma_longest_zeros(g, 8);
    addr_laws::lemma_zeros_at(g, i);
    lemma_groups_written(g);
    lemma_groups_written(g.take(i));
    lemma_groups_written(g.skip(i + n));
    lemma_longest_is_best(g, 8);
    if n >= 2 {
        assert(g[i] == 0 && g[i + 1] == 0);
        assert forall|j: int, m: int| 0 <= j && 0 <= m && j + m <= 8 && #[trigger] all_zero(g, j, m)
            && m >= 1 implies m <= n && (m == n ==> i <= j) by {
            lemma_run_is_counted(g, j, m);
        }
        assert(all_zero(g, i, n));
        assert(is_left_out(g, i, n));
    }
    if !(forall|k: int| 0 <= k < 7 ==> !(#[trigger] g[k] == 0 && g[k + 1] == 0)) {
        let k = choose|k: int| 0 <= k < 7 && #[trigger] g[k] == 0 && g[k + 1] == 0;
        assert(all_zero(g, k, 2));
        lemma_run_is_counted(g, k, 2);
    }
}

/// Whether the `n` groups of `g` from place `i` on are zero.
pub open spec fn all_zero(g: Seq<u16>, i: int, n: int) -> bool {
    forall|k: int| i <= k < i + n ==> #[trigger] g[k] == 0
}

/// Whether the `n` groups from place `i` on are those to leave out: two at least, all
/// zero, no longer run of zeros anywhere, and none as long before it.
pub open spec fn is_left_out(g: Seq<u16>, i: int, n: int) -> bool {
    &&& 0 <= i
    &&& 2 <= n
    &&& i + n <= 8
    &&& all_zero(g, i, n)
    &&& forall|j: int, m: int|
        0 <= j && 1 <= m && j + m <= 8 && #[trigger] all_zero(g, j, m) ==> m <= n && (m == n ==> i
            <= j)
}

proof fn lemma_run_is_counted(g: Seq<u16>, j: int, m: int)
    requires
        0 <= j,
        0 <= m,
        j + m <= g.len(),
        all_zero(g, j, m),
    ensures
        addr_text::zeros_at(g, j) >= m,
    decreases m,
{
    if m > 0 {
        assert(g[j] == 0);
        assert forall|k: int| j + 1 <= k < j + 1 + (m - 1) implies #[trigger] g[k] == 0 by {}
        lemma_run_is_counted(g, j + 1, m - 1);
    }
}

proof fn lemma_longest_is_best(g: Seq<u16>, n: int)
    requires
        1 <= n <= g.len(),
    ensures
        ({
            let i = addr_text::longest_zeros(g, n);
            &&& 0 <= i < n
            &&& forall|j: int|
                0 <= j < n ==> #[trigger] addr_text::zeros_at(g, j) <= addr_text::zeros_at(g, i)
                    && (addr_text::zeros_at(g, j) == addr_text::zeros_at(g, i) ==> i <= j)
        }),
    decreases n,
{
    if n > 1 {
        lemma_longest_is_best(g, n - 1);
    }
}

/// How addresses of IPv4 and addresses with ports are written.
pub proof fn law_how_addresses_are_written(v4: Ipv4Addr, v6: Ipv6Addr, port: u16, scope: u32)
    ensures
        ({
            let p = text::number_text(port as nat, 10);
            let s4 = text::number_text(v4.a as nat, 10) + "."@ + text::number_text(v4.b as nat, 10)
                + "."@ + text::number_text(v4.c as nat, 10) + "."@ + text::number_text(
                v4.d as nat,
                10,
            );
            let s6 = addr_text::ipv6_text(v6);
            &&& addr_text::ip_text(IpAddr::V4(v4)) == s4
            &&& addr_text::ip_text(IpAddr::V6(v6)) == s6
            &&& addr_text::socket_text(SocketAddr::V4 { ip: v4, port }) == s4 + ":"@ + p
            &&& addr_text::socket_text(SocketAddr::V6 { ip: v6, port, scope: 0 }) == "["@ + s6
                + "]:"@ + p
            &&& scope > 0 ==> addr_text::socket_text(SocketAddr::V6 { ip: v6, port, scope }) == "["@
                + s6 + "%"@ + text::number_text(scope as nat, 10) + "]:"@ + p
        }),
{
    reveal_strlit(".");
    reveal_strlit(":");
    reveal_strlit("[");
    reveal_strlit("]:");
    reveal_strlit("%");
    assert("."@ == seq!['.']);
    assert(":"@ == seq![':']);
    assert("["@ == seq!['[']);
    assert("]:"@ == seq![']', ':']);
    assert("%"@ == seq!['%']);
    let p = text::number_text(port as nat, 10);
    let s6 = addr_text::ipv6_text(v6);
    assert(seq!['['] + s6 + Seq::<char>::empty() + seq![']', ':'] + p == seq!['['] + s6 + seq![
        ']',
        ':',
    ] + p);
    let z = text::number_text(scope as nat, 10);
    assert(seq!['['] + s6 + (seq!['%'] + z) + seq![']', ':'] + p == seq!['['] + s6 + seq!['%'] + z
        + seq![']', ':'] + p);
}

} // verus!
