//! Reading and writing numbers and separated lists in text.

use vstd::prelude::*;
use vstd::slice::slice_subrange;

verus! {

/// The characters of `s`.
pub fn chars_of(s: &str) -> (r: Vec<char>)
    ensures
        r@ == s@,
{
    let mut r: Vec<char> = Vec::new();
    for c in it: s.chars()
        invariant
            r@ == it.seq().take(it.index() as int),
            it.seq() == s@,
    {
        r.push(c);
        assert(it.seq().take(it.index() as int + 1) == it.seq().take(it.index() as int).push(c));
    }
    r
}

/// Whether `c` is white space in the sense of Unicode.
pub open spec fn is_space(c: char) -> bool {
    ||| '\u{9}' <= c <= '\u{d}'
    ||| c == '\u{20}'
    ||| c == '\u{85}'
    ||| c == '\u{a0}'
    ||| c == '\u{1680}'
    ||| '\u{2000}' <= c <= '\u{200a}'
    ||| c == '\u{2028}'
    ||| c == '\u{2029}'
    ||| c == '\u{202f}'
    ||| c == '\u{205f}'
    ||| c == '\u{3000}'
}

pub fn space(c: char) -> (r: bool)
    ensures
        r == is_space(c),
{
    ('\u{9}' <= c && c <= '\u{d}') || c == '\u{20}' || c == '\u{85}' || c == '\u{a0}'
        || c == '\u{1680}' || ('\u{2000}' <= c && c <= '\u{200a}') || c == '\u{2028}'
        || c == '\u{2029}' || c == '\u{202f}' || c == '\u{205f}' || c == '\u{3000}'
}

/// What is left of `s` when the white space at its start is gone.
pub open spec fn trim_start(s: Seq<char>) -> Seq<char>
    decreases s.len(),
{
    if s.len() > 0 && is_space(s[0]) {
        trim_start(s.drop_first())
    } else {
        s
    }
}

/// What is left of `s` when the white space at its end is gone.
pub open spec fn trim_end(s: Seq<char>) -> Seq<char>
    decreases s.len(),
{
    if s.len() > 0 && is_space(s.last()) {
        trim_end(s.drop_last())
    } else {
        s
    }
}

/// What is left of `s` without the white space at both ends.
pub open spec fn trimmed(s: Seq<char>) -> Seq<char> {
    trim_end(trim_start(s))
}

/// The part of `s` between the white space at both ends.
pub fn trim(s: &[char]) -> (r: &[char])
    ensures
        r@ == trimmed(s@),
{
    let n: usize = s.len();
    let mut from: usize = 0;
    assert(s@.subrange(0, n as int) == s@);
    while from < n && space(s[from])
        invariant
            from <= n == s@.len(),
            trim_start(s@) == trim_start(s@.subrange(from as int, n as int)),
        decreases n - from,
    {
        assert(s@.subrange(from as int, n as int).drop_first() == s@.subrange(
            from + 1,
            n as int,
        ));
        from += 1;
    }
    let mut to: usize = n;
    while from < to && space(s[to - 1])
        invariant
            from <= to <= n == s@.len(),
            trimmed(s@) == trim_end(s@.subrange(from as int, to as int)),
        decreases to,
    {
        assert(s@.subrange(from as int, to as int).drop_last() == s@.subrange(
            from as int,
            to - 1,
        ));
        to -= 1;
    }
    slice_subrange(s, from, to)
}

/// The pieces of `s` between the characters that `sep` holds of; one piece,
/// `s` itself, where there is no such character.
pub open spec fn pieces(s: Seq<char>, sep: spec_fn(char) -> bool) -> Seq<Seq<char>>
    decreases s.len(),
{
    if s.len() == 0 {
        seq![s]
    } else {
        let before = pieces(s.drop_last(), sep);
        if sep(s.last()) {
            before.push(Seq::empty())
        } else {
            before.drop_last().push(before.last().push(s.last()))
        }
    }
}

/// Whether a character is `c`.
pub open spec fn is_char(c: char) -> spec_fn(char) -> bool {
    |x: char| x == c
}

/// The pieces of `s` between the characters `c`.
pub open spec fn split_by(s: Seq<char>, c: char) -> Seq<Seq<char>> {
    pieces(s, is_char(c))
}

/// The view of a list of texts.
pub open spec fn texts(v: Seq<Vec<char>>) -> Seq<Seq<char>> {
    v.map_values(|t: Vec<char>| t@)
}

pub proof fn lemma_pieces_nonempty(s: Seq<char>, sep: spec_fn(char) -> bool)
    ensures
        pieces(s, sep).len() > 0,
    decreases s.len(),
{
    if s.len() > 0 {
        lemma_pieces_nonempty(s.drop_last(), sep);
    }
}

/// The pieces of `s` between the characters that `sep` holds of.
pub(crate) fn split<F: Fn(char) -> bool>(s: &[char], sep: F, Ghost(is_sep): Ghost<spec_fn(char) -> bool>) -> (r: Vec<Vec<char>>)
    requires
        forall|c: char| #[trigger] call_requires(sep, (c,)),
        forall|c: char, b: bool| #[trigger] call_ensures(sep, (c,), b) ==> b == is_sep(c),
    ensures
        texts(r@) == pieces(s@, is_sep),
{
    let mut r: Vec<Vec<char>> = Vec::new();
    let mut piece: Vec<char> = Vec::new();
    let n: usize = s.len();
    let mut i: usize = 0;
    assert(piece@ == s@.take(0));
    assert(texts(r@).push(piece@) == seq![s@.take(0)]);
    while i < n
        invariant
            i <= n == s@.len(),
            forall|c: char| #[trigger] call_requires(sep, (c,)),
            forall|c: char, b: bool| #[trigger] call_ensures(sep, (c,), b) ==> b == is_sep(c),
            texts(r@).push(piece@) == pieces(s@.take(i as int), is_sep),
        decreases n - i,
    {
        let c: char = s[i];
        let ghost before = texts(r@).push(piece@);
        let ghost done = texts(r@);
        assert(s@.take(i + 1).drop_last() == s@.take(i as int));
        assert(before.drop_last() == done);
        if sep(c) {
            r.push(piece);
            piece = Vec::new();
            assert(texts(r@) == before);
        } else {
            piece.push(c);
        }
        i += 1;
    }
    assert(s@.take(n as int) == s@);
    r.push(piece);
    assert(texts(r@) == pieces(s@, is_sep));
    r
}

/// The pieces of `s` between the characters `c`.
pub fn split_on(s: &[char], c: char) -> (r: Vec<Vec<char>>)
    ensures
        texts(r@) == split_by(s@, c),
{
    let sep = |x: char| -> (b: bool)
        ensures
            b == (x == c),
        { x == c };
    split(s, sep, Ghost(is_char(c)))
}

/// The digit that `c` stands for in base `base`, 10 or 16.
pub open spec fn digit_of(c: char, base: nat) -> Option<nat> {
    if '0' <= c <= '9' {
        Some((c as int - '0' as int) as nat)
    } else if base == 16 && 'a' <= c <= 'f' {
        Some((c as int - 'a' as int + 10) as nat)
    } else if base == 16 && 'A' <= c <= 'F' {
        Some((c as int - 'A' as int + 10) as nat)
    } else {
        None
    }
}

/// Whether `s` holds digits of base `base` and nothing else.
pub open spec fn all_digits(s: Seq<char>, base: nat) -> bool {
    forall|i: int| 0 <= i < s.len() ==> digit_of(#[trigger] s[i], base) is Some
}

/// The number that the digits `s` write in base `base`.
pub open spec fn number_of(s: Seq<char>, base: nat) -> nat
    decreases s.len(),
{
    if s.len() == 0 {
        0
    } else {
        number_of(s.drop_last(), base) * base + digit_of(s.last(), base).unwrap_or(0)
    }
}

/// The number that `s` writes in base `base`, if `s` is a number up to `max`.
pub open spec fn number_up_to(s: Seq<char>, base: nat, max: nat) -> Option<nat> {
    if s.len() > 0 && all_digits(s, base) && number_of(s, base) <= max {
        Some(number_of(s, base))
    } else {
        None
    }
}

/// The digit that `c` stands for in base `base`.
pub fn digit(c: char, base: u64) -> (r: Option<u64>)
    requires
        base == 10 || base == 16,
    ensures
        r is Some <==> digit_of(c, base as nat) is Some,
        r matches Some(d) ==> digit_of(c, base as nat) == Some(d as nat) && d < base,
{
    if '0' <= c && c <= '9' {
        Some(c as u64 - '0' as u64)
    } else if base == 16 && 'a' <= c && c <= 'f' {
        Some(c as u64 - 'a' as u64 + 10)
    } else if base == 16 && 'A' <= c && c <= 'F' {
        Some(c as u64 - 'A' as u64 + 10)
    } else {
        None
    }
}

/// Reads `s` as a number in base `base` that is no larger than `max`.
pub fn read_number(s: &[char], base: u64, max: u64) -> (r: Option<u64>)
    requires
        base == 10 || base == 16,
        max <= 0xffff_ffff,
    ensures
        r is Some <==> number_up_to(s@, base as nat, max as nat) is Some,
        r matches Some(v) ==> number_up_to(s@, base as nat, max as nat) == Some(v as nat),
{
    let n: usize = s.len();
    if n == 0 {
        return None;
    }
    let mut i: usize = 0;
    // The number so far, or any number above `max` once it is above `max`.
    let mut value: u64 = 0;
    while i < n
        invariant
            i <= n == s@.len(),
            base == 10 || base == 16,
            max <= 0xffff_ffff,
            all_digits(s@.take(i as int), base as nat),
            value <= max + 1,
            value <= max ==> value == number_of(s@.take(i as int), base as nat),
            value > max ==> number_of(s@.take(i as int), base as nat) > max,
        decreases n - i,
    {
        assert(s@.take(i + 1).drop_last() == s@.take(i as int));
        assert(s@.take(i + 1).last() == s@[i as int]);
        match digit(s[i], base) {
            None => {
                assert(digit_of(s@[i as int], base as nat) is None);
                return None;
            },
            Some(d) => {
                let ghost prefix = s@.take(i as int);
                let ghost so_far = number_of(prefix, base as nat);
                assert(number_of(s@.take(i + 1), base as nat) == so_far * base + d);
                assert(all_digits(s@.take(i + 1), base as nat)) by {
                    assert forall|j: int| 0 <= j < i + 1 implies digit_of(
                        #[trigger] s@.take(i + 1)[j],
                        base as nat,
                    ) is Some by {
                        if j < i {
                            assert(prefix[j] == s@.take(i + 1)[j]);
                        }
                    }
                }
                assert(value <= 0x1_0000_0000);
                assert(so_far * base >= so_far) by (nonlinear_arith)
                    requires
                        base >= 1,
                ;
                assert(value * base <= 0x10_0000_0000) by (nonlinear_arith)
                    requires
                        value <= 0x1_0000_0000,
                        base <= 16,
                ;
                if value <= max {
                    let next: u64 = value * base + d;
                    value = if next > max { max + 1 } else { next };
                }
                i += 1;
            },
        }
    }
    assert(s@.take(n as int) == s@);
    if value > max {
        None
    } else {
        Some(value)
    }
}

/// The character for the digit `d`, below 16.
pub open spec fn digit_char(d: nat) -> char {
    if d < 10 {
        ('0' as int + d) as char
    } else {
        ('a' as int + (d - 10)) as char
    }
}

/// How `n` is written in base `base`, without zeros in front.
pub open spec fn number_text(n: nat, base: nat) -> Seq<char>
    decreases n,
{
    if base < 2 || n < base {
        seq![digit_char(n)]
    } else {
        proof {
            vstd::arithmetic::div_mod::lemma_div_decreases(n as int, base as int);
        }
        number_text(n / base, base).push(digit_char(n % base))
    }
}

fn digit_literal(d: u64) -> (r: &'static str)
    requires
        d < 16,
    ensures
        r@ == seq![digit_char(d as nat)],
{
    proof {
        reveal_strlit("0");
        reveal_strlit("1");
        reveal_strlit("2");
        reveal_strlit("3");
        reveal_strlit("4");
        reveal_strlit("5");
        reveal_strlit("6");
        reveal_strlit("7");
        reveal_strlit("8");
        reveal_strlit("9");
        reveal_strlit("a");
        reveal_strlit("b");
        reveal_strlit("c");
        reveal_strlit("d");
        reveal_strlit("e");
        reveal_strlit("f");
    }
    if d == 0 {
        "0"
    } else if d == 1 {
        "1"
    } else if d == 2 {
        "2"
    } else if d == 3 {
        "3"
    } else if d == 4 {
        "4"
    } else if d == 5 {
        "5"
    } else if d == 6 {
        "6"
    } else if d == 7 {
        "7"
    } else if d == 8 {
        "8"
    } else if d == 9 {
        "9"
    } else if d == 10 {
        "a"
    } else if d == 11 {
        "b"
    } else if d == 12 {
        "c"
    } else if d == 13 {
        "d"
    } else if d == 14 {
        "e"
    } else {
        "f"
    }
}

/// Appends `n`, written in base `base`, to `out`.
pub fn write_number(out: &mut String, n: u64, base: u64)
    requires
        base == 10 || base == 16,
    ensures
        final(out)@ == old(out)@ + number_text(n as nat, base as nat),
    decreases n,
{
    if n < base {
        out.append(digit_literal(n));
    } else {
        write_number(out, n / base, base);
        out.append(digit_literal(n % base));
        assert(out@ == old(out)@ + number_text(n as nat, base as nat));
    }
}

/// How `n` is written in base 10.
pub fn decimal(n: u64) -> (r: String)
    ensures
        r@ == number_text(n as nat, 10),
{
    let mut r = String::new();
    write_number(&mut r, n, 10);
    assert(r@ == number_text(n as nat, 10));
    r
}

/// Whether `a` and `b` are the same text.
pub fn same_text(a: &str, b: &str) -> (r: bool)
    ensures
        r == (a@ == b@),
{
    let x = chars_of(a);
    let y = chars_of(b);
    same_chars(x.as_slice(), y.as_slice())
}

fn same_chars(x: &[char], y: &[char]) -> (r: bool)
    ensures
        r == (x@ == y@),
{
    if x.len() != y.len() {
        return false;
    }
    let n: usize = x.len();
    let mut i: usize = 0;
    while i < n
        invariant
            i <= n == x@.len() == y@.len(),
            x@.take(i as int) == y@.take(i as int),
        decreases n - i,
    {
        if x[i] != y[i] {
            assert(x@[i as int] != y@[i as int]);
            return false;
        }
        assert(x@.take(i + 1) == x@.take(i as int).push(x@[i as int]));
        assert(y@.take(i + 1) == y@.take(i as int).push(y@[i as int]));
        i += 1;
    }
    assert(x@.take(n as int) == x@);
    assert(y@.take(n as int) == y@);
    true
}

/// Whether `a` holds the characters `b`.
pub fn same_as(a: &str, b: &[char]) -> (r: bool)
    ensures
        r == (a@ == b@),
{
    let x = chars_of(a);
    same_chars(x.as_slice(), b)
}

/// `c` with the letters A to Z turned to lower case.
pub open spec fn lower(c: char) -> char {
    if 'A' <= c <= 'Z' {
        (c as int + 32) as char
    } else {
        c
    }
}

/// `s` with the letters A to Z turned to lower case.
pub open spec fn lowercase(s: Seq<char>) -> Seq<char> {
    s.map_values(|c: char| lower(c))
}

/// The characters of `s` with the letters A to Z turned to lower case.
pub fn lowercase_chars(s: &str) -> (r: Vec<char>)
    ensures
        r@ == lowercase(s@),
{
    let chars = chars_of(s);
    let n: usize = chars.len();
    let mut r: Vec<char> = Vec::new();
    let mut i: usize = 0;
    while i < n
        invariant
            i <= n == chars@.len(),
            chars@ == s@,
            r@ == lowercase(s@).take(i as int),
        decreases n - i,
    {
        let c: char = chars[i];
        let l: char = if 'A' <= c && c <= 'Z' {
            (c as u8 + 32) as char
        } else {
            c
        };
        r.push(l);
        assert(lowercase(s@).take(i + 1) == lowercase(s@).take(i as int).push(lower(c)));
        i += 1;
    }
    assert(lowercase(s@).take(n as int) == lowercase(s@));
    r
}

/// Whether `part` stands in `s` at position `i`.
pub open spec fn part_at(s: Seq<char>, part: Seq<char>, i: int) -> bool {
    0 <= i <= s.len() - part.len() && s.subrange(i, i + part.len()) == part
}

/// Whether `part` stands somewhere in `s`.
pub open spec fn has_part(s: Seq<char>, part: Seq<char>) -> bool {
    exists|i: int| part_at(s, part, i)
}

/// Whether `part` stands somewhere in `s`.
pub fn contains(s: &[char], part: &str) -> (r: bool)
    ensures
        r == has_part(s@, part@),
{
    let p = chars_of(part);
    let n: usize = s.len();
    let m: usize = p.len();
    if m == 0 {
        assert(s@.subrange(0, 0) == part@);
        assert(part_at(s@, part@, 0));
        return true;
    }
    if m > n {
        return false;
    }
    let mut i: usize = 0;
    while i <= n - m
        invariant
            i <= n - m + 1,
            0 < m <= n,
            n == s@.len(),
            m == p@.len(),
            p@ == part@,
            forall|j: int| 0 <= j < i ==> !part_at(s@, part@, j),
        decreases n - i,
    {
        if same_chars(slice_subrange(s, i, i + m), p.as_slice()) {
            assert(part_at(s@, part@, i as int));
            return true;
        }
        i += 1;
    }
    assert forall|j: int| !part_at(s@, part@, j) by {
        if 0 <= j <= s@.len() - part@.len() {
            assert(j < i);
        }
    }
    false
}

/// The value of `s` as an unsigned 32-bit number, with or without a plus sign
/// in front.
pub open spec fn unsigned_of(s: Seq<char>) -> Option<nat> {
    let digits = if s.len() > 0 && s[0] == '+' {
        s.drop_first()
    } else {
        s
    };
    number_up_to(digits, 10, u32::MAX as nat)
}

/// Reads an unsigned 32-bit number, with or without a plus sign in front.
pub fn read_unsigned(s: &[char]) -> (r: Option<u32>)
    ensures
        r is Some <==> unsigned_of(s@) is Some,
        r matches Some(v) ==> unsigned_of(s@) == Some(v as nat),
{
    let n: usize = s.len();
    let from: usize = if n > 0 && s[0] == '+' {
        1
    } else {
        0
    };
    let digits = slice_subrange(s, from, n);
    assert(digits@ == if s@.len() > 0 && s@[0] == '+' {
        s@.drop_first()
    } else {
        s@
    });
    match read_number(digits, 10, 0xffff_ffff) {
        Some(v) => Some(v as u32),
        None => None,
    }
}

/// Whether `s` writes a signed 32-bit number, with or without a sign in front.
pub open spec fn is_signed_number(s: Seq<char>) -> bool {
    if s.len() > 0 && s[0] == '-' {
        number_up_to(s.drop_first(), 10, 0x8000_0000) is Some
    } else if s.len() > 0 && s[0] == '+' {
        number_up_to(s.drop_first(), 10, 0x7fff_ffff) is Some
    } else {
        number_up_to(s, 10, 0x7fff_ffff) is Some
    }
}

/// Whether `s` writes a signed 32-bit number.
pub fn signed_number(s: &[char]) -> (r: bool)
    ensures
        r == is_signed_number(s@),
{
    let n: usize = s.len();
    if n > 0 && s[0] == '-' {
        assert(s@.subrange(1, n as int) == s@.drop_first());
        read_number(slice_subrange(s, 1, n), 10, 0x8000_0000).is_some()
    } else if n > 0 && s[0] == '+' {
        assert(s@.subrange(1, n as int) == s@.drop_first());
        read_number(slice_subrange(s, 1, n), 10, 0x7fff_ffff).is_some()
    } else {
        read_number(s, 10, 0x7fff_ffff).is_some()
    }
}

/// The texts of `list` one after the other, with `sep` between them.
pub open spec fn joined(list: Seq<Seq<char>>, sep: Seq<char>) -> Seq<char>
    decreases list.len(),
{
    if list.len() == 0 {
        Seq::empty()
    } else if list.len() == 1 {
        list[0]
    } else {
        joined(list.drop_last(), sep) + sep + list.last()
    }
}

/// The view of a list of strings.
pub open spec fn strings(v: Seq<String>) -> Seq<Seq<char>> {
    v.map_values(|s: String| s@)
}

/// The strings of `list` one after the other, with `sep` between them.
pub fn join(list: &Vec<String>, sep: &str) -> (r: String)
    ensures
        r@ == joined(strings(list@), sep@),
{
    let mut r = String::new();
    let n: usize = list.len();
    let mut i: usize = 0;
    while i < n
        invariant
            i <= n == list@.len(),
            r@ == joined(strings(list@).take(i as int), sep@),
        decreases n - i,
    {
        let ghost seen = strings(list@).take(i + 1);
        assert(seen.drop_last() == strings(list@).take(i as int));
        assert(seen.last() == list@[i as int]@);
        if i > 0 {
            r.append(sep);
        }
        r.append(list[i].as_str());
        assert(r@ == joined(seen, sep@));
        i += 1;
    }
    assert(strings(list@).take(n as int) == strings(list@));
    r
}

/// Whether `a` and `b` are the same list of strings.
pub fn same_strings(a: &Vec<String>, b: &Vec<String>) -> (r: bool)
    ensures
        r == (strings(a@) == strings(b@)),
{
    if a.len() != b.len() {
        assert(strings(a@).len() != strings(b@).len());
        return false;
    }
    let n: usize = a.len();
    let mut i: usize = 0;
    while i < n
        invariant
            i <= n == a@.len() == b@.len(),
            forall|k: int| 0 <= k < i ==> strings(a@)[k] == strings(b@)[k],
        decreases n - i,
    {
        if a[i] != b[i] {
            assert(strings(a@)[i as int] != strings(b@)[i as int]);
            return false;
        }
        i += 1;
    }
    assert(strings(a@) == strings(b@));
    true
}

} // verus!
