//! What the reading and writing of text promises.

use vstd::prelude::*;

use crate::text;

verus! {

/// Whatever stands before and behind it, a text is found in another that it is a
/// part of.
pub proof fn law_parts_are_found(before: Seq<char>, part: Seq<char>, behind: Seq<char>)
    ensures
        text::has_part(before + part + behind, part),
{
    let s = before + part + behind;
    let i = before.len() as int;
    assert(s.subrange(i, i + part.len()) == part);
    assert(text::part_at(s, part, i));
}

/// What is found in a text is a part of it: this gives what stands before and behind.
pub proof fn lemma_part_splits(s: Seq<char>, part: Seq<char>) -> (r: (Seq<char>, Seq<char>))
    requires
        text::has_part(s, part),
    ensures
        s == r.0 + part + r.1,
{
    let i = choose|i: int| text::part_at(s, part, i);
    let before = s.take(i);
    let behind = s.skip(i + part.len());
    assert(s.subrange(i, i + part.len()) == part);
    assert forall|k: int| 0 <= k < s.len() implies s[k] == (before + part + behind)[k] by {
        if i <= k < i + part.len() {
            assert(s.subrange(i, i + part.len())[k - i] == s[k]);
        }
    }
    assert(s == before + part + behind);
    (before, behind)
}

/// Letters A to Z become small, and every other character stays as it is.
pub proof fn law_lower_case(s: Seq<char>, i: int)
    requires
        0 <= i < s.len(),
    ensures
        text::lowercase(s).len() == s.len(),
        65 <= s[i] as int <= 90 ==> text::lowercase(s)[i] as int == s[i] as int + 32,
        (s[i] as int) < 65 || (s[i] as int) > 90 ==> text::lowercase(s)[i] == s[i],
{
}

/// White space around a text is taken away, and nothing else.
pub proof fn law_white_space_is_trimmed(before: Seq<char>, s: Seq<char>, behind: Seq<char>)
    requires
        s.len() > 0,
        !text::is_space(s[0]),
        !text::is_space(s.last()),
        forall|i: int| 0 <= i < before.len() ==> text::is_space(#[trigger] before[i]),
        forall|i: int| 0 <= i < behind.len() ==> text::is_space(#[trigger] behind[i]),
    ensures
        text::trimmed(before + s + behind) == s,
{
    lemma_trim_start(before, s + behind);
    assert(before + s + behind == before + (s + behind));
    lemma_trim_end(s, behind);
}

/// White space around a text makes no difference to what trimming leaves of it.
pub proof fn law_trimming_forgets_white_space(
    before: Seq<char>,
    s: Seq<char>,
    behind: Seq<char>,
)
    requires
        forall|i: int| 0 <= i < before.len() ==> text::is_space(#[trigger] before[i]),
        forall|i: int| 0 <= i < behind.len() ==> text::is_space(#[trigger] behind[i]),
    ensures
        text::trimmed(before + s + behind) == text::trimmed(s),
    decreases s.len(),
{
    if s.len() == 0 {
        let all = before + s + behind;
        assert forall|i: int| 0 <= i < all.len() implies text::is_space(#[trigger] all[i]) by {
            if i < before.len() {
                assert(all[i] == before[i]);
            } else {
                assert(all[i] == behind[i - before.len()]);
            }
        }
        law_blank_text_is_empty(all);
        assert(text::trimmed(all) == text::trimmed(s));
    } else if text::is_space(s[0]) {
        let wider = before.push(s[0]);
        let rest = s.drop_first();
        assert(before + s + behind == wider + rest + behind);
        assert forall|i: int| 0 <= i < wider.len() implies text::is_space(#[trigger] wider[i]) by {
            if i < before.len() {
                assert(wider[i] == before[i]);
            }
        }
        law_trimming_forgets_white_space(wider, rest, behind);
        assert(text::trim_start(s) == text::trim_start(rest));
    } else if text::is_space(s.last()) {
        let wider = seq![s.last()] + behind;
        let rest = s.drop_last();
        assert(before + s + behind == before + rest + wider);
        assert forall|i: int| 0 <= i < wider.len() implies text::is_space(#[trigger] wider[i]) by {
            if i > 0 {
                assert(wider[i] == behind[i - 1]);
            }
        }
        law_trimming_forgets_white_space(before, rest, wider);
        assert(rest[0] == s[0]);
        assert(text::trim_start(s) == s);
        assert(text::trim_start(rest) == rest);
    } else {
        law_white_space_is_trimmed(before, s, behind);
        law_white_space_is_trimmed(Seq::empty(), s, Seq::empty());
        assert(Seq::<char>::empty() + s + Seq::<char>::empty() == s);
    }
}

proof fn lemma_trim_start(before: Seq<char>, s: Seq<char>)
    requires
        s.len() > 0,
        !text::is_space(s[0]),
        forall|i: int| 0 <= i < before.len() ==> text::is_space(#[trigger] before[i]),
    ensures
        text::trim_start(before + s) == s,
    decreases before.len(),
{
    if before.len() == 0 {
        assert(before + s == s);
    } else {
        let rest = before.drop_first();
        assert forall|i: int| 0 <= i < rest.len() implies text::is_space(#[trigger] rest[i]) by {
            assert(rest[i] == before[i + 1]);
        }
        lemma_trim_start(rest, s);
        assert((before + s)[0] == before[0]);
        assert((before + s).drop_first() == rest + s);
    }
}

proof fn lemma_trim_end(s: Seq<char>, behind: Seq<char>)
    requires
        s.len() > 0,
        !text::is_space(s.last()),
        forall|i: int| 0 <= i < behind.len() ==> text::is_space(#[trigger] behind[i]),
    ensures
        text::trim_end(s + behind) == s,
    decreases behind.len(),
{
    if behind.len() == 0 {
        assert(s + behind == s);
    } else {
        let rest = behind.drop_last();
        assert forall|i: int| 0 <= i < rest.len() implies text::is_space(#[trigger] rest[i]) by {
            assert(rest[i] == behind[i]);
        }
        lemma_trim_end(s, rest);
        assert((s + behind).last() == behind[behind.len() - 1]);
        assert((s + behind).drop_last() == s + rest);
    }
}

/// A text of white space alone has nothing left.
pub proof fn law_blank_text_is_empty(s: Seq<char>)
    requires
        forall|i: int| 0 <= i < s.len() ==> text::is_space(#[trigger] s[i]),
    ensures
        text::trimmed(s).len() == 0,
    decreases s.len(),
{
    if s.len() > 0 {
        let rest = s.drop_first();
        assert forall|i: int| 0 <= i < rest.len() implies text::is_space(#[trigger] rest[i]) by {
            assert(rest[i] == s[i + 1]);
        }
        assert(text::is_space(s[0]));
        law_blank_text_is_empty(rest);
        assert(text::trim_start(s) == text::trim_start(rest));
    }
}

/// What counts as white space, by its number in Unicode.
pub proof fn law_white_space(c: char)
    ensures
        text::is_space(c) <==> 9 <= c as int <= 13 || c as int == 32 || c as int == 133 || c as int
            == 160 || c as int == 5760 || 8192 <= c as int <= 8202 || c as int == 8232 || c as int
            == 8233 || c as int == 8239 || c as int == 8287 || c as int == 12288,
{
}

/// Joining texts puts one separator between each two of them, and none elsewhere.
pub proof fn law_joined_texts(list: Seq<Seq<char>>, last: Seq<char>, sep: Seq<char>)
    ensures
        text::joined(Seq::empty(), sep) == Seq::<char>::empty(),
        text::joined(seq![last], sep) == last,
        list.len() > 0 ==> text::joined(list.push(last), sep) == text::joined(list, sep) + sep
            + last,
{
    assert(list.push(last).drop_last() == list);
}

/// A number stands for its digits, the last one counting least: adding a digit at the
/// end multiplies it by ten or sixteen. A small hexadecimal letter counts as a large
/// one does, and in base ten letters are no digits.
pub proof fn law_digits_add_up(s: Seq<char>, c: char, base: nat)
    requires
        base == 10 || base == 16,
    ensures
        48 <= c as int <= 57 ==> text::number_of(s.push(c), base) == text::number_of(s, base) * base
            + (c as int - 48),
        base == 16 && 97 <= c as int <= 102 ==> text::number_of(s.push(c), base)
            == text::number_of(s, base) * base + (c as int - 87),
        base == 16 && 65 <= c as int <= 70 ==> text::number_of(s.push(c), base)
            == text::number_of(s, base) * base + (c as int - 55),
        text::digit_of(c, base) is Some <==> 48 <= c as int <= 57 || base == 16 && (97 <= c as int
            <= 102 || 65 <= c as int <= 70),
{
    assert(s.push(c).drop_last() == s);
}

/// The character for a digit: from '0' on, and from 'a' on where it is ten or more.
/// A number is written as its last digit behind the number of what is left without it.
pub proof fn law_numbers_are_written_in_digits(n: nat, base: nat)
    requires
        base == 10 || base == 16,
    ensures
        n < 10 ==> text::digit_char(n) as int == 48 + n,
        10 <= n < 16 ==> text::digit_char(n) as int == 87 + n,
        n < base ==> text::number_text(n, base) == seq![text::digit_char(n)],
        n >= base ==> text::number_text(n, base) == text::number_text(n / base, base).push(
            text::digit_char(n % base),
        ),
{
}

/// A text is an unsigned number exactly where it is digits, with a plus sign in front
/// or without, and does not go beyond 32 bits; its value is that of the digits.
pub proof fn law_unsigned_numbers(s: Seq<char>)
    requires
        s.len() == 0 || s[0] != '+',
    ensures
        text::unsigned_of(seq!['+'] + s) == text::unsigned_of(s),
        text::unsigned_of(s) is Some <==> s.len() > 0 && (forall|i: int|
            0 <= i < s.len() ==> 48 <= #[trigger] s[i] as int <= 57) && text::number_of(s, 10)
            <= 4_294_967_295,
        text::unsigned_of(s) matches Some(n) ==> n == text::number_of(s, 10),
{
    assert((seq!['+'] + s).drop_first() == s);
    if text::all_digits(s, 10) {
        assert forall|i: int| 0 <= i < s.len() implies 48 <= #[trigger] s[i] as int <= 57 by {
            assert(text::digit_of(s[i], 10) is Some);
        }
    }
}

/// A list of strings or of texts holds what each of them holds, in their order.
pub proof fn law_lists_of_texts(list: Seq<String>, texts: Seq<Vec<char>>, i: int)
    ensures
        text::strings(list).len() == list.len(),
        0 <= i < list.len() ==> text::strings(list)[i] == list[i]@,
        text::texts(texts).len() == texts.len(),
        0 <= i < texts.len() ==> text::texts(texts)[i] == texts[i]@,
{
}

/// A text is a signed number exactly where it is digits, with a sign in front or
/// without, and does not go beyond 32 bits.
pub proof fn law_signed_numbers(s: Seq<char>)
    ensures
        s.len() == 0 ==> !text::is_signed_number(s),
        s.len() > 0 && s[0] != '-' && s[0] != '+' ==> (text::is_signed_number(s) <==> (forall|i: int|
            0 <= i < s.len() ==> 48 <= #[trigger] s[i] as int <= 57) && text::number_of(s, 10)
            <= 2_147_483_647),
        s.len() > 0 && s[0] == '-' ==> (text::is_signed_number(s) <==> s.len() > 1 && (forall|
            i: int,
        |
            1 <= i < s.len() ==> 48 <= #[trigger] s[i] as int <= 57) && text::number_of(
            s.drop_first(),
            10,
        ) <= 2_147_483_648),
        s.len() > 0 && s[0] == '+' ==> (text::is_signed_number(s) <==> s.len() > 1 && (forall|
            i: int,
        |
            1 <= i < s.len() ==> 48 <= #[trigger] s[i] as int <= 57) && text::number_of(
            s.drop_first(),
            10,
        ) <= 2_147_483_647),
{
    if s.len() > 0 {
        let t = s.drop_first();
        if text::all_digits(t, 10) {
            assert forall|i: int| 1 <= i < s.len() implies 48 <= #[trigger] s[i] as int <= 57 by {
                assert(text::digit_of(t[i - 1], 10) is Some);
            }
        }
        if forall|i: int| 1 <= i < s.len() ==> 48 <= #[trigger] s[i] as int <= 57 {
            assert forall|i: int| 0 <= i < t.len() implies text::digit_of(#[trigger] t[i], 10)
                is Some by {
                assert(t[i] == s[i + 1]);
                assert(48 <= s[i + 1] as int <= 57);
            }
        }
    }
    if text::all_digits(s, 10) {
        assert forall|i: int| 0 <= i < s.len() implies 48 <= #[trigger] s[i] as int <= 57 by {
            assert(text::digit_of(s[i], 10) is Some);
        }
    }
}

} // verus!
