//! What holds of the text helpers, stated over the characters of the texts.

use vstd::prelude::*;
use vstd::string::*;
use vstd::utf8::*;

use crate::text;

verus! {

/// Splitting a text and joining its pieces puts the new separator in place of the old one and leaves
/// every other character where it stands.
pub proof fn law_joining_swaps_the_separator(s: Seq<char>, sep: char, d: char)
    ensures
        text::join_of(text::split_of(s, sep), seq![d]) == s.map_values(
            |c: char|
                if c == sep {
                    d
                } else {
                    c
                },
        ),
        text::split_of(s, sep).len() >= 1,
    decreases s.len(),
{
    let swap = |c: char|
        if c == sep {
            d
        } else {
            c
        };
    let by = seq![d];
    if s.len() > 0 {
        let head = s.drop_last();
        let rest = text::split_of(head, sep);
        law_joining_swaps_the_separator(head, sep, d);
        assert(s.map_values(swap) =~= head.map_values(swap).push(swap(s.last())));
        let parts = text::split_of(s, sep);
        if s.last() == sep {
            assert(parts.drop_last() =~= rest);
            assert(parts.last() =~= Seq::<char>::empty());
            assert(text::join_of(parts, by) =~= text::join_of(rest, by) + by + parts.last());
            assert(text::join_of(parts, by) =~= text::join_of(rest, by).push(d));
        } else {
            assert(parts.drop_last() =~= rest.drop_last());
            assert(parts.last() =~= rest.last().push(s.last()));
            if rest.len() == 1 {
                assert(text::join_of(parts, by) == parts[0]);
                assert(text::join_of(rest, by) == rest[0]);
            } else {
                assert(text::join_of(parts, by) =~= text::join_of(rest, by).push(s.last()));
            }
        }
    } else {
        assert(text::split_of(s, sep) =~= seq![Seq::<char>::empty()]);
        assert(text::join_of(text::split_of(s, sep), by) =~= s);
        assert(s.map_values(swap) =~= s);
    }
}

/// No piece of a split text holds the separator.
pub proof fn law_pieces_hold_no_separator(s: Seq<char>, sep: char, i: int)
    requires
        0 <= i < text::split_of(s, sep).len(),
    ensures
        !text::split_of(s, sep)[i].contains(sep),
    decreases s.len(),
{
    if s.len() > 0 {
        let rest = text::split_of(s.drop_last(), sep);
        law_joining_swaps_the_separator(s.drop_last(), sep, sep);
        let p = text::split_of(s, sep)[i];
        if i < rest.len() {
            law_pieces_hold_no_separator(s.drop_last(), sep, i);
        }
        if p.contains(sep) {
            let k = choose|k: int| 0 <= k < p.len() && p[k] == sep;
            if i < rest.len() && k < rest[i].len() {
                assert(rest[i][k] == sep);
                assert(rest[i].contains(sep));
            }
        }
    }
}

/// Words with underscores between them are put together with hyphens, or with slashes, instead:
/// character by character.
pub proof fn law_words_are_put_together(s: Seq<char>)
    ensures
        text::kebab_of(s) == s.map_values(
            |c: char|
                if c == '_' {
                    '-'
                } else {
                    c
                },
        ),
        text::path_of(s) == s.map_values(
            |c: char|
                if c == '_' {
                    '/'
                } else {
                    c
                },
        ),
{
    reveal_strlit("-");
    reveal_strlit("/");
    assert("-"@ =~= seq!['-']);
    assert("/"@ =~= seq!['/']);
    law_joining_swaps_the_separator(s, '_', '-');
    law_joining_swaps_the_separator(s, '_', '/');
}

/// A number is read back from its decimal form, with or without a sign, as far as it fits.
pub proof fn law_decimals_read_back(n: nat)
    ensures
        text::number_of(text::decimal_of(n)) == Some(n),
        n <= i64::MAX ==> text::i64_of(text::decimal_of(n)) == Some(n as i64),
        n <= i64::MAX ==> text::i64_of("+"@ + text::decimal_of(n)) == Some(n as i64),
        n <= 0x8000_0000_0000_0000 ==> text::i64_of("-"@ + text::decimal_of(n)) == Some(
            (-(n as int)) as i64,
        ),
        n > i64::MAX ==> text::i64_of(text::decimal_of(n)) is None,
        n <= u16::MAX ==> text::u16_of(text::decimal_of(n)) == Some(n as u16),
        n > u16::MAX ==> text::u16_of(text::decimal_of(n)) is None,
        text::u16_of("-"@ + text::decimal_of(n)) is None,
{
    let d = text::decimal_of(n);
    lemma_number(n);
    text::lemma_decimal_digits(n);
    reveal_strlit("-");
    reveal_strlit("+");
    assert('0' <= d[0] <= '9');
    assert(("-"@ + d).skip(1) =~= d);
    assert(("+"@ + d).skip(1) =~= d);
    assert(("-"@ + d)[0] == '-');
    assert(("+"@ + d)[0] == '+');
}

proof fn lemma_number(n: nat)
    ensures
        text::number_of(text::decimal_of(n)) == Some(n),
    decreases n,
{
    if n >= 10 {
        lemma_number(n / 10);
        text::lemma_decimal_digits(n / 10);
        assert(text::decimal_of(n).drop_last() =~= text::decimal_of(n / 10));
        assert(n == 10 * (n / 10) + n % 10);
    }
}

proof fn lemma_digits(s: Seq<char>)
    requires
        text::number_of(s) is Some,
    ensures
        s.len() > 0,
        forall|i: int| 0 <= i < s.len() ==> '0' <= #[trigger] s[i] <= '9',
    decreases s.len(),
{
    if s.len() > 1 {
        lemma_digits(s.drop_last());
        assert forall|i: int| 0 <= i < s.len() implies '0' <= #[trigger] s[i] <= '9' by {
            if i < s.len() - 1 {
                assert(s[i] == s.drop_last()[i]);
            }
        }
    }
}

/// What is read as a number is digits throughout, at least one, but for one sign in front.
pub proof fn law_numbers_are_digits(s: Seq<char>)
    requires
        text::i64_of(s) is Some || text::u16_of(s) is Some,
    ensures
        s.len() > 0,
        forall|i: int|
            0 <= i < s.len() ==> ('0' <= #[trigger] s[i] <= '9') || (i == 0 && s.len() > 1 && (s[i]
                == '-' || s[i] == '+')),
{
    if s.len() > 0 && (s[0] == '-' || s[0] == '+') {
        lemma_digits(s.skip(1));
        assert forall|i: int| 0 < i < s.len() implies '0' <= #[trigger] s[i] <= '9' by {
            assert(s[i] == s.skip(1)[i - 1]);
        }
    } else {
        lemma_digits(s);
    }
}

/// White space is what Unicode says it is; of ASCII the space and the characters from tab to carriage
/// return.
pub proof fn law_white_space_of_ascii(c: char)
    requires
        c <= '\u{7f}',
    ensures
        text::is_white(c) <==> (c == ' ' || c == '\t' || c == '\n' || c == '\u{b}' || c == '\u{c}'
            || c == '\r'),
{
}

proof fn lemma_trim_start(s: Seq<char>)
    ensures
        text::trim_start_of(s).len() <= s.len(),
        s.skip(s.len() - text::trim_start_of(s).len()) == text::trim_start_of(s),
        forall|i: int|
            0 <= i < s.len() - text::trim_start_of(s).len() ==> text::is_white(#[trigger] s[i]),
        text::trim_start_of(s).len() > 0 ==> !text::is_white(text::trim_start_of(s)[0]),
    decreases s.len(),
{
    if s.len() > 0 && text::is_white(s[0]) {
        let t = s.drop_first();
        lemma_trim_start(t);
        let r = text::trim_start_of(s);
        assert(s.skip(s.len() - r.len()) =~= t.skip(t.len() - r.len()));
        assert forall|i: int| 0 <= i < s.len() - r.len() implies text::is_white(#[trigger] s[i]) by {
            if i > 0 {
                assert(s[i] == t[i - 1]);
            }
        }
    } else {
        assert(s.skip(0) =~= s);
    }
}

proof fn lemma_trim_end(s: Seq<char>)
    ensures
        text::trim_end_of(s).len() <= s.len(),
        s.take(text::trim_end_of(s).len() as int) == text::trim_end_of(s),
        forall|i: int|
            text::trim_end_of(s).len() <= i < s.len() ==> text::is_white(#[trigger] s[i]),
        text::trim_end_of(s).len() > 0 ==> !text::is_white(text::trim_end_of(s).last()),
    decreases s.len(),
{
    if s.len() > 0 && text::is_white(s.last()) {
        let t = s.drop_last();
        lemma_trim_end(t);
        let r = text::trim_end_of(s);
        assert(s.take(r.len() as int) =~= t.take(r.len() as int));
        assert forall|i: int| r.len() <= i < s.len() implies text::is_white(#[trigger] s[i]) by {
            if i < s.len() - 1 {
                assert(s[i] == t[i]);
            }
        }
    } else {
        assert(s.take(s.len() as int) =~= s);
    }
}

/// Trimming takes white space off both ends, all of it and nothing else.
pub proof fn law_trimming_takes_white_space(s: Seq<char>)
    ensures
        exists|a: int|
            #![trigger s.skip(a)]
            0 <= a <= s.len() - text::trim_of(s).len() && s.skip(a).take(
                text::trim_of(s).len() as int,
            ) == text::trim_of(s) && (forall|i: int|
                0 <= i < s.len() && (i < a || i >= a + text::trim_of(s).len()) ==> text::is_white(
                    #[trigger] s[i],
                )),
        text::trim_of(s).len() > 0 ==> !text::is_white(text::trim_of(s)[0]) && !text::is_white(
            text::trim_of(s).last(),
        ),
        text::trim_of(text::trim_of(s)) == text::trim_of(s),
        exists|b: int|
            #![trigger s.take(b)]
            0 <= b <= s.len() && s.take(b) == text::trim_end_of(s) && (forall|i: int|
                b <= i < s.len() ==> text::is_white(#[trigger] s[i])) && (b > 0
                ==> !text::is_white(s[b - 1])),
{
    let t = text::trim_start_of(s);
    let r = text::trim_of(s);
    lemma_trim_start(s);
    lemma_trim_end(t);
    lemma_trim_end(s);
    let a = s.len() - t.len();
    assert(s.skip(a) == t);
    assert forall|i: int| 0 <= i < s.len() && (i < a || i >= a + r.len()) implies text::is_white(
        #[trigger] s[i],
    ) by {
        if i >= a + r.len() {
            assert(s[i] == t[i - a]);
        }
    }
    assert(s.skip(a).take(r.len() as int) == r);
    if r.len() > 0 {
        assert(r[0] == t[0]);
    }
    let e = text::trim_end_of(s);
    assert(s.take(e.len() as int) == e);
}

/// An ASCII text is put in lower case letter by letter: each of the 26 capitals becomes the letter 32
/// places further on, and nothing else changes.
pub proof fn law_capitals_become_small(s: Seq<char>, i: int)
    requires
        is_ascii_chars(s),
        0 <= i < s.len(),
    ensures
        text::lowered(s).len() == s.len(),
        ('A' <= s[i] && s[i] <= 'Z') ==> text::lowered(s)[i] as u32 == s[i] as u32 + 32,
        !('A' <= s[i] && s[i] <= 'Z') ==> text::lowered(s)[i] == s[i],
{
}

/// A text holds another where it is that one with something before and something behind it.
pub proof fn law_holding_is_having_inside(a: Seq<char>, needle: Seq<char>, b: Seq<char>)
    ensures
        text::holds(a + needle + b, needle),
        text::begins(needle + b, needle),
        text::first_from(a + needle + b, needle, 0) matches Some(i) && 0 <= i <= a.len(),
{
    let s = a + needle + b;
    assert(s.subrange(a.len() as int, (a.len() + needle.len()) as int) =~= needle);
    assert(text::occurs_at(s, needle, a.len() as int));
    assert((needle + b).take(needle.len() as int) =~= needle);
    text::lemma_first_from(s, needle, 0);
}

/// A text that is said to hold another has it somewhere, first where it is found; one that is said to
/// begin with another is that one with something behind it.
pub proof fn law_what_is_held_is_inside(s: Seq<char>, needle: Seq<char>)
    ensures
        text::holds(s, needle) ==> exists|i: int|
            #![trigger s.skip(i)]
            0 <= i && i + needle.len() <= s.len() && s.skip(i).take(needle.len() as int) == needle,
        text::begins(s, needle) ==> needle.len() <= s.len() && forall|i: int|
            0 <= i < needle.len() ==> s[i] == needle[i],
        text::first_from(s, needle, 0) matches Some(i) ==> s == s.take(i) + needle + s.skip(
            i + needle.len(),
        ) && !(exists|j: int|
            #![trigger s.skip(j)]
            0 <= j < i && s.skip(j).take(needle.len() as int) == needle),
        text::first_from(s, needle, 0) is None ==> !text::holds(s, needle),
{
    if text::holds(s, needle) {
        let i = choose|i: int| text::occurs_at(s, needle, i);
        assert(s.skip(i).take(needle.len() as int) =~= s.subrange(i, i + needle.len()));
    }
    if text::begins(s, needle) {
        assert forall|i: int| 0 <= i < needle.len() implies s[i] == needle[i] by {
            assert(s.take(needle.len() as int)[i] == s[i]);
        }
    }
    text::lemma_first_from(s, needle, 0);
    if let Some(i) = text::first_from(s, needle, 0) {
        assert(text::occurs_at(s, needle, i));
        assert(s =~= s.take(i) + s.subrange(i, i + needle.len()) + s.skip(i + needle.len()));
        assert forall|j: int| 0 <= j < i && #[trigger] s.skip(j).take(needle.len() as int)
            == needle implies false by {
            assert(s.skip(j).take(needle.len() as int) =~= s.subrange(j, j + needle.len()));
            assert(text::occurs_at(s, needle, j));
        }
    }
}

/// Padding fills up to the width with the character, behind the text or in front of it, and never
/// cuts.
pub proof fn law_padding_fills_up(s: Seq<char>, c: char, width: nat, i: int)
    requires
        0 <= i < width,
        s.len() <= width,
    ensures
        text::pad_back_of(s, c, width).len() == width,
        text::pad_front_of(s, c, width).len() == width,
        text::pad_back_of(s, c, width)[i] == (if i < s.len() {
            s[i]
        } else {
            c
        }),
        text::pad_front_of(s, c, width)[i] == (if i < width - s.len() {
            c
        } else {
            s[i - (width - s.len())]
        }),
{
}

/// A text that is as wide already is not padded.
pub proof fn law_wide_texts_stay(s: Seq<char>, c: char, width: nat)
    requires
        s.len() >= width,
    ensures
        text::pad_back_of(s, c, width) == s,
        text::pad_front_of(s, c, width) == s,
{
    assert(text::pad_back_of(s, c, width) =~= s);
    assert(text::pad_front_of(s, c, width) =~= s);
}

/// A number that is not negative is written in decimal with zeros in front, up to the width.
pub proof fn law_numbers_are_zero_padded(n: nat, width: nat)
    ensures
        ({
            let s = text::zero_padded_of(n as int, width);
            let d = text::decimal_of(n);
            &&& s.len() == (if d.len() < width {
                width
            } else {
                d.len()
            })
            &&& s.skip(s.len() - d.len()) == d
            &&& forall|i: int| 0 <= i < s.len() - d.len() ==> #[trigger] s[i] == '0'
            &&& text::number_of(s) == Some(n)
        }),
{
    let s = text::zero_padded_of(n as int, width);
    let d = text::decimal_of(n);
    lemma_number(n);
    text::lemma_decimal_digits(n);
    assert(s.skip(s.len() - d.len()) =~= d);
    let k = (s.len() - d.len()) as nat;
    assert(s =~= Seq::new(k, |i: int| '0') + d);
    lemma_leading_zeros(k, d);
}

proof fn lemma_leading_zeros(k: nat, d: Seq<char>)
    requires
        text::number_of(d) is Some,
    ensures
        text::number_of(Seq::new(k, |i: int| '0') + d) == text::number_of(d),
    decreases d.len(),
{
    let s = Seq::new(k, |i: int| '0') + d;
    lemma_digits(d);
    if d.len() == 1 {
        lemma_zeros(k);
        assert(s.drop_last() =~= Seq::new(k, |i: int| '0'));
        if k == 0 {
            assert(s =~= d);
        }
    } else {
        lemma_leading_zeros(k, d.drop_last());
        assert(s.drop_last() =~= Seq::new(k, |i: int| '0') + d.drop_last());
    }
}

proof fn lemma_zeros(k: nat)
    ensures
        k > 0 ==> text::number_of(Seq::new(k, |i: int| '0')) == Some(0nat),
    decreases k,
{
    if k > 1 {
        lemma_zeros((k - 1) as nat);
        assert(Seq::new(k, |i: int| '0').drop_last() =~= Seq::new((k - 1) as nat, |i: int| '0'));
    }
}

/// A text comes before another where it is the beginning of it, or where the first character in which
/// they differ is the smaller one.
pub proof fn law_texts_are_ordered_by_their_characters(p: Seq<char>, a: Seq<char>, b: Seq<char>)
    ensures
        text::less(p + a, p + b) == text::less(a, b),
        a.len() == 0 ==> (text::less(a, b) <==> b.len() > 0),
        b.len() == 0 ==> !text::less(a, b),
        a.len() > 0 && b.len() > 0 && a[0] != b[0] ==> (text::less(a, b) <==> a[0] < b[0]),
{
    lemma_less_shifted(p, a, b, 0);
    lemma_less_past(p, a, b, 0);
}

proof fn lemma_less_shifted(p: Seq<char>, a: Seq<char>, b: Seq<char>, i: int)
    requires
        0 <= i,
    ensures
        text::less_from(p + a, p + b, p.len() + i) == text::less_from(a, b, i),
    decreases b.len() - i,
{
    if i < b.len() {
        lemma_less_shifted(p, a, b, i + 1);
    }
}

proof fn lemma_less_past(p: Seq<char>, a: Seq<char>, b: Seq<char>, i: int)
    requires
        0 <= i <= p.len(),
    ensures
        text::less_from(p + a, p + b, i) == text::less_from(p + a, p + b, p.len() as int),
    decreases p.len() - i,
{
    if i < p.len() {
        lemma_less_past(p, a, b, i + 1);
        assert((p + a)[i] == (p + b)[i]);
    }
}

/// The bytes of a text stand for that text.
pub proof fn law_bytes_stand_for_their_text(t: Seq<char>)
    ensures
        text::utf8_of(encode_utf8(t)) == t,
{
    encode_utf8_valid_utf8(t);
    encode_utf8_decode_utf8(t);
}

} // verus!
