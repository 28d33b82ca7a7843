//! Text helpers over `str` and `String`, each stated over the characters the text holds.

use vstd::prelude::*;
use vstd::string::*;
use vstd::utf8::*;

verus! {

/// The characters with the Unicode `White_Space` property.
pub open spec fn is_white(c: char) -> bool {
    ||| '\u{9}' <= c <= '\u{d}'
    ||| c == ' '
    ||| c == '\u{85}'
    ||| c == '\u{a0}'
    ||| c == '\u{1680}'
    ||| '\u{2000}' <= c <= '\u{200a}'
    ||| c == '\u{2028}'
    ||| c == '\u{2029}'
    ||| c == '\u{202f}'
    ||| c == '\u{205f}'
    ||| c == '\u{3000}'
}

/// Whether `c` is white space.
pub fn whitespace(c: char) -> (r: bool)
    ensures
        r == is_white(c),
{
    ('\u{9}' <= c && c <= '\u{d}') || c == ' ' || c == '\u{85}' || c == '\u{a0}' || c == '\u{1680}'
        || ('\u{2000}' <= c && c <= '\u{200a}') || c == '\u{2028}' || c == '\u{2029}' || c
        == '\u{202f}' || c == '\u{205f}' || c == '\u{3000}'
}

/// The characters of `s`, in order.
pub fn chars_of(s: &str) -> (r: Vec<char>)
    ensures
        r@ == s@,
{
    let mut out: Vec<char> = Vec::new();
    for c in it: s.chars()
        invariant
            it.seq() == s@,
            out@ == s@.take(it.index() as int),
    {
        out.push(c);
        assert(out@ =~= s@.take(it.index() as int + 1));
    }
    assert(out@ =~= s@);
    out
}

/// Two texts with the same UTF-8 bytes are the same text.
proof fn lemma_bytes_decide(a: &str, b: &str)
    ensures
        (a.spec_bytes() == b.spec_bytes()) == (a@ == b@),
{
    encode_utf8_decode_utf8(a@);
    encode_utf8_decode_utf8(b@);
}

/// Whether the two texts are equal.
pub fn same(a: &str, b: &str) -> (r: bool)
    ensures
        r == (a@ == b@),
{
    let x: &[u8] = a.as_bytes();
    let y: &[u8] = b.as_bytes();
    proof {
        lemma_bytes_decide(a, b);
    }
    if x.len() != y.len() {
        return false;
    }
    let n: usize = x.len();
    let mut i: usize = 0;
    while i < n
        invariant
            n == x@.len(),
            n == y@.len(),
            i <= n,
            forall|j: int| 0 <= j < i ==> x@[j] == y@[j],
            x@ == a.spec_bytes(),
            y@ == b.spec_bytes(),
            (a.spec_bytes() == b.spec_bytes()) == (a@ == b@),
        decreases n - i,
    {
        if x[i] != y[i] {
            return false;
        }
        i += 1;
    }
    assert(x@ =~= y@);
    true
}

/// `needle` stands in `s` at position `i`.
pub open spec fn occurs_at(s: Seq<char>, needle: Seq<char>, i: int) -> bool {
    &&& 0 <= i
    &&& i + needle.len() <= s.len()
    &&& s.subrange(i, i + needle.len()) == needle
}

/// `needle` stands somewhere in `s`.
pub open spec fn holds(s: Seq<char>, needle: Seq<char>) -> bool {
    exists|i: int| occurs_at(s, needle, i)
}

/// `s` begins with `prefix`.
pub open spec fn begins(s: Seq<char>, prefix: Seq<char>) -> bool {
    prefix.len() <= s.len() && s.take(prefix.len() as int) == prefix
}

/// Whether `needle` stands in `s` at position `i`.
fn stands_at(s: &Vec<char>, needle: &Vec<char>, i: usize) -> (r: bool)
    requires
        i <= s@.len(),
    ensures
        r == occurs_at(s@, needle@, i as int),
{
    if needle.len() > s.len() - i {
        return false;
    }
    let len: usize = s.len();
    let n: usize = needle.len();
    let mut j: usize = 0;
    while j < n
        invariant
            n == needle@.len(),
            len == s@.len(),
            i + n <= len,
            j <= n,
            forall|k: int| 0 <= k < j ==> s@[i + k] == needle@[k],
        decreases n - j,
    {
        if s[i + j] != needle[j] {
            assert(s@.subrange(i as int, i + needle@.len())[j as int] != needle@[j as int]);
            return false;
        }
        j += 1;
    }
    assert(s@.subrange(i as int, i + needle@.len()) =~= needle@);
    true
}

/// The first position from `i` on at which `needle` stands in `s`.
pub open spec fn first_from(s: Seq<char>, needle: Seq<char>, i: int) -> Option<int>
    decreases s.len() + 1 - i,
{
    if i > s.len() {
        None
    } else if occurs_at(s, needle, i) {
        Some(i)
    } else {
        first_from(s, needle, i + 1)
    }
}

pub proof fn lemma_first_from(s: Seq<char>, needle: Seq<char>, i: int)
    requires
        0 <= i,
    ensures
        match first_from(s, needle, i) {
            Some(j) => i <= j && occurs_at(s, needle, j) && forall|m: int|
                i <= m < j ==> !#[trigger] occurs_at(s, needle, m),
            None => forall|m: int| i <= m ==> !#[trigger] occurs_at(s, needle, m),
        },
    decreases s.len() + 1 - i,
{
    if i <= s.len() && !occurs_at(s, needle, i) {
        lemma_first_from(s, needle, i + 1);
    }
}

/// The position of the first occurrence of `needle` in `s`, in characters.
pub fn find(s: &str, needle: &str) -> (r: Option<usize>)
    ensures
        match r {
            Some(i) => first_from(s@, needle@, 0) == Some(i as int) && i + needle@.len() <= s@.len(),
            None => first_from(s@, needle@, 0) is None,
        },
        r.is_some() == holds(s@, needle@),
{
    let cs: Vec<char> = chars_of(s);
    let ns: Vec<char> = chars_of(needle);
    let mut i: usize = 0;
    let n: usize = cs.len();
    proof {
        lemma_first_from(s@, needle@, 0);
    }
    loop
        invariant
            cs@ == s@,
            ns@ == needle@,
            n == cs@.len(),
            i <= n,
            first_from(s@, needle@, 0) == first_from(s@, needle@, i as int),
            first_from(s@, needle@, 0) is None ==> !holds(s@, needle@),
        decreases n - i,
    {
        if stands_at(&cs, &ns, i) {
            return Some(i);
        }
        if i == n {
            assert(first_from(s@, needle@, n + 1) is None);
            return None;
        }
        i += 1;
    }
}

/// Whether `needle` stands somewhere in `s`.
pub fn contains(s: &str, needle: &str) -> (r: bool)
    ensures
        r == holds(s@, needle@),
{
    find(s, needle).is_some()
}

/// Whether `s` begins with `prefix`.
pub fn starts_with(s: &str, prefix: &str) -> (r: bool)
    ensures
        r == begins(s@, prefix@),
{
    let cs: Vec<char> = chars_of(s);
    let ps: Vec<char> = chars_of(prefix);
    let r: bool = stands_at(&cs, &ps, 0);
    proof {
        if prefix@.len() <= s@.len() {
            assert(s@.subrange(0, 0int + prefix@.len()) =~= s@.take(prefix@.len() as int));
        }
    }
    r
}

/// `s` without its leading white space.
pub open spec fn trim_start_of(s: Seq<char>) -> Seq<char>
    decreases s.len(),
{
    if s.len() > 0 && is_white(s[0]) {
        trim_start_of(s.drop_first())
    } else {
        s
    }
}

/// `s` without its trailing white space.
pub open spec fn trim_end_of(s: Seq<char>) -> Seq<char>
    decreases s.len(),
{
    if s.len() > 0 && is_white(s.last()) {
        trim_end_of(s.drop_last())
    } else {
        s
    }
}

/// `s` without the white space around it.
pub open spec fn trim_of(s: Seq<char>) -> Seq<char> {
    trim_end_of(trim_start_of(s))
}

/// `s` without its trailing white space.
pub fn trim_end(s: &str) -> (r: String)
    ensures
        r@ == trim_end_of(s@),
{
    let cs: Vec<char> = chars_of(s);
    let mut n: usize = cs.len();
    assert(s@.take(n as int) =~= s@);
    while n > 0 && whitespace(cs[n - 1])
        invariant
            n <= cs@.len(),
            cs@ == s@,
            trim_end_of(s@) == trim_end_of(s@.take(n as int)),
        decreases n,
    {
        assert(s@.take(n as int).drop_last() =~= s@.take(n - 1));
        n -= 1;
    }
    let r: String = s.substring_char(0, n).to_owned();
    assert(s@.subrange(0, n as int) =~= s@.take(n as int));
    r
}

/// `s` without the white space around it.
pub fn trim(s: &str) -> (r: String)
    ensures
        r@ == trim_of(s@),
{
    let cs: Vec<char> = chars_of(s);
    let len: usize = cs.len();
    let mut i: usize = 0;
    assert(s@.skip(0) =~= s@);
    while i < len && whitespace(cs[i])
        invariant
            i <= len,
            len == cs@.len(),
            cs@ == s@,
            trim_start_of(s@) == trim_start_of(s@.skip(i as int)),
        decreases len - i,
    {
        assert(s@.skip(i as int).drop_first() =~= s@.skip(i + 1));
        i += 1;
    }
    let tail: &str = s.substring_char(i, len);
    assert(s@.subrange(i as int, len as int) =~= s@.skip(i as int));
    trim_end(tail)
}

/// The pieces of `s` between the occurrences of `sep`.
pub open spec fn split_of(s: Seq<char>, sep: char) -> Seq<Seq<char>>
    decreases s.len(),
{
    if s.len() == 0 {
        seq![Seq::empty()]
    } else {
        let rest = split_of(s.drop_last(), sep);
        if s.last() == sep {
            rest.push(Seq::empty())
        } else {
            rest.drop_last().push(rest.last().push(s.last()))
        }
    }
}

/// What the texts hold.
pub open spec fn texts(v: Seq<String>) -> Seq<Seq<char>> {
    v.map_values(|s: String| s@)
}

/// What an optional text holds.
pub open spec fn opt_text(t: Option<String>) -> Option<Seq<char>> {
    match t {
        Some(s) => Some(s@),
        None => None,
    }
}

/// What an optional text holds.
pub open spec fn opt_str(t: Option<&str>) -> Option<Seq<char>> {
    match t {
        Some(s) => Some(s@),
        None => None,
    }
}

/// The pieces of `s` between the occurrences of `sep`.
pub fn split(s: &str, sep: char) -> (r: Vec<String>)
    ensures
        texts(r@) == split_of(s@, sep),
        r@.len() > 0,
{
    let cs: Vec<char> = chars_of(s);
    let len: usize = cs.len();
    let mut out: Vec<String> = Vec::new();
    let mut from: usize = 0;
    let mut i: usize = 0;
    assert(s@.take(0) =~= Seq::empty());
    assert(texts(out@).push(s@.subrange(0, 0)) =~= split_of(s@.take(0), sep));
    while i < len
        invariant
            from <= i <= len,
            len == cs@.len(),
            cs@ == s@,
            texts(out@).push(s@.subrange(from as int, i as int)) == split_of(s@.take(i as int), sep),
        decreases len - i,
    {
        proof {
            assert(s@.take(i + 1).drop_last() =~= s@.take(i as int));
            assert(texts(out@).push(s@.subrange(from as int, i as int)).drop_last() =~= texts(
                out@,
            ));
            assert(s@.subrange(from as int, i as int).push(s@[i as int]) =~= s@.subrange(
                from as int,
                i + 1,
            ));
        }
        if cs[i] == sep {
            let piece: String = s.substring_char(from, i).to_owned();
            let ghost before = texts(out@);
            out.push(piece);
            assert(texts(out@) =~= before.push(s@.subrange(from as int, i as int)));
            from = i + 1;
            assert(s@.subrange(from as int, i + 1) =~= Seq::empty());
        }
        i += 1;
    }
    let piece: String = s.substring_char(from, len).to_owned();
    let ghost before = texts(out@);
    out.push(piece);
    assert(texts(out@) =~= before.push(s@.subrange(from as int, len as int)));
    assert(s@.take(len as int) =~= s@);
    out
}

/// The parts one after the other with `sep` between them.
pub open spec fn join_of(parts: Seq<Seq<char>>, sep: Seq<char>) -> Seq<char>
    decreases parts.len(),
{
    if parts.len() == 0 {
        Seq::empty()
    } else if parts.len() == 1 {
        parts[0]
    } else {
        join_of(parts.drop_last(), sep) + sep + parts.last()
    }
}

/// The parts one after the other with `sep` between them.
pub fn join(parts: &Vec<String>, sep: &str) -> (r: String)
    ensures
        r@ == join_of(texts(parts@), sep@),
{
    let n: usize = parts.len();
    let mut out: String = String::new();
    let mut i: usize = 0;
    while i < n
        invariant
            n == parts@.len(),
            i <= n,
            out@ == join_of(texts(parts@).take(i as int), sep@),
        decreases n - i,
    {
        if i > 0 {
            out.append(sep);
        }
        out.append(parts[i].as_str());
        proof {
            assert(texts(parts@).take(i + 1).drop_last() =~= texts(parts@).take(i as int));
            assert(texts(parts@).take(i + 1).last() == parts@[i as int]@);
            if i == 0 {
                assert(out@ =~= parts@[0]@);
            }
        }
        i += 1;
    }
    assert(texts(parts@).take(n as int) =~= texts(parts@));
    out
}

/// The name `s` with hyphens between its words, which are given with underscores between them.
pub open spec fn kebab_of(s: Seq<char>) -> Seq<char> {
    join_of(split_of(s, '_'), "-"@)
}

/// The name `s` with hyphens between its words, which are given with underscores between them.
pub fn kebab(s: &str) -> (r: String)
    ensures
        r@ == kebab_of(s@),
{
    let words: Vec<String> = split(s, '_');
    join(&words, "-")
}

/// The path whose parts are given with underscores between them.
pub open spec fn path_of(s: Seq<char>) -> Seq<char> {
    join_of(split_of(s, '_'), "/"@)
}

/// The path whose parts are given with underscores between them.
pub fn path(s: &str) -> (r: String)
    ensures
        r@ == path_of(s@),
{
    let parts: Vec<String> = split(s, '_');
    join(&parts, "/")
}

/// The text of two parts, one after the other.
pub fn glue(a: &str, b: &str) -> (r: String)
    ensures
        r@ == a@ + b@,
{
    let mut out: String = a.to_owned();
    out.append(b);
    out
}

/// What a list of texts holds, as a set.
pub open spec fn text_set(v: Seq<String>) -> Set<Seq<char>> {
    Set::new(|t: Seq<char>| exists|i: int| 0 <= i < v.len() && (#[trigger] v[i])@ == t)
}

/// Whether `t` is one of the texts.
pub fn one_of(v: &Vec<String>, t: &str) -> (r: bool)
    ensures
        r == text_set(v@).contains(t@),
{
    let n: usize = v.len();
    let mut i: usize = 0;
    while i < n
        invariant
            n == v@.len(),
            i <= n,
            forall|j: int| 0 <= j < i ==> (#[trigger] v@[j])@ != t@,
        decreases n - i,
    {
        if same(v[i].as_str(), t) {
            return true;
        }
        i += 1;
    }
    false
}

/// Filtering one item more keeps it where it satisfies the condition.
pub proof fn lemma_filter_step<A>(s: Seq<A>, i: int, p: spec_fn(A) -> bool)
    requires
        0 <= i < s.len(),
    ensures
        s.take(i + 1).filter(p) == (if p(s[i]) {
            s.take(i).filter(p).push(s[i])
        } else {
            s.take(i).filter(p)
        }),
{
    reveal(Seq::filter);
    assert(s.take(i + 1).drop_last() =~= s.take(i));
}

/// Filtering nothing gives nothing, and a condition that all satisfy keeps all.
pub proof fn lemma_filter_all<A>(s: Seq<A>, p: spec_fn(A) -> bool)
    ensures
        s.take(0).filter(p) == Seq::<A>::empty(),
        (forall|i: int| 0 <= i < s.len() ==> p(#[trigger] s[i])) ==> s.filter(p) == s,
    decreases s.len(),
{
    reveal(Seq::filter);
    assert(s.take(0) =~= Seq::empty());
    if s.len() > 0 {
        lemma_filter_all(s.drop_last(), p);
        if forall|i: int| 0 <= i < s.len() ==> p(#[trigger] s[i]) {
            assert forall|i: int| 0 <= i < s.drop_last().len() implies p(
                #[trigger] s.drop_last()[i],
            ) by {
                assert(s.drop_last()[i] == s[i]);
            }
            assert(p(s[s.len() - 1]));
            assert(s.filter(p) =~= s);
        }
    }
}

/// The decimal digit `d`.
pub open spec fn digit_char(d: nat) -> char {
    if d == 0 { '0' } else if d == 1 { '1' } else if d == 2 { '2' } else if d == 3 { '3' }
    else if d == 4 { '4' } else if d == 5 { '5' } else if d == 6 { '6' } else if d == 7 { '7' }
    else if d == 8 { '8' } else { '9' }
}

/// The decimal digits of `n`, without leading zeros.
pub open spec fn decimal_of(n: nat) -> Seq<char>
    decreases n,
{
    if n < 10 {
        seq![digit_char(n)]
    } else {
        decimal_of(n / 10).push(digit_char(n % 10))
    }
}

fn digit_text(d: u64) -> (r: &'static str)
    requires
        d < 10,
    ensures
        r@ == seq![digit_char(d as nat)],
{
    proof {
        reveal_strlit("0");
        reveal_strlit("1");
        reveal_strlit("2");
        reveal_strlit("3");
        reveal_strlit("4");
        reveal_strlit("5");
        reveal_strlit("6");
        reveal_strlit("7");
        reveal_strlit("8");
        reveal_strlit("9");
    }
    let r: &'static str = match d {
        0 => "0",
        1 => "1",
        2 => "2",
        3 => "3",
        4 => "4",
        5 => "5",
        6 => "6",
        7 => "7",
        8 => "8",
        _ => "9",
    };
    assert(r@ =~= seq![digit_char(d as nat)]);
    r
}

/// The decimal digits of `n`.
pub fn decimal(n: u64) -> (r: String)
    ensures
        r@ == decimal_of(n as nat),
    decreases n,
{
    if n < 10 {
        digit_text(n).to_owned()
    } else {
        let mut out: String = decimal(n / 10);
        let ghost head = out@;
        out.append(digit_text(n % 10));
        assert(out@ =~= head.push(digit_char((n % 10) as nat)));
        out
    }
}

/// `n` copies of `c`.
pub open spec fn repeat_of(c: char, n: nat) -> Seq<char> {
    Seq::new(n, |i: int| c)
}

/// `s` with `c` repeated in front of it until it has at least `width` characters.
pub open spec fn pad_front_of(s: Seq<char>, c: char, width: nat) -> Seq<char> {
    if s.len() < width {
        repeat_of(c, (width - s.len()) as nat) + s
    } else {
        s
    }
}

/// `s` with `c` repeated behind it until it has at least `width` characters.
pub open spec fn pad_back_of(s: Seq<char>, c: char, width: nat) -> Seq<char> {
    if s.len() < width {
        s + repeat_of(c, (width - s.len()) as nat)
    } else {
        s
    }
}

/// `n` copies of the one character that `unit` holds.
fn repeat(unit: &str, n: usize) -> (r: String)
    requires
        unit@.len() == 1,
    ensures
        r@ == repeat_of(unit@[0], n as nat),
{
    let mut out: String = String::new();
    let mut i: usize = 0;
    while i < n
        invariant
            i <= n,
            unit@.len() == 1,
            out@ =~= repeat_of(unit@[0], i as nat),
        decreases n - i,
    {
        out.append(unit);
        i += 1;
    }
    out
}

/// `s` with `unit` repeated in front of it until it has at least `width` characters.
pub fn pad_front(s: &str, unit: &str, width: usize) -> (r: String)
    requires
        unit@.len() == 1,
    ensures
        r@ == pad_front_of(s@, unit@[0], width as nat),
{
    let len: usize = s.unicode_len();
    if len < width {
        glue(repeat(unit, width - len).as_str(), s)
    } else {
        s.to_owned()
    }
}

/// `s` with `unit` repeated behind it until it has at least `width` characters.
pub fn pad_back(s: &str, unit: &str, width: usize) -> (r: String)
    requires
        unit@.len() == 1,
    ensures
        r@ == pad_back_of(s@, unit@[0], width as nat),
{
    let len: usize = s.unicode_len();
    if len < width {
        glue(s, repeat(unit, width - len).as_str())
    } else {
        s.to_owned()
    }
}

/// The decimal form of `n` with zeros between the sign and the digits until it has at least `width`
/// characters.
pub open spec fn zero_padded_of(n: int, width: nat) -> Seq<char> {
    if n < 0 {
        seq!['-'] + pad_front_of(
            decimal_of((-n) as nat),
            '0',
            if width > 0 {
                (width - 1) as nat
            } else {
                0
            },
        )
    } else {
        pad_front_of(decimal_of(n as nat), '0', width)
    }
}

/// The decimal form of `n` with zeros between the sign and the digits until it has at least `width`
/// characters.
pub fn zero_padded(n: i64, width: usize) -> (r: String)
    ensures
        r@ == zero_padded_of(n as int, width as nat),
{
    proof {
        reveal_strlit("-");
        reveal_strlit("0");
        assert("-"@ =~= seq!['-']);
    }
    if n < 0 {
        let m: u64 = (-(n as i128)) as u64;
        let rest: usize = if width > 0 {
            width - 1
        } else {
            0
        };
        glue("-", pad_front(decimal(m).as_str(), "0", rest).as_str())
    } else {
        pad_front(decimal(n as u64).as_str(), "0", width)
    }
}

/// The UTF-8 bytes of the text.
pub fn bytes_of(s: &str) -> (r: Vec<u8>)
    ensures
        r@ == encode_utf8(s@),
{
    s.as_bytes_vec()
}

/// The value of a decimal digit.
pub open spec fn digit_value(c: char) -> Option<nat> {
    if '0' <= c <= '9' {
        Some((c as int - '0' as int) as nat)
    } else {
        None
    }
}

/// The number that a run of decimal digits stands for.
pub open spec fn number_of(s: Seq<char>) -> Option<nat>
    decreases s.len(),
{
    if s.len() == 0 {
        None
    } else if s.len() == 1 {
        digit_value(s[0])
    } else {
        match (number_of(s.drop_last()), digit_value(s.last())) {
            (Some(v), Some(d)) => Some(10 * v + d),
            _ => None,
        }
    }
}

/// The integer that a text stands for: decimal digits with at most one sign before them.
pub open spec fn integer_of(s: Seq<char>) -> Option<int> {
    if s.len() > 0 && (s[0] == '-' || s[0] == '+') {
        match number_of(s.skip(1)) {
            Some(v) => Some(
                if s[0] == '-' {
                    -(v as int)
                } else {
                    v as int
                },
            ),
            None => None,
        }
    } else {
        match number_of(s) {
            Some(v) => Some(v as int),
            None => None,
        }
    }
}

/// The integer that a text stands for, where it fits in 64 bits with a sign.
pub open spec fn i64_of(s: Seq<char>) -> Option<i64> {
    match integer_of(s) {
        Some(v) => if i64::MIN <= v <= i64::MAX {
            Some(v as i64)
        } else {
            None
        },
        None => None,
    }
}

/// The integer that a text stands for, where it fits in 16 bits without a sign.
pub open spec fn u16_of(s: Seq<char>) -> Option<u16> {
    if s.len() > 0 && s[0] == '-' {
        None
    } else {
        match integer_of(s) {
            Some(v) => if 0 <= v <= u16::MAX {
                Some(v as u16)
            } else {
                None
            },
            None => None,
        }
    }
}

/// More digits make no smaller number.
proof fn lemma_number_grows(s: Seq<char>, i: int)
    requires
        1 <= i <= s.len(),
    ensures
        number_of(s) matches Some(w) ==> (number_of(s.take(i)) matches Some(v) && v <= w),
    decreases s.len() - i,
{
    if i < s.len() {
        lemma_number_grows(s, i + 1);
        assert(s.take(i + 1).drop_last() =~= s.take(i));
    } else {
        assert(s.take(i) =~= s);
    }
}

/// The number that the digits from position `from` on stand for, where it is at most 2^64.
fn number_from(cs: &Vec<char>, from: usize) -> (r: Option<i128>)
    requires
        from <= cs@.len(),
    ensures
        match r {
            Some(v) => number_of(cs@.skip(from as int)) == Some(v as nat) && 0 <= v
                <= 0x1_0000_0000_0000_0000,
            None => match number_of(cs@.skip(from as int)) {
                Some(w) => w > 0x1_0000_0000_0000_0000,
                None => true,
            },
        },
{
    let ghost s = cs@.skip(from as int);
    let n: usize = cs.len();
    if from == n {
        return None;
    }
    let mut acc: i128 = 0;
    let mut i: usize = from;
    while i < n
        invariant
            n == cs@.len(),
            from <= i <= n,
            from < n,
            s == cs@.skip(from as int),
            0 <= acc <= 0x1_0000_0000_0000_0000,
            i == from ==> acc == 0,
            i > from ==> number_of(s.take(i - from)) == Some(acc as nat),
        decreases n - i,
    {
        let c: char = cs[i];
        proof {
            lemma_number_grows(s, i - from + 1);
            assert(s.take(i - from + 1).drop_last() =~= s.take(i - from));
            assert(s.take(i - from + 1).last() == c);
            if i == from {
                assert(s.take(1)[0] == c);
            }
        }
        if c < '0' || c > '9' {
            return None;
        }
        let d: i128 = (c as u32 - '0' as u32) as i128;
        acc = acc * 10 + d;
        if acc > 0x1_0000_0000_0000_0000 {
            return None;
        }
        i += 1;
    }
    assert(s.take(n - from) =~= s);
    Some(acc)
}

/// The integer that a text stands for, where it is within 2^64 of zero.
fn integer_from(s: &str) -> (r: Option<i128>)
    ensures
        match r {
            Some(v) => integer_of(s@) == Some(v as int),
            None => match integer_of(s@) {
                Some(w) => w > 0x1_0000_0000_0000_0000 || w < -0x1_0000_0000_0000_0000,
                None => true,
            },
        },
{
    let cs: Vec<char> = chars_of(s);
    if cs.len() > 0 && (cs[0] == '-' || cs[0] == '+') {
        match number_from(&cs, 1) {
            Some(v) => if cs[0] == '-' {
                Some(-v)
            } else {
                Some(v)
            },
            None => None,
        }
    } else {
        assert(cs@.skip(0) =~= cs@);
        number_from(&cs, 0)
    }
}

/// The integer that a text stands for.
pub fn parse_i64(s: &str) -> (r: Option<i64>)
    ensures
        r == i64_of(s@),
{
    match integer_from(s) {
        Some(v) => if i64::MIN as i128 <= v && v <= i64::MAX as i128 {
            Some(v as i64)
        } else {
            None
        },
        None => None,
    }
}

/// The integer without a sign that a text stands for.
pub fn parse_u16(s: &str) -> (r: Option<u16>)
    ensures
        r == u16_of(s@),
{
    proof {
        reveal_strlit("-");
        assert("-"@ =~= seq!['-']);
        assert(s@.len() > 0 ==> (s@.take(1) == "-"@ <==> s@[0] == '-')) by {
            if s@.len() > 0 {
                assert(s@.take(1) =~= seq![s@[0]]);
                assert(s@.take(1)[0] == s@[0]);
            }
        }
    }
    if starts_with(s, "-") {
        return None;
    }
    match integer_from(s) {
        Some(v) => if 0 <= v && v <= u16::MAX as i128 {
            Some(v as u16)
        } else {
            None
        },
        None => None,
    }
}

/// The lower-case form of an ASCII character.
pub open spec fn ascii_lower(c: char) -> char {
    if 'A' <= c <= 'Z' {
        ((c as u32 + 32) as u32) as char
    } else {
        c
    }
}

/// The text with its ASCII letters in lower case.
pub open spec fn ascii_lower_of(s: Seq<char>) -> Seq<char> {
    s.map_values(|c: char| ascii_lower(c))
}

/// What `str::to_lowercase` makes of the text `s`.
pub uninterp spec fn lower_of(s: Seq<char>) -> Seq<char>;

/// The text in lower case: letter by letter, where it is ASCII.
pub open spec fn lowered(s: Seq<char>) -> Seq<char> {
    if is_ascii_chars(s) {
        ascii_lower_of(s)
    } else {
        lower_of(s)
    }
}

/// `str::to_lowercase`: the Unicode lower-case form of the text. Of an ASCII text it changes the
/// letters `A` to `Z` alone.
#[verifier::external_body]
pub(crate) fn to_lowercase(s: &str) -> (r: String)
    ensures
        r@ == lower_of(s@),
        is_ascii_chars(s@) ==> r@ == ascii_lower_of(s@),
{
    s.to_lowercase()
}

/// What `String::from_utf8_lossy` makes of the bytes `b`.
pub uninterp spec fn lossy_of(b: Seq<u8>) -> Seq<char>;

/// The text that bytes stand for: what they encode, where they are UTF-8.
pub open spec fn utf8_of(b: Seq<u8>) -> Seq<char> {
    if valid_utf8(b) {
        decode_utf8(b)
    } else {
        lossy_of(b)
    }
}

/// `String::from_utf8_lossy`: the text that the bytes encode, with replacement characters for what
/// is no UTF-8. Bytes that are UTF-8 throughout give the text that they encode.
#[verifier::external_body]
pub(crate) fn from_utf8_lossy(b: &[u8]) -> (r: String)
    ensures
        r@ == lossy_of(b@),
        valid_utf8(b@) ==> r@ == decode_utf8(b@),
{
    String::from_utf8_lossy(b).into_owned()
}

/// A text without the separator is one piece.
pub proof fn lemma_split_whole(s: Seq<char>, sep: char)
    requires
        !s.contains(sep),
    ensures
        split_of(s, sep) == seq![s],
    decreases s.len(),
{
    if s.len() > 0 {
        assert(s.last() != sep) by {
            assert(s[s.len() - 1] == s.last());
        }
        assert(!s.drop_last().contains(sep)) by {
            if s.drop_last().contains(sep) {
                let i = choose|i: int|
                    0 <= i < s.drop_last().len() && s.drop_last()[i] == sep;
                assert(s[i] == sep);
            }
        }
        lemma_split_whole(s.drop_last(), sep);
        assert(s.drop_last().push(s.last()) =~= s);
        assert(split_of(s, sep) =~= seq![s]);
    } else {
        assert(s =~= Seq::empty());
    }
}

/// What stands behind the last separator is the last piece.
pub proof fn lemma_split_tail(a: Seq<char>, b: Seq<char>, sep: char)
    requires
        !b.contains(sep),
    ensures
        split_of(a.push(sep) + b, sep) == split_of(a, sep).push(b),
    decreases b.len(),
{
    let s = a.push(sep) + b;
    if b.len() == 0 {
        assert(s =~= a.push(sep));
        assert(s.drop_last() =~= a);
        assert(b =~= Seq::empty());
    } else {
        assert(b.last() != sep) by {
            assert(b[b.len() - 1] == b.last());
        }
        assert(!b.drop_last().contains(sep)) by {
            if b.drop_last().contains(sep) {
                let i = choose|i: int|
                    0 <= i < b.drop_last().len() && b.drop_last()[i] == sep;
                assert(b[i] == sep);
            }
        }
        lemma_split_tail(a, b.drop_last(), sep);
        assert(s.drop_last() =~= a.push(sep) + b.drop_last());
        assert(s.last() == b.last());
        let rest = split_of(s.drop_last(), sep);
        assert(rest == split_of(a, sep).push(b.drop_last()));
        assert(rest.last().push(s.last()) =~= b);
        assert(split_of(s, sep) =~= split_of(a, sep).push(b));
    }
}

/// The bytes of two texts one after the other are those of the first and those of the second.
pub proof fn lemma_encode_add(a: Seq<char>, b: Seq<char>)
    ensures
        encode_utf8(a + b) == encode_utf8(a) + encode_utf8(b),
    decreases a.len(),
{
    if a.len() == 0 {
        assert(a + b =~= b);
        assert(encode_utf8(a) + encode_utf8(b) =~= encode_utf8(b));
    } else {
        assert((a + b).drop_first() =~= a.drop_first() + b);
        lemma_encode_add(a.drop_first(), b);
        assert(encode_utf8(a + b) =~= encode_utf8(a) + encode_utf8(b));
    }
}

proof fn lemma_scalar_bytes(c: u32)
    by (bit_vector)
    requires
        c != 10,
        c <= 0x10ffff,
    ensures
        c <= 0x7f ==> leading_byte_width_1(c) != 10,
        leading_byte_width_2(c) >= 0x80,
        leading_byte_width_3(c) >= 0x80,
        leading_byte_width_4(c) >= 0x80,
        last_continuation_byte(c) >= 0x80,
        second_last_continuation_byte(c) >= 0x80,
        third_last_continuation_byte(c) >= 0x80,
{
}

/// The bytes of a text without a line feed hold none.
pub proof fn lemma_encode_one_line(s: Seq<char>)
    requires
        !s.contains('\n'),
    ensures
        !encode_utf8(s).contains(10u8),
    decreases s.len(),
{
    if s.len() > 0 {
        let c = s[0] as u32;
        assert(s[0] != '\n');
        char_is_scalar(s[0]);
        char_u32_cast(s[0], c);
        assert(c != 10) by {
            assert(10u32 as char == '\n');
        }
        lemma_scalar_bytes(c);
        assert(!s.drop_first().contains('\n')) by {
            if s.drop_first().contains('\n') {
                let i = choose|i: int|
                    0 <= i < s.drop_first().len() && s.drop_first()[i] == '\n';
                assert(s[i + 1] == '\n');
            }
        }
        lemma_encode_one_line(s.drop_first());
        let head = encode_scalar(c);
        let rest = encode_utf8(s.drop_first());
        assert forall|i: int| 0 <= i < (head + rest).len() implies (head + rest)[i] != 10u8 by {
            if i < head.len() {
                assert(head[i] != 10u8);
            } else {
                assert((head + rest)[i] == rest[i - head.len()]);
                assert(rest.contains(rest[i - head.len()]));
            }
        }
    }
}

/// The decimal form of a number is made of digits.
pub proof fn lemma_decimal_digits(n: nat)
    ensures
        decimal_of(n).len() > 0,
        forall|i: int|
            0 <= i < decimal_of(n).len() ==> '0' <= #[trigger] decimal_of(n)[i] <= '9',
    decreases n,
{
    if n >= 10 {
        lemma_decimal_digits(n / 10);
    }
}

/// The text `a` comes before `b` in the order of their characters, from the position `i` on.
pub open spec fn less_from(a: Seq<char>, b: Seq<char>, i: int) -> bool
    decreases b.len() - i,
{
    if i < 0 || i >= b.len() {
        false
    } else if i >= a.len() {
        true
    } else if a[i] != b[i] {
        a[i] < b[i]
    } else {
        less_from(a, b, i + 1)
    }
}

/// The text `a` comes before `b` in the order of their characters.
pub open spec fn less(a: Seq<char>, b: Seq<char>) -> bool {
    less_from(a, b, 0)
}

/// Whether the text `a` comes before `b`.
pub fn text_less(a: &str, b: &str) -> (r: bool)
    ensures
        r == less(a@, b@),
{
    let x: Vec<char> = chars_of(a);
    let y: Vec<char> = chars_of(b);
    let n: usize = y.len();
    let mut i: usize = 0;
    while i < n
        invariant
            n == y@.len(),
            i <= n,
            x@ == a@,
            y@ == b@,
            less(a@, b@) == less_from(a@, b@, i as int),
        decreases n - i,
    {
        if i >= x.len() {
            return true;
        }
        if x[i] != y[i] {
            return x[i] < y[i];
        }
        i += 1;
    }
    false
}

pub proof fn lemma_less_transitive(a: Seq<char>, b: Seq<char>, c: Seq<char>, i: int)
    requires
        0 <= i,
        less_from(a, b, i),
        less_from(b, c, i),
    ensures
        less_from(a, c, i),
    decreases b.len() - i,
{
    if i < a.len() && i < b.len() && i < c.len() && a[i] == b[i] && b[i] == c[i] {
        lemma_less_transitive(a, b, c, i + 1);
    }
}

pub proof fn lemma_less_irreflexive(a: Seq<char>, i: int)
    requires
        0 <= i,
    ensures
        !less_from(a, a, i),
    decreases a.len() - i,
{
    if i < a.len() {
        lemma_less_irreflexive(a, i + 1);
    }
}

pub proof fn lemma_less_total(a: Seq<char>, b: Seq<char>, i: int)
    requires
        0 <= i,
        i <= a.len(),
        i <= b.len(),
        a.take(i) == b.take(i),
    ensures
        less_from(a, b, i) || less_from(b, a, i) || a == b,
    decreases b.len() - i,
{
    if i < a.len() && i < b.len() && a[i] == b[i] {
        assert(a.take(i + 1) =~= a.take(i).push(a[i]));
        assert(b.take(i + 1) =~= b.take(i).push(b[i]));
        lemma_less_total(a, b, i + 1);
    } else if i >= a.len() && i >= b.len() {
        assert(a.take(i) =~= a);
        assert(b.take(i) =~= b);
    }
}

/// Each of the texts comes before the next, so that none stands there twice.
pub open spec fn ascending(ts: Seq<Seq<char>>) -> bool {
    forall|i: int, j: int| 0 <= i < j < ts.len() ==> less(#[trigger] ts[i], #[trigger] ts[j])
}

/// Puts a text in its place among ascending ones, unless it is there already.
pub fn put_in_order(v: &mut Vec<String>, t: &str)
    requires
        ascending(texts(old(v)@)),
    ensures
        ascending(texts(final(v)@)),
        forall|x: Seq<char>| #[trigger]
            texts(final(v)@).contains(x) <==> texts(old(v)@).contains(x) || x == t@,
{
    let ghost ts = texts(v@);
    let n: usize = v.len();
    let mut i: usize = 0;
    while i < n && text_less(v[i].as_str(), t)
        invariant
            n == v@.len(),
            i <= n,
            ts == texts(v@),
            ascending(ts),
            forall|j: int| 0 <= j < i ==> less(#[trigger] ts[j], t@),
        decreases n - i,
    {
        assert(ts[i as int] == v@[i as int]@);
        i += 1;
    }
    if i < n && same(v[i].as_str(), t) {
        assert(ts[i as int] == t@);
        return;
    }
    proof {
        if i < n {
            assert(ts[i as int] == v@[i as int]@);
            assert(ts[i as int].take(0) =~= t@.take(0));
            lemma_less_total(ts[i as int], t@, 0);
        }
    }
    v.insert(i, t.to_owned());
    proof {
        let us = texts(v@);
        assert(us =~= ts.insert(i as int, t@));
        assert forall|a: int, b: int| 0 <= a < b < us.len() implies less(
            #[trigger] us[a],
            #[trigger] us[b],
        ) by {
            if b == i {
                assert(us[a] == ts[a]);
            } else if a == i {
                assert(us[b] == ts[b - 1]);
                if b - 1 > i {
                    lemma_less_transitive(t@, ts[i as int], ts[b - 1], 0);
                }
            } else if a < i && b > i {
                assert(us[a] == ts[a] && us[b] == ts[b - 1]);
            } else if a < i {
                assert(us[a] == ts[a] && us[b] == ts[b]);
            } else {
                assert(us[a] == ts[a - 1] && us[b] == ts[b - 1]);
            }
        }
        assert forall|x: Seq<char>| #[trigger]
            us.contains(x) <==> ts.contains(x) || x == t@ by {
            if ts.contains(x) {
                let k = choose|k: int| 0 <= k < ts.len() && ts[k] == x;
                assert(us[if k < i {
                    k
                } else {
                    k + 1
                }] == x);
            }
            if x == t@ {
                assert(us[i as int] == x);
            }
            if us.contains(x) {
                let k = choose|k: int| 0 <= k < us.len() && us[k] == x;
                if k < i {
                    assert(ts[k] == x);
                } else if k > i {
                    assert(ts[k - 1] == x);
                }
            }
        }
    }
}

/// The marks and words of JSON hold no line feed.
pub proof fn lemma_literals_are_one_line()
    ensures
        !"null"@.contains('\n'),
        !"true"@.contains('\n'),
        !"false"@.contains('\n'),
        !"["@.contains('\n'),
        !"]"@.contains('\n'),
        !"{"@.contains('\n'),
        !"}"@.contains('\n'),
        !","@.contains('\n'),
        !":"@.contains('\n'),
{
    reveal_strlit("null");
    reveal_strlit("true");
    reveal_strlit("false");
    reveal_strlit("[");
    reveal_strlit("]");
    reveal_strlit("{");
    reveal_strlit("}");
    reveal_strlit(",");
    reveal_strlit(":");
}

/// Three texts without a line feed hold none together.
pub proof fn lemma_framed_one_line(a: Seq<char>, b: Seq<char>, c: Seq<char>)
    requires
        !a.contains('\n'),
        !b.contains('\n'),
        !c.contains('\n'),
    ensures
        !(a + b + c).contains('\n'),
{
    let s = a + b + c;
    if s.contains('\n') {
        let i = choose|i: int| 0 <= i < s.len() && s[i] == '\n';
        if i < a.len() {
            assert(a[i] == '\n');
        } else if i < a.len() + b.len() {
            assert(b[i - a.len()] == '\n');
        } else {
            assert(c[i - a.len() - b.len()] == '\n');
        }
    }
}

/// Parts without a line feed hold none when they are joined without one.
pub proof fn lemma_join_one_line(parts: Seq<Seq<char>>, sep: Seq<char>)
    requires
        !sep.contains('\n'),
        forall|i: int| 0 <= i < parts.len() ==> !(#[trigger] parts[i]).contains('\n'),
    ensures
        !join_of(parts, sep).contains('\n'),
    decreases parts.len(),
{
    if parts.len() > 1 {
        assert(!parts[parts.len() - 1].contains('\n'));
        assert forall|i: int| 0 <= i < parts.drop_last().len() implies !(
        #[trigger] parts.drop_last()[i]).contains('\n') by {
            assert(parts.drop_last()[i] == parts[i]);
        }
        lemma_join_one_line(parts.drop_last(), sep);
        lemma_framed_one_line(join_of(parts.drop_last(), sep), sep, parts.last());
    }
}

/// The decimal form of a number is one line.
pub proof fn lemma_padded_is_one_line(n: int, width: nat)
    ensures
        !zero_padded_of(n, width).contains('\n'),
{
    let d = decimal_of(
        if n < 0 {
            (-n) as nat
        } else {
            n as nat
        },
    );
    lemma_decimal_digits(
        if n < 0 {
            (-n) as nat
        } else {
            n as nat
        },
    );
    let s = zero_padded_of(n, width);
    if s.contains('\n') {
        let i = choose|i: int| 0 <= i < s.len() && s[i] == '\n';
        let j = i - (s.len() - d.len());
        if 0 <= j {
            assert(s[i] == d[j]);
        }
    }
}

} // verus!
