//! What holds of token counts and prices, in the numbers that the price list and the cache's
//! multipliers are made of.

use vstd::prelude::*;
use vstd::string::*;
use vstd::utf8::*;

use crate::patterns;
use crate::text;
use crate::text_laws;
use crate::usage;
use crate::usage::{Cost, Marginal, Usage};

verus! {

/// A model id in lower case is priced by the first of these names that it holds: fable and mythos at
/// 10 and 50 dollars per million tokens of input and output, opus at 5 and 25, haiku at 1 and 5,
/// sonnet at 3 and 15. One that holds none is priced as opus.
pub proof fn law_models_are_priced_by_their_names(m: Seq<char>)
    ensures
        ({
            let f = usage::family_of(m);
            let list = usage::prices_of(f);
            let dear = text::holds(m, "fable"@) || text::holds(m, "mythos"@);
            &&& dear ==> list == (10int, 50int)
            &&& text::holds(m, "fable"@) ==> f == "fable"@
            &&& text::holds(m, "mythos"@) && !text::holds(m, "fable"@) ==> f == "mythos"@
            &&& !dear && text::holds(m, "opus"@) ==> f == "opus"@ && list == (5int, 25int)
            &&& !dear && !text::holds(m, "opus"@) && text::holds(m, "haiku"@) ==> f == "haiku"@
                && list == (1int, 5int)
            &&& !dear && !text::holds(m, "opus"@) && !text::holds(m, "haiku"@) && text::holds(
                m,
                "sonnet"@,
            ) ==> f == "sonnet"@ && list == (3int, 15int)
            &&& !dear && !text::holds(m, "opus"@) && !text::holds(m, "haiku"@) && !text::holds(
                m,
                "sonnet"@,
            ) ==> f == "opus"@ && list == (5int, 25int)
        }),
{
    reveal_strlit("fable");
    reveal_strlit("mythos");
    reveal_strlit("opus");
    reveal_strlit("haiku");
    reveal_strlit("sonnet");
    assert("fable"@.len() == 5 && "haiku"@.len() == 5 && "opus"@.len() == 4 && "mythos"@.len() == 6
        && "sonnet"@.len() == 6);
    assert("fable"@[0] == 'f' && "haiku"@[0] == 'h');
    assert("mythos"@[0] == 'm' && "sonnet"@[0] == 's');
}

/// A request is billed by the token, in twentieths of its list price: 20 for fresh input and for
/// output, 2 for input that was read from the cache, 25 for what was written for five minutes and 40
/// for what was written for an hour. Where the report does not split what was written, all of it
/// counts as written for five minutes.
pub proof fn law_requests_are_billed_by_the_token(u: Usage, p: int, q: int)
    ensures
        u.ephem_5m != 0 || u.ephem_1h != 0 ==> usage::actual_cost(u, p, q) == 20 * u.input_tokens * p
            + 2 * u.cache_read * p + 25 * u.ephem_5m * p + 40 * u.ephem_1h * p + 20
            * u.output_tokens * q,
        u.ephem_5m == 0 && u.ephem_1h == 0 ==> usage::actual_cost(u, p, q) == 20 * u.input_tokens
            * p + 2 * u.cache_read * p + 25 * u.cache_create * p + 20 * u.output_tokens * q,
        usage::uncached_cost(u, p, q) == 20 * u.input_tokens * p + 20 * u.cache_read * p + 20
            * u.cache_create * p + 20 * u.output_tokens * q,
{
    let (i, r, c, f, h) = (
        u.input_tokens as int,
        u.cache_read as int,
        u.cache_create as int,
        u.ephem_5m as int,
        u.ephem_1h as int,
    );
    assert((20 * i + 2 * r + 25 * f + 40 * h) * p == 20 * i * p + 2 * r * p + 25 * f * p + 40 * h
        * p) by (nonlinear_arith);
    assert((20 * i + 2 * r + 25 * c + 40 * 0) * p == 20 * i * p + 2 * r * p + 25 * c * p)
        by (nonlinear_arith);
    assert(20 * (i + r + c) * p == 20 * i * p + 20 * r * p + 20 * c * p) by (nonlinear_arith);
}

/// After five minutes or more what was read would have been written anew: each token that was read
/// saves 23 twentieths of its list price, each that was written for an hour costs 15 more. The window
/// counts as extended.
pub proof fn law_long_gaps_credit_the_reads(u: Usage, p: int, gap: i64)
    requires
        gap >= 300_000,
    ensures
        usage::marginal_of(u, p, Some(gap)).0 == 23 * u.cache_read * p - 15 * u.ephem_1h * p,
        usage::marginal_of(u, p, Some(gap)).1 == 15 * u.ephem_1h * p,
        usage::marginal_of(u, p, Some(gap)).2,
{
    let (r, h) = (u.cache_read as int, u.ephem_1h as int);
    assert((25 * r - 2 * r) * p == 23 * r * p) by (nonlinear_arith);
    assert((40 * h - 25 * h) * p == 15 * h * p) by (nonlinear_arith);
}

/// Before five minutes are over, or where the gap is not known, nothing is credited: each token that
/// was written for an hour costs 15 twentieths of its list price more. The window does not count as
/// extended.
pub proof fn law_other_gaps_credit_nothing(u: Usage, p: int, gap: Option<i64>)
    requires
        gap matches Some(g) ==> g < 300_000,
    ensures
        usage::marginal_of(u, p, gap).0 == -15 * u.ephem_1h * p,
        usage::marginal_of(u, p, gap).1 == 15 * u.ephem_1h * p,
        !usage::marginal_of(u, p, gap).2,
{
    let h = u.ephem_1h as int;
    assert((40 * h - 25 * h) * p == 15 * h * p) by (nonlinear_arith);
    assert(-15 * h * p == -(15 * h * p)) by (nonlinear_arith);
}

/// At the input price `p`, what an hour gained after the gap: from five minutes on the reads are credited
/// and the window counts as extended, and in any case the premium for the writes is paid.
pub open spec fn credited(u: Usage, p: int, gap: Option<i64>, r: Marginal) -> bool {
    &&& r.extended_window <==> (gap matches Some(g) && g >= 300_000)
    &&& r.write_premium == 15 * u.ephem_1h * p
    &&& r.extended_window ==> r.saved == 23 * u.cache_read * p - 15 * u.ephem_1h * p
    &&& !r.extended_window ==> r.saved == -15 * u.ephem_1h * p
}

pub proof fn lemma_credited(u: Usage, p: int, gap: Option<i64>)
    ensures
        gap matches Some(g) && g >= 300_000 ==> usage::marginal_of(u, p, gap) == (
            23 * u.cache_read * p - 15 * u.ephem_1h * p,
            15 * u.ephem_1h * p,
            true,
        ),
        !(gap matches Some(g) && g >= 300_000) ==> usage::marginal_of(u, p, gap) == (
            -15 * u.ephem_1h * p,
            15 * u.ephem_1h * p,
            false,
        ),
{
    if gap matches Some(g) && g >= 300_000 {
        law_long_gaps_credit_the_reads(u, p, gap->0);
    } else {
        law_other_gaps_credit_nothing(u, p, gap);
    }
}

/// The share that was saved is that part of a hundred, and nothing where there was nothing to pay.
pub proof fn law_shares_are_of_a_hundred(part: int, whole: int)
    ensures
        whole > 0 ==> usage::percent_of(part, whole).0 * whole == 100 * part
            * usage::percent_of(part, whole).1,
        usage::percent_of(part, whole).1 > 0,
        whole <= 0 ==> usage::percent_of(part, whole).0 == 0,
{
    if whole > 0 {
        assert(usage::percent_of(part, whole) == (100 * part, whole));
    }
}

/// The number that stands in the group `i` of a match; 0 where there is none.
pub open spec fn reported(g: Seq<Option<Seq<char>>>, i: int) -> int {
    if 0 <= i < g.len() && g[i] is Some && text::i64_of(g[i]->0) is Some {
        text::i64_of(g[i]->0)->0 as int
    } else {
        0
    }
}

/// The counts of a request are those that its report gives, each whatever the others are: input,
/// created and read in this order at its start, and where there is a split first the tokens for five
/// minutes and then those for an hour. A count that is no number is none. Of the output counts the
/// largest counts.
pub proof fn law_counts_are_those_reported(t: Seq<char>)
    requires
        usage::usage_in(t) is Some,
    ensures
        ({
            let u = usage::usage_in(t)->0;
            let outputs = patterns::counts_each(patterns::USAGE_OUTPUT@, t);
            &&& patterns::counts_found(patterns::USAGE_START@, t) matches Some(g) && u.input_tokens
                == reported(g, 1) && u.cache_create == reported(g, 2) && u.cache_read == reported(
                g,
                3,
            )
            &&& patterns::counts_found(patterns::USAGE_SPLIT@, t) matches Some(g) ==> u.ephem_5m
                == reported(g, 1) && u.ephem_1h == reported(g, 2)
            &&& patterns::counts_found(patterns::USAGE_SPLIT@, t) is None ==> u.ephem_5m == 0
                && u.ephem_1h == 0
            &&& forall|i: int|
                0 <= i < outputs.len() ==> u.output_tokens >= reported(#[trigger] outputs[i], 1)
            &&& u.output_tokens == 0 || exists|i: int|
                0 <= i < outputs.len() && u.output_tokens == reported(#[trigger] outputs[i], 1)
        }),
{
    lemma_largest(patterns::counts_each(patterns::USAGE_OUTPUT@, t));
}

/// Of a response usage is read if and only if it holds the start of a report.
pub proof fn law_usage_is_read_where_it_is_reported(t: Seq<char>)
    requires
        t.len() > 0,
    ensures
        usage::usage_in(t) is Some <==> patterns::counts_found(patterns::USAGE_START@, t) is Some,
{
}

proof fn lemma_largest(ms: Seq<Seq<Option<Seq<char>>>>)
    ensures
        forall|i: int| 0 <= i < ms.len() ==> usage::largest(ms) >= reported(#[trigger] ms[i], 1),
        usage::largest(ms) == 0 || exists|i: int|
            0 <= i < ms.len() && usage::largest(ms) == reported(#[trigger] ms[i], 1),
    decreases ms.len(),
{
    if ms.len() > 0 {
        let head = ms.drop_last();
        lemma_largest(head);
        assert forall|i: int| 0 <= i < ms.len() implies usage::largest(ms) >= reported(
            #[trigger] ms[i],
            1,
        ) by {
            if i < head.len() {
                assert(head[i] == ms[i]);
            }
        }
        if usage::largest(ms) == usage::largest(head) && usage::largest(ms) != 0 {
            let i = choose|i: int|
                0 <= i < head.len() && usage::largest(head) == reported(#[trigger] head[i], 1);
            assert(ms[i] == head[i]);
        } else if usage::largest(ms) != 0 {
            assert(usage::largest(ms) == reported(ms[ms.len() - 1], 1));
        }
    }
}

/// A report of usage as a response gives it: the tokens of input, those written to the cache and
/// those read from it, how many were written for five minutes and for an hour, and those of output.
pub open spec fn report(
    input: nat,
    created: nat,
    read: nat,
    five: nat,
    hour: nat,
    output: nat,
) -> Seq<char> {
    start_of(input, created, read) + ",\"cache_creation\":{"@ + split_of(five, hour) + "},"@
        + output_of(output) + "}"@
}

pub open spec fn start_of(input: nat, created: nat, read: nat) -> Seq<char> {
    "\"usage\":{\"input_tokens\":"@ + text::decimal_of(input)
        + ",\"cache_creation_input_tokens\":"@ + text::decimal_of(created)
        + ",\"cache_read_input_tokens\":"@ + text::decimal_of(read)
}

pub open spec fn split_of(five: nat, hour: nat) -> Seq<char> {
    "\"ephemeral_5m_input_tokens\":"@ + text::decimal_of(five)
        + ",\"ephemeral_1h_input_tokens\":"@ + text::decimal_of(hour)
}

pub open spec fn output_of(output: nat) -> Seq<char> {
    "\"output_tokens\":"@ + text::decimal_of(output)
}

/// The digits behind a position end where the next character is none.
proof fn lemma_behind_digits(t: Seq<char>, i: int, j: int)
    requires
        0 <= i <= j <= t.len(),
        forall|k: int| i <= k < j ==> '0' <= #[trigger] t[k] <= '9',
        j < t.len() ==> !('0' <= t[j] <= '9'),
    ensures
        patterns::behind_digits(t, i) == j,
    decreases j - i,
{
    if i < j {
        lemma_behind_digits(t, i + 1, j);
    }
}

/// `d` stands in `t` at `i`.
spec fn stands(t: Seq<char>, d: Seq<char>, i: int) -> bool {
    0 <= i && i + d.len() <= t.len() && t.subrange(i, i + d.len()) == d
}

/// A key and its count stand at `i`, and no digit follows.
proof fn lemma_one_count(t: Seq<char>, keys: Seq<Seq<char>>, i: int, n: nat)
    requires
        keys.len() > 0,
        stands(t, keys[0], i),
        stands(t, text::decimal_of(n), i + keys[0].len()),
        i + keys[0].len() + text::decimal_of(n).len() < t.len() ==> !('0' <= t[i + keys[0].len()
            + text::decimal_of(n).len()] <= '9'),
    ensures
        ({
            let e = i + keys[0].len() + text::decimal_of(n).len();
            patterns::counts_at(t, keys, i) == (match patterns::counts_at(
                t,
                keys.drop_first(),
                e as int,
            ) {
                Some((g, end)) => Some((seq![Some(text::decimal_of(n))] + g, end)),
                None => None,
            })
        }),
{
    let d = text::decimal_of(n);
    let from = i + keys[0].len();
    let e = from + d.len();
    text::lemma_decimal_digits(n);
    assert forall|k: int| from <= k < e implies '0' <= #[trigger] t[k] <= '9' by {
        assert(t.subrange(from as int, e as int)[k - from] == d[k - from]);
    }
    lemma_behind_digits(t, from as int, e as int);
    assert(t.subrange(from as int, e as int) == d);
}

/// No counts stand where the first key does not.
proof fn lemma_no_counts(t: Seq<char>, keys: Seq<Seq<char>>, i: int)
    requires
        keys.len() > 0,
        keys[0].len() >= 2,
        !(0 <= i && i + 1 < t.len() && t[i] == keys[0][0] && t[i + 1] == keys[0][1]),
    ensures
        patterns::counts_at(t, keys, i) is None,
{
    if text::occurs_at(t, keys[0], i) {
        assert(t.subrange(i, i + keys[0].len())[0] == t[i]);
        assert(t.subrange(i, i + keys[0].len())[1] == t[i + 1]);
    }
}

proof fn lemma_first_counts(
    t: Seq<char>,
    keys: Seq<Seq<char>>,
    i: int,
    j: int,
    g: Seq<Option<Seq<char>>>,
    e: int,
)
    requires
        0 <= i <= j < t.len(),
        forall|k: int| i <= k < j ==> patterns::counts_at(t, keys, k) is None,
        patterns::counts_at(t, keys, j) == Some((g, e)),
    ensures
        patterns::first_counts(t, keys, i) == Some(seq![Some(t.subrange(j, e))] + g),
    decreases j - i,
{
    if i < j {
        assert(patterns::counts_at(t, keys, i) is None);
        lemma_first_counts(t, keys, i + 1, j, g, e);
    }
}

proof fn lemma_each_counts(t: Seq<char>, keys: Seq<Seq<char>>, i: int, j: int)
    requires
        0 <= i <= j <= t.len(),
        forall|k: int| i <= k < j ==> patterns::counts_at(t, keys, k) is None,
    ensures
        patterns::each_counts(t, keys, i) == patterns::each_counts(t, keys, j),
    decreases j - i,
{
    if i < j {
        assert(patterns::counts_at(t, keys, i) is None);
        lemma_each_counts(t, keys, i + 1, j);
    }
}

/// The characters `c` and `d` do not stand side by side in `s`.
spec fn apart(s: Seq<char>, c: char, d: char) -> bool {
    forall|j: int| 0 <= j < s.len() - 1 ==> !(#[trigger] s[j] == c && s[j + 1] == d)
}

proof fn lemma_apart_add(a: Seq<char>, b: Seq<char>, c: char, d: char)
    requires
        apart(a, c, d),
        apart(b, c, d),
        a.len() > 0 ==> a.last() != c,
    ensures
        apart(a + b, c, d),
{
    let s = a + b;
    assert forall|j: int| 0 <= j < s.len() - 1 implies !(#[trigger] s[j] == c && s[j + 1] == d) by {
        if j < a.len() - 1 {
            assert(s[j] == a[j] && s[j + 1] == a[j + 1]);
        } else if j == a.len() - 1 {
            assert(s[j] == a.last());
        } else {
            assert(s[j] == b[j - a.len()] && s[j + 1] == b[j + 1 - a.len()]);
        }
    }
}
/// The pieces of a report, without the counts.
proof fn lemma_pieces(c: char, d: char)
    requires
        c == '"',
        d == 'e' || d == 'o',
    ensures
        apart("\"usage\":{\"input_tokens\":"@, c, d),
        apart(",\"cache_creation_input_tokens\":"@, c, d),
        apart(",\"cache_read_input_tokens\":"@, c, d),
        apart(",\"cache_creation\":{"@, c, d),
        apart(",\"ephemeral_1h_input_tokens\":"@, c, 'o'),
        apart("\"ephemeral_5m_input_tokens\":"@, c, 'o'),
        apart("},"@, c, d),
        apart("}"@, c, d),
        is_ascii_chars("\"usage\":{\"input_tokens\":"@),
        is_ascii_chars(",\"cache_creation_input_tokens\":"@),
        is_ascii_chars(",\"cache_read_input_tokens\":"@),
        is_ascii_chars(",\"cache_creation\":{"@),
        is_ascii_chars("\"ephemeral_5m_input_tokens\":"@),
        is_ascii_chars(",\"ephemeral_1h_input_tokens\":"@),
        is_ascii_chars("},"@),
        is_ascii_chars("\"output_tokens\":"@),
        is_ascii_chars("}"@),
{
    reveal_strlit("\"usage\":{\"input_tokens\":");
    reveal_strlit(",\"cache_creation_input_tokens\":");
    reveal_strlit(",\"cache_read_input_tokens\":");
    reveal_strlit(",\"cache_creation\":{");
    reveal_strlit("\"ephemeral_5m_input_tokens\":");
    reveal_strlit(",\"ephemeral_1h_input_tokens\":");
    reveal_strlit("},");
    reveal_strlit("\"output_tokens\":");
    reveal_strlit("}");
}

/// The keys that the three searches look for.
proof fn lemma_keys()
    ensures
        patterns::count_keys(patterns::USAGE_START@) == seq![
            "\"usage\":{\"input_tokens\":"@,
            ",\"cache_creation_input_tokens\":"@,
            ",\"cache_read_input_tokens\":"@,
        ],
        patterns::count_keys(patterns::USAGE_SPLIT@) == seq![
            "\"ephemeral_5m_input_tokens\":"@,
            ",\"ephemeral_1h_input_tokens\":"@,
        ],
        patterns::count_keys(patterns::USAGE_OUTPUT@) == seq!["\"output_tokens\":"@],
{
    reveal_strlit(
        "\"usage\":\\{\"input_tokens\":(\\d+),\"cache_creation_input_tokens\":(\\d+),\"cache_read_input_tokens\":(\\d+)",
    );
    reveal_strlit("\"ephemeral_5m_input_tokens\":(\\d+),\"ephemeral_1h_input_tokens\":(\\d+)");
    reveal_strlit("\"output_tokens\":(\\d+)");
    assert(patterns::USAGE_START@[1] == 'u');
    assert(patterns::USAGE_SPLIT@[1] == 'e');
    assert(patterns::USAGE_OUTPUT@[1] == 'o');
}

proof fn lemma_ascii_add(a: Seq<char>, b: Seq<char>)
    requires
        is_ascii_chars(a),
        is_ascii_chars(b),
    ensures
        is_ascii_chars(a + b),
{
    let s = a + b;
    assert forall|i: int| 0 <= i < s.len() implies '\0' <= #[trigger] s[i] <= '\u{7f}' by {
        if i < a.len() {
            assert(s[i] == a[i]);
        } else {
            assert(s[i] == b[i - a.len()]);
        }
    }
}

proof fn lemma_decimal_is_plain(n: nat, d: char)
    ensures
        is_ascii_chars(text::decimal_of(n)),
        apart(text::decimal_of(n), '"', d),
        text::decimal_of(n).len() > 0,
        text::decimal_of(n).last() != '"',
{
    text::lemma_decimal_digits(n);
    let s = text::decimal_of(n);
    assert forall|i: int| 0 <= i < s.len() implies '\0' <= #[trigger] s[i] <= '\u{7f}' by {
        assert('0' <= s[i] <= '9');
    }
    assert forall|j: int| 0 <= j < s.len() - 1 implies !(#[trigger] s[j] == '"' && s[j + 1]
        == d) by {
        assert('0' <= s[j] <= '9');
    }
    assert('0' <= s[s.len() - 1] <= '9');
}

/// A key, a count and a key, a count: the part stands in `t` at `i`.
proof fn lemma_stands_in(pre: Seq<char>, d: Seq<char>, post: Seq<char>)
    ensures
        stands(pre + d + post, d, pre.len() as int),
{
    assert((pre + d + post).subrange(pre.len() as int, (pre.len() + d.len()) as int) =~= d);
}

/// What stands in a part of the text stands in the text.
proof fn lemma_stands_within(t: Seq<char>, part: Seq<char>, i: int, d: Seq<char>, j: int)
    requires
        stands(t, part, i),
        stands(part, d, j),
    ensures
        stands(t, d, i + j),
{
    let w = t.subrange(i + j, i + j + d.len());
    assert forall|k: int| 0 <= k < d.len() implies #[trigger] w[k] == d[k] by {
        assert(t.subrange(i, i + part.len())[j + k] == part[j + k]);
        assert(part.subrange(j, j + d.len())[k] == d[k]);
    }
    assert(w =~= d);
}

proof fn lemma_ends(t: Seq<char>, part: Seq<char>, i: int, e: int)
    requires
        stands(t, part, i),
        i <= e < i + part.len(),
    ensures
        t[e] == part[e - i],
{
    assert(t.subrange(i, i + part.len())[e - i] == t[e]);
}

/// The start of a report is read wherever it stands, if no digit follows.
proof fn lemma_start_read(t: Seq<char>, i: int, a: nat, b: nat, c: nat)
    requires
        stands(t, start_of(a, b, c), i),
        i + start_of(a, b, c).len() < t.len(),
        !('0' <= t[i + start_of(a, b, c).len()] <= '9'),
    ensures
        patterns::counts_at(t, patterns::count_keys(patterns::USAGE_START@), i) == Some(
            (
                seq![
                    Some(text::decimal_of(a)),
                    Some(text::decimal_of(b)),
                    Some(text::decimal_of(c)),
                ],
                i + start_of(a, b, c).len(),
            ),
        ),
{
    lemma_keys();
    let (s0, s1, s2) = (
        "\"usage\":{\"input_tokens\":"@,
        ",\"cache_creation_input_tokens\":"@,
        ",\"cache_read_input_tokens\":"@,
    );
    reveal_strlit(",\"cache_creation_input_tokens\":");
    reveal_strlit(",\"cache_read_input_tokens\":");
    let (da, db, dc) = (text::decimal_of(a), text::decimal_of(b), text::decimal_of(c));
    let part = start_of(a, b, c);
    let none = Seq::<char>::empty();
    assert(part =~= none + s0 + (da + s1 + db + s2 + dc));
    lemma_stands_in(none, s0, da + s1 + db + s2 + dc);
    assert(part =~= s0 + da + (s1 + db + s2 + dc));
    lemma_stands_in(s0, da, s1 + db + s2 + dc);
    assert(part =~= (s0 + da) + s1 + (db + s2 + dc));
    lemma_stands_in(s0 + da, s1, db + s2 + dc);
    assert(part =~= (s0 + da + s1) + db + (s2 + dc));
    lemma_stands_in(s0 + da + s1, db, s2 + dc);
    assert(part =~= (s0 + da + s1 + db) + s2 + dc);
    lemma_stands_in(s0 + da + s1 + db, s2, dc);
    assert(part =~= (s0 + da + s1 + db + s2) + dc + none);
    lemma_stands_in(s0 + da + s1 + db + s2, dc, none);
    let p1 = (s0.len() + da.len()) as int;
    let p2 = p1 + s1.len() + db.len();
    lemma_stands_within(t, part, i, s0, 0);
    lemma_stands_within(t, part, i, da, s0.len() as int);
    lemma_stands_within(t, part, i, s1, p1);
    lemma_stands_within(t, part, i, db, p1 + s1.len());
    lemma_stands_within(t, part, i, s2, p2);
    lemma_stands_within(t, part, i, dc, p2 + s2.len());
    lemma_ends(t, s1, i + p1, i + p1);
    lemma_ends(t, s2, i + p2, i + p2);
    let keys = seq![s0, s1, s2];
    assert(keys.drop_first() =~= seq![s1, s2]);
    assert(seq![s1, s2].drop_first() =~= seq![s2]);
    assert(seq![s2].drop_first() =~= Seq::<Seq<char>>::empty());
    lemma_one_count(t, seq![s2], i + p2, c);
    lemma_one_count(t, seq![s1, s2], i + p1, b);
    lemma_one_count(t, keys, i, a);
    let end = i + part.len();
    assert(patterns::counts_at(t, Seq::<Seq<char>>::empty(), end) == Some(
        (Seq::<Option<Seq<char>>>::empty(), end),
    ));
    assert(seq![Some(da)] + (seq![Some(db)] + (seq![Some(dc)] + Seq::<Option<Seq<char>>>::empty()))
        =~= seq![Some(da), Some(db), Some(dc)]);
}

/// The split of a report is read wherever it stands, if no digit follows.
proof fn lemma_split_read(t: Seq<char>, i: int, x: nat, y: nat)
    requires
        stands(t, split_of(x, y), i),
        i + split_of(x, y).len() < t.len(),
        !('0' <= t[i + split_of(x, y).len()] <= '9'),
    ensures
        patterns::counts_at(t, patterns::count_keys(patterns::USAGE_SPLIT@), i) == Some(
            (
                seq![Some(text::decimal_of(x)), Some(text::decimal_of(y))],
                i + split_of(x, y).len(),
            ),
        ),
{
    lemma_keys();
    let (s0, s1) = ("\"ephemeral_5m_input_tokens\":"@, ",\"ephemeral_1h_input_tokens\":"@);
    reveal_strlit(",\"ephemeral_1h_input_tokens\":");
    let (dx, dy) = (text::decimal_of(x), text::decimal_of(y));
    let part = split_of(x, y);
    let none = Seq::<char>::empty();
    assert(part =~= none + s0 + (dx + s1 + dy));
    lemma_stands_in(none, s0, dx + s1 + dy);
    assert(part =~= s0 + dx + (s1 + dy));
    lemma_stands_in(s0, dx, s1 + dy);
    assert(part =~= (s0 + dx) + s1 + dy);
    lemma_stands_in(s0 + dx, s1, dy);
    assert(part =~= (s0 + dx + s1) + dy + none);
    lemma_stands_in(s0 + dx + s1, dy, none);
    let p1 = (s0.len() + dx.len()) as int;
    lemma_stands_within(t, part, i, s0, 0);
    lemma_stands_within(t, part, i, dx, s0.len() as int);
    lemma_stands_within(t, part, i, s1, p1);
    lemma_stands_within(t, part, i, dy, p1 + s1.len());
    lemma_ends(t, s1, i + p1, i + p1);
    let keys = seq![s0, s1];
    assert(keys.drop_first() =~= seq![s1]);
    assert(seq![s1].drop_first() =~= Seq::<Seq<char>>::empty());
    lemma_one_count(t, seq![s1], i + p1, y);
    lemma_one_count(t, keys, i, x);
    let end = i + part.len();
    assert(patterns::counts_at(t, Seq::<Seq<char>>::empty(), end) == Some(
        (Seq::<Option<Seq<char>>>::empty(), end),
    ));
    assert(seq![Some(dx)] + (seq![Some(dy)] + Seq::<Option<Seq<char>>>::empty()) =~= seq![
        Some(dx),
        Some(dy),
    ]);
}

/// The output count of a report is read wherever it stands, if no digit follows.
proof fn lemma_output_read(t: Seq<char>, i: int, z: nat)
    requires
        stands(t, output_of(z), i),
        i + output_of(z).len() < t.len(),
        !('0' <= t[i + output_of(z).len()] <= '9'),
    ensures
        patterns::counts_at(t, patterns::count_keys(patterns::USAGE_OUTPUT@), i) == Some(
            (seq![Some(text::decimal_of(z))], i + output_of(z).len()),
        ),
{
    lemma_keys();
    let s0 = "\"output_tokens\":"@;
    let dz = text::decimal_of(z);
    let part = output_of(z);
    let none = Seq::<char>::empty();
    assert(part =~= none + s0 + dz);
    lemma_stands_in(none, s0, dz);
    assert(part =~= s0 + dz + none);
    lemma_stands_in(s0, dz, none);
    lemma_stands_within(t, part, i, s0, 0);
    lemma_stands_within(t, part, i, dz, s0.len() as int);
    assert(seq![s0].drop_first() =~= Seq::<Seq<char>>::empty());
    lemma_one_count(t, seq![s0], i, z);
    let end = i + part.len();
    assert(patterns::counts_at(t, Seq::<Seq<char>>::empty(), end) == Some(
        (Seq::<Option<Seq<char>>>::empty(), end),
    ));
    assert(seq![Some(dz)] + Seq::<Option<Seq<char>>>::empty() =~= seq![Some(dz)]);
}

/// What a report looks like: its parts, where they stand and what follows them.
#[verifier::opaque]
spec fn made_of(t: Seq<char>, start: Seq<char>, split: Seq<char>, out: Seq<char>) -> bool {
    let p = (start.len() + 19) as int;
    let o = p + split.len() + 2;
    &&& t.len() == o + out.len() + 1
    &&& stands(t, start, 0)
    &&& stands(t, split, p)
    &&& stands(t, out, o)
    &&& t[start.len() as int] == ','
    &&& t[p - 1] == '{'
    &&& t[p + split.len()] == '}'
    &&& t[o - 1] == ','
    &&& t[t.len() - 1] == '}'
    &&& t.take(p) == start + ",\"cache_creation\":{"@
    &&& t.take(o) == start + ",\"cache_creation\":{"@ + split + "},"@
}

proof fn lemma_made_of(start: Seq<char>, split: Seq<char>, out: Seq<char>)
    ensures
        made_of(
            start + ",\"cache_creation\":{"@ + split + "},"@ + out + "}"@,
            start,
            split,
            out,
        ),
{
    reveal(made_of);
    let (mid, close, last) = (",\"cache_creation\":{"@, "},"@, "}"@);
    let t = start + mid + split + close + out + last;
    let none = Seq::<char>::empty();
    reveal_strlit(",\"cache_creation\":{");
    reveal_strlit("},");
    reveal_strlit("}");
    assert(t =~= none + start + (mid + split + close + out + last));
    lemma_stands_in(none, start, mid + split + close + out + last);
    assert(t =~= start + mid + (split + close + out + last));
    lemma_stands_in(start, mid, split + close + out + last);
    assert(t =~= (start + mid) + split + (close + out + last));
    lemma_stands_in(start + mid, split, close + out + last);
    assert(t =~= (start + mid + split) + close + (out + last));
    lemma_stands_in(start + mid + split, close, out + last);
    assert(t =~= (start + mid + split + close) + out + last);
    lemma_stands_in(start + mid + split + close, out, last);
    let p = (start.len() + mid.len()) as int;
    let c = p + split.len();
    lemma_ends(t, mid, start.len() as int, start.len() as int);
    lemma_ends(t, mid, start.len() as int, p - 1);
    lemma_ends(t, close, c, c);
    lemma_ends(t, close, c, c + 1);
    assert(t.take(p) =~= start + mid);
    assert(t.take(c + 2) =~= start + mid + split + close);
}

proof fn lemma_report_is_plain(a: nat, b: nat, c: nat, x: nat, y: nat, z: nat)
    ensures
        patterns::plain_counts(report(a, b, c, x, y, z)),
{
    let (start, mid, split, close, out, last) = (
        start_of(a, b, c),
        ",\"cache_creation\":{"@,
        split_of(x, y),
        "},"@,
        output_of(z),
        "}"@,
    );
    let t = report(a, b, c, x, y, z);
    lemma_pieces('"', 'e');
    lemma_start_plain(a, b, c);
    lemma_rest_plain(x, y, z);
    lemma_ascii_add(start, mid);
    lemma_ascii_add(start + mid, split);
    lemma_ascii_add(start + mid + split, close);
    lemma_ascii_add(start + mid + split + close, out);
    lemma_ascii_add(start + mid + split + close + out, last);
    assert forall|i: int| 0 < i <= t.len() && (#[trigger] t[i - 1]) == ':' implies
        patterns::behind_digits(t, i) >= t.len() || t[patterns::behind_digits(t, i)]
        <= '\u{7f}' by {
        lemma_behind_is_behind(t, i);
    }
}

proof fn lemma_report_split(t: Seq<char>, start: Seq<char>, x: nat, y: nat, out: Seq<char>)
    requires
        made_of(t, start, split_of(x, y), out),
        apart(start, '"', 'e'),
        start.len() > 0,
        start.last() != '"',
    ensures
        patterns::first_counts(t, patterns::count_keys(patterns::USAGE_SPLIT@), 0) matches Some(g)
            && g.len() == 3 && g[1] == Some(text::decimal_of(x)) && g[2] == Some(
            text::decimal_of(y),
        ),
{
    reveal(made_of);
    let keys = patterns::count_keys(patterns::USAGE_SPLIT@);
    let mid = ",\"cache_creation\":{"@;
    let split = split_of(x, y);
    let p = (start.len() + 19) as int;
    lemma_keys();
    lemma_pieces('"', 'e');
    reveal_strlit("\"ephemeral_5m_input_tokens\":");
    lemma_apart_add(start, mid, '"', 'e');
    let head = t.take(p);
    assert forall|k: int| 0 <= k < p implies patterns::counts_at(t, keys, k) is None by {
        assert(t[k] == head[k]);
        if k < p - 1 {
            assert(t[k + 1] == head[k + 1]);
            assert(!(head[k] == '"' && head[k + 1] == 'e'));
        }
        lemma_no_counts(t, keys, k);
    }
    lemma_split_read(t, p, x, y);
    let g = seq![Some(text::decimal_of(x)), Some(text::decimal_of(y))];
    lemma_first_counts(t, keys, 0, p, g, p + split.len());
}

proof fn lemma_report_output(
    t: Seq<char>,
    start: Seq<char>,
    split: Seq<char>,
    z: nat,
)
    requires
        made_of(t, start, split, output_of(z)),
        apart(start, '"', 'o'),
        start.len() > 0,
        start.last() != '"',
        apart(split, '"', 'o'),
        split.len() > 0,
        split.last() != '"',
    ensures
        ({
            let ms = patterns::each_counts(t, patterns::count_keys(patterns::USAGE_OUTPUT@), 0);
            ms.len() == 1 && ms[0].len() == 2 && ms[0][1] == Some(text::decimal_of(z))
        }),
{
    reveal(made_of);
    let keys = patterns::count_keys(patterns::USAGE_OUTPUT@);
    let (mid, close) = (",\"cache_creation\":{"@, "},"@);
    let out = output_of(z);
    let o = (start.len() + 19 + split.len() + 2) as int;
    let e = o + out.len();
    lemma_keys();
    lemma_pieces('"', 'o');
    reveal_strlit("\"output_tokens\":");
    reveal_strlit(",\"cache_creation\":{");
    lemma_apart_add(start, mid, '"', 'o');
    assert((start + mid).last() == '{');
    lemma_apart_add(start + mid, split, '"', 'o');
    assert((start + mid + split).last() == split.last());
    lemma_apart_add(start + mid + split, close, '"', 'o');
    let head = t.take(o);
    assert forall|k: int| 0 <= k < o implies patterns::counts_at(t, keys, k) is None by {
        assert(t[k] == head[k]);
        if k < o - 1 {
            assert(t[k + 1] == head[k + 1]);
            assert(!(head[k] == '"' && head[k + 1] == 'o'));
        }
        lemma_no_counts(t, keys, k);
    }
    lemma_output_read(t, o, z);
    lemma_each_counts(t, keys, 0, o);
    assert forall|k: int| e <= k < t.len() implies patterns::counts_at(t, keys, k) is None by {
        lemma_no_counts(t, keys, k);
    }
    lemma_each_counts(t, keys, e, t.len() as int);
    let g = seq![Some(text::decimal_of(z))];
    assert(patterns::each_counts(t, keys, t.len() as int) =~= Seq::empty());
    assert(patterns::each_counts(t, keys, o) =~= seq![seq![Some(t.subrange(o, e))] + g]);
}

proof fn lemma_report_start(
    t: Seq<char>,
    a: nat,
    b: nat,
    c: nat,
    split: Seq<char>,
    out: Seq<char>,
)
    requires
        made_of(t, start_of(a, b, c), split, out),
    ensures
        patterns::first_counts(t, patterns::count_keys(patterns::USAGE_START@), 0) matches Some(g)
            && g.len() == 4 && g[1] == Some(text::decimal_of(a)) && g[2] == Some(
            text::decimal_of(b),
        ) && g[3] == Some(text::decimal_of(c)),
{
    reveal(made_of);
    let start = start_of(a, b, c);
    lemma_start_read(t, 0, a, b, c);
    let g = seq![Some(text::decimal_of(a)), Some(text::decimal_of(b)), Some(text::decimal_of(c))];
    lemma_first_counts(
        t,
        patterns::count_keys(patterns::USAGE_START@),
        0,
        0,
        g,
        start.len() as int,
    );
}

/// The groups of a report hold the counts of a request.
proof fn lemma_counted(
    t: Seq<char>,
    g: Seq<Option<Seq<char>>>,
    h: Seq<Option<Seq<char>>>,
    ms: Seq<Seq<Option<Seq<char>>>>,
    n: Seq<nat>,
)
    requires
        t.len() > 0,
        n.len() == 6,
        forall|i: int| 0 <= i < 6 ==> #[trigger] n[i] <= i64::MAX,
        patterns::counts_found(patterns::USAGE_START@, t) == Some(g),
        patterns::counts_found(patterns::USAGE_SPLIT@, t) == Some(h),
        patterns::counts_each(patterns::USAGE_OUTPUT@, t) == ms,
        g.len() == 4,
        g[1] == Some(text::decimal_of(n[0])),
        g[2] == Some(text::decimal_of(n[1])),
        g[3] == Some(text::decimal_of(n[2])),
        h.len() == 3,
        h[1] == Some(text::decimal_of(n[3])),
        h[2] == Some(text::decimal_of(n[4])),
        ms.len() == 1,
        ms[0].len() == 2,
        ms[0][1] == Some(text::decimal_of(n[5])),
    ensures
        usage::usage_in(t) == Some(
            Usage {
                input_tokens: n[0] as i64,
                cache_create: n[1] as i64,
                cache_read: n[2] as i64,
                ephem_5m: n[3] as i64,
                ephem_1h: n[4] as i64,
                output_tokens: n[5] as i64,
            },
        ),
{
    law_counts_are_those_reported(t);
    text_laws::law_decimals_read_back(n[0]);
    text_laws::law_decimals_read_back(n[1]);
    text_laws::law_decimals_read_back(n[2]);
    text_laws::law_decimals_read_back(n[3]);
    text_laws::law_decimals_read_back(n[4]);
    text_laws::law_decimals_read_back(n[5]);
    assert(reported(ms[0], 1) == n[5]);
}

/// Whatever counts a response reports are the counts that are read, each in its place.
pub proof fn law_reports_read_back(
    input: nat,
    created: nat,
    read: nat,
    five: nat,
    hour: nat,
    output: nat,
)
    requires
        input <= i64::MAX,
        created <= i64::MAX,
        read <= i64::MAX,
        five <= i64::MAX,
        hour <= i64::MAX,
        output <= i64::MAX,
    ensures
        usage::usage_in(report(input, created, read, five, hour, output)) == Some(
            Usage {
                input_tokens: input as i64,
                cache_create: created as i64,
                cache_read: read as i64,
                ephem_5m: five as i64,
                ephem_1h: hour as i64,
                output_tokens: output as i64,
            },
        ),
{
    let t = report(input, created, read, five, hour, output);
    let (start, split, out) = (
        start_of(input, created, read),
        split_of(five, hour),
        output_of(output),
    );
    lemma_made_of(start, split, out);
    lemma_report_is_plain(input, created, read, five, hour, output);
    lemma_start_plain(input, created, read);
    lemma_rest_plain(five, hour, output);
    lemma_report_start(t, input, created, read, split, out);
    lemma_report_split(t, start, five, hour, out);
    lemma_report_output(t, start, split, output);
    lemma_counted(
        t,
        patterns::counts_found(patterns::USAGE_START@, t)->0,
        patterns::counts_found(patterns::USAGE_SPLIT@, t)->0,
        patterns::counts_each(patterns::USAGE_OUTPUT@, t),
        seq![input, created, read, five, hour, output],
    );
}

proof fn lemma_behind_is_behind(t: Seq<char>, i: int)
    requires
        0 <= i <= t.len(),
        is_ascii_chars(t),
    ensures
        i <= patterns::behind_digits(t, i) <= t.len(),
        patterns::behind_digits(t, i) < t.len() ==> t[patterns::behind_digits(t, i)] <= '\u{7f}',
    decreases t.len() - i,
{
    if i < t.len() && '0' <= t[i] <= '9' {
        lemma_behind_is_behind(t, i + 1);
    }
}

/// Two texts without the beginnings of other keys hold none together.
proof fn lemma_add_plain(a: Seq<char>, b: Seq<char>)
    requires
        is_ascii_chars(a),
        is_ascii_chars(b),
        apart(a, '"', 'o'),
        apart(b, '"', 'o'),
        apart(a, '"', 'e') && apart(b, '"', 'e'),
        a.len() > 0,
        b.len() > 0,
        a.last() != '"',
        b.last() != '"',
    ensures
        is_ascii_chars(a + b),
        apart(a + b, '"', 'o'),
        apart(a + b, '"', 'e'),
        (a + b).len() > 0,
        (a + b).last() != '"',
{
    lemma_ascii_add(a, b);
    lemma_apart_add(a, b, '"', 'o');
    lemma_apart_add(a, b, '"', 'e');
    assert((a + b).last() == b.last());
}

proof fn lemma_rest_plain(x: nat, y: nat, z: nat)
    ensures
        is_ascii_chars(split_of(x, y)),
        apart(split_of(x, y), '"', 'o'),
        split_of(x, y).last() != '"',
        is_ascii_chars(output_of(z)),
{
    let (s0, s1, s2) = (
        "\"ephemeral_5m_input_tokens\":"@,
        ",\"ephemeral_1h_input_tokens\":"@,
        "\"output_tokens\":"@,
    );
    reveal_strlit("\"ephemeral_5m_input_tokens\":");
    reveal_strlit(",\"ephemeral_1h_input_tokens\":");
    assert(s0.last() == ':' && s1.last() == ':');
    let (dx, dy, dz) = (text::decimal_of(x), text::decimal_of(y), text::decimal_of(z));
    lemma_pieces('"', 'o');
    lemma_decimal_is_plain(x, 'o');
    lemma_decimal_is_plain(y, 'o');
    lemma_decimal_is_plain(z, 'o');
    lemma_ascii_add(s0, dx);
    lemma_ascii_add(s0 + dx, s1);
    lemma_ascii_add(s0 + dx + s1, dy);
    lemma_ascii_add(s2, dz);
    lemma_apart_add(s0, dx, '"', 'o');
    assert((s0 + dx).last() == dx.last());
    lemma_apart_add(s0 + dx, s1, '"', 'o');
    assert((s0 + dx + s1).last() == ':');
    lemma_apart_add(s0 + dx + s1, dy, '"', 'o');
    assert(split_of(x, y).last() == dy.last());
}

proof fn lemma_start_plain(a: nat, b: nat, c: nat)
    ensures
        is_ascii_chars(start_of(a, b, c)),
        apart(start_of(a, b, c), '"', 'e'),
        apart(start_of(a, b, c), '"', 'o'),
        start_of(a, b, c).len() > 0,
        start_of(a, b, c).last() != '"',
{
    let (s0, s1, s2) = (
        "\"usage\":{\"input_tokens\":"@,
        ",\"cache_creation_input_tokens\":"@,
        ",\"cache_read_input_tokens\":"@,
    );
    reveal_strlit("\"usage\":{\"input_tokens\":");
    reveal_strlit(",\"cache_creation_input_tokens\":");
    reveal_strlit(",\"cache_read_input_tokens\":");
    assert(s0.last() == ':' && s1.last() == ':' && s2.last() == ':');
    let (da, db, dc) = (text::decimal_of(a), text::decimal_of(b), text::decimal_of(c));
    lemma_pieces('"', 'e');
    lemma_pieces('"', 'o');
    lemma_decimal_is_plain(a, 'e');
    lemma_decimal_is_plain(a, 'o');
    lemma_decimal_is_plain(b, 'e');
    lemma_decimal_is_plain(b, 'o');
    lemma_decimal_is_plain(c, 'e');
    lemma_decimal_is_plain(c, 'o');
    lemma_add_plain(s0, da);
    lemma_add_plain(s0 + da, s1);
    lemma_add_plain(s0 + da + s1, db);
    lemma_add_plain(s0 + da + s1 + db, s2);
    lemma_add_plain(s0 + da + s1 + db + s2, dc);
}

/// What was saved is the difference to what would have been paid, and its share is that part of a hundred
/// of it; where nothing would have been paid there is no share.
pub open spec fn costs_add_up(c: Cost) -> bool {
    &&& c.cost_actual + c.saved == c.cost_uncached
    &&& c.saved_pct.den > 0
    &&& c.cost_uncached > 0 ==> c.saved_pct.num * c.cost_uncached == 100 * c.saved * c.saved_pct.den
    &&& c.cost_uncached <= 0 ==> c.saved_pct.num == 0
}

} // verus!
