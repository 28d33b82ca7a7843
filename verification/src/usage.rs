//! Reading the token counts that a response reports, and pricing them.
//!
//! Money is counted in twentieths of a micro-dollar. List prices are whole dollars per million
//! tokens and the cache multipliers are twentieths, so every amount is exact.

use vstd::prelude::*;

use crate::patterns;
use crate::text;
use crate::usage_laws;

verus! {

/// The amounts in one dollar.
pub const UNITS_PER_USD: i128 = 20_000_000;

/// The multiplier of the input price for fresh input, in twentieths.
pub const FRESH_INPUT: i128 = 20;

/// The multiplier of the input price for a cache hit, in twentieths: 0.1.
pub const CACHE_READ: i128 = 2;

/// The multiplier of the input price for a write that lives five minutes, in twentieths: 1.25.
pub const CACHE_WRITE_5M: i128 = 25;

/// The multiplier of the input price for a write that lives an hour, in twentieths: 2.0.
pub const CACHE_WRITE_1H: i128 = 40;

/// The lifetime of a breakpoint that asks for none, in milliseconds.
pub const FIVE_MIN_MS: i64 = 5 * 60 * 1000;

/// The list prices of a family in dollars per million tokens: base input, output.
pub open spec fn prices_of(family: Seq<char>) -> (int, int) {
    if family == "fable"@ {
        (10, 50)
    } else if family == "mythos"@ {
        (10, 50)
    } else if family == "opus"@ {
        (5, 25)
    } else if family == "sonnet"@ {
        (3, 15)
    } else if family == "haiku"@ {
        (1, 5)
    } else {
        (5, 25)
    }
}

/// The list prices of a family in dollars per million tokens: base input, output.
pub fn prices(family: &str) -> (r: (i128, i128))
    ensures
        (r.0 as int, r.1 as int) == prices_of(family@),
        1 <= r.0 <= 10,
        5 <= r.1 <= 50,
{
    if text::same(family, "fable") {
        (10, 50)
    } else if text::same(family, "mythos") {
        (10, 50)
    } else if text::same(family, "opus") {
        (5, 25)
    } else if text::same(family, "sonnet") {
        (3, 15)
    } else if text::same(family, "haiku") {
        (1, 5)
    } else {
        (5, 25)
    }
}

/// The price family that a model id in lower case belongs to; `opus` where it names none.
pub open spec fn family_of(m: Seq<char>) -> Seq<char> {
    if text::holds(m, "fable"@) {
        "fable"@
    } else if text::holds(m, "mythos"@) {
        "mythos"@
    } else if text::holds(m, "opus"@) {
        "opus"@
    } else if text::holds(m, "haiku"@) {
        "haiku"@
    } else if text::holds(m, "sonnet"@) {
        "sonnet"@
    } else {
        "opus"@
    }
}

/// The price family that a model id in lower case belongs to; `opus` where it names none.
pub fn family_of_lower(m: &str) -> (r: &'static str)
    ensures
        r@ == family_of(m@),
{
    if text::contains(m, "fable") {
        "fable"
    } else if text::contains(m, "mythos") {
        "mythos"
    } else if text::contains(m, "opus") {
        "opus"
    } else if text::contains(m, "haiku") {
        "haiku"
    } else if text::contains(m, "sonnet") {
        "sonnet"
    } else {
        "opus"
    }
}

/// The price family that a model id belongs to, whatever its case; `opus` where it names none.
pub fn model_family(model: &str) -> (r: &'static str)
    ensures
        r@ == family_of(text::lowered(model@)),
{
    family_of_lower(text::to_lowercase(model).as_str())
}

/// The token counts of one request.
#[derive(Clone, Copy, Debug, PartialEq, Eq, Structural)]
pub struct Usage {
    pub input_tokens: i64,
    pub cache_create: i64,
    pub cache_read: i64,
    pub ephem_5m: i64,
    pub ephem_1h: i64,
    pub output_tokens: i64,
}

impl Default for Usage {
    fn default() -> (r: Usage)
        ensures
            r == (Usage {
                input_tokens: 0,
                cache_create: 0,
                cache_read: 0,
                ephem_5m: 0,
                ephem_1h: 0,
                output_tokens: 0,
            }),
    {
        Usage {
            input_tokens: 0,
            cache_create: 0,
            cache_read: 0,
            ephem_5m: 0,
            ephem_1h: 0,
            output_tokens: 0,
        }
    }
}

/// The count in the group `i`; 0 where there is none that fits.
pub open spec fn count_in(g: Seq<Option<Seq<char>>>, i: int) -> i64 {
    match patterns::group_of(g, i) {
        Some(t) => match text::i64_of(t) {
            Some(v) => v,
            None => 0,
        },
        None => 0,
    }
}

/// The count in the group `i`; 0 where there is none that fits.
fn cap_i64(g: &Vec<Option<String>>, i: usize) -> (r: i64)
    ensures
        r == count_in(patterns::groups_of(g@), i as int),
{
    match patterns::group(g, i) {
        Some(t) => match text::parse_i64(t) {
            Some(v) => v,
            None => 0,
        },
        None => 0,
    }
}

/// A count of digits is not negative.
proof fn lemma_counted(g: Seq<Option<Seq<char>>>, i: int)
    requires
        patterns::counts(g),
        1 <= i,
    ensures
        count_in(g, i) >= 0,
{
    if i < g.len() {
        let t = g[i]->0;
        assert(patterns::digit_like(t[0]));
    }
}

/// No count is negative.
pub open spec fn nonnegative(u: Usage) -> bool {
    &&& u.input_tokens >= 0
    &&& u.cache_create >= 0
    &&& u.cache_read >= 0
    &&& u.ephem_5m >= 0
    &&& u.ephem_1h >= 0
    &&& u.output_tokens >= 0
}

/// The largest count in the first group of the matches, and at least 0.
pub open spec fn largest(ms: Seq<Seq<Option<Seq<char>>>>) -> i64
    decreases ms.len(),
{
    if ms.len() == 0 {
        0
    } else {
        let rest = largest(ms.drop_last());
        let v = count_in(ms.last(), 1);
        if v > rest {
            v
        } else {
            rest
        }
    }
}

/// The largest of two lists of counts is the larger of their largest.
proof fn lemma_largest_add(a: Seq<Seq<Option<Seq<char>>>>, b: Seq<Seq<Option<Seq<char>>>>)
    ensures
        largest(a + b) == larger(largest(a), largest(b)),
        largest(a) >= 0,
    decreases b.len(), a.len(),
{
    if b.len() == 0 {
        assert(a + b =~= a);
        if a.len() > 0 {
            lemma_largest_add(a.drop_last(), b);
        }
    } else {
        lemma_largest_add(a, b.drop_last());
        assert((a + b).drop_last() =~= a + b.drop_last());
    }
}

/// The larger of two counts.
pub open spec fn larger(a: i64, b: i64) -> i64 {
    if a > b {
        a
    } else {
        b
    }
}

/// The counts that the searches of a response found.
pub open spec fn usage_of(
    start: Seq<Option<Seq<char>>>,
    split: Option<Seq<Option<Seq<char>>>>,
    outputs: Seq<Seq<Option<Seq<char>>>>,
) -> Usage {
    Usage {
        input_tokens: count_in(start, 1),
        cache_create: count_in(start, 2),
        cache_read: count_in(start, 3),
        ephem_5m: match split {
            Some(g) => count_in(g, 1),
            None => 0,
        },
        ephem_1h: match split {
            Some(g) => count_in(g, 2),
            None => 0,
        },
        output_tokens: largest(outputs),
    }
}

/// The counts that the searches of a response found: those at the start of the report, those by
/// lifetime, and the largest of the output counts.
pub fn usage_from(
    start: &Vec<Option<String>>,
    split: &Option<Vec<Option<String>>>,
    outputs: &Vec<Vec<Option<String>>>,
) -> (r: Usage)
    ensures
        r == usage_of(
            patterns::groups_of(start@),
            patterns::opt_groups(*split),
            patterns::matches_of(outputs@),
        ),
{
    let (ephem_5m, ephem_1h): (i64, i64) = match split {
        Some(g) => (cap_i64(g, 1), cap_i64(g, 2)),
        None => (0, 0),
    };
    let ghost ms = patterns::matches_of(outputs@);
    let n: usize = outputs.len();
    let mut output_tokens: i64 = 0;
    let mut i: usize = 0;
    while i < n
        invariant
            n == outputs@.len(),
            i <= n,
            ms == patterns::matches_of(outputs@),
            output_tokens == largest(ms.take(i as int)),
        decreases n - i,
    {
        assert(ms.take(i + 1).drop_last() =~= ms.take(i as int));
        let v: i64 = cap_i64(&outputs[i], 1);
        if v > output_tokens {
            output_tokens = v;
        }
        i += 1;
    }
    assert(ms.take(n as int) =~= ms);
    Usage {
        input_tokens: cap_i64(start, 1),
        cache_create: cap_i64(start, 2),
        cache_read: cap_i64(start, 3),
        ephem_5m,
        ephem_1h,
        output_tokens,
    }
}

/// The counts that a response reports.
pub open spec fn usage_in(t: Seq<char>) -> Option<Usage> {
    if t.len() == 0 {
        None
    } else {
        match patterns::counts_found(patterns::USAGE_START@, t) {
            Some(start) => Some(
                usage_of(
                    start,
                    patterns::counts_found(patterns::USAGE_SPLIT@, t),
                    patterns::counts_each(patterns::USAGE_OUTPUT@, t),
                ),
            ),
            None => None,
        }
    }
}

/// `v` is `u` after more output counts came in: the first report stays, and of the output counts the
/// largest counts.
pub open spec fn continues(u: Usage, v: Usage, more: Seq<Seq<Option<Seq<char>>>>) -> bool {
    &&& v.input_tokens == u.input_tokens
    &&& v.cache_create == u.cache_create
    &&& v.cache_read == u.cache_read
    &&& v.output_tokens == larger(u.output_tokens, largest(more))
}

/// Reads the counts that a response reports. Nothing where it reports none. No count is negative. As
/// a stream goes on, its first report stays and its largest output count is taken.
pub fn parse_usage(t: &str) -> (r: Option<Usage>)
    ensures
        r == usage_in(t@),
        r matches Some(u) ==> nonnegative(u),
        forall|a: Seq<char>, b: Seq<char>|
            t@ == #[trigger] patterns::lines_joined(a, b) && usage_in(a) is Some ==> (r matches Some(
                v,
            ) && continues(
                usage_in(a)->0,
                v,
                patterns::counts_each(patterns::USAGE_OUTPUT@, b),
            )),
{
    if t.is_empty() {
        proof {
            reveal_strlit("\n");
        }
        return None;
    }
    match patterns::captures(patterns::USAGE_START, t) {
        Some(start) => {
            let split: Option<Vec<Option<String>>> = patterns::captures(patterns::USAGE_SPLIT, t);
            let outputs: Vec<Vec<Option<String>>> = patterns::captures_iter(
                patterns::USAGE_OUTPUT,
                t,
            );
            proof {
                let g = patterns::groups_of(start@);
                lemma_counted(g, 1);
                lemma_counted(g, 2);
                lemma_counted(g, 3);
                if let Some(s) = patterns::opt_groups(split) {
                    lemma_counted(s, 1);
                    lemma_counted(s, 2);
                }
                lemma_largest_add(patterns::matches_of(outputs@), Seq::empty());
                assert forall|a: Seq<char>, b: Seq<char>|
                    t@ == #[trigger] patterns::lines_joined(a, b) && usage_in(a) is Some implies continues(
                    usage_in(a)->0,
                    usage_in(t@)->0,
                    patterns::counts_each(patterns::USAGE_OUTPUT@, b),
                ) by {
                    lemma_largest_add(
                        patterns::counts_each(patterns::USAGE_OUTPUT@, a),
                        patterns::counts_each(patterns::USAGE_OUTPUT@, b),
                    );
                }
            }
            Some(usage_from(&start, &split, &outputs))
        },
        None => None,
    }
}

/// An exact share of a hundred: `num / den`.
#[derive(Clone, Copy, Debug, PartialEq, Eq, Structural)]
pub struct Percent {
    pub num: i128,
    pub den: i128,
}

/// What a request cost, and what it would have cost without caching.
#[derive(Clone, Copy, Debug)]
pub struct Cost {
    pub family: &'static str,
    pub estimate: bool,
    pub cost_actual: i128,
    pub cost_uncached: i128,
    pub saved: i128,
    pub saved_pct: Percent,
}

/// The tokens that were written for five minutes: all that were created, where the report does not
/// split them.
pub open spec fn written_5m(u: Usage) -> int {
    if u.ephem_5m != 0 {
        u.ephem_5m as int
    } else if u.ephem_1h != 0 {
        0
    } else {
        u.cache_create as int
    }
}

/// The cost as billed, at the input price `p` and the output price `q`.
pub open spec fn actual_cost(u: Usage, p: int, q: int) -> int {
    (FRESH_INPUT * u.input_tokens + CACHE_READ * u.cache_read + CACHE_WRITE_5M * written_5m(u)
        + CACHE_WRITE_1H * u.ephem_1h) * p + FRESH_INPUT * u.output_tokens * q
}

/// The cost if every token that was read from or written to the cache were fresh input.
pub open spec fn uncached_cost(u: Usage, p: int, q: int) -> int {
    FRESH_INPUT * (u.input_tokens + u.cache_read + u.cache_create) * p + FRESH_INPUT
        * u.output_tokens * q
}

/// The share of `whole` that `part` is, in hundredths; 0 where `whole` is not positive.
pub open spec fn percent_of(part: int, whole: int) -> (int, int) {
    if whole > 0 {
        (100 * part, whole)
    } else {
        (0, 1)
    }
}

proof fn lemma_product_bound(a: int, p: int, bound: int)
    by (nonlinear_arith)
    requires
        -bound <= a <= bound,
        0 <= p <= 50,
    ensures
        -50 * bound <= a * p <= 50 * bound,
{
}

/// Prices the counts at the given prices: as billed and as if nothing were cached.
pub fn priced(u: &Usage, in_price: i128, out_price: i128) -> (r: (i128, i128))
    requires
        0 <= in_price <= 50,
        0 <= out_price <= 50,
    ensures
        r.0 == actual_cost(*u, in_price as int, out_price as int),
        r.1 == uncached_cost(*u, in_price as int, out_price as int),
        -0x1_0000_0000_0000_0000_0000_0000 < r.0 < 0x1_0000_0000_0000_0000_0000_0000,
        -0x1_0000_0000_0000_0000_0000_0000 < r.1 < 0x1_0000_0000_0000_0000_0000_0000,
{
    let write_5m: i128 = if u.ephem_5m != 0 {
        u.ephem_5m as i128
    } else if u.ephem_1h != 0 {
        0
    } else {
        u.cache_create as i128
    };
    let billed: i128 = FRESH_INPUT * (u.input_tokens as i128) + CACHE_READ * (u.cache_read as i128)
        + CACHE_WRITE_5M * write_5m + CACHE_WRITE_1H * (u.ephem_1h as i128);
    let listed: i128 = FRESH_INPUT * (u.input_tokens as i128 + u.cache_read as i128
        + u.cache_create as i128);
    let made: i128 = FRESH_INPUT * (u.output_tokens as i128);
    proof {
        let bound: int = 0x8000_0000_0000_0000int * 100;
        lemma_product_bound(billed as int, in_price as int, bound);
        lemma_product_bound(listed as int, in_price as int, bound);
        lemma_product_bound(made as int, out_price as int, bound);
    }
    (billed * in_price + made * out_price, listed * in_price + made * out_price)
}

/// Costs a request as billed and as if nothing were cached, and says what caching saved. The cost is
/// an estimate, at the prices of `opus`, where the model's family is not known.
pub fn compute_cost(usage: &Usage, model: &str) -> (r: Cost)
    ensures
        ({
            let family = family_of(text::lowered(model@));
            let (p, q) = prices_of(family);
            &&& r.family@ == family
            &&& r.estimate == !patterns::family_known(model@)
            &&& r.cost_actual == actual_cost(*usage, p, q)
            &&& r.cost_uncached == uncached_cost(*usage, p, q)
            &&& r.saved == r.cost_uncached - r.cost_actual
            &&& (r.saved_pct.num as int, r.saved_pct.den as int) == percent_of(
                r.saved as int,
                r.cost_uncached as int,
            )
        }),
        vstd::utf8::is_ascii_chars(model@) && r.estimate ==> r.family@ == "opus"@,
        usage_laws::costs_add_up(r),
{
    let family: &'static str = model_family(model);
    let known: bool = patterns::is_match(patterns::KNOWN_FAMILY, model);
    cost_of(usage, family, known)
}

/// Costs a request of a known or unknown (`known`) family.
pub fn cost_of(usage: &Usage, family: &'static str, known: bool) -> (r: Cost)
    ensures
        ({
            let (p, q) = prices_of(family@);
            &&& r.family@ == family@
            &&& r.estimate == !known
            &&& r.cost_actual == actual_cost(*usage, p, q)
            &&& r.cost_uncached == uncached_cost(*usage, p, q)
            &&& r.saved == r.cost_uncached - r.cost_actual
            &&& (r.saved_pct.num as int, r.saved_pct.den as int) == percent_of(
                r.saved as int,
                r.cost_uncached as int,
            )
        }),
        usage_laws::costs_add_up(r),
{
    let (in_price, out_price): (i128, i128) = prices(family);
    let (cost_actual, cost_uncached): (i128, i128) = priced(usage, in_price, out_price);
    let saved: i128 = cost_uncached - cost_actual;
    let saved_pct: Percent = if cost_uncached > 0 {
        Percent { num: 100 * saved, den: cost_uncached }
    } else {
        Percent { num: 0, den: 1 }
    };
    Cost { family, estimate: !known, cost_actual, cost_uncached, saved, saved_pct }
}

/// What an hour's lifetime gained over the five minutes that a breakpoint has by itself.
#[derive(Clone, Copy, Debug, PartialEq, Eq, Structural)]
pub struct Marginal {
    /// The net saving; negative where the dearer write bought nothing.
    pub saved: i128,
    /// What the writes cost more than writes for five minutes.
    pub write_premium: i128,
    /// The gap since the session's previous request outlasted five minutes.
    pub extended_window: bool,
}

/// The gap outlasted five minutes. An unknown one counts as not.
pub open spec fn outlasted(gap_ms: Option<i64>) -> bool {
    gap_ms matches Some(g) && g >= FIVE_MIN_MS
}

/// What the hour's writes cost more at the input price `p`.
pub open spec fn premium_of(u: Usage, p: int) -> int {
    (CACHE_WRITE_1H * u.ephem_1h - CACHE_WRITE_5M * u.ephem_1h) * p
}

/// What the reads saved at the input price `p`: they would have been written anew, where the gap
/// outlasted five minutes.
pub open spec fn read_benefit_of(u: Usage, p: int, gap_ms: Option<i64>) -> int {
    if outlasted(gap_ms) {
        (CACHE_WRITE_5M * u.cache_read - CACHE_READ * u.cache_read) * p
    } else {
        0
    }
}

/// What an hour's lifetime gained at the input price `p`.
pub open spec fn marginal_of(u: Usage, p: int, gap_ms: Option<i64>) -> (int, int, bool) {
    (
        read_benefit_of(u, p, gap_ms) - premium_of(u, p),
        premium_of(u, p),
        outlasted(gap_ms),
    )
}

/// Prices a request against breakpoints that live five minutes. `gap_ms` is the time since the
/// session's previous request; where it is not known no saving is claimed.
pub fn compute_marginal(usage: &Usage, model: &str, gap_ms: Option<i64>) -> (r: Marginal)
    ensures
        (r.saved as int, r.write_premium as int, r.extended_window) == marginal_of(
            *usage,
            prices_of(family_of(text::lowered(model@))).0,
            gap_ms,
        ),
        usage.ephem_1h >= 0 ==> r.write_premium >= 0,
        usage_laws::credited(
            *usage,
            prices_of(family_of(text::lowered(model@))).0,
            gap_ms,
            r,
        ),
{
    marginal_for(usage, model_family(model), gap_ms)
}

/// Prices a request of the family against breakpoints that live five minutes.
pub fn marginal_for(usage: &Usage, family: &str, gap_ms: Option<i64>) -> (r: Marginal)
    ensures
        (r.saved as int, r.write_premium as int, r.extended_window) == marginal_of(
            *usage,
            prices_of(family@).0,
            gap_ms,
        ),
        usage.ephem_1h >= 0 ==> r.write_premium >= 0,
        usage_laws::credited(*usage, prices_of(family@).0, gap_ms, r),
{
    proof {
        usage_laws::lemma_credited(*usage, prices_of(family@).0, gap_ms);
        if usage.ephem_1h >= 0 {
            law_premium_is_never_negative(*usage, family@);
        }
    }
    let (p, _): (i128, i128) = prices(family);
    let extended: bool = match gap_ms {
        Some(g) => g >= FIVE_MIN_MS,
        None => false,
    };
    let written: i128 = usage.ephem_1h as i128;
    let read: i128 = usage.cache_read as i128;
    let dearer: i128 = CACHE_WRITE_1H * written - CACHE_WRITE_5M * written;
    let spared: i128 = CACHE_WRITE_5M * read - CACHE_READ * read;
    proof {
        let bound: int = 0x8000_0000_0000_0000int * 100;
        lemma_product_bound(dearer as int, p as int, bound);
        lemma_product_bound(spared as int, p as int, bound);
    }
    let write_premium: i128 = dearer * p;
    let read_benefit: i128 = if extended {
        spared * p
    } else {
        0
    };
    Marginal { saved: read_benefit - write_premium, write_premium, extended_window: extended }
}

/// The cost at the prices `p` and `q` if every write had been one for five minutes: what would have
/// been read after a longer gap is written anew.
pub open spec fn default_cost(u: Usage, p: int, q: int, gap_ms: Option<i64>) -> int {
    (FRESH_INPUT * u.input_tokens + (if outlasted(gap_ms) {
        CACHE_WRITE_5M * u.cache_read
    } else {
        CACHE_READ * u.cache_read
    }) + CACHE_WRITE_5M * written_5m(u) + CACHE_WRITE_5M * u.ephem_1h) * p + FRESH_INPUT
        * u.output_tokens * q
}

/// The saving against breakpoints that live five minutes is what the request would have cost with
/// them less what it did cost.
pub proof fn law_marginal_is_a_difference(u: Usage, p: int, q: int, gap_ms: Option<i64>)
    ensures
        marginal_of(u, p, gap_ms).0 == default_cost(u, p, q, gap_ms) - actual_cost(u, p, q),
{
    let i = FRESH_INPUT * u.input_tokens;
    let w = CACHE_WRITE_5M * written_5m(u);
    let h5 = CACHE_WRITE_5M * u.ephem_1h;
    let h1 = CACHE_WRITE_1H * u.ephem_1h;
    let r0 = CACHE_READ * u.cache_read;
    let r5 = CACHE_WRITE_5M * u.cache_read;
    let o = FRESH_INPUT * u.output_tokens * q;
    assert((r5 - r0) * p - (h1 - h5) * p == ((i + r5 + w + h5) * p + o) - ((i + r0 + w + h1) * p
        + o)) by (nonlinear_arith);
    assert(0 - (h1 - h5) * p == ((i + r0 + w + h5) * p + o) - ((i + r0 + w + h1) * p + o))
        by (nonlinear_arith);
}

/// A request of a session: its tokens, the gap before it and the family that it is priced by.
pub struct Metered {
    pub usage: Usage,
    pub gap_ms: Option<i64>,
    pub family: Seq<char>,
}

impl Metered {
    /// The saving against breakpoints that live five minutes.
    pub open spec fn marginal(self) -> int {
        marginal_of(self.usage, prices_of(self.family).0, self.gap_ms).0
    }

    /// What the request cost.
    pub open spec fn actual(self) -> int {
        actual_cost(self.usage, prices_of(self.family).0, prices_of(self.family).1)
    }

    /// What the request would have cost with writes for five minutes only.
    pub open spec fn by_default(self) -> int {
        default_cost(
            self.usage,
            prices_of(self.family).0,
            prices_of(self.family).1,
            self.gap_ms,
        )
    }
}

/// The sum of the savings of a session's requests.
pub open spec fn session_marginal(rows: Seq<Metered>) -> int
    decreases rows.len(),
{
    if rows.len() == 0 {
        0
    } else {
        session_marginal(rows.drop_last()) + rows.last().marginal()
    }
}

/// What a session's requests cost.
pub open spec fn session_actual(rows: Seq<Metered>) -> int
    decreases rows.len(),
{
    if rows.len() == 0 {
        0
    } else {
        session_actual(rows.drop_last()) + rows.last().actual()
    }
}

/// What a session's requests would have cost with writes for five minutes only.
pub open spec fn session_default(rows: Seq<Metered>) -> int
    decreases rows.len(),
{
    if rows.len() == 0 {
        0
    } else {
        session_default(rows.drop_last()) + rows.last().by_default()
    }
}

/// Summed over a session, the savings are the net of the hour's lifetime, whatever models its
/// requests went to.
pub proof fn law_marginal_sums_to_the_net(rows: Seq<Metered>)
    ensures
        session_marginal(rows) == session_default(rows) - session_actual(rows),
    decreases rows.len(),
{
    if rows.len() > 0 {
        law_marginal_sums_to_the_net(rows.drop_last());
        let m = rows.last();
        let (p, q) = prices_of(m.family);
        law_marginal_is_a_difference(m.usage, p, q, m.gap_ms);
    }
}

/// Writing for an hour is never cheaper than writing for five minutes.
pub proof fn law_premium_is_never_negative(u: Usage, family: Seq<char>)
    requires
        u.ephem_1h >= 0,
    ensures
        premium_of(u, prices_of(family).0) >= 0,
{
    let p = prices_of(family).0;
    let d = CACHE_WRITE_1H * u.ephem_1h - CACHE_WRITE_5M * u.ephem_1h;
    assert(d * p >= 0) by (nonlinear_arith)
        requires
            d >= 0,
            p >= 0,
    ;
}

/// A request that follows within five minutes gains nothing and loses its premium.
pub proof fn law_short_gap_only_pays(u: Usage, p: int, gap: i64)
    requires
        gap < FIVE_MIN_MS,
    ensures
        marginal_of(u, p, Some(gap)) == (-premium_of(u, p), premium_of(u, p), false),
{
}

/// A request whose gap is not known claims no saving.
pub proof fn law_unknown_gap_claims_nothing(u: Usage, family: Seq<char>)
    requires
        u.ephem_1h >= 0,
    ensures
        marginal_of(u, prices_of(family).0, None).0 <= 0,
        !marginal_of(u, prices_of(family).0, None).2,
{
    law_premium_is_never_negative(u, family);
}

/// A request that neither read nor wrote the cache has no saving of either kind.
pub proof fn law_nothing_cached_saves_nothing(u: Usage, p: int, q: int, gap_ms: Option<i64>)
    requires
        u.cache_read == 0,
        u.cache_create == 0,
        u.ephem_5m == 0,
        u.ephem_1h == 0,
    ensures
        actual_cost(u, p, q) == uncached_cost(u, p, q),
        marginal_of(u, p, gap_ms).0 == 0,
        marginal_of(u, p, gap_ms).1 == 0,
{
    assert(0 * p == 0) by (nonlinear_arith);
}

/// A request that writes nothing costs no more than without the cache, and less where it reads
/// something.
pub proof fn law_reading_is_cheaper(u: Usage, family: Seq<char>)
    requires
        u.cache_read >= 0,
        u.cache_create == 0,
        u.ephem_5m == 0,
        u.ephem_1h == 0,
    ensures
        ({
            let (p, q) = prices_of(family);
            &&& actual_cost(u, p, q) <= uncached_cost(u, p, q)
            &&& u.cache_read > 0 ==> actual_cost(u, p, q) < uncached_cost(u, p, q)
        }),
{
    let (p, q) = prices_of(family);
    let a = FRESH_INPUT * u.input_tokens + CACHE_READ * u.cache_read;
    let b = FRESH_INPUT * (u.input_tokens + u.cache_read);
    assert(a * p <= b * p && (a < b ==> a * p < b * p)) by (nonlinear_arith)
        requires
            a <= b,
            p > 0,
    ;
}

/// An id in lower case that names no family is priced as `opus`.
pub proof fn law_unknown_models_cost_as_opus(m: Seq<char>)
    requires
        !text::holds(m, "fable"@),
        !text::holds(m, "mythos"@),
        !text::holds(m, "haiku"@),
        !text::holds(m, "sonnet"@),
    ensures
        family_of(m) == "opus"@,
        prices_of(family_of(m)) == (5int, 25int),
{
    reveal_strlit("opus");
    reveal_strlit("fable");
    reveal_strlit("mythos");
    assert("fable"@.len() == 5 && "mythos"@.len() == 6 && "opus"@.len() == 4);
}

} // verus!
