//! Metering requests after the fact, out of the logs that they left.

use vstd::prelude::*;
use vstd::string::*;
use vstd::utf8::*;

use crate::http_decode;
use crate::identity;
use crate::identity::{Identity, IdentityView, ProjectCache};
use crate::json;
use crate::json::{Json, JsonView};
use crate::logger;
use crate::record_laws;
use crate::server;
use crate::store;
use crate::store::{RowInput, RowView};
use crate::text;
use crate::usage;
use crate::usage::{Cost, Marginal, Usage};

verus! {

broadcast use crate::json::group_json_view;

/// The argument, or else the variable, or else the default.
pub fn arg_or_env(arg: Option<String>, var: Option<String>, default: &str) -> (r: String)
    ensures
        r@ == (match arg {
            Some(a) => a@,
            None => match var {
                Some(v) => v@,
                None => default@,
            },
        }),
{
    match arg {
        Some(a) => a,
        None => match var {
            Some(v) => v,
            None => default.to_owned(),
        },
    }
}

/// `s` ends with `suffix`.
pub open spec fn ends(s: Seq<char>, suffix: Seq<char>) -> bool {
    suffix.len() <= s.len() && s.skip(s.len() - suffix.len()) == suffix
}

/// `s` without `suffix` at its end, as often as it stands there.
pub open spec fn without_suffix(s: Seq<char>, suffix: Seq<char>) -> Seq<char>
    decreases s.len(),
{
    if suffix.len() > 0 && ends(s, suffix) {
        without_suffix(s.take(s.len() - suffix.len()), suffix)
    } else {
        s
    }
}

/// The id of the request that the file of the given name logs the response to.
pub open spec fn capture_of(name: Seq<char>) -> Option<Seq<char>> {
    if ends(name, logger::RESPONSE_LOG@) {
        Some(without_suffix(name, logger::RESPONSE_LOG@))
    } else {
        None
    }
}

/// The id of the request that the file of the given name logs the response to; nothing where it logs
/// none.
pub fn capture_id(name: &str) -> (r: Option<String>)
    ensures
        text::opt_text(r) == capture_of(name@),
{
    proof {
        reveal_strlit(".resp.log");
    }
    let k: usize = 9;
    let mut n: usize = name.unicode_len();
    let mut found: bool = false;
    assert(name@.take(n as int) =~= name@);
    loop
        invariant_except_break
            n <= name@.len(),
            k == logger::RESPONSE_LOG@.len(),
            k == 9,
            without_suffix(name@, logger::RESPONSE_LOG@) == without_suffix(
                name@.take(n as int),
                logger::RESPONSE_LOG@,
            ),
            found == (n < name@.len()),
            found ==> ends(name@, logger::RESPONSE_LOG@),
        ensures
            n <= name@.len(),
            without_suffix(name@, logger::RESPONSE_LOG@) == name@.take(n as int),
            found == ends(name@, logger::RESPONSE_LOG@),
        decreases n,
    {
        let ghost head = name@.take(n as int);
        if n < k || !text::same(name.substring_char(n - k, n), logger::RESPONSE_LOG) {
            proof {
                if n >= k {
                    assert(name@.subrange(n - k, n as int) =~= head.skip(n - k));
                }
                if !found {
                    assert(head =~= name@);
                }
            }
            break;
        }
        proof {
            assert(name@.subrange(n - k, n as int) =~= head.skip(n - k));
            assert(head.take(n - k) =~= name@.take(n - k));
            if !found {
                assert(head =~= name@);
            }
        }
        n = n - k;
        found = true;
    }
    if found {
        let r: String = name.substring_char(0, n).to_owned();
        assert(r@ =~= name@.take(n as int));
        Some(r)
    } else {
        None
    }
}

/// `l` without a carriage return at its end.
pub open spec fn chomped(l: Seq<char>) -> Seq<char> {
    if l.len() > 0 && l.last() == '\r' {
        l.drop_last()
    } else {
        l
    }
}

/// The lines of a text. A line feed ends a line, with or without a carriage return before it.
pub open spec fn lines_of(t: Seq<char>) -> Seq<Seq<char>> {
    let p = text::split_of(t, '\n');
    Seq::new(
        if p.last().len() == 0 {
            (p.len() - 1) as nat
        } else {
            p.len()
        },
        |i: int|
            if i < p.len() - 1 {
                chomped(p[i])
            } else {
                p[i]
            },
    )
}

/// What a line with the headers of a response begins with.
pub const HEADERS_LINE: &'static str = "# headers=";

/// What stands in the lines of a preamble that give headers, in order.
pub open spec fn headers_in(t: Seq<char>) -> Seq<Seq<char>> {
    lines_of(t).filter(|l: Seq<char>| text::begins(l, HEADERS_LINE@)).map_values(
        |l: Seq<char>| l.skip(HEADERS_LINE@.len() as int),
    )
}

/// The position of the first empty line's line feeds, counted from `i`.
pub open spec fn blank_from(b: Seq<u8>, i: int) -> Option<int>
    decreases b.len() - i,
{
    if i < 0 || i + 1 >= b.len() {
        None
    } else if b[i] == 10 && b[i + 1] == 10 {
        Some(i)
    } else {
        blank_from(b, i + 1)
    }
}

/// The part of a response log in front of the first empty line.
pub open spec fn preamble_bytes(b: Seq<u8>) -> Option<Seq<u8>> {
    match blank_from(b, 0) {
        Some(i) => Some(b.take(i)),
        None => None,
    }
}

/// The part of a response log behind the first empty line.
pub open spec fn logged_body(b: Seq<u8>) -> Seq<u8> {
    match blank_from(b, 0) {
        Some(i) => b.skip(i + 2),
        None => Seq::empty(),
    }
}

/// The line without a carriage return at its end.
fn chomp(l: &str) -> (r: String)
    ensures
        r@ == chomped(l@),
{
    let n: usize = l.unicode_len();
    if n > 0 && l.get_char(n - 1) == '\r' {
        let r: String = l.substring_char(0, n - 1).to_owned();
        assert(r@ =~= l@.drop_last());
        r
    } else {
        l.to_owned()
    }
}

/// What stands in the lines of a preamble that give headers, in order.
pub fn header_texts(t: &str) -> (r: Vec<String>)
    ensures
        text::texts(r@) == headers_in(t@),
{
    let pieces: Vec<String> = text::split(t, '\n');
    let ghost p = text::split_of(t@, '\n');
    let ghost ls = lines_of(t@);
    let ghost is_header = |l: Seq<char>| text::begins(l, HEADERS_LINE@);
    let ghost rest = |l: Seq<char>| l.skip(HEADERS_LINE@.len() as int);
    proof {
        reveal_strlit("# headers=");
    }
    let last: usize = pieces.len() - 1;
    assert(p[last as int] == pieces@[last as int]@);
    let n: usize = if pieces[last].as_str().is_empty() {
        last
    } else {
        last + 1
    };
    let mut out: Vec<String> = Vec::new();
    let mut i: usize = 0;
    proof {
        assert(ls.take(0).filter(is_header) =~= Seq::empty()) by {
            reveal(Seq::filter);
        }
        assert(text::texts(out@) =~= Seq::empty());
        assert(Seq::<Seq<char>>::empty().map_values(rest) =~= Seq::empty());
    }
    while i < n
        invariant
            pieces@.len() == last + 1,
            n <= last + 1,
            i <= n,
            n == ls.len(),
            p == text::split_of(t@, '\n'),
            text::texts(pieces@) == p,
            ls == lines_of(t@),
            HEADERS_LINE@.len() == 10,
            is_header == (|l: Seq<char>| text::begins(l, HEADERS_LINE@)),
            rest == (|l: Seq<char>| l.skip(HEADERS_LINE@.len() as int)),
            text::texts(out@) == ls.take(i as int).filter(is_header).map_values(rest),
        decreases n - i,
    {
        assert(p[i as int] == pieces@[i as int]@);
        let line: String = if i < last {
            chomp(pieces[i].as_str())
        } else {
            pieces[i].clone()
        };
        assert(line@ == ls[i as int]);
        proof {
            text::lemma_filter_step(ls, i as int, is_header);
        }
        if text::starts_with(line.as_str(), HEADERS_LINE) {
            let ghost before = ls.take(i as int).filter(is_header);
            let len: usize = line.as_str().unicode_len();
            let tail: String = line.as_str().substring_char(10, len).to_owned();
            let ghost texts = text::texts(out@);
            assert(tail@ =~= line@.skip(10));
            out.push(tail);
            assert(text::texts(out@) =~= texts.push(rest(line@)));
            assert(before.push(line@).map_values(rest) =~= before.map_values(rest).push(
                rest(line@),
            ));
        }
        i += 1;
    }
    assert(ls.take(n as int) =~= ls);
    out
}

/// Splits a response log into what its preamble says of headers and the body as it was received.
/// Of a log without an empty line nothing is read.
pub fn split_resp_log(buf: &[u8]) -> (r: (Vec<String>, Vec<u8>))
    ensures
        match preamble_bytes(buf@) {
            Some(p) => {
                &&& text::texts(r.0@) == headers_in(text::utf8_of(p))
                &&& valid_utf8(p) ==> text::texts(r.0@) == headers_in(decode_utf8(p))
            },
            None => r.0@.len() == 0,
        },
        r.1@ == logged_body(buf@),
{
    let n: usize = buf.len();
    let mut i: usize = 0;
    while i < n && n - i >= 2
        invariant
            n == buf@.len(),
            i <= n,
            blank_from(buf@, 0) == blank_from(buf@, i as int),
        decreases n - i,
    {
        if buf[i] == 10 && buf[i + 1] == 10 {
            let head: &[u8] = vstd::slice::slice_subrange(buf, 0, i);
            let body: &[u8] = vstd::slice::slice_subrange(buf, i + 2, n);
            assert(head@ =~= buf@.take(i as int));
            assert(body@ =~= buf@.skip(i + 2));
            let preamble: String = text::from_utf8_lossy(head);
            let body: Vec<u8> = vstd::slice::slice_to_vec(body);
            return (header_texts(preamble.as_str()), body);
        }
        i += 1;
    }
    (Vec::new(), Vec::new())
}

/// The headers that are taken for those of a response: the last that were read, or none.
pub open spec fn picked(parsed: Seq<Option<Json>>) -> JsonView
    decreases parsed.len(),
{
    if parsed.len() == 0 {
        json::empty_object()
    } else {
        match parsed.last() {
            Some(v) => v@,
            None => picked(parsed.drop_last()),
        }
    }
}

/// The headers of a response: of those that its log gives, the last that could be read.
pub fn pick_headers(parsed: Vec<Option<Json>>) -> (r: Json)
    ensures
        r@ == picked(parsed@),
{
    let mut n: usize = parsed.len();
    assert(parsed@.take(n as int) =~= parsed@);
    while n > 0
        invariant
            n <= parsed@.len(),
            picked(parsed@) == picked(parsed@.take(n as int)),
        decreases n,
    {
        assert(parsed@.take(n as int).drop_last() =~= parsed@.take(n - 1));
        match &parsed[n - 1] {
            Some(v) => {
                return v.copy();
            },
            None => {},
        }
        n -= 1;
    }
    json::empty()
}

proof fn lemma_blank_at(b: Seq<u8>, i: int, j: int)
    requires
        0 <= i <= j,
        j + 1 < b.len(),
        b[j] == 10,
        b[j + 1] == 10,
        forall|m: int| i <= m < j ==> !(#[trigger] b[m] == 10 && b[m + 1] == 10),
    ensures
        blank_from(b, i) == Some(j),
    decreases j - i,
{
    if i < j {
        assert(!(b[i] == 10 && b[i + 1] == 10));
        lemma_blank_at(b, i + 1, j);
    }
}

/// What is read back of a logged response is what was written: its headers and its body. The text of
/// the headers is one line, as that of a JSON value is.
pub proof fn law_log_round_trip(status: u16, headers: Seq<char>, body: Seq<u8>)
    requires
        !headers.contains('\n'),
    ensures
        ({
            let log = encode_utf8(logger::preamble_of(status, headers)) + body;
            &&& preamble_bytes(log) matches Some(p) && valid_utf8(p) && headers_in(decode_utf8(p))
                == seq![headers]
            &&& logged_body(log) == body
        }),
{
    reveal_strlit("# status=");
    reveal_strlit("\n# headers=");
    reveal_strlit("# headers=");
    reveal_strlit("\n\n");
    let pre = "# status="@ + text::decimal_of(status as nat);
    let line = HEADERS_LINE@ + headers;
    let t = pre.push('\n') + line;
    text::lemma_decimal_digits(status as nat);
    assert(!pre.contains('\n')) by {
        if pre.contains('\n') {
            let i = choose|i: int| 0 <= i < pre.len() && pre[i] == '\n';
            if i >= 9 {
                assert(text::decimal_of(status as nat)[i - 9] == '\n');
            }
        }
    }
    assert(!line.contains('\n')) by {
        if line.contains('\n') {
            let i = choose|i: int| 0 <= i < line.len() && line[i] == '\n';
            if i >= 10 {
                assert(headers[i - 10] == '\n');
            }
        }
    }
    // The bytes of the log.
    let whole = logger::preamble_of(status, headers);
    assert(whole =~= t + "\n\n"@);
    text::lemma_encode_add(t, "\n\n"@);
    text::lemma_encode_add(pre.push('\n'), line);
    assert(pre.push('\n') =~= pre + seq!['\n']);
    text::lemma_encode_add(pre, seq!['\n']);
    assert(is_ascii_chars(seq!['\n']));
    assert(is_ascii_chars("\n\n"@));
    is_ascii_chars_encode_utf8(seq!['\n']);
    is_ascii_chars_encode_utf8("\n\n"@);
    assert('\n' as u8 == 10u8);
    assert(encode_utf8(seq!['\n']) =~= seq![10u8]) by {
        assert(seq!['\n'][0] == '\n');
    }
    assert(encode_utf8("\n\n"@) =~= seq![10u8, 10u8]) by {
        assert("\n\n"@[0] == '\n' && "\n\n"@[1] == '\n');
    }
    let a = encode_utf8(pre);
    let c = encode_utf8(line);
    text::lemma_encode_one_line(pre);
    text::lemma_encode_one_line(line);
    let log = encode_utf8(whole) + body;
    assert(encode_utf8(t) =~= a + seq![10u8] + c);
    assert(log =~= a + seq![10u8] + c + seq![10u8, 10u8] + body);
    let p = a.len() as int + 1 + c.len();
    // The line of the headers is not empty, so its line feed is followed by something else.
    text::lemma_encode_add(HEADERS_LINE@, headers);
    assert(is_ascii_chars(HEADERS_LINE@));
    is_ascii_chars_encode_utf8(HEADERS_LINE@);
    assert(c.len() > 0);
    assert forall|m: int| 0 <= m < p implies !(#[trigger] log[m] == 10 && log[m + 1] == 10) by {
        if m < a.len() {
            assert(log[m] == a[m]);
            assert(a.contains(a[m]));
        } else if m == a.len() {
            assert(log[m + 1] == c[0]);
            assert(c.contains(c[0]));
        } else {
            assert(log[m] == c[m - a.len() - 1]);
            assert(c.contains(c[m - a.len() - 1]));
        }
    }
    lemma_blank_at(log, 0, p);
    assert(log.take(p) =~= encode_utf8(t));
    assert(log.skip(p + 2) =~= body);
    // The text in front of the empty line.
    encode_utf8_valid_utf8(t);
    encode_utf8_decode_utf8(t);
    text::lemma_split_whole(pre, '\n');
    text::lemma_split_tail(pre, line, '\n');
    let ps = text::split_of(t, '\n');
    assert(ps =~= seq![pre, line]);
    let ls = lines_of(t);
    assert(ls =~= seq![chomped(pre), line]);
    let is_header = |l: Seq<char>| text::begins(l, HEADERS_LINE@);
    let rest = |l: Seq<char>| l.skip(HEADERS_LINE@.len() as int);
    assert(!is_header(ls[0])) by {
        if text::begins(ls[0], HEADERS_LINE@) {
            assert(ls[0].take(10)[2] == 'h');
            assert(pre[2] == 's');
        }
    }
    assert(line.take(10) =~= HEADERS_LINE@);
    assert(line.skip(10) =~= headers);
    text::lemma_filter_step(ls, 0, is_header);
    text::lemma_filter_step(ls, 1, is_header);
    assert(ls.take(0).filter(is_header) =~= Seq::empty()) by {
        reveal(Seq::filter);
    }
    assert(ls.take(2) =~= ls);
    assert(ls.filter(is_header) =~= seq![line]);
    assert(headers_in(t) =~= seq![headers]);
}

/// The usage that a logged response reports, and its text. `headers` are those of the response.
pub fn capture_usage(headers: &Json, body: &[u8]) -> (r: Option<(Usage, String)>)
    ensures
        ({
            let t = server::response_text(
                body@,
                identity::header_of(headers@, "content-encoding"@),
            );
            match usage::usage_in(t) {
                Some(u) => r matches Some(x) && x.0 == u && x.1@ == t,
                None => r is None,
            }
        }),
        r matches Some(x) ==> usage::nonnegative(x.0),
        record_laws::read_from_log(headers@, body@, r),
{
    let encoding: String = identity::header(headers, "content-encoding");
    let t: String = http_decode::decode_body(body, encoding.as_str());
    match usage::parse_usage(t.as_str()) {
        Some(u) => Some((u, t)),
        None => None,
    }
}

/// The headers in the log of a request.
pub open spec fn logged_headers(log: JsonView) -> JsonView {
    match json::field(log, "meta"@) {
        Some(meta) => match json::field(meta, "headers"@) {
            Some(h) => h,
            None => json::empty_object(),
        },
        None => json::empty_object(),
    }
}

/// The body in the log of a request.
pub open spec fn logged_request(log: JsonView) -> JsonView {
    match json::field(log, "body"@) {
        Some(b) => b,
        None => json::empty_object(),
    }
}

/// The headers and the body in the log of a request; both empty where there is no log.
pub fn logged_parts(log: &Option<Json>) -> (r: (Json, Json))
    ensures
        match log {
            Some(l) => r.0@ == logged_headers(l@) && r.1@ == logged_request(l@),
            None => r.0@ == json::empty_object() && r.1@ == json::empty_object(),
        },
{
    match log {
        Some(l) => {
            let headers: Json = match l.get("meta") {
                Some(meta) => match meta.get("headers") {
                    Some(h) => h.copy(),
                    None => json::empty(),
                },
                None => json::empty(),
            };
            let body: Json = match l.get("body") {
                Some(b) => b.copy(),
                None => json::empty(),
            };
            (headers, body)
        },
        None => (json::empty(), json::empty()),
    }
}

/// A logged request that still has to be priced against breakpoints that live five minutes.
#[derive(Debug)]
pub struct Parsed {
    pub row: RowInput,
    pub usage: Usage,
    pub model: String,
}

/// The row `r` without a gap, and with nothing gained.
pub open spec fn ungapped(r: RowView) -> RowView {
    RowView { gap_ms: None, saved_marginal: 0, write_premium: 0, ..r }
}

/// The row of a logged request, before its gap is known.
pub open spec fn captured(
    known: Map<Seq<char>, Seq<char>>,
    req_id: Seq<char>,
    ts: i64,
    t: Seq<char>,
    u: Usage,
    headers: JsonView,
    body: JsonView,
) -> RowView {
    ungapped(
        store::priced_row(
            req_id,
            ts,
            identity::identified(known, headers, body),
            http_decode::billed_model(t, server::model_named(body)),
            u,
            None,
        ),
    )
}

/// The row of a logged request that used the tokens `u`, by the text `t` of its response and the
/// headers and body of the request.
pub fn capture_row(
    cache: &mut ProjectCache,
    req_id: &str,
    ts: i64,
    t: &str,
    u: &Usage,
    headers: &Json,
    body: &Json,
) -> (r: Parsed)
    ensures
        ({
            let who = identity::identified(old(cache)@, headers@, body@);
            let model = http_decode::billed_model(t@, server::model_named(body@));
            &&& final(cache)@ == identity::learned(
                old(cache)@,
                identity::session_of(headers@),
                identity::mined(body@),
            )
            &&& r.usage == *u
            &&& r.model@ == model
            &&& r.row@ == ungapped(store::priced_row(req_id@, ts, who, model, *u, None))
        }),
        r.row@ == captured(old(cache)@, req_id@, ts, t@, *u, headers@, body@),
{
    let who: Identity = identity::identify(cache, headers, body);
    let fallback: String = match body.get_text("model") {
        Some(m) => m.to_owned(),
        None => String::new(),
    };
    let model: String = http_decode::model_from_response(t, fallback.as_str());
    let cost: Cost = usage::compute_cost(u, model.as_str());
    let nothing: Marginal = Marginal { saved: 0, write_premium: 0, extended_window: false };
    let row: RowInput = store::row_from(
        req_id,
        ts,
        &who,
        model.as_str(),
        u,
        &cost,
        None,
        &nothing,
    );
    Parsed { row, usage: *u, model }
}

/// What captures are ordered by: the session, and within it the time.
pub open spec fn key_of(p: Parsed) -> (Seq<char>, i64) {
    (p.row.session_id@, p.row.ts)
}

/// The key `a` comes before `b`.
pub open spec fn precedes(a: (Seq<char>, i64), b: (Seq<char>, i64)) -> bool {
    text::less(a.0, b.0) || (a.0 == b.0 && a.1 < b.1)
}

proof fn lemma_precedes(a: (Seq<char>, i64), b: (Seq<char>, i64), c: (Seq<char>, i64))
    ensures
        !precedes(a, a),
        precedes(a, b) && precedes(b, c) ==> precedes(a, c),
        precedes(a, b) || precedes(b, a) || a == b,
        precedes(a, b) ==> !precedes(b, a),
{
    text::lemma_less_irreflexive(a.0, 0);
    text::lemma_less_irreflexive(b.0, 0);
    if text::less(a.0, b.0) && text::less(b.0, c.0) {
        text::lemma_less_transitive(a.0, b.0, c.0, 0);
    }
    if text::less(a.0, b.0) && text::less(b.0, a.0) {
        text::lemma_less_transitive(a.0, b.0, a.0, 0);
    }
    assert(a.0.take(0) =~= b.0.take(0));
    text::lemma_less_total(a.0, b.0, 0);
}

/// No capture comes before an earlier one.
pub open spec fn in_order(s: Seq<Parsed>) -> bool {
    forall|i: int, j: int|
        #![trigger s[i], s[j]]
        0 <= i < j < s.len() ==> !precedes(key_of(s[j]), key_of(s[i]))
}

/// The captures in `s` with the key `k`, in the order in which they stand there.
pub open spec fn with_key(s: Seq<Parsed>, k: (Seq<char>, i64)) -> Seq<Parsed> {
    s.filter(|p: Parsed| key_of(p) == k)
}

/// `t` holds the captures of `s` in order, and those with the same key as they stood.
pub open spec fn sorted_from(s: Seq<Parsed>, t: Seq<Parsed>) -> bool {
    &&& in_order(t)
    &&& forall|k: (Seq<char>, i64)| #[trigger] with_key(t, k) == with_key(s, k)
}

proof fn lemma_no_match(s: Seq<Parsed>, q: spec_fn(Parsed) -> bool)
    requires
        forall|i: int| 0 <= i < s.len() ==> !q(#[trigger] s[i]),
    ensures
        s.filter(q) == Seq::<Parsed>::empty(),
    decreases s.len(),
{
    reveal(Seq::filter);
    if s.len() > 0 {
        lemma_no_match(s.drop_last(), q);
        assert(!q(s[s.len() - 1]));
    }
}

/// Putting a capture behind all that it does not come before keeps the order.
proof fn lemma_insert(s: Seq<Parsed>, t: Seq<Parsed>, x: Parsed, j: int)
    requires
        sorted_from(s, t),
        0 <= j <= t.len(),
        forall|i: int| 0 <= i < j ==> !precedes(key_of(x), key_of(#[trigger] t[i])),
        forall|i: int| j <= i < t.len() ==> precedes(key_of(x), key_of(#[trigger] t[i])),
    ensures
        sorted_from(s.push(x), t.insert(j, x)),
{
    let u = t.insert(j, x);
    assert forall|a: int, b: int|
        #![trigger u[a], u[b]]
        0 <= a < b < u.len() implies !precedes(key_of(u[b]), key_of(u[a])) by {
        let ta = if a < j {
            t[a]
        } else {
            t[a - 1]
        };
        let tb = if b < j {
            t[b]
        } else {
            t[b - 1]
        };
        if a == j {
            assert(precedes(key_of(x), key_of(t[b - 1])));
            lemma_precedes(key_of(x), key_of(t[b - 1]), key_of(x));
        } else if b == j {
            assert(u[a] == t[a]);
        } else {
            assert(u[a] == ta && u[b] == tb);
        }
    }
    assert forall|k: (Seq<char>, i64)| #[trigger] with_key(u, k) == with_key(s.push(x), k) by {
        let q = |p: Parsed| key_of(p) == k;
        let head = t.take(j);
        let tail = t.skip(j);
        assert(t =~= head + tail);
        assert(u =~= head.push(x) + tail);
        Seq::filter_distributes_over_add(head, tail, q);
        Seq::filter_distributes_over_add(head.push(x), tail, q);
        assert(head.push(x).filter(q) == (if q(x) {
            head.filter(q).push(x)
        } else {
            head.filter(q)
        })) by {
            reveal(Seq::filter);
            assert(head.push(x).drop_last() =~= head);
        }
        assert(s.push(x).filter(q) == (if q(x) {
            s.filter(q).push(x)
        } else {
            s.filter(q)
        })) by {
            reveal(Seq::filter);
            assert(s.push(x).drop_last() =~= s);
        }
        assert(with_key(t, k) == with_key(s, k));
        if q(x) {
            assert forall|i: int| 0 <= i < tail.len() implies !q(#[trigger] tail[i]) by {
                assert(tail[i] == t[j + i]);
                lemma_precedes(key_of(x), key_of(t[j + i]), key_of(x));
            }
            lemma_no_match(tail, q);
            assert(head.filter(q).push(x) + tail.filter(q) =~= (head.filter(q) + tail.filter(
                q,
            )).push(x));
        }
    }
}

fn row_precedes(a: &RowInput, b: &RowInput) -> (r: bool)
    ensures
        r == precedes((a.session_id@, a.ts), (b.session_id@, b.ts)),
{
    if text::same(a.session_id.as_str(), b.session_id.as_str()) {
        proof {
            text::lemma_less_irreflexive(a.session_id@, 0);
        }
        a.ts < b.ts
    } else {
        text::text_less(a.session_id.as_str(), b.session_id.as_str())
    }
}

/// Orders the captures by session and time. Those with the same session and time stay as they stood.
pub fn sort_captures(captures: Vec<Parsed>) -> (r: Vec<Parsed>)
    ensures
        sorted_from(captures@, r@),
{
    let mut out: Vec<Parsed> = Vec::new();
    let ghost all = captures@;
    proof {
        assert(all.take(0) =~= Seq::empty());
        assert forall|k: (Seq<char>, i64)| #[trigger] with_key(out@, k) == with_key(all.take(0), k)
            by {
            assert(out@ =~= all.take(0));
        }
    }
    for p in it: captures
        invariant
            it.seq() == all,
            sorted_from(all.take(it.index() as int), out@),
    {
        let ghost done = all.take(it.index() as int);
        let mut low: usize = 0;
        let mut high: usize = out.len();
        while low < high
            invariant
                low <= high <= out@.len(),
                in_order(out@),
                forall|i: int| 0 <= i < low ==> !precedes(key_of(p), key_of(#[trigger] out@[i])),
                forall|i: int|
                    high <= i < out@.len() ==> precedes(key_of(p), key_of(#[trigger] out@[i])),
            decreases high - low,
        {
            let mid: usize = low + (high - low) / 2;
            let before: bool = row_precedes(&p.row, &out[mid].row);
            proof {
                assert forall|i: int| 0 <= i < out@.len() implies (if before {
                    i >= mid ==> precedes(key_of(p), key_of(#[trigger] out@[i]))
                } else {
                    i <= mid ==> !precedes(key_of(p), key_of(out@[i]))
                }) by {
                    let m = out@[mid as int];
                    lemma_precedes(key_of(p), key_of(m), key_of(out@[i]));
                    lemma_precedes(key_of(p), key_of(out@[i]), key_of(m));
                    lemma_precedes(key_of(m), key_of(out@[i]), key_of(m));
                }
            }
            if before {
                high = mid;
            } else {
                low = mid + 1;
            }
        }
        proof {
            lemma_insert(done, out@, p, low as int);
            assert(all.take(it.index() as int + 1) =~= done.push(p));
        }
        out.insert(low, p);
    }
    assert(all.take(all.len() as int) =~= all);
    out
}

/// The time since the capture before the one at `i`, where both are of the same session.
pub open spec fn gap_at(s: Seq<Parsed>, i: int) -> Option<int> {
    if 0 < i && s[i].row.session_id@ == s[i - 1].row.session_id@ && s[i].row.session_id@.len()
        > 0 {
        Some(s[i].row.ts - s[i - 1].row.ts)
    } else {
        None
    }
}

/// The gap at `i` can be told.
pub open spec fn gap_fits(s: Seq<Parsed>, i: int) -> bool {
    gap_at(s, i) matches Some(g) ==> i64::MIN <= g <= i64::MAX
}

/// Whether all the gaps between the captures can be told.
pub fn gaps_fit(captures: &Vec<Parsed>) -> (r: bool)
    ensures
        r == forall|i: int| 0 <= i < captures@.len() ==> #[trigger] gap_fits(captures@, i),
{
    let n: usize = captures.len();
    let mut i: usize = 0;
    while i < n
        invariant
            n == captures@.len(),
            i <= n,
            forall|j: int| 0 <= j < i ==> #[trigger] gap_fits(captures@, j),
        decreases n - i,
    {
        if i > 0 && text::same(
            captures[i].row.session_id.as_str(),
            captures[i - 1].row.session_id.as_str(),
        ) && !captures[i].row.session_id.as_str().is_empty() {
            let g: i128 = captures[i].row.ts as i128 - captures[i - 1].row.ts as i128;
            if g < i64::MIN as i128 || g > i64::MAX as i128 {
                assert(!gap_fits(captures@, i as int));
                return false;
            }
        }
        assert(gap_fits(captures@, i as int));
        i += 1;
    }
    true
}

/// The gap at `i`.
pub open spec fn told_gap(s: Seq<Parsed>, i: int) -> Option<i64> {
    match gap_at(s, i) {
        Some(g) => Some(g as i64),
        None => None,
    }
}

/// The row of a capture with the gap before it and what an hour's lifetime gained.
pub open spec fn gapped(p: Parsed, gap: Option<i64>) -> RowView {
    let price = usage::prices_of(usage::family_of(text::lowered(p.model@))).0;
    let (saved_marginal, write_premium, _) = usage::marginal_of(p.usage, price, gap);
    RowView { gap_ms: gap, saved_marginal, write_premium, ..p.row@ }
}

/// The rows of captures in order, each priced by the gap since its session's previous one.
pub fn price_captures(captures: Vec<Parsed>) -> (r: Vec<RowInput>)
    requires
        forall|i: int| 0 <= i < captures@.len() ==> #[trigger] gap_fits(captures@, i),
    ensures
        r@.len() == captures@.len(),
        forall|i: int|
            0 <= i < r@.len() ==> (#[trigger] r@[i])@ == gapped(
                captures@[i],
                told_gap(captures@, i),
            ),
        forall|i: int|
            0 <= i < r@.len() && captures@[i].usage.ephem_1h >= 0 ==> (
            #[trigger] r@[i]).write_premium >= 0,
{
    let ghost all = captures@;
    let mut out: Vec<RowInput> = Vec::new();
    let mut prev_session: String = String::new();
    let mut prev_ts: i64 = 0;
    for p in it: captures
        invariant
            it.seq() == all,
            forall|i: int| 0 <= i < all.len() ==> #[trigger] gap_fits(all, i),
            out@.len() == it.index(),
            forall|i: int|
                0 <= i < out@.len() ==> (#[trigger] out@[i])@ == gapped(all[i], told_gap(all, i)),
            forall|i: int|
                0 <= i < out@.len() && all[i].usage.ephem_1h >= 0 ==> (
                #[trigger] out@[i]).write_premium >= 0,
            it.index() == 0 ==> prev_session@.len() == 0,
            it.index() > 0 ==> prev_session@ == all[it.index() as int - 1].row.session_id@
                && prev_ts == all[it.index() as int - 1].row.ts,
    {
        let ghost i = it.index() as int;
        assert(gap_fits(all, i));
        let mut row: RowInput = p.row;
        let gap_ms: Option<i64> = if text::same(row.session_id.as_str(), prev_session.as_str())
            && !row.session_id.as_str().is_empty() {
            Some(row.ts - prev_ts)
        } else {
            None
        };
        assert(gap_ms == told_gap(all, i));
        let marginal: Marginal = usage::compute_marginal(&p.usage, p.model.as_str(), gap_ms);
        row.gap_ms = gap_ms;
        row.saved_marginal = marginal.saved;
        row.write_premium = marginal.write_premium;
        prev_session = row.session_id.clone();
        prev_ts = row.ts;
        assert(row@ == gapped(all[i], told_gap(all, i)));
        out.push(row);
    }
    out
}

/// Sorting loses no capture and makes up none: each is there as often as it was.
pub proof fn law_sorting_keeps_every_capture(s: Seq<Parsed>, t: Seq<Parsed>)
    requires
        sorted_from(s, t),
    ensures
        t.to_multiset() == s.to_multiset(),
{
    assert forall|p: Parsed| #[trigger]
        t.to_multiset().count(p) == s.to_multiset().count(p) by {
        let k = key_of(p);
        let q = |x: Parsed| key_of(x) == k;
        assert(with_key(t, k) == with_key(s, k));
        lemma_filter_count(s, q, p);
        lemma_filter_count(t, q, p);
    }
    assert(t.to_multiset() =~= s.to_multiset());
}

proof fn lemma_filter_count(s: Seq<Parsed>, q: spec_fn(Parsed) -> bool, p: Parsed)
    requires
        q(p),
    ensures
        s.filter(q).to_multiset().count(p) == s.to_multiset().count(p),
    decreases s.len(),
{
    broadcast use vstd::seq_lib::group_to_multiset_ensures;

    reveal(Seq::filter);
    if s.len() > 0 {
        let head = s.drop_last();
        lemma_filter_count(head, q, p);
        assert(s =~= head.push(s.last()));
    }
}

/// In sorted captures no gap is negative.
pub proof fn law_gaps_are_never_negative(t: Seq<Parsed>, i: int)
    requires
        in_order(t),
        0 <= i < t.len(),
    ensures
        gap_at(t, i) matches Some(g) ==> g >= 0,
{
    if 0 < i && t[i].row.session_id@ == t[i - 1].row.session_id@ {
        assert(!precedes(key_of(t[i]), key_of(t[i - 1])));
    }
}

/// In sorted captures the gap is since the latest request of the same session that came no later: no
/// capture of the session stands elsewhere between the two.
pub proof fn law_gap_is_since_the_previous_request(t: Seq<Parsed>, i: int, j: int)
    requires
        in_order(t),
        0 <= j < i < t.len(),
        t[j].row.session_id@ == t[i].row.session_id@,
        t[i].row.session_id@.len() > 0,
    ensures
        t[i - 1].row.session_id@ == t[i].row.session_id@,
        gap_at(t, i) == Some(t[i].row.ts - t[i - 1].row.ts),
        t[j].row.ts <= t[i - 1].row.ts,
{
    let a = key_of(t[j]);
    let b = key_of(t[i - 1]);
    let c = key_of(t[i]);
    if j < i - 1 {
        assert(!precedes(b, a));
        assert(!precedes(c, b));
        lemma_precedes(a, b, c);
        lemma_precedes(b, c, a);
        lemma_precedes(c, a, b);
        text::lemma_less_irreflexive(a.0, 0);
        if b.0 != a.0 {
            assert(a.0.take(0) =~= b.0.take(0));
            text::lemma_less_total(a.0, b.0, 0);
            if text::less(a.0, b.0) {
                assert(text::less(c.0, b.0));
            }
        }
    }
}

/// A request that is metered out of its logs is priced as it would have been when it came.
pub proof fn law_backfill_prices_as_the_meter(
    p: Parsed,
    req_id: Seq<char>,
    ts: i64,
    who: IdentityView,
    gap: Option<i64>,
)
    requires
        p.row@ == ungapped(store::priced_row(req_id, ts, who, p.model@, p.usage, None)),
    ensures
        gapped(p, gap) == store::priced_row(req_id, ts, who, p.model@, p.usage, gap),
{
}

} // verus!
