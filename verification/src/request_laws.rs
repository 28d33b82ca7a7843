//! What becomes of a request on its way through the proxy: its headers, its body and what is kept of
//! its response.

use vstd::prelude::*;
use vstd::string::*;
use vstd::utf8::*;

use crate::cache;
use crate::config::Config;
use crate::http_decode;
use crate::json;
use crate::json::JsonView;
use crate::patterns;
use crate::server;
use crate::server::{Beta, HeaderView};
use crate::store;
use crate::text;
use crate::transform::Transform;
use crate::usage;

verus! {

/// The headers that belong to one connection.
pub open spec fn of_a_connection() -> Seq<Seq<char>> {
    seq![
        "connection"@,
        "keep-alive"@,
        "proxy-authenticate"@,
        "proxy-authorization"@,
        "te"@,
        "trailer"@,
        "transfer-encoding"@,
        "upgrade"@,
    ]
}

proof fn lemma_of_a_connection(name: Seq<char>)
    ensures
        server::hop_by_hop(name) <==> of_a_connection().contains(name),
{
    let l = of_a_connection();
    assert(l[0] == "connection"@ && l[1] == "keep-alive"@ && l[2] == "proxy-authenticate"@ && l[3]
        == "proxy-authorization"@ && l[4] == "te"@ && l[5] == "trailer"@ && l[6]
        == "transfer-encoding"@ && l[7] == "upgrade"@);
}

proof fn lemma_filter_same(
    s: Seq<HeaderView>,
    p: spec_fn(HeaderView) -> bool,
    q: spec_fn(HeaderView) -> bool,
)
    requires
        forall|b: HeaderView| #[trigger] p(b) == q(b),
    ensures
        s.filter(p) == s.filter(q),
    decreases s.len(),
{
    reveal(Seq::filter);
    if s.len() > 0 {
        lemma_filter_same(s.drop_last(), p, q);
        assert(p(s.last()) == q(s.last()));
    }
}

/// Upstream go all header lines as they came and in their order, but for those of the connection, the
/// host and the length of the body, in whatever case their names are. Back go all but those of the
/// connection.
pub proof fn law_headers_go_through(hs: Seq<HeaderView>)
    ensures
        server::upstream_of(hs) == hs.filter(
            |h: HeaderView|
                !of_a_connection().contains(text::lowered(h.name)) && text::lowered(h.name)
                    != "host"@ && text::lowered(h.name) != "content-length"@,
        ),
        server::downstream_of(hs) == hs.filter(
            |h: HeaderView| !of_a_connection().contains(h.name),
        ),
{
    let p = |h: HeaderView| !server::kept_back(text::lowered(h.name));
    let q = |h: HeaderView|
        !of_a_connection().contains(text::lowered(h.name)) && text::lowered(h.name) != "host"@
            && text::lowered(h.name) != "content-length"@;
    assert forall|h: HeaderView| #[trigger] p(h) == q(h) by {
        lemma_of_a_connection(text::lowered(h.name));
    }
    lemma_filter_same(hs, p, q);
    let r = |h: HeaderView| !server::hop_by_hop(h.name);
    let s = |h: HeaderView| !of_a_connection().contains(h.name);
    assert forall|h: HeaderView| #[trigger] r(h) == s(h) by {
        lemma_of_a_connection(h.name);
    }
    lemma_filter_same(hs, r, s);
}

/// A value is shown as a text where each byte is a tab or from space to tilde: byte by byte.
pub proof fn law_visible_values_are_shown(v: Seq<u8>, i: int)
    requires
        0 <= i < v.len(),
    ensures
        server::visible_text(v) matches Some(t) ==> t.len() == v.len() && t[i] as u32 == v[i] as u32
            && (v[i] == 9 || 32 <= v[i] <= 126),
        (forall|k: int| 0 <= k < v.len() ==> #[trigger] v[k] == 9 || 32 <= v[k] <= 126)
            ==> server::visible_text(v) is Some,
{
    if server::visible_text(v) is Some {
        assert(server::visible(v[i]));
        let b = v[i];
        assert((b as char) as u32 == b as u32);
    }
}

/// The header line that counts for a name is the first with that name.
pub proof fn law_the_first_line_counts(hs: Seq<HeaderView>, name: Seq<char>, i: int)
    requires
        0 <= i < hs.len(),
        hs[i].name == name,
        forall|k: int| 0 <= k < i ==> (#[trigger] hs[k]).name != name,
    ensures
        server::header_text_of(hs, name) == server::visible_text(hs[i].value),
        server::header_text_of(hs, name) matches Some(t) ==> server::header_text_of(
            hs.push(HeaderView { name, value: seq![] }),
            name,
        ) == Some(t),
{
    lemma_first_is(hs, name, 0, i);
    let more = hs.push(HeaderView { name, value: seq![] });
    assert forall|k: int| 0 <= k < i implies (#[trigger] more[k]).name != name by {
        assert(more[k] == hs[k]);
    }
    assert(more[i] == hs[i]);
    lemma_first_is(more, name, 0, i);
}

/// A name that no line has is not there.
pub proof fn law_missing_headers_are_missing(hs: Seq<HeaderView>, name: Seq<char>)
    requires
        forall|k: int| 0 <= k < hs.len() ==> (#[trigger] hs[k]).name != name,
    ensures
        server::header_text_of(hs, name) is None,
{
    server::lemma_first_named(hs, name, 0);
}

proof fn lemma_first_is(hs: Seq<HeaderView>, name: Seq<char>, i: int, j: int)
    requires
        0 <= i <= j < hs.len(),
        hs[j].name == name,
        forall|k: int| i <= k < j ==> (#[trigger] hs[k]).name != name,
    ensures
        server::first_named(hs, name, i) == Some(j),
    decreases j - i,
{
    if i < j {
        assert(hs[i].name != name);
        lemma_first_is(hs, name, i + 1, j);
    }
}

/// A request sends messages if and only if it posts a body that is announced as JSON to one of the two
/// message paths. Its body is changed if the settings ask for any change, and its response is metered
/// if there are metrics and a store and it is no mere count of tokens.
pub proof fn law_requests_are_planned(
    c: Config,
    has_store: bool,
    method: Seq<char>,
    path: Seq<char>,
    hs: Seq<HeaderView>,
    empty: bool,
)
    ensures
        ({
            let p = server::plan_of(c, has_store, method, path, hs, empty);
            let json = server::header_text_of(hs, "content-type"@) matches Some(t) && text::holds(
                t,
                "application/json"@,
            );
            &&& p.messages <==> !empty && method == "POST"@ && json && (path == "/v1/messages"@
                || path == "/v1/messages/count_tokens"@)
            &&& p.mutate <==> p.messages && (c.auto_cache || c.transform_enabled
                || c.model_override@ != Seq::<char>::empty())
            &&& p.meter <==> p.messages && c.metrics && has_store && path == "/v1/messages"@
        }),
{
    reveal_strlit("/v1/messages");
    reveal_strlit("/v1/messages/count_tokens");
    assert("/v1/messages"@.len() != "/v1/messages/count_tokens"@.len());
    if c.model_override@.len() == 0 {
        assert(c.model_override@ =~= Seq::<char>::empty());
    }
}

/// Some of the comma-separated flags is the one that lets breakpoints live an hour.
pub open spec fn flagged(t: Seq<char>) -> bool {
    exists|i: int|
        0 <= i < text::split_of(t, ',').len() && text::trim_of(
            #[trigger] text::split_of(t, ',')[i],
        ) == "extended-cache-ttl-2025-04-11"@
}

/// The text of a header line; empty where it cannot be shown.
pub open spec fn shown(h: HeaderView) -> Seq<char> {
    match server::visible_text(h.value) {
        Some(t) => t,
        None => seq![],
    }
}

/// The line asks for breakpoints that live an hour.
pub open spec fn asks_for_an_hour(h: HeaderView) -> bool {
    h.name == "anthropic-beta"@ && flagged(shown(h))
}

/// The flag for breakpoints that live an hour is always sent: where no line has flags one is put behind
/// the others, where a line has the flag nothing happens, and otherwise it is put behind a comma at the
/// end of the first line with flags.
pub proof fn law_the_beta_flag_is_seen_to(hs: Seq<HeaderView>)
    ensures
        ({
            let ws = server::with_beta(hs);
            let none = forall|k: int|
                0 <= k < hs.len() ==> (#[trigger] hs[k]).name != "anthropic-beta"@;
            let there = exists|k: int| 0 <= k < hs.len() && asks_for_an_hour(#[trigger] hs[k]);
            &&& none <==> server::beta_of(hs) == Beta::Added
            &&& there <==> server::beta_of(hs) == Beta::Present
            &&& none ==> ws.len() == hs.len() + 1 && ws.drop_last() == hs && ws.last().name
                == "anthropic-beta"@ && shown(ws.last()) == "extended-cache-ttl-2025-04-11"@
            &&& there ==> ws == hs
            &&& !none && !there ==> ws.len() == hs.len() && exists|i: int|
                0 <= i < hs.len() && (#[trigger] hs[i]).name == "anthropic-beta"@ && (forall|k: int|
                    0 <= k < i ==> (#[trigger] hs[k]).name != "anthropic-beta"@) && ws
                    == hs.update(i, ws[i]) && ws[i].name == "anthropic-beta"@ && shown(ws[i])
                    == shown(hs[i]) + ","@ + "extended-cache-ttl-2025-04-11"@
            &&& exists|k: int| 0 <= k < ws.len() && asks_for_an_hour(#[trigger] ws[k])
        }),
{
    let ws = server::with_beta(hs);
    server::lemma_first_named(hs, "anthropic-beta"@, 0);
    server::lemma_flag_text();
    server::law_beta_flag_is_sent(hs);
    assert forall|h: HeaderView| asks_for_an_hour(h) == #[trigger] server::carries_flag(h) by {
        lemma_flagged(server::shown_value(h));
    }
    if exists|k: int| 0 <= k < hs.len() && asks_for_an_hour(#[trigger] hs[k]) {
        let k = choose|k: int| 0 <= k < hs.len() && asks_for_an_hour(#[trigger] hs[k]);
        assert(server::carries_flag(hs[k]));
        assert(hs[k].name == "anthropic-beta"@);
    }
    if server::beta_of(hs) == Beta::Present {
        let k = choose|k: int| 0 <= k < hs.len() && server::carries_flag(#[trigger] hs[k]);
        assert(asks_for_an_hour(hs[k]));
    }
    let k = choose|k: int| 0 <= k < ws.len() && server::carries_flag(#[trigger] ws[k]);
    assert(asks_for_an_hour(ws[k]));
    match server::beta_of(hs) {
        Beta::Added => {
            server::lemma_shown_again("anthropic-beta"@, "extended-cache-ttl-2025-04-11"@);
            assert(ws.drop_last() =~= hs);
        },
        Beta::Present => {},
        Beta::Appended => {
            let i = server::first_named(hs, "anthropic-beta"@, 0)->0;
            lemma_first_before(hs, "anthropic-beta"@, 0);
            let t = shown(hs[i]);
            let f = "extended-cache-ttl-2025-04-11"@;
            let u = t + ","@ + f;
            reveal_strlit(",");
            server::lemma_shown_is_visible(hs[i]);
            assert forall|k: int| 0 <= k < u.len() implies (' ' <= #[trigger] u[k] && u[k]
                < '\u{7f}') || u[k] == '\t' by {
                if k < t.len() {
                    assert(u[k] == t[k]);
                } else if k > t.len() {
                    assert(u[k] == f[k - t.len() - 1]);
                }
            }
            server::lemma_shown_again("anthropic-beta"@, u);
            assert(ws =~= hs.update(i, ws[i]));
            assert(hs[i].name == "anthropic-beta"@);
        },
    }
}

proof fn lemma_first_before(hs: Seq<HeaderView>, name: Seq<char>, i: int)
    requires
        0 <= i,
    ensures
        server::first_named(hs, name, i) matches Some(j) ==> forall|k: int|
            i <= k < j ==> (#[trigger] hs[k]).name != name,
    decreases hs.len() - i,
{
    if i < hs.len() && hs[i].name != name {
        lemma_first_before(hs, name, i + 1);
    }
}

proof fn lemma_flagged(t: Seq<char>)
    ensures
        flagged(t) == server::names_flag(t),
{
    let ps = text::split_of(t, ',');
    if flagged(t) {
        let i = choose|i: int|
            0 <= i < ps.len() && text::trim_of(#[trigger] ps[i])
                == "extended-cache-ttl-2025-04-11"@;
        assert(0 <= i < text::split_of(t, ',').len() && text::trim_of(text::split_of(t, ',')[i])
            == "extended-cache-ttl-2025-04-11"@);
    }
}

/// The body is changed in this order, each step where it is asked for: the forced model, the transform,
/// the breakpoints. Those are stripped from the middle, placed and then timed.
pub proof fn law_bodies_are_changed_in_order(
    body: JsonView,
    c: Config,
    transform: Option<&Transform>,
)
    ensures
        ({
            let named = server::remodeled(body, c.model_override@);
            let moved = match transform {
                Some(t) => t.applied(named),
                None => named,
            };
            &&& !c.auto_cache ==> server::mutated(body, c, transform) == moved
            &&& c.auto_cache ==> server::mutated(body, c, transform) == cache::ttls_applied(
                cache::injected(cache::intermediate_stripped(moved), c.tail_ttl@),
                c.tail_ttl@,
            )
        }),
{
}

/// Each change that is made is noted, in the order of the changes.
pub proof fn law_changes_are_noted(body: JsonView, c: Config, transform: Option<&Transform>)
    ensures
        ({
            let notes = server::notes_of(body, c, transform);
            let m = c.model_override@;
            let n = (if m.len() > 0 {
                1int
            } else {
                0int
            });
            let k = (if transform is Some {
                1int
            } else {
                0int
            });
            &&& notes.len() == n + k + (if c.auto_cache {
                1int
            } else {
                0int
            })
            &&& m.len() > 0 ==> text::begins(
                notes[0],
                "model="@ + (match json::text_field(body, "model"@) {
                    Some(t) => t,
                    None => seq![],
                }) + "->"@ + m + ",sys-rewrites="@,
            )
            &&& transform is Some ==> notes[n] == "transform=ok"@
            &&& c.auto_cache ==> text::begins(notes[n + k], "cache=rewrote:"@)
        }),
{
    let notes = server::notes_of(body, c, transform);
    let m = c.model_override@;
    if m.len() > 0 {
        let head = "model="@ + server::model_named(body) + "->"@ + m + ",sys-rewrites="@;
        assert(Seq::<char>::empty() =~= seq![]);
        assert(notes[0].take(head.len() as int) =~= head);
    }
    if c.auto_cache {
        let head = "cache=rewrote:"@;
        let last = notes[notes.len() - 1];
        assert(last.take(head.len() as int) =~= head);
    }
}

/// The note on breakpoints says how many were given an hour, had one or stand in the last message, what
/// was placed, how many were stripped from the middle and how long the rolling tail lives.
pub proof fn law_the_cache_note_tells_the_counts(body: JsonView, tail: Seq<char>)
    ensures
        ({
            let b1 = cache::intermediate_stripped(body);
            let b2 = cache::injected(b1, tail);
            server::cache_note(body, tail) == "cache=rewrote:"@ + text::decimal_of(
                cache::shown(cache::head_tally(b2, false)),
            ) + ",already:"@ + text::decimal_of(cache::shown(cache::head_tally(b2, true)))
                + ",skipped:"@ + text::decimal_of(cache::shown(cache::tail_tally(b2)))
                + ",inject:"@ + cache::inject_note(cache::inject_tags(b1, tail))
                + ",mid-stripped:"@ + text::decimal_of(
                cache::shown(cache::intermediate_count(body)),
            ) + ",tail-ttl:"@ + tail
        }),
        forall|n: nat| n <= u32::MAX ==> #[trigger] cache::shown(n) == n,
{
}

/// Of a response at most 8 MiB are kept for metering: one chunk more is put behind what was kept, or
/// takes it all away.
pub proof fn law_eight_mebibytes_are_kept(kept: Seq<u8>, chunk: Seq<u8>)
    ensures
        kept.len() + chunk.len() <= 8_388_608 ==> server::fed(Some(kept), chunk) == Some(
            kept + chunk,
        ),
        kept.len() + chunk.len() > 8_388_608 ==> server::fed(Some(kept), chunk) is None,
        server::fed(None, chunk) is None,
{
}

/// The beta flag is sent where breakpoints are placed, and only there.
pub proof fn law_the_flag_goes_with_breakpoints(c: Config, parsed: bool)
    ensures
        server::needs_beta(c, parsed) <==> c.auto_cache && parsed,
        server::beta_word_of(None) == "skipped"@,
        server::beta_word_of(Some(Beta::Added)) == "added"@,
        server::beta_word_of(Some(Beta::Present)) == "present"@,
        server::beta_word_of(Some(Beta::Appended)) == "appended"@,
{
}

/// Headers as an object: of each name, in lower case, the first value counts, and one that cannot be
/// shown is empty.
pub proof fn law_headers_are_looked_up_by_name(hs: Seq<HeaderView>, k: Seq<char>, i: int)
    ensures
        (0 <= i < hs.len() && text::lowered(hs[i].name) == k && forall|j: int|
            0 <= j < i ==> text::lowered((#[trigger] hs[j]).name) != k) ==> json::field(
            JsonView::Obj(server::header_entries(hs)),
            k,
        ) == Some(JsonView::Str(shown(hs[i]))),
        (forall|j: int| 0 <= j < hs.len() ==> text::lowered((#[trigger] hs[j]).name) != k)
            ==> json::field(JsonView::Obj(server::header_entries(hs)), k) is None,
{
    server::law_first_header_counts(hs, k);
    if 0 <= i < hs.len() && text::lowered(hs[i].name) == k && forall|j: int|
        0 <= j < i ==> text::lowered((#[trigger] hs[j]).name) != k {
        lemma_lowered_is(hs, k, 0, i);
        assert(Seq::<char>::empty() =~= seq![]);
    }
    if forall|j: int| 0 <= j < hs.len() ==> text::lowered((#[trigger] hs[j]).name) != k {
        lemma_lowered_none(hs, k, 0);
    }
}

proof fn lemma_lowered_is(hs: Seq<HeaderView>, k: Seq<char>, i: int, j: int)
    requires
        0 <= i <= j < hs.len(),
        text::lowered(hs[j].name) == k,
        forall|m: int| i <= m < j ==> text::lowered((#[trigger] hs[m]).name) != k,
    ensures
        server::first_lowered(hs, k, i) == Some(j),
    decreases j - i,
{
    if i < j {
        assert(text::lowered(hs[i].name) != k);
        lemma_lowered_is(hs, k, i + 1, j);
    }
}

proof fn lemma_lowered_none(hs: Seq<HeaderView>, k: Seq<char>, i: int)
    requires
        0 <= i,
        forall|m: int| i <= m < hs.len() ==> text::lowered((#[trigger] hs[m]).name) != k,
    ensures
        server::first_lowered(hs, k, i) is None,
    decreases hs.len() - i,
{
    if i < hs.len() {
        lemma_lowered_none(hs, k, i + 1);
    }
}

/// A response is decoded by what its content encoding names, in whatever case and with whatever white
/// space around it; one that names nothing is taken as it is, and one that is not understood is empty.
pub proof fn law_responses_are_decoded_by_name(buf: Seq<u8>, encoding: Seq<char>)
    ensures
        ({
            let name = text::lowered(text::trim_of(encoding));
            let t = server::response_text(buf, encoding);
            let of = |b: Option<Seq<u8>>|
                match b {
                    Some(x) => text::utf8_of(x),
                    None => Seq::<char>::empty(),
                };
            &&& name == "gzip"@ ==> t == of(http_decode::gunzipped(buf))
            &&& name == "br"@ ==> t == of(http_decode::unbrotlied(buf))
            &&& name == "deflate"@ ==> t == of(http_decode::inflated(buf))
            &&& name == "zstd"@ ==> t == of(http_decode::unzstded(buf))
            &&& name.len() == 0 ==> t == text::utf8_of(buf)
            &&& !(seq!["gzip"@, "br"@, "deflate"@, "zstd"@, ""@].contains(name)) ==> t
                == Seq::<char>::empty()
        }),
{
    let name = text::lowered(text::trim_of(encoding));
    reveal_strlit("gzip");
    reveal_strlit("br");
    reveal_strlit("deflate");
    reveal_strlit("zstd");
    reveal_strlit("");
    assert("gzip"@.len() == 4 && "br"@.len() == 2 && "deflate"@.len() == 7 && "zstd"@.len() == 4);
    assert("gzip"@[0] == 'g' && "zstd"@[0] == 'z');
    if name.len() == 0 {
        assert(name =~= ""@);
    }
    let l = seq!["gzip"@, "br"@, "deflate"@, "zstd"@, ""@];
    assert(l[0] == "gzip"@ && l[1] == "br"@ && l[2] == "deflate"@ && l[3] == "zstd"@ && l[4]
        == ""@);
}

/// `out` is what goes upstream for a request that came with the headers `hs`: `had` is its body where it
/// was read to be changed, and `left` what became of that. The headers are those that go upstream, with
/// the beta flag where the body was read and breakpoints are asked for; the notes tell of every change
/// and last of the flag; and the model is the one that the changed body names.
pub open spec fn goes_out(
    c: Config,
    transform: Option<&Transform>,
    hs: Seq<HeaderView>,
    had: Option<JsonView>,
    left: Option<JsonView>,
    out: server::Outgoing,
) -> bool {
    let up = server::upstream_of(hs);
    let flag = c.auto_cache && had is Some;
    let notes = text::texts(out.notes@);
    &&& had is None ==> left is None
    &&& had matches Some(b) ==> left == Some(server::mutated(b, c, transform))
    &&& flag ==> server::lines(out.headers@) == server::with_beta(up)
    &&& !flag ==> server::lines(out.headers@) == up
    &&& notes.len() > 0
    &&& flag && server::beta_of(up) == Beta::Added ==> notes.last() == "beta="@ + "added"@
    &&& flag && server::beta_of(up) == Beta::Present ==> notes.last() == "beta="@ + "present"@
    &&& flag && server::beta_of(up) == Beta::Appended ==> notes.last() == "beta="@ + "appended"@
    &&& !flag ==> notes.last() == "beta="@ + "skipped"@
    &&& had matches Some(b) ==> notes.drop_last() == server::notes_of(b, c, transform)
    &&& had is None ==> notes.len() == 1
    &&& out.fallback_model@ == (match left {
        Some(b) => match json::text_field(b, "model"@) {
            Some(m) => m,
            None => seq![],
        },
        None => seq![],
    })
}

/// A response is metered if and only if it reports usage: by the tokens that it reports and the model
/// that it names, or else the request, for whom the request is counted, after the time since the
/// session's previous request.
pub proof fn law_responses_are_metered(job: server::MeterJob, last: Option<i64>)
    ensures
        ({
            let t = server::response_text(job.buf@, job.content_encoding@);
            let row = server::metered(job, last);
            &&& row is Some <==> usage::usage_in(t) is Some
            &&& row is Some ==> {
                let r = row->0;
                let u = usage::usage_in(t)->0;
                &&& r.req_id == job.req_id@ && r.ts == job.ts
                &&& r.session_id == job.identity.session_id@ && r.agent_id
                    == job.identity.agent_id@ && r.parent_agent == job.identity.parent_agent_id@
                    && r.project == job.identity.project@
                &&& patterns::first_model(t, 0) matches Some(m) ==> r.model == m
                &&& patterns::first_model(t, 0) is None ==> r.model == job.fallback_model@
                &&& r.input_tokens == u.input_tokens && r.output_tokens == u.output_tokens
                    && r.cache_read == u.cache_read && r.cache_create == u.cache_create
                    && r.ephem_5m == u.ephem_5m && r.ephem_1h == u.ephem_1h
                &&& last is Some && job.identity.session_id@.len() > 0 && store::span_known(
                    last->0,
                    job.ts,
                ) ==> r.gap_ms == Some((job.ts - last->0) as i64)
                &&& last is None || job.identity.session_id@.len() == 0 ==> r.gap_ms is None
                &&& r.family == usage::family_of(text::lowered(r.model))
                &&& r.saved + r.cost_actual == r.cost_uncached
            }
        }),
{
}

/// A body can be changed as asked unless a model is to go into something that is neither an object nor
/// null, or a conversation of several messages is to be restructured that are not all objects or null.
pub proof fn law_bodies_can_be_changed(body: JsonView, c: Config, transform: bool)
    ensures
        server::mutable(body, c, transform) <==> {
            &&& c.model_override@.len() == 0 || body is Obj || body is Null
            &&& !transform || (json::arr_field(body, "messages"@) matches Some(ms) ==> ms.len() < 2
                || forall|i: int| 0 <= i < ms.len() ==> (#[trigger] ms[i] is Obj || ms[i] is Null))
        },
{
}

} // verus!
