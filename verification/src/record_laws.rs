//! What is recorded of a request, and how records are read, grouped and shown.

use vstd::prelude::*;
use vstd::string::*;
use vstd::utf8::*;

use crate::backfill;
use crate::backfill::Parsed;
use crate::identity;
use crate::identity::IdentityView;
use crate::json;
use crate::json::JsonView;
use crate::logger;
use crate::logger::Stamp;
use crate::patterns;
use crate::stats;
use crate::store;
use crate::store::{Dollars, MetaRow, RowInput};
use crate::text;
use crate::usage;
use crate::usage::Usage;

verus! {

/// A row holds what was measured: who asked, which model answered, the tokens as they were counted, the
/// cost as billed and without a cache at the prices of the model's family, what that saved, and what an
/// hour's lifetime gained after the gap.
pub proof fn law_rows_hold_what_was_measured(
    req_id: Seq<char>,
    ts: i64,
    who: IdentityView,
    model: Seq<char>,
    u: Usage,
    gap: Option<i64>,
)
    ensures
        ({
            let row = store::priced_row(req_id, ts, who, model, u, gap);
            let family = usage::family_of(text::lowered(model));
            let (p, q) = usage::prices_of(family);
            let gained = usage::marginal_of(u, p, gap);
            &&& row.req_id == req_id && row.ts == ts && row.model == model && row.family == family
            &&& row.session_id == who.session_id && row.agent_id == who.agent_id && row.parent_agent
                == who.parent_agent_id && row.project == who.project
            &&& row.input_tokens == u.input_tokens && row.output_tokens == u.output_tokens
                && row.cache_read == u.cache_read && row.cache_create == u.cache_create
                && row.ephem_5m == u.ephem_5m && row.ephem_1h == u.ephem_1h
            &&& row.cost_actual == usage::actual_cost(u, p, q) && row.cost_uncached
                == usage::uncached_cost(u, p, q) && row.saved + row.cost_actual == row.cost_uncached
            &&& row.gap_ms == gap && row.saved_marginal == gained.0 && row.write_premium == gained.1
            &&& row.saved_marginal + row.write_premium == (if gap matches Some(g) && g >= 300_000 {
                23 * u.cache_read * p
            } else {
                0
            })
            &&& is_ascii_chars(model) ==> (row.estimate <==> !(exists|f: Seq<char>| #[trigger]
                text::holds(text::lowered(model), f) && known_family(f)))
        }),
{
    let family = usage::family_of(text::lowered(model));
    let p = usage::prices_of(family).0;
    let r = u.cache_read as int;
    assert((25 * r - 2 * r) * p == 23 * r * p) by (nonlinear_arith);
    if is_ascii_chars(model) {
        let m = text::lowered(model);
        assert(known_family("opus"@) && known_family("haiku"@) && known_family("sonnet"@)
            && known_family("fable"@) && known_family("mythos"@));
    }
}

/// A family that prices are known of.
pub open spec fn known_family(f: Seq<char>) -> bool {
    f == "opus"@ || f == "haiku"@ || f == "sonnet"@ || f == "fable"@ || f == "mythos"@
}

/// The gap of a request is the time since the session's previous one. Without a session, or without a
/// previous request, there is none.
pub proof fn law_gaps_are_within_a_session(session: Seq<char>, ts: i64, last: i64)
    requires
        i64::MIN <= ts - last <= i64::MAX,
    ensures
        session.len() > 0 ==> store::gap_of(session, ts, Some(last)) == Some((ts - last) as i64),
        session.len() == 0 ==> store::gap_of(session, ts, Some(last)) is None,
        store::gap_of(session, ts, None) is None,
        store::span_known(last, ts),
{
}

/// A row is told of with every column, each under its own name, in the order of the table. A row
/// without a project is kept under `unknown`, and an estimate is told of as 1.
pub proof fn law_rows_are_told_with_every_column(r: RowInput, d: Dollars)
    ensures
        store::clean_row_of(r, d) matches JsonView::Obj(o) && o.len() == 21 && {
            &&& o[0] == ("req_id"@, JsonView::Str(r.req_id@))
            &&& o[1] == ("ts"@, json::int_of(r.ts))
            &&& o[2] == ("session_id"@, JsonView::Str(r.session_id@))
            &&& o[3] == ("agent_id"@, JsonView::Str(r.agent_id@))
            &&& o[4] == ("parent_agent"@, JsonView::Str(r.parent_agent@))
            &&& o[5].0 == "project"@ && (r.project@.len() > 0 ==> o[5].1 == JsonView::Str(
                r.project@,
            )) && (r.project@.len() == 0 ==> o[5].1 == JsonView::Str("unknown"@))
            &&& o[6] == ("model"@, JsonView::Str(r.model@))
            &&& o[7] == ("family"@, JsonView::Str(r.family@))
            &&& o[8] == ("input_tokens"@, json::int_of(r.input_tokens))
            &&& o[9] == ("cache_read"@, json::int_of(r.cache_read))
            &&& o[10] == ("cache_create"@, json::int_of(r.cache_create))
            &&& o[11] == ("ephem_5m"@, json::int_of(r.ephem_5m))
            &&& o[12] == ("ephem_1h"@, json::int_of(r.ephem_1h))
            &&& o[13] == ("output_tokens"@, json::int_of(r.output_tokens))
            &&& o[14] == ("cost_actual"@, JsonView::Num(d.cost_actual@))
            &&& o[15] == ("cost_uncached"@, JsonView::Num(d.cost_uncached@))
            &&& o[16] == ("saved"@, JsonView::Num(d.saved@))
            &&& o[17].0 == "estimate"@ && (r.estimate ==> o[17].1 == json::int_of(1)) && (
            !r.estimate ==> o[17].1 == json::int_of(0))
            &&& o[18].0 == "gap_ms"@ && (r.gap_ms is None ==> o[18].1 is Null) && (
            r.gap_ms matches Some(g) ==> o[18].1 == json::int_of(g))
            &&& o[19] == ("saved_marginal"@, JsonView::Num(d.saved_marginal@))
            &&& o[20] == ("write_premium"@, JsonView::Num(d.write_premium@))
        },
{
}

/// An integer is told of as the number that it is: without a sign where it needs none.
pub proof fn law_integers_are_told_as_they_are(n: i64)
    ensures
        json::number_form(json::int_of(n)->Num_0) == (if n < 0 {
            "-"@ + text::decimal_of((-(n as int)) as nat)
        } else {
            text::decimal_of(n as nat)
        }),
{
    reveal_strlit("-");
    assert("-"@ =~= seq!['-']);
}

/// Savings are grouped by session, agent, family or day where that is asked for, and by project
/// otherwise.
pub proof fn law_savings_are_grouped(by: Seq<char>)
    ensures
        by == "session"@ ==> store::group_of(by) == "session_id"@,
        by == "agent"@ ==> store::group_of(by) == "agent_id"@,
        by == "model"@ ==> store::group_of(by) == "family"@,
        by == "day"@ ==> store::group_of(by)
            == "strftime('%Y-%m-%d', ts/1000, 'unixepoch', 'localtime')"@,
        by != "session"@ && by != "agent"@ && by != "model"@ && by != "day"@ ==> store::group_of(by)
            == "project"@,
{
    reveal_strlit("session");
    reveal_strlit("agent");
    reveal_strlit("model");
    reveal_strlit("day");
    assert("session"@.len() == 7 && "agent"@.len() == 5 && "model"@.len() == 5 && "day"@.len()
        == 3);
    assert("agent"@[0] == 'a' && "model"@[0] == 'm');
}

/// Requests are listed by project, by session, by both or by neither, as is asked for.
pub proof fn law_lists_are_narrowed_as_asked(by_project: bool, by_session: bool)
    ensures
        store::where_of(true, true) == "WHERE project = ? AND session_id = ?"@,
        store::where_of(true, false) == "WHERE project = ?"@,
        store::where_of(false, true) == "WHERE session_id = ?"@,
        store::where_of(false, false) == ""@,
{
}

/// A table gets the columns that it lacks, and only those.
pub proof fn law_tables_get_what_they_lack(existing: Set<Seq<char>>, s: Seq<char>)
    ensures
        store::pending_of(existing).contains(s) <==> {
            ||| s == "ALTER TABLE requests ADD COLUMN gap_ms INTEGER"@ && !existing.contains(
                "gap_ms"@,
            )
            ||| s == "ALTER TABLE requests ADD COLUMN saved_marginal REAL DEFAULT 0"@
                && !existing.contains("saved_marginal"@)
            ||| s == "ALTER TABLE requests ADD COLUMN write_premium REAL DEFAULT 0"@
                && !existing.contains("write_premium"@)
        },
{
    let p = |m: (Seq<char>, Seq<char>)| !existing.contains(m.0);
    let f = |m: (Seq<char>, Seq<char>)| m.1;
    let ms = store::migrations();
    text::lemma_filter_step(ms, 0, p);
    text::lemma_filter_step(ms, 1, p);
    text::lemma_filter_step(ms, 2, p);
    assert(ms.take(0) =~= Seq::empty());
    assert(ms.take(0).filter(p) =~= Seq::empty()) by {
        reveal(Seq::filter);
    }
    assert(ms.take(3) =~= ms);
    let k = ms.filter(p);
    let r = k.map_values(f);
    let (a, b, c) = (p(ms[0]), p(ms[1]), p(ms[2]));
    let k1 = if a {
        Seq::<(Seq<char>, Seq<char>)>::empty().push(ms[0])
    } else {
        Seq::empty()
    };
    let k2 = if b {
        k1.push(ms[1])
    } else {
        k1
    };
    let k3 = if c {
        k2.push(ms[2])
    } else {
        k2
    };
    assert(k =~= k3);
    if r.contains(s) {
        let i = choose|i: int| 0 <= i < r.len() && r[i] == s;
        assert(r[i] == k3[i].1);
    }
    if a {
        assert(r[0] == ms[0].1);
    }
    if b {
        assert(r[k1.len() as int] == ms[1].1);
    }
    if c {
        assert(r[k2.len() as int] == ms[2].1);
    }
}

/// The stretches of a series are as narrow as they can be: at least a second, wide enough that as many
/// as were asked for cover the time, and no wider than that takes.
pub proof fn law_stretches_are_as_narrow_as_can_be(from: int, to: int, buckets: int, w: int)
    requires
        from < to,
        buckets >= 1,
        w >= 1000,
        w * buckets >= to - from,
    ensures
        1000 <= store::width_of(from, to, buckets) <= w,
        store::width_of(from, to, buckets) * buckets >= to - from,
{
    store::law_buckets_cover_the_span(from, to, buckets);
    let c = store::ceil_div(to - from, buckets);
    store::lemma_ceil_div(to - from, buckets);
    if w < c {
        assert(w * buckets <= (c - 1) * buckets) by (nonlinear_arith)
            requires
                w <= c - 1,
                buckets >= 1,
        ;
    }
}

/// Of each session its latest project is told, and of each of its families how many requests it made;
/// a row says nothing of other sessions.
pub proof fn law_rows_tell_of_their_sessions(rows: Seq<MetaRow>, r: MetaRow, s: Seq<char>)
    ensures
        json::field(store::meta_of(Seq::empty()), s) is None,
        s != r.session@ ==> json::field(store::meta_of(rows.push(r)), s) == json::field(
            store::meta_of(rows),
            s,
        ),
        json::field(store::meta_of(rows.push(r)), r.session@) matches Some(e) && {
            &&& json::field(e, "project"@) == Some(JsonView::Str(r.project@))
            &&& json::field(e, "models"@) matches Some(m) && json::field(m, r.family@) == Some(
                json::int_of(r.requests),
            ) && forall|f: Seq<char>|
                f != r.family@ ==> #[trigger] json::field(m, f) == (match json::field(
                    store::meta_of(rows),
                    r.session@,
                ) {
                    Some(old) => match json::field(old, "models"@) {
                        Some(n) => json::field(n, f),
                        None => None,
                    },
                    None => None,
                })
        },
{
    broadcast use json::group_json_fields;

    reveal_strlit("project");
    reveal_strlit("models");
    assert("project"@.len() == 7 && "models"@.len() == 6);
    let all = rows.push(r);
    assert(all.drop_last() =~= rows);
    json::lemma_index_none(Seq::<(Seq<char>, JsonView)>::empty(), s, 0);
    lemma_meta_form(rows, r.session@);
    let blank = store::blank_entry(r.project@);
    let o = blank->Obj_0;
    json::lemma_index_is(o, "project"@, 0, 0);
    json::lemma_index_is(o, "models"@, 0, 1);
    assert forall|f: Seq<char>| #[trigger] json::field(json::empty_object(), f) is None by {
        json::lemma_index_none(Seq::<(Seq<char>, JsonView)>::empty(), f, 0);
    }
}

/// What is told of sessions is an object, of each session too.
proof fn lemma_meta_form(rows: Seq<MetaRow>, s: Seq<char>)
    ensures
        store::meta_of(rows) is Obj,
        json::field(store::meta_of(rows), s) matches Some(e) ==> e is Obj && (json::field(
            e,
            "models"@,
        ) matches Some(m) && m is Obj),
    decreases rows.len(),
{
    broadcast use json::group_json_fields;

    reveal_strlit("project");
    reveal_strlit("models");
    assert("project"@.len() == 7 && "models"@.len() == 6);
    if rows.len() > 0 {
        let r = rows.last();
        lemma_meta_form(rows.drop_last(), s);
        lemma_meta_form(rows.drop_last(), r.session@);
        let o = store::blank_entry(r.project@)->Obj_0;
        json::lemma_index_is(o, "project"@, 0, 0);
        json::lemma_index_is(o, "models"@, 0, 1);
    } else {
        json::lemma_index_none(Seq::<(Seq<char>, JsonView)>::empty(), s, 0);
    }
}

/// A row of a rollup by session gets its session's project and families and keeps everything else; a
/// row of a session that nothing is told of stays.
pub proof fn law_rollups_by_session_tell_the_project(row: JsonView, meta: JsonView, q: Seq<char>)
    ensures
        ({
            let r = store::row_with_meta(row, meta);
            &&& q != "project"@ && q != "models"@ ==> json::field(r, q) == json::field(row, q)
            &&& json::text_field(row, "key"@) matches Some(k) ==> match json::field(meta, k) {
                Some(m) => {
                    &&& json::field(m, "project"@) matches Some(p) ==> json::field(r, "project"@)
                        == Some(p)
                    &&& json::field(m, "models"@) matches Some(p) ==> json::field(r, "models"@)
                        == Some(p)
                    &&& json::field(m, "project"@) is None ==> json::field(r, "project"@) == Some(
                        JsonView::Null,
                    )
                    &&& json::field(m, "models"@) is None ==> json::field(r, "models"@) == Some(
                        JsonView::Obj(Seq::empty()),
                    )
                },
                None => r == row,
            }
            &&& json::text_field(row, "key"@) is None ==> r == row
        }),
{
    broadcast use json::group_json_fields;

    reveal_strlit("project");
    reveal_strlit("models");
    assert("project"@.len() == 7 && "models"@.len() == 6);
}

/// The answer for a rollup names what it is grouped by, its window, its totals and its rows, which tell
/// of their sessions where they are grouped by those.
pub proof fn law_rollups_are_answered(
    by: Seq<char>,
    since: i64,
    totals: JsonView,
    rows: Seq<JsonView>,
    meta: Option<JsonView>,
)
    ensures
        store::stats_of(by, since, totals, rows, meta) matches JsonView::Obj(o) && o.len() == 4 && {
            &&& o[0] == ("groupBy"@, JsonView::Str(by))
            &&& o[1] == ("since"@, json::int_of(since))
            &&& o[2] == ("totals"@, totals)
            &&& o[3].0 == "rows"@ && (o[3].1 matches JsonView::Arr(shown) && shown.len()
                == rows.len() && forall|i: int|
                0 <= i < rows.len() ==> #[trigger] shown[i] == (if by == "session"@
                    && meta is Some {
                    store::row_with_meta(rows[i], meta->0)
                } else {
                    rows[i]
                }))
        },
{
}

/// A point of a series names its time, its requests, what was saved and gained, what was billed and
/// what was read.
pub proof fn law_points_name_their_numbers(
    t: i64,
    n: i64,
    saved: json::NumberView,
    gained: json::NumberView,
    billed: json::NumberView,
    read: i64,
)
    ensures
        store::point_of(t, n, saved, gained, billed, read) == JsonView::Obj(
            seq![
                ("t"@, json::int_of(t)),
                ("requests"@, json::int_of(n)),
                ("saved"@, JsonView::Num(saved)),
                ("saved_marginal"@, JsonView::Num(gained)),
                ("cost_actual"@, JsonView::Num(billed)),
                ("cache_read"@, json::int_of(read)),
            ],
        ),
{
}

/// The text of a header; empty where there is none.
pub open spec fn told(headers: JsonView, name: Seq<char>) -> Seq<char> {
    match json::text_field(headers, text::kebab_of(name)) {
        Some(t) => t,
        None => seq![],
    }
}

/// A request is counted for the session, the agent and the parent agent that its headers name, and for
/// its session's project.
pub proof fn law_requests_are_counted_for_whom_they_name(
    known: Map<Seq<char>, Seq<char>>,
    headers: JsonView,
    body: JsonView,
)
    ensures
        ({
            let who = identity::identified(known, headers, body);
            let sid = told(headers, "x_claude_code_session_id"@);
            let named = identity::mined(body);
            &&& who.session_id == sid
            &&& who.agent_id == told(headers, "x_claude_code_agent_id"@)
            &&& who.parent_agent_id == told(headers, "x_claude_code_parent_agent_id"@)
            &&& sid.len() > 0 && known.contains_key(sid) ==> who.project == known[sid]
            &&& sid.len() == 0 || !known.contains_key(sid) ==> who.project == named
        }),
{
    assert(Seq::<char>::empty() =~= seq![]);
}

/// A session's first project that is known is remembered, and nothing else.
pub proof fn law_the_first_known_project_is_remembered(
    known: Map<Seq<char>, Seq<char>>,
    sid: Seq<char>,
    named: Seq<char>,
)
    ensures
        sid.len() > 0 && !known.contains_key(sid) && named != "unknown"@ ==> identity::learned(
            known,
            sid,
            named,
        ) == known.insert(sid, named),
        sid.len() == 0 || known.contains_key(sid) || named == "unknown"@ ==> identity::learned(
            known,
            sid,
            named,
        ) == known,
{
}

/// The project is the working directory that the system prompt names, without white space around it:
/// the prompt itself is searched, or its JSON text. Where it names none the project is `unknown`.
pub proof fn law_the_project_is_the_working_directory(body: JsonView)
    ensures
        json::field(body, "system"@) is None ==> identity::mined(body) == "unknown"@,
        json::field(body, "system"@) matches Some(x) ==> {
            let hay = if x is Str {
                x->Str_0
            } else {
                json::text_form(x)
            };
            identity::mined(body) == (match patterns::directory_in(hay) {
                Some(d) => text::trim_of(d),
                None => "unknown"@,
            })
        },
{
}

/// The character ends a path: a quote, a backslash, a comma or a line feed.
pub open spec fn ends_a_path(c: char) -> bool {
    c == '"' || c == '\\' || c == ',' || c == '\n'
}

/// The words that a working directory is named by.
pub open spec fn directory_words(w: Seq<char>) -> bool {
    w == "cwd"@ || w == "working directory"@ || w == "Working directory"@
}

/// Behind the words for it, and behind quotes, colons and white space, a path of a slash and 3 to 160
/// more characters is a working directory.
pub proof fn law_working_directories_are_found(
    w: Seq<char>,
    gap: Seq<char>,
    path: Seq<char>,
    rest: Seq<char>,
)
    requires
        directory_words(w),
        forall|i: int|
            0 <= i < gap.len() ==> (#[trigger] gap[i] == '"' || gap[i] == ':' || gap[i] == ' '
                || gap[i] == '\t' || gap[i] == '\n' || gap[i] == '\r'),
        3 <= path.len() <= 160,
        forall|i: int| 0 <= i < path.len() ==> !ends_a_path(#[trigger] path[i]),
        rest.len() == 0 || path.len() == 160 || ends_a_path(rest[0]),
    ensures
        patterns::first_directory(w + gap + "/"@ + path + rest, 0) == Some("/"@ + path),
{
    reveal_strlit("cwd");
    reveal_strlit("working directory");
    reveal_strlit("Working directory");
    reveal_strlit("/");
    let t = w + gap + "/"@ + path + rest;
    let k = w.len() as int;
    let from = k + gap.len();
    assert(t.subrange(0, k) =~= w);
    assert(t[0] == w[0]);
    assert(text::occurs_at(t, w, 0));
    if w != "cwd"@ {
        if text::occurs_at(t, "cwd"@, 0) {
            assert(t.subrange(0, 3)[1] == "cwd"@[1]);
            assert(t[1] == w[1]);
        }
    }
    assert(patterns::directory_words(t, 0) == Some(k));
    assert forall|i: int| k <= i < from implies (#[trigger] t[i] == '"' || t[i] == ':' || t[i]
        == ' ' || '\t' <= t[i] <= '\r') by {
        assert(t[i] == gap[i - k]);
    }
    assert(t[from] == '/');
    lemma_gap_end(t, k, from);
    assert forall|i: int| from < i <= from + path.len() implies !ends_a_path(#[trigger] t[i]) by {
        assert(t[i] == path[i - from - 1]);
    }
    let e = from + 1 + path.len();
    if e < t.len() {
        assert(t[e] == rest[0]);
    }
    lemma_path_end(t, from + 1, e, 160);
    assert(t.subrange(from, e) =~= "/"@ + path);
}

proof fn lemma_gap_end(t: Seq<char>, i: int, e: int)
    requires
        0 <= i <= e < t.len(),
        forall|k: int|
            i <= k < e ==> (#[trigger] t[k] == '"' || t[k] == ':' || t[k] == ' ' || '\t' <= t[k]
                <= '\r'),
        t[e] == '/',
    ensures
        patterns::behind_gap(t, i) == e,
    decreases e - i,
{
    if i < e {
        lemma_gap_end(t, i + 1, e);
    }
}

proof fn lemma_path_end(t: Seq<char>, i: int, e: int, n: nat)
    requires
        0 <= i <= e <= t.len(),
        e - i <= n,
        forall|k: int| i <= k < e ==> !ends_a_path(#[trigger] t[k]),
        e == t.len() || e - i == n || ends_a_path(t[e]),
    ensures
        patterns::behind_path(t, i, n) == e,
    decreases e - i,
{
    if i < e {
        lemma_path_end(t, i + 1, e, (n - 1) as nat);
    }
}

/// A text is searched from its beginning: where it does not begin with the words for a working
/// directory, the rest of it is. In a text of ASCII characters that is the whole search.
pub proof fn law_directories_are_looked_for_in_order(c: char, b: Seq<char>)
    ensures
        !text::begins(seq![c] + b, "cwd"@) && !text::begins(seq![c] + b, "working directory"@)
            && !text::begins(seq![c] + b, "Working directory"@) ==> patterns::first_directory(
            seq![c] + b,
            0,
        ) == patterns::first_directory(b, 0),
        patterns::first_directory(Seq::empty(), 0) is None,
        is_ascii_chars(b) ==> patterns::directory_in(b) == patterns::first_directory(b, 0),
{
    let t = seq![c] + b;
    lemma_directories_shifted(seq![c], b, 0);
    if patterns::directory_words(t, 0) is Some {
        assert forall|n: Seq<char>| #[trigger] text::occurs_at(t, n, 0) implies text::begins(
            t,
            n,
        ) by {
            assert(t.subrange(0, n.len() as int) =~= t.take(n.len() as int));
        }
    }
    if is_ascii_chars(b) {
        assert forall|i: int| (#[trigger] patterns::directory_words(b, i)) matches Some(k) implies
            patterns::behind_gap(b, patterns::directory_words(b, i)->0) >= b.len()
            || b[patterns::behind_gap(b, patterns::directory_words(b, i)->0)] <= '\u{7f}' by {
            let k = patterns::directory_words(b, i)->0;
            reveal_strlit("working directory");
            reveal_strlit("Working directory");
            lemma_gap_within(b, k);
        }
    }
}

proof fn lemma_gap_within(t: Seq<char>, i: int)
    requires
        0 <= i,
    ensures
        i <= patterns::behind_gap(t, i),
    decreases t.len() - i,
{
    if i < t.len() {
        lemma_gap_within(t, i + 1);
    }
}

proof fn lemma_directories_shifted(p: Seq<char>, b: Seq<char>, i: int)
    requires
        0 <= i,
    ensures
        patterns::first_directory(p + b, p.len() + i) == patterns::first_directory(b, i),
    decreases b.len() - i,
{
    let t = p + b;
    if i < b.len() {
        crate::edit_laws::lemma_occurs_shifted(p, b, "cwd"@, i);
        crate::edit_laws::lemma_occurs_shifted(p, b, "working directory"@, i);
        crate::edit_laws::lemma_occurs_shifted(p, b, "Working directory"@, i);
        if let Some(k) = patterns::directory_words(b, i) {
            lemma_gap_shifted(p, b, k);
            lemma_gap_within(b, k);
            let from = patterns::behind_gap(b, k);
            lemma_path_shifted(p, b, from + 1, 160);
            let e = patterns::behind_path(b, from + 1, 160);
            if from < b.len() && e >= from + 4 {
                assert(t.subrange(p.len() + from, p.len() + e) =~= b.subrange(from, e));
            }
        }
        assert(patterns::directory_at(t, p.len() + i) == patterns::directory_at(b, i));
        lemma_directories_shifted(p, b, i + 1);
    }
}

proof fn lemma_gap_shifted(p: Seq<char>, b: Seq<char>, i: int)
    requires
        0 <= i,
    ensures
        patterns::behind_gap(p + b, p.len() + i) == p.len() + patterns::behind_gap(b, i),
    decreases b.len() - i,
{
    if i < b.len() {
        assert((p + b)[p.len() + i] == b[i]);
        lemma_gap_shifted(p, b, i + 1);
    }
}

proof fn lemma_path_shifted(p: Seq<char>, b: Seq<char>, i: int, n: nat)
    requires
        0 <= i,
    ensures
        patterns::behind_path(p + b, p.len() + i, n) == p.len() + patterns::behind_path(b, i, n),
        i <= patterns::behind_path(b, i, n),
        i <= b.len() ==> patterns::behind_path(b, i, n) <= b.len(),
    decreases n,
{
    if n > 0 && i < b.len() {
        assert((p + b)[p.len() + i] == b[i]);
        lemma_path_shifted(p, b, i + 1, (n - 1) as nat);
    }
}

/// The model that a response was billed as is what stands in quotes behind the first key for it that
/// has something there.
pub proof fn law_the_billed_model_is_the_first_named(
    x: Seq<char>,
    b: Seq<char>,
    c: char,
    fallback: Seq<char>,
)
    ensures
        x.len() > 0 && !x.contains('"') ==> crate::http_decode::billed_model(
            "\"model\":\""@ + x + "\""@ + b,
            fallback,
        ) == x,
        !text::begins(seq![c] + b, "\"model\":\""@) ==> crate::http_decode::billed_model(
            seq![c] + b,
            fallback,
        ) == crate::http_decode::billed_model(b, fallback),
        crate::http_decode::billed_model(Seq::empty(), fallback) == fallback,
{
    let key = "\"model\":\""@;
    reveal_strlit("\"model\":\"");
    reveal_strlit("\"");
    if x.len() > 0 && !x.contains('"') {
        let t = key + x + "\""@ + b;
        assert(t.subrange(0, 9) =~= key);
        assert(text::occurs_at(t, key, 0));
        let e = 9 + x.len();
        assert(t.subrange(e as int, e as int + 1) =~= "\""@);
        assert(text::occurs_at(t, "\""@, e as int));
        text::lemma_first_from(t, "\""@, 9);
        let f = text::first_from(t, "\""@, 9)->0;
        if f < e {
            assert(t.subrange(f, f + 1)[0] == "\""@[0]);
            assert(x[f - 9] == '"');
        }
        assert(t.subrange(9, f) =~= x);
        assert(patterns::model_at(t, 0) == Some(x));
    }
    let s = seq![c] + b;
    lemma_models_shifted(seq![c], b, 0);
    if text::occurs_at(s, key, 0) {
        assert(s.subrange(0, 9) =~= s.take(9));
    }
}

proof fn lemma_models_shifted(p: Seq<char>, b: Seq<char>, i: int)
    requires
        0 <= i,
    ensures
        patterns::first_model(p + b, p.len() + i) == patterns::first_model(b, i),
    decreases b.len() - i,
{
    let t = p + b;
    if i < b.len() {
        let key = "\"model\":\""@;
        let from = i + key.len();
        crate::edit_laws::lemma_occurs_shifted(p, b, key, i);
        crate::edit_laws::lemma_first_shifted(p, b, "\""@, from);
        text::lemma_first_from(b, "\""@, from);
        if let Some(e) = text::first_from(b, "\""@, from) {
            assert(t.subrange(p.len() + from, p.len() + e) =~= b.subrange(from, e));
        }
        assert(patterns::model_at(t, p.len() + i) == patterns::model_at(b, i));
        lemma_models_shifted(p, b, i + 1);
    }
}

/// A secret is a header whose name, in lower case, speaks of an authorization or an API key: its value
/// is not logged, and every other value is.
pub proof fn law_secrets_are_redacted(o: Seq<(Seq<char>, JsonView)>, i: int)
    requires
        0 <= i < o.len(),
    ensures
        logger::sanitized(JsonView::Obj(o)) matches JsonView::Obj(p) && p.len() == o.len() && p[i].0
            == o[i].0 && p[i].1 == (if text::holds(text::lowered(o[i].0), "authorization"@)
            || text::holds(text::lowered(o[i].0), "x-api-key"@) {
            JsonView::Str("[redacted]"@)
        } else {
            o[i].1
        }),
{
}

/// What a request is logged as names its method, its URL, its headers without secrets and whether its
/// body was changed.
pub proof fn law_requests_are_logged(
    method: Seq<char>,
    url: Seq<char>,
    headers: JsonView,
    changed: bool,
)
    ensures
        logger::request_meta_of(method, url, headers, changed) == JsonView::Obj(
            seq![
                ("method"@, JsonView::Str(method)),
                ("url"@, JsonView::Str(url)),
                ("headers"@, logger::sanitized(headers)),
                ("mutated"@, JsonView::Bool(changed)),
            ],
        ),
        !(headers is Obj) ==> logger::sanitized(headers) == headers,
{
}

/// Two digits of a number below a hundred.
pub open spec fn two(n: int) -> Seq<char> {
    seq![text::digit_char((n / 10) as nat), text::digit_char((n % 10) as nat)]
}

/// A time of a year of four digits is written as year, month, day, hour, minute and second, each with
/// its digits in full; for file names with the milliseconds too.
pub proof fn law_times_are_written_in_full(d: Stamp)
    requires
        logger::in_range(d),
        1000 <= d.year <= 9999,
    ensures
        logger::stamp_of(d) == text::decimal_of(d.year as nat) + "-"@ + two(d.month as int) + "-"@
            + two(d.day as int) + " "@ + two(d.hour as int) + ":"@ + two(d.minute as int) + ":"@
            + two(d.second as int),
        logger::file_stamp_of(d) == text::decimal_of(d.year as nat) + "-"@ + two(d.month as int)
            + "-"@ + two(d.day as int) + "T"@ + two(d.hour as int) + "-"@ + two(d.minute as int)
            + "-"@ + two(d.second as int) + "-"@ + seq![
            text::digit_char((d.millisecond / 100) as nat),
        ] + two((d.millisecond % 100) as int) + "Z"@,
{
    lemma_two(d.month as nat);
    lemma_two(d.day as nat);
    lemma_two(d.hour as nat);
    lemma_two(d.minute as nat);
    lemma_two(d.second as nat);
    lemma_three(d.millisecond as nat);
    lemma_four(d.year as nat);
    let a = text::decimal_of(d.year as nat) + "-"@ + two(d.month as int) + "-"@ + two(d.day as int)
        + "T"@ + two(d.hour as int) + "-"@ + two(d.minute as int) + "-"@ + two(d.second as int)
        + "-"@;
    let h = seq![text::digit_char((d.millisecond / 100) as nat)];
    let r = two((d.millisecond % 100) as int);
    assert(a + (h + r) =~= a + h + r);
}

proof fn lemma_two(n: nat)
    requires
        n < 100,
    ensures
        text::zero_padded_of(n as int, 2) == two(n as int),
{
    reveal_with_fuel(text::decimal_of, 2);
    if n < 10 {
        assert(text::decimal_of(n) =~= seq![text::digit_char(n)]);
        assert(n / 10 == 0 && n % 10 == n);
        assert(text::zero_padded_of(n as int, 2) =~= seq!['0'] + text::decimal_of(n));
        assert(text::zero_padded_of(n as int, 2) =~= two(n as int));
    } else {
        assert(n / 10 < 10);
        assert(text::decimal_of(n / 10) =~= seq![text::digit_char(n / 10)]);
        assert(text::decimal_of(n) =~= two(n as int));
    }
}

proof fn lemma_three(n: nat)
    requires
        n < 1000,
    ensures
        text::zero_padded_of(n as int, 3) == seq![text::digit_char(n / 100)] + two((n % 100) as int),
{
    reveal_with_fuel(text::decimal_of, 3);
    let r = n % 100;
    assert(n / 100 < 10);
    assert(n == 100 * (n / 100) + r);
    assert((n / 10) / 10 == n / 100);
    assert((n / 10) % 10 == r / 10);
    assert(n % 10 == r % 10);
    assert(r / 10 < 10);
    if n < 10 {
        assert(text::zero_padded_of(n as int, 3) =~= seq!['0', '0'] + text::decimal_of(n));
    } else if n < 100 {
        assert(text::zero_padded_of(n as int, 3) =~= seq!['0'] + text::decimal_of(n));
    }
    assert(text::zero_padded_of(n as int, 3) =~= seq![text::digit_char(n / 100)] + two(r as int));
}

proof fn lemma_four(n: nat)
    requires
        1000 <= n <= 9999,
    ensures
        text::zero_padded_of(n as int, 4) == text::decimal_of(n),
{
    reveal_with_fuel(text::decimal_of, 4);
    assert(n / 10 >= 100 && n / 10 / 10 >= 10 && n / 10 / 10 / 10 >= 1);
    assert(text::decimal_of(n).len() == 4);
}

/// The clock's milliseconds are the time, and before the epoch it is 0.
pub proof fn law_the_time_is_what_the_clock_says(ms: u128)
    ensures
        ms <= 0x7fff_ffff_ffff_ffff ==> logger::epoch_of(Some(ms)) == ms,
        logger::epoch_of(None) == 0,
{
}

/// A project is shown by the last part of its path, a session or an agent by at most sixteen characters
/// of its id, anything else by itself.
pub proof fn law_groups_are_shown_short(a: Seq<char>, b: Seq<char>, key: Seq<char>, by: Seq<char>)
    ensures
        !b.contains('/') && a + "/"@ + b != "unknown"@ ==> stats::short_of(
            a + "/"@ + b,
            "project"@,
        ) == b,
        !key.contains('/') ==> stats::short_of(key, "project"@) == key,
        by == "session"@ || by == "agent"@ ==> {
            &&& key.len() == 0 ==> stats::short_of(key, by) == "(none)"@
            &&& 0 < key.len() <= 16 ==> stats::short_of(key, by) == key
            &&& key.len() > 16 ==> stats::short_of(key, by) == key.take(16)
        },
        by != "session"@ && by != "agent"@ && by != "project"@ ==> stats::short_of(key, by) == key,
{
    reveal_strlit("/");
    reveal_strlit("project");
    reveal_strlit("session");
    reveal_strlit("agent");
    assert("project"@.len() == 7 && "session"@.len() == 7 && "agent"@.len() == 5);
    assert("project"@[0] == 'p' && "session"@[0] == 's');
    if !b.contains('/') {
        assert(a + "/"@ + b =~= a.push('/') + b);
        text::lemma_split_tail(a, b, '/');
    }
    if !key.contains('/') {
        text::lemma_split_whole(key, '/');
    }
}

/// A line of the table has a name of 22 places from the left and numbers of 6, 11, 10, 10 and 7 from the
/// right.
pub proof fn law_cells_have_their_places(
    name: Seq<char>,
    n: Seq<char>,
    read: Seq<char>,
    billed: Seq<char>,
    saved: Seq<char>,
    share: Seq<char>,
)
    ensures
        stats::line_of(name, n, read, billed, saved, share) == "  "@ + text::pad_back_of(
            name,
            ' ',
            22,
        ) + text::pad_front_of(n, ' ', 6) + text::pad_front_of(read, ' ', 11) + text::pad_front_of(
            billed,
            ' ',
            10,
        ) + text::pad_front_of(saved, ' ', 10) + text::pad_front_of(share, ' ', 7),
{
}

/// The file of a response's log is named by the request's id, and only such a file is read.
pub proof fn law_logs_are_named_by_their_request(id: Seq<char>, name: Seq<char>)
    ensures
        !backfill::ends(id, ".resp.log"@) ==> backfill::capture_of(id + ".resp.log"@) == Some(id),
        backfill::capture_of(name) is Some <==> (name.len() >= 9 && name.skip(name.len() - 9)
            == ".resp.log"@),
{
    reveal_strlit(".resp.log");
    let whole = id + ".resp.log"@;
    assert(whole.skip(whole.len() - 9) =~= ".resp.log"@);
    assert(whole.take(whole.len() - 9) =~= id);
    reveal_with_fuel(backfill::without_suffix, 2);
}

/// Of the headers that a log gives, the last that could be read count.
pub proof fn law_the_last_headers_count(
    parsed: Seq<Option<crate::json::Json>>,
    h: crate::json::Json,
)
    ensures
        backfill::picked(parsed.push(Some(h))) == h@,
        backfill::picked(parsed.push(None)) == backfill::picked(parsed),
        backfill::picked(Seq::empty()) == JsonView::Obj(seq![]),
{
    assert(parsed.push(Some(h)).drop_last() =~= parsed);
    assert(parsed.push(None).drop_last() =~= parsed);
    assert(Seq::<(Seq<char>, JsonView)>::empty() =~= seq![]);
}

/// Of the log of a request the headers stand under its meta data and the body beside them; what is not
/// there is empty.
pub proof fn law_logged_requests_are_read(l: JsonView)
    ensures
        json::field(l, "body"@) matches Some(b) ==> backfill::logged_request(l) == b,
        json::field(l, "body"@) is None ==> backfill::logged_request(l) == JsonView::Obj(
            Seq::empty(),
        ),
        json::field(l, "meta"@) matches Some(m) ==> (json::field(m, "headers"@) matches Some(h)
            ==> backfill::logged_headers(l) == h),
        (json::field(l, "meta"@) is None || json::field(json::field(l, "meta"@)->0, "headers"@) is None)
            ==> backfill::logged_headers(l) == JsonView::Obj(Seq::empty()),
{
}

/// In captures the gap is since the one before, where both are of one session that has a name.
pub proof fn law_captured_gaps_are_within_a_session(s: Seq<Parsed>, i: int)
    requires
        0 <= i < s.len(),
    ensures
        i > 0 && s[i].row.session_id@ == s[i - 1].row.session_id@ && s[i].row.session_id@
            != Seq::<char>::empty() ==> backfill::gap_at(s, i) == Some(
            s[i].row.ts - s[i - 1].row.ts,
        ),
        i == 0 || s[i].row.session_id@ != s[i - 1].row.session_id@ || s[i].row.session_id@
            == Seq::<char>::empty() ==> backfill::gap_at(s, i) is None,
        backfill::gap_at(s, i) matches Some(g) ==> (i64::MIN <= g <= i64::MAX
            ==> backfill::told_gap(s, i) == Some(g as i64)),
        backfill::gap_at(s, i) is None ==> backfill::told_gap(s, i) is None,
{
    if s[i].row.session_id@.len() == 0 {
        assert(s[i].row.session_id@ =~= Seq::<char>::empty());
    }
}

/// A capture is priced by its gap and keeps everything else that is known of it.
pub proof fn law_captures_are_priced_by_their_gap(p: Parsed, gap: Option<i64>)
    ensures
        ({
            let r = backfill::gapped(p, gap);
            let price = usage::prices_of(usage::family_of(text::lowered(p.model@))).0;
            &&& r.gap_ms == gap
            &&& r.saved_marginal == usage::marginal_of(p.usage, price, gap).0
            &&& r.write_premium == usage::marginal_of(p.usage, price, gap).1
            &&& r == (store::RowView {
                gap_ms: r.gap_ms,
                saved_marginal: r.saved_marginal,
                write_premium: r.write_premium,
                ..p.row@
            })
            &&& backfill::ungapped(r) == (store::RowView {
                gap_ms: None,
                saved_marginal: 0,
                write_premium: 0,
                ..p.row@
            })
        }),
{
}

/// Sorted captures are those that were given, ordered by session and then by time; captures of one
/// session at one time stay in the order in which they came.
pub proof fn law_captures_are_sorted(s: Seq<Parsed>, t: Seq<Parsed>, i: int, j: int)
    requires
        backfill::sorted_from(s, t),
        0 <= i < j < t.len(),
    ensures
        !text::less(t[j].row.session_id@, t[i].row.session_id@),
        t[i].row.session_id@ == t[j].row.session_id@ ==> t[i].row.ts <= t[j].row.ts,
        t.filter(
            |p: Parsed|
                p.row.session_id@ == t[i].row.session_id@ && p.row.ts == t[i].row.ts,
        ) == s.filter(
            |p: Parsed|
                p.row.session_id@ == t[i].row.session_id@ && p.row.ts == t[i].row.ts,
        ),
{
    assert(!backfill::precedes(backfill::key_of(t[j]), backfill::key_of(t[i])));
    let k = backfill::key_of(t[i]);
    assert(backfill::with_key(t, k) == backfill::with_key(s, k));
    let p = |p: Parsed| backfill::key_of(p) == k;
    let q = |p: Parsed| p.row.session_id@ == t[i].row.session_id@ && p.row.ts == t[i].row.ts;
    lemma_same_captures(s, p, q);
    lemma_same_captures(t, p, q);
}

proof fn lemma_same_captures(
    s: Seq<Parsed>,
    p: spec_fn(Parsed) -> bool,
    q: spec_fn(Parsed) -> bool,
)
    requires
        forall|x: Parsed| #[trigger] p(x) == q(x),
    ensures
        s.filter(p) == s.filter(q),
    decreases s.len(),
{
    reveal(Seq::filter);
    if s.len() > 0 {
        lemma_same_captures(s.drop_last(), p, q);
        assert(p(s.last()) == q(s.last()));
    }
}

/// The lines of a preamble that begin with `# headers=` give headers, each what stands behind that, in
/// order; other lines give none.
pub proof fn law_header_lines_are_read(a: Seq<char>, l: Seq<char>)
    requires
        l.len() > 0,
        !l.contains('\n'),
        a.len() == 0 || a.last() == '\n',
    ensures
        backfill::headers_in(a + l) == (if l.len() >= 10 && l.take(10) == "# headers="@ {
            backfill::headers_in(a).push(l.skip(10))
        } else {
            backfill::headers_in(a)
        }),
{
    reveal_strlit("# headers=");
    let p = |x: Seq<char>| text::begins(x, "# headers="@);
    let f = |x: Seq<char>| x.skip(10);
    let la = backfill::lines_of(a);
    let lt = backfill::lines_of(a + l);
    if a.len() > 0 {
        let head = a.drop_last();
        assert(a =~= head.push('\n'));
        assert(a + l =~= head.push('\n') + l);
        text::lemma_split_tail(head, l, '\n');
        let none = Seq::<char>::empty();
        assert(a =~= head.push('\n') + none);
        text::lemma_split_tail(head, none, '\n');
        assert(lt =~= la.push(l));
    } else {
        assert(a + l =~= l);
        text::lemma_split_whole(l, '\n');
        assert(text::split_of(a, '\n') =~= seq![Seq::<char>::empty()]);
        assert(la =~= Seq::empty());
        assert(lt =~= la.push(l));
    }
    text::lemma_filter_step(lt, la.len() as int, p);
    assert(lt.take(la.len() as int) =~= la);
    assert(lt.take(la.len() as int + 1) =~= lt);
    assert(la.filter(p).push(l).map_values(f) =~= la.filter(p).map_values(f).push(f(l)));
}

/// A log is split at its first empty line: what stands before it is the preamble, and what stands
/// behind it the body, whatever that holds.
pub proof fn law_logs_are_split_at_the_first_empty_line(head: Seq<u8>, body: Seq<u8>)
    requires
        forall|i: int|
            0 <= i < head.len() - 1 ==> !(#[trigger] head[i] == 10 && head[i + 1] == 10),
        head.len() == 0 || head.last() != 10,
    ensures
        backfill::preamble_bytes(head + seq![10u8, 10u8] + body) == Some(head),
        backfill::logged_body(head + seq![10u8, 10u8] + body) == body,
        backfill::preamble_bytes(head) is None,
        backfill::logged_body(head) == Seq::<u8>::empty(),
{
    let b = head + seq![10u8, 10u8] + body;
    let n = head.len() as int;
    assert forall|m: int| 0 <= m < n implies !(#[trigger] b[m] == 10 && b[m + 1] == 10) by {
        assert(b[m] == head[m]);
        if m < n - 1 {
            assert(b[m + 1] == head[m + 1]);
        }
    }
    assert(b[n] == 10 && b[n + 1] == 10);
    lemma_blank(b, 0, n);
    assert(b.take(n) =~= head);
    assert(b.skip(n + 2) =~= body);
    lemma_no_blank(head, 0);
}

proof fn lemma_blank(b: Seq<u8>, i: int, j: int)
    requires
        0 <= i <= j,
        j + 1 < b.len(),
        b[j] == 10,
        b[j + 1] == 10,
        forall|m: int| i <= m < j ==> !(#[trigger] b[m] == 10 && b[m + 1] == 10),
    ensures
        backfill::blank_from(b, i) == Some(j),
    decreases j - i,
{
    if i < j {
        assert(!(b[i] == 10 && b[i + 1] == 10));
        lemma_blank(b, i + 1, j);
    }
}

proof fn lemma_no_blank(b: Seq<u8>, i: int)
    requires
        0 <= i,
        forall|m: int| i <= m < b.len() - 1 ==> !(#[trigger] b[m] == 10 && b[m + 1] == 10),
    ensures
        backfill::blank_from(b, i) is None,
    decreases b.len() - i,
{
    if i + 1 < b.len() {
        assert(!(b[i] == 10 && b[i + 1] == 10));
        lemma_no_blank(b, i + 1);
    }
}

/// A logged request is recorded with the tokens that its response reports, the model that the response
/// names, or else the request, and for whom its headers and its prompt name. What an hour gained is left
/// open.
pub proof fn law_logged_requests_are_recorded(
    known: Map<Seq<char>, Seq<char>>,
    req_id: Seq<char>,
    ts: i64,
    t: Seq<char>,
    u: Usage,
    headers: JsonView,
    body: JsonView,
)
    ensures
        ({
            let r = backfill::captured(known, req_id, ts, t, u, headers, body);
            let who = identity::identified(known, headers, body);
            &&& r.req_id == req_id && r.ts == ts
            &&& r.session_id == who.session_id && r.agent_id == who.agent_id && r.parent_agent
                == who.parent_agent_id && r.project == who.project
            &&& patterns::first_model(t, 0) matches Some(m) ==> r.model == m
            &&& patterns::first_model(t, 0) is None ==> r.model == (match json::text_field(
                body,
                "model"@,
            ) {
                Some(m) => m,
                None => seq![],
            })
            &&& r.family == usage::family_of(text::lowered(r.model))
            &&& r.input_tokens == u.input_tokens && r.output_tokens == u.output_tokens
                && r.cache_read == u.cache_read && r.cache_create == u.cache_create && r.ephem_5m
                == u.ephem_5m && r.ephem_1h == u.ephem_1h
            &&& r.saved + r.cost_actual == r.cost_uncached
            &&& r.gap_ms is None && r.saved_marginal == 0 && r.write_premium == 0
        }),
{
    assert(Seq::<char>::empty() =~= seq![]);
}

/// A line feed ends a line, with or without a carriage return before it.
pub proof fn law_lines_end_with_or_without_a_return(l: Seq<char>)
    requires
        !l.contains('\n'),
        l.len() == 0 || l.last() != '\r',
    ensures
        backfill::lines_of(l + "\n"@) == seq![l],
        backfill::lines_of(l + "\r\n"@) == seq![l],
        l.len() > 0 ==> backfill::lines_of(l) == seq![l],
{
    reveal_strlit("\n");
    reveal_strlit("\r\n");
    let none = Seq::<char>::empty();
    let r = l.push('\r');
    assert(!r.contains('\n')) by {
        if r.contains('\n') {
            let i = choose|i: int| 0 <= i < r.len() && r[i] == '\n';
            assert(l[i] == '\n');
        }
    }
    assert(l + "\n"@ =~= l.push('\n') + none);
    assert(l + "\r\n"@ =~= r.push('\n') + none);
    text::lemma_split_tail(l, none, '\n');
    text::lemma_split_tail(r, none, '\n');
    text::lemma_split_whole(l, '\n');
    text::lemma_split_whole(r, '\n');
    assert(r.drop_last() =~= l);
    assert(backfill::lines_of(l + "\n"@) =~= seq![l]);
    assert(backfill::lines_of(l + "\r\n"@) =~= seq![l]);
    if l.len() > 0 {
        assert(backfill::lines_of(l) =~= seq![l]);
    }
}

/// Where there is no time to cut, a stretch is one second; and fewer than one stretch is one.
pub proof fn law_stretches_of_no_time_are_a_second(from: int, to: int, buckets: int)
    ensures
        to <= from ==> store::width_of(from, to, buckets) == 1000,
        buckets <= 1 ==> store::width_of(from, to, buckets) == store::width_of(from, to, 1),
        buckets <= 1 && to - from >= 1000 ==> store::width_of(from, to, buckets) == to - from,
{
    let b = if buckets > 1 {
        buckets
    } else {
        1
    };
    store::lemma_ceil_div(1, b);
    if to - from >= 1 {
        store::lemma_ceil_div(to - from, 1);
    }
}

/// `r` is what is read of a logged response: its text, decoded by the content encoding that its headers
/// name, and the usage that this reports; nothing where it reports none.
pub open spec fn read_from_log(
    headers: JsonView,
    body: Seq<u8>,
    r: Option<(Usage, String)>,
) -> bool {
    let encoding = match json::text_field(headers, "content-encoding"@) {
        Some(e) => e,
        None => seq![],
    };
    let t = crate::server::response_text(body, encoding);
    &&& r is Some <==> usage::usage_in(t) is Some
    &&& r matches Some(x) ==> usage::usage_in(t) == Some(x.0) && x.1@ == t
}

} // verus!
