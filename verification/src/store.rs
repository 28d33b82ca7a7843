//! What the metrics store keeps of each request, and the statements that it is written and read by.

use vstd::arithmetic::div_mod::*;
use vstd::prelude::*;
use vstd::string::*;

use crate::config;
use crate::identity;
use crate::identity::{Identity, IdentityView};
use crate::json;
use crate::json::{Json, JsonView, Number, NumberView};
use crate::patterns;
use crate::text;
use crate::usage;
use crate::usage::{Cost, Marginal, Usage};

verus! {

broadcast use crate::json::group_json_view;

/// How the database is opened.
pub const PRAGMAS: &'static str = "PRAGMA journal_mode = WAL; PRAGMA synchronous = NORMAL;";

/// The table of requests and its indexes.
pub const SCHEMA: &'static str = "
CREATE TABLE IF NOT EXISTS requests (
  req_id        TEXT PRIMARY KEY,
  ts            INTEGER NOT NULL,
  session_id    TEXT,
  agent_id      TEXT,
  parent_agent  TEXT,
  project       TEXT,
  model         TEXT,
  family        TEXT,
  input_tokens  INTEGER,
  cache_read    INTEGER,
  cache_create  INTEGER,
  ephem_5m      INTEGER,
  ephem_1h      INTEGER,
  output_tokens INTEGER,
  cost_actual   REAL,
  cost_uncached REAL,
  saved         REAL,
  estimate      INTEGER DEFAULT 0,
  gap_ms        INTEGER,
  saved_marginal REAL DEFAULT 0,
  write_premium  REAL DEFAULT 0
);
CREATE INDEX IF NOT EXISTS idx_req_ts       ON requests(ts);
CREATE INDEX IF NOT EXISTS idx_req_project  ON requests(project, ts);
CREATE INDEX IF NOT EXISTS idx_req_session  ON requests(session_id, ts);
";

/// Lists the columns of the table.
pub const COLUMNS_SQL: &'static str = "PRAGMA table_info(requests)";

/// Writes one request, in place of an earlier one with the same id.
pub const INSERT_SQL: &'static str = "INSERT OR REPLACE INTO requests (
    req_id, ts, session_id, agent_id, parent_agent, project, model, family,
    input_tokens, cache_read, cache_create, ephem_5m, ephem_1h, output_tokens,
    cost_actual, cost_uncached, saved, estimate, gap_ms, saved_marginal, write_premium
 ) VALUES (?,?,?,?,?,?,?,?,?,?,?,?,?,?,?,?,?,?,?,?,?)";

/// Finds the time of a session's last request before another.
pub const LAST_TS_SQL: &'static str =
    "SELECT MAX(ts) FROM requests WHERE session_id = ? AND ts < ?";

/// Adds up the requests of a window.
pub const TOTALS_SQL: &'static str = "SELECT COUNT(*) AS requests,
    COALESCE(SUM(cache_read),0)    AS cache_read,
    COALESCE(SUM(cache_create),0)  AS cache_create,
    COALESCE(SUM(ephem_5m),0)      AS ephem_5m,
    COALESCE(SUM(ephem_1h),0)      AS ephem_1h,
    COALESCE(SUM(output_tokens),0) AS output_tokens,
    COALESCE(SUM(cost_actual),0)   AS cost_actual,
    COALESCE(SUM(cost_uncached),0) AS cost_uncached,
    COALESCE(SUM(saved),0)         AS saved,
    COALESCE(SUM(saved_marginal),0) AS saved_marginal,
    COALESCE(SUM(write_premium),0)  AS write_premium
 FROM requests WHERE ts >= ?";

/// Counts the requests of each session by family.
pub const META_SQL: &'static str =
    "SELECT session_id AS key, family, COUNT(*) AS n, MAX(project) AS project
 FROM requests WHERE ts >= ?
 GROUP BY session_id, family";

/// Finds the first and the last request of a window.
pub const SPAN_SQL: &'static str =
    "SELECT COALESCE(MIN(ts),0), COALESCE(MAX(ts),0) FROM requests WHERE ts >= ?";

/// Adds up the requests of a window by stretches of time.
pub const SERIES_SQL: &'static str =
    "SELECT CAST(ts / CAST(? AS INTEGER) AS INTEGER) * CAST(? AS INTEGER) AS bucket,
    COUNT(*)                       AS requests,
    COALESCE(SUM(saved),0)         AS saved,
    COALESCE(SUM(saved_marginal),0) AS saved_marginal,
    COALESCE(SUM(cost_actual),0)   AS cost_actual,
    COALESCE(SUM(cache_read),0)    AS cache_read
 FROM requests WHERE ts >= ?
 GROUP BY bucket ORDER BY bucket ASC";

/// What a rollup adds up, behind the expression that it groups by.
pub const ROLLUP_TAIL: &'static str = " AS key,
    COUNT(*)                       AS requests,
    COALESCE(SUM(cache_read),0)    AS cache_read,
    COALESCE(SUM(cache_create),0)  AS cache_create,
    COALESCE(SUM(ephem_5m),0)      AS ephem_5m,
    COALESCE(SUM(ephem_1h),0)      AS ephem_1h,
    COALESCE(SUM(output_tokens),0) AS output_tokens,
    COALESCE(SUM(cost_actual),0)   AS cost_actual,
    COALESCE(SUM(cost_uncached),0) AS cost_uncached,
    COALESCE(SUM(saved),0)         AS saved,
    COALESCE(SUM(saved_marginal),0) AS saved_marginal,
    COALESCE(SUM(write_premium),0)  AS write_premium,
    MAX(family)                    AS family,
    MAX(ts)                        AS last_ts
 FROM requests
 WHERE ts >= ?
 GROUP BY key
 ORDER BY saved DESC
 LIMIT ?";

/// One metered request. Money is counted in twentieths of a micro-dollar.
#[derive(Clone, Debug)]
pub struct RowInput {
    pub req_id: String,
    pub ts: i64,
    pub session_id: String,
    pub agent_id: String,
    pub parent_agent: String,
    pub project: String,
    pub model: String,
    pub family: String,
    pub input_tokens: i64,
    pub cache_read: i64,
    pub cache_create: i64,
    pub ephem_5m: i64,
    pub ephem_1h: i64,
    pub output_tokens: i64,
    pub cost_actual: i128,
    pub cost_uncached: i128,
    pub saved: i128,
    pub estimate: bool,
    /// The time since the session's previous request, where there is one that is known.
    pub gap_ms: Option<i64>,
    /// What an hour's lifetime gained over five minutes.
    pub saved_marginal: i128,
    /// What the hour's writes cost more.
    pub write_premium: i128,
}

/// What a row holds.
#[verifier::ext_equal]
pub struct RowView {
    pub req_id: Seq<char>,
    pub ts: i64,
    pub session_id: Seq<char>,
    pub agent_id: Seq<char>,
    pub parent_agent: Seq<char>,
    pub project: Seq<char>,
    pub model: Seq<char>,
    pub family: Seq<char>,
    pub input_tokens: i64,
    pub cache_read: i64,
    pub cache_create: i64,
    pub ephem_5m: i64,
    pub ephem_1h: i64,
    pub output_tokens: i64,
    pub cost_actual: int,
    pub cost_uncached: int,
    pub saved: int,
    pub estimate: bool,
    pub gap_ms: Option<i64>,
    pub saved_marginal: int,
    pub write_premium: int,
}

impl View for RowInput {
    type V = RowView;

    open spec fn view(&self) -> RowView {
        RowView {
            req_id: self.req_id@,
            ts: self.ts,
            session_id: self.session_id@,
            agent_id: self.agent_id@,
            parent_agent: self.parent_agent@,
            project: self.project@,
            model: self.model@,
            family: self.family@,
            input_tokens: self.input_tokens,
            cache_read: self.cache_read,
            cache_create: self.cache_create,
            ephem_5m: self.ephem_5m,
            ephem_1h: self.ephem_1h,
            output_tokens: self.output_tokens,
            cost_actual: self.cost_actual as int,
            cost_uncached: self.cost_uncached as int,
            saved: self.saved as int,
            estimate: self.estimate,
            gap_ms: self.gap_ms,
            saved_marginal: self.saved_marginal as int,
            write_premium: self.write_premium as int,
        }
    }
}

/// The row of a request that used the tokens `u` of the model `model`.
pub open spec fn priced_row(
    req_id: Seq<char>,
    ts: i64,
    who: IdentityView,
    model: Seq<char>,
    u: Usage,
    gap_ms: Option<i64>,
) -> RowView {
    let family = usage::family_of(text::lowered(model));
    let (p, q) = usage::prices_of(family);
    let (saved_marginal, write_premium, _) = usage::marginal_of(u, p, gap_ms);
    RowView {
        req_id,
        ts,
        session_id: who.session_id,
        agent_id: who.agent_id,
        parent_agent: who.parent_agent_id,
        project: who.project,
        model,
        family,
        input_tokens: u.input_tokens,
        cache_read: u.cache_read,
        cache_create: u.cache_create,
        ephem_5m: u.ephem_5m,
        ephem_1h: u.ephem_1h,
        output_tokens: u.output_tokens,
        cost_actual: usage::actual_cost(u, p, q),
        cost_uncached: usage::uncached_cost(u, p, q),
        saved: usage::uncached_cost(u, p, q) - usage::actual_cost(u, p, q),
        estimate: !patterns::family_known(model),
        gap_ms,
        saved_marginal,
        write_premium,
    }
}

/// The row of a request by what was found of it: whom it is counted for, its model, its tokens, its
/// cost, the gap before it and what an hour's lifetime gained.
pub fn row_from(
    req_id: &str,
    ts: i64,
    who: &Identity,
    model: &str,
    u: &Usage,
    cost: &Cost,
    gap_ms: Option<i64>,
    marginal: &Marginal,
) -> (r: RowInput)
    ensures
        r@ == (RowView {
            req_id: req_id@,
            ts,
            session_id: who.session_id@,
            agent_id: who.agent_id@,
            parent_agent: who.parent_agent_id@,
            project: who.project@,
            model: model@,
            family: cost.family@,
            input_tokens: u.input_tokens,
            cache_read: u.cache_read,
            cache_create: u.cache_create,
            ephem_5m: u.ephem_5m,
            ephem_1h: u.ephem_1h,
            output_tokens: u.output_tokens,
            cost_actual: cost.cost_actual as int,
            cost_uncached: cost.cost_uncached as int,
            saved: cost.saved as int,
            estimate: cost.estimate,
            gap_ms,
            saved_marginal: marginal.saved as int,
            write_premium: marginal.write_premium as int,
        }),
{
    RowInput {
        req_id: req_id.to_owned(),
        ts,
        session_id: who.session_id.clone(),
        agent_id: who.agent_id.clone(),
        parent_agent: who.parent_agent_id.clone(),
        project: who.project.clone(),
        model: model.to_owned(),
        family: cost.family.to_owned(),
        input_tokens: u.input_tokens,
        cache_read: u.cache_read,
        cache_create: u.cache_create,
        ephem_5m: u.ephem_5m,
        ephem_1h: u.ephem_1h,
        output_tokens: u.output_tokens,
        cost_actual: cost.cost_actual,
        cost_uncached: cost.cost_uncached,
        saved: cost.saved,
        estimate: cost.estimate,
        gap_ms,
        saved_marginal: marginal.saved,
        write_premium: marginal.write_premium,
    }
}

/// The row of a request that used the tokens `u` of the model `model`, after the gap `gap_ms`.
pub fn price_row(
    req_id: &str,
    ts: i64,
    who: &Identity,
    model: &str,
    u: &Usage,
    gap_ms: Option<i64>,
) -> (r: RowInput)
    ensures
        r@ == priced_row(req_id@, ts, who@, model@, *u, gap_ms),
        u.ephem_1h >= 0 ==> r.write_premium >= 0,
{
    let cost: Cost = usage::compute_cost(u, model);
    let marginal: Marginal = usage::compute_marginal(u, model, gap_ms);
    row_from(req_id, ts, who, model, u, &cost, gap_ms, &marginal)
}

/// An estimate for a model id of ASCII characters is priced as `opus`.
pub proof fn law_estimates_are_priced_as_opus(
    req_id: Seq<char>,
    ts: i64,
    who: IdentityView,
    model: Seq<char>,
    u: Usage,
    gap_ms: Option<i64>,
)
    requires
        vstd::utf8::is_ascii_chars(model),
    ensures
        ({
            let row = priced_row(req_id, ts, who, model, u, gap_ms);
            row.estimate ==> {
                &&& row.family == "opus"@
                &&& row.cost_actual == usage::actual_cost(u, 5, 25)
                &&& row.cost_uncached == usage::uncached_cost(u, 5, 25)
            }
        }),
{
    let m = text::ascii_lower_of(model);
    if !patterns::names_family(m) {
        usage::law_unknown_models_cost_as_opus(m);
    }
}

impl Default for RowInput {
    fn default() -> (r: RowInput)
        ensures
            r.req_id@.len() == 0 && r.session_id@.len() == 0 && r.agent_id@.len() == 0,
            r.parent_agent@.len() == 0 && r.project@.len() == 0 && r.model@.len() == 0,
            r.family@.len() == 0 && r.ts == 0 && r.input_tokens == 0 && r.cache_read == 0,
            r.cache_create == 0 && r.ephem_5m == 0 && r.ephem_1h == 0 && r.output_tokens == 0,
            r.cost_actual == 0 && r.cost_uncached == 0 && r.saved == 0 && !r.estimate,
            r.gap_ms is None && r.saved_marginal == 0 && r.write_premium == 0,
    {
        RowInput {
            req_id: String::new(),
            ts: 0,
            session_id: String::new(),
            agent_id: String::new(),
            parent_agent: String::new(),
            project: String::new(),
            model: String::new(),
            family: String::new(),
            input_tokens: 0,
            cache_read: 0,
            cache_create: 0,
            ephem_5m: 0,
            ephem_1h: 0,
            output_tokens: 0,
            cost_actual: 0,
            cost_uncached: 0,
            saved: 0,
            estimate: false,
            gap_ms: None,
            saved_marginal: 0,
            write_premium: 0,
        }
    }
}

/// The amounts of one request as JSON numbers of dollars.
#[derive(Clone, Debug)]
pub struct Dollars {
    pub cost_actual: Number,
    pub cost_uncached: Number,
    pub saved: Number,
    pub saved_marginal: Number,
    pub write_premium: Number,
}

/// The project that a row is kept under.
pub open spec fn kept_project_of(project: Seq<char>) -> Seq<char> {
    if project.len() == 0 {
        identity::UNKNOWN@
    } else {
        project
    }
}

/// The project that a row is kept under.
pub fn kept_project(project: &str) -> (r: String)
    ensures
        r@ == kept_project_of(project@),
{
    if project.is_empty() {
        identity::UNKNOWN.to_owned()
    } else {
        project.to_owned()
    }
}

/// The JSON form of an integer, or null.
pub open spec fn opt_int_of(n: Option<i64>) -> JsonView {
    match n {
        Some(n) => json::int_of(n),
        None => JsonView::Null,
    }
}

fn opt_int(n: Option<i64>) -> (r: Json)
    ensures
        r@ == opt_int_of(n),
{
    match n {
        Some(n) => json::integer(n),
        None => Json::Null,
    }
}

/// The row as the store keeps it and as subscribers are told of it.
pub open spec fn clean_row_of(r: RowInput, d: Dollars) -> JsonView {
    JsonView::Obj(
        seq![
            ("req_id"@, JsonView::Str(r.req_id@)),
            ("ts"@, json::int_of(r.ts)),
            ("session_id"@, JsonView::Str(r.session_id@)),
            ("agent_id"@, JsonView::Str(r.agent_id@)),
            ("parent_agent"@, JsonView::Str(r.parent_agent@)),
            ("project"@, JsonView::Str(kept_project_of(r.project@))),
            ("model"@, JsonView::Str(r.model@)),
            ("family"@, JsonView::Str(r.family@)),
            ("input_tokens"@, json::int_of(r.input_tokens)),
            ("cache_read"@, json::int_of(r.cache_read)),
            ("cache_create"@, json::int_of(r.cache_create)),
            ("ephem_5m"@, json::int_of(r.ephem_5m)),
            ("ephem_1h"@, json::int_of(r.ephem_1h)),
            ("output_tokens"@, json::int_of(r.output_tokens)),
            ("cost_actual"@, JsonView::Num(d.cost_actual@)),
            ("cost_uncached"@, JsonView::Num(d.cost_uncached@)),
            ("saved"@, JsonView::Num(d.saved@)),
            (
                "estimate"@,
                json::int_of(
                    if r.estimate {
                        1
                    } else {
                        0
                    },
                ),
            ),
            ("gap_ms"@, opt_int_of(r.gap_ms)),
            ("saved_marginal"@, JsonView::Num(d.saved_marginal@)),
            ("write_premium"@, JsonView::Num(d.write_premium@)),
        ],
    )
}

/// The row as the store keeps it and as subscribers are told of it. A row without a project is kept
/// under `unknown`. The amounts are given in dollars.
pub fn clean_row(r: &RowInput, d: &Dollars) -> (v: Json)
    ensures
        v@ == clean_row_of(*r, *d),
{
    let mut o: Vec<(String, Json)> = Vec::new();
    json::put(&mut o, "req_id", json::string(r.req_id.as_str()));
    json::put(&mut o, "ts", json::integer(r.ts));
    json::put(&mut o, "session_id", json::string(r.session_id.as_str()));
    json::put(&mut o, "agent_id", json::string(r.agent_id.as_str()));
    json::put(&mut o, "parent_agent", json::string(r.parent_agent.as_str()));
    json::put(&mut o, "project", Json::Str(kept_project(r.project.as_str())));
    json::put(&mut o, "model", json::string(r.model.as_str()));
    json::put(&mut o, "family", json::string(r.family.as_str()));
    json::put(&mut o, "input_tokens", json::integer(r.input_tokens));
    json::put(&mut o, "cache_read", json::integer(r.cache_read));
    json::put(&mut o, "cache_create", json::integer(r.cache_create));
    json::put(&mut o, "ephem_5m", json::integer(r.ephem_5m));
    json::put(&mut o, "ephem_1h", json::integer(r.ephem_1h));
    json::put(&mut o, "output_tokens", json::integer(r.output_tokens));
    json::put(&mut o, "cost_actual", Json::Num(d.cost_actual.copy()));
    json::put(&mut o, "cost_uncached", Json::Num(d.cost_uncached.copy()));
    json::put(&mut o, "saved", Json::Num(d.saved.copy()));
    let estimate: i64 = if r.estimate {
        1
    } else {
        0
    };
    json::put(&mut o, "estimate", json::integer(estimate));
    json::put(&mut o, "gap_ms", opt_int(r.gap_ms));
    json::put(&mut o, "saved_marginal", Json::Num(d.saved_marginal.copy()));
    json::put(&mut o, "write_premium", Json::Num(d.write_premium.copy()));
    assert(json::obj_view(o@) =~= clean_row_of(*r, *d)->Obj_0);
    Json::Obj(o)
}

/// The SQL expression that each dimension groups by.
pub open spec fn group_of(group_by: Seq<char>) -> Seq<char> {
    if group_by == "session"@ {
        "session_id"@
    } else if group_by == "agent"@ {
        "agent_id"@
    } else if group_by == "model"@ {
        "family"@
    } else if group_by == "day"@ {
        "strftime('%Y-%m-%d', ts/1000, 'unixepoch', 'localtime')"@
    } else {
        "project"@
    }
}

/// The SQL expression that each dimension groups by; the project for any other.
pub fn group_expr(group_by: &str) -> (r: &'static str)
    ensures
        r@ == group_of(group_by@),
{
    if text::same(group_by, "session") {
        "session_id"
    } else if text::same(group_by, "agent") {
        "agent_id"
    } else if text::same(group_by, "model") {
        "family"
    } else if text::same(group_by, "day") {
        "strftime('%Y-%m-%d', ts/1000, 'unixepoch', 'localtime')"
    } else {
        "project"
    }
}

/// The statement that adds the requests of a window up by a dimension.
pub fn rollup_sql(group_by: &str) -> (r: String)
    ensures
        r@ == "SELECT "@ + group_of(group_by@) + ROLLUP_TAIL@,
{
    let mut out: String = text::glue("SELECT ", group_expr(group_by));
    out.append(ROLLUP_TAIL);
    out
}

/// The condition on the requests that are listed.
pub open spec fn where_of(by_project: bool, by_session: bool) -> Seq<char> {
    if by_project && by_session {
        "WHERE project = ? AND session_id = ?"@
    } else if by_project {
        "WHERE project = ?"@
    } else if by_session {
        "WHERE session_id = ?"@
    } else {
        ""@
    }
}

/// The statement that lists the latest requests, of one project, of one session, or of both. Its
/// parameters are the project, the session and the most rows, in this order, as far as they are
/// asked for.
pub fn recent_sql(by_project: bool, by_session: bool) -> (r: String)
    ensures
        r@ == "SELECT * FROM requests "@ + where_of(by_project, by_session)
            + " ORDER BY ts DESC LIMIT ?"@,
{
    let condition: &str = if by_project && by_session {
        "WHERE project = ? AND session_id = ?"
    } else if by_project {
        "WHERE project = ?"
    } else if by_session {
        "WHERE session_id = ?"
    } else {
        ""
    };
    let mut out: String = text::glue("SELECT * FROM requests ", condition);
    out.append(" ORDER BY ts DESC LIMIT ?");
    out
}

/// The columns that tables of earlier versions lack, and the statements that add them.
pub open spec fn migrations() -> Seq<(Seq<char>, Seq<char>)> {
    seq![
        ("gap_ms"@, "ALTER TABLE requests ADD COLUMN gap_ms INTEGER"@),
        ("saved_marginal"@, "ALTER TABLE requests ADD COLUMN saved_marginal REAL DEFAULT 0"@),
        ("write_premium"@, "ALTER TABLE requests ADD COLUMN write_premium REAL DEFAULT 0"@),
    ]
}

/// The statements that add what a table with the columns `existing` lacks.
pub open spec fn pending_of(existing: Set<Seq<char>>) -> Seq<Seq<char>> {
    migrations().filter(|m: (Seq<char>, Seq<char>)| !existing.contains(m.0)).map_values(
        |m: (Seq<char>, Seq<char>)| m.1,
    )
}

/// The statements that add the columns which the table lacks, in order.
pub fn pending_migrations(existing: &Vec<String>) -> (r: Vec<String>)
    ensures
        text::texts(r@) == pending_of(text::text_set(existing@)),
{
    let ghost e = text::text_set(existing@);
    let ghost p = |m: (Seq<char>, Seq<char>)| !e.contains(m.0);
    let ghost second = |m: (Seq<char>, Seq<char>)| m.1;
    let ghost ms = migrations();
    let mut out: Vec<String> = Vec::new();
    proof {
        text::lemma_filter_step(ms, 0, p);
        text::lemma_filter_step(ms, 1, p);
        text::lemma_filter_step(ms, 2, p);
        assert(ms.take(0) =~= Seq::empty());
        assert(ms.take(0).filter(p) =~= Seq::empty()) by {
            reveal(Seq::filter);
        }
        assert(ms.take(3) =~= ms);
    }
    assert(text::texts(out@) =~= ms.take(0).filter(p).map_values(second));
    if !text::one_of(existing, "gap_ms") {
        let ghost before = text::texts(out@);
        out.push("ALTER TABLE requests ADD COLUMN gap_ms INTEGER".to_owned());
        assert(text::texts(out@) =~= before.push(ms[0].1));
    }
    assert(text::texts(out@) =~= ms.take(1).filter(p).map_values(second));
    if !text::one_of(existing, "saved_marginal") {
        let ghost before = text::texts(out@);
        out.push("ALTER TABLE requests ADD COLUMN saved_marginal REAL DEFAULT 0".to_owned());
        assert(text::texts(out@) =~= before.push(ms[1].1));
    }
    assert(text::texts(out@) =~= ms.take(2).filter(p).map_values(second));
    if !text::one_of(existing, "write_premium") {
        let ghost before = text::texts(out@);
        out.push("ALTER TABLE requests ADD COLUMN write_premium REAL DEFAULT 0".to_owned());
        assert(text::texts(out@) =~= before.push(ms[2].1));
    }
    assert(text::texts(out@) =~= ms.take(3).filter(p).map_values(second));
    out
}

/// A table that has every column needs no statement.
pub proof fn law_migrated_tables_stay(existing: Set<Seq<char>>)
    requires
        existing.contains("gap_ms"@),
        existing.contains("saved_marginal"@),
        existing.contains("write_premium"@),
    ensures
        pending_of(existing).len() == 0,
{
    let p = |m: (Seq<char>, Seq<char>)| !existing.contains(m.0);
    let ms = migrations();
    text::lemma_filter_step(ms, 0, p);
    text::lemma_filter_step(ms, 1, p);
    text::lemma_filter_step(ms, 2, p);
    assert(ms.take(0) =~= Seq::empty());
    assert(ms.take(0).filter(p) =~= Seq::empty()) by {
        reveal(Seq::filter);
    }
    assert(ms.take(3) =~= ms);
}

/// The least width of a stretch of time, in milliseconds.
pub const LEAST_BUCKET_MS: i64 = 1000;

/// `a` divided by `b`, rounded up.
pub open spec fn ceil_div(a: int, b: int) -> int {
    (a + b - 1) / b
}

/// The width of the stretches that the time from `from` to `to` is cut into, so that there are about
/// `buckets` of them.
pub open spec fn width_of(from: int, to: int, buckets: int) -> int {
    let span = if to - from > 1 {
        to - from
    } else {
        1
    };
    let b = if buckets > 1 {
        buckets
    } else {
        1
    };
    if ceil_div(span, b) > LEAST_BUCKET_MS {
        ceil_div(span, b)
    } else {
        LEAST_BUCKET_MS as int
    }
}

pub proof fn lemma_ceil_div(a: int, b: int)
    requires
        a >= 1,
        b >= 1,
    ensures
        1 <= ceil_div(a, b) <= a,
        ceil_div(a, b) * b >= a,
        (ceil_div(a, b) - 1) * b < a,
{
    let x = a + b - 1;
    let q = ceil_div(a, b);
    lemma_fundamental_div_mod(x, b);
    lemma_mod_division_less_than_divisor(x, b);
    assert(q * b == b * q && (q - 1) * b == b * q - b) by (nonlinear_arith);
    assert(q >= 1) by (nonlinear_arith)
        requires
            q * b >= 1,
            b >= 1,
    ;
    assert((q - 1) * b >= q - 1) by (nonlinear_arith)
        requires
            q >= 1,
            b >= 1,
    ;
}

/// The width of the stretches of time of a series: the given one, or one that makes about `buckets`
/// of the time from `from` to `to`.
pub fn bucket_width(from: i64, to: i64, buckets: i64, given: Option<i64>) -> (r: i64)
    requires
        given is None ==> to - from <= i64::MAX,
    ensures
        match given {
            Some(ms) => r == ms,
            None => r == width_of(from as int, to as int, buckets as int),
        },
{
    match given {
        Some(ms) => ms,
        None => {
            let span: i128 = if to as i128 - from as i128 > 1 {
                to as i128 - from as i128
            } else {
                1
            };
            let b: i128 = if buckets > 1 {
                buckets as i128
            } else {
                1
            };
            proof {
                lemma_ceil_div(span as int, b as int);
            }
            let width: i128 = (span + b - 1) / b;
            if width > LEAST_BUCKET_MS as i128 {
                width as i64
            } else {
                LEAST_BUCKET_MS
            }
        },
    }
}

/// Stretches of the width that is chosen cover the time with as many as were asked for, and with one
/// more where they are counted from the Unix epoch.
pub proof fn law_buckets_cover_the_span(from: int, to: int, buckets: int)
    requires
        from <= to,
        buckets >= 1,
    ensures
        width_of(from, to, buckets) >= LEAST_BUCKET_MS,
        width_of(from, to, buckets) * buckets >= to - from,
        to / width_of(from, to, buckets) - from / width_of(from, to, buckets) <= buckets,
{
    let span = if to - from > 1 {
        to - from
    } else {
        1
    };
    lemma_ceil_div(span, buckets);
    let w = width_of(from, to, buckets);
    let c = ceil_div(span, buckets);
    assert(w * buckets >= c * buckets) by (nonlinear_arith)
        requires
            w >= c,
            buckets >= 1,
    ;
    assert(w * buckets == buckets * w) by (nonlinear_arith);
    lemma_div_is_ordered(to, from + buckets * w, w);
    lemma_hoist_over_denominator(from, buckets, w as nat);
}

/// One point of a series.
pub open spec fn point_of(
    t: i64,
    requests: i64,
    saved: NumberView,
    saved_marginal: NumberView,
    cost_actual: NumberView,
    cache_read: i64,
) -> JsonView {
    JsonView::Obj(
        seq![
            ("t"@, json::int_of(t)),
            ("requests"@, json::int_of(requests)),
            ("saved"@, JsonView::Num(saved)),
            ("saved_marginal"@, JsonView::Num(saved_marginal)),
            ("cost_actual"@, JsonView::Num(cost_actual)),
            ("cache_read"@, json::int_of(cache_read)),
        ],
    )
}

/// One point of a series.
pub fn point(
    t: i64,
    requests: i64,
    saved: Number,
    saved_marginal: Number,
    cost_actual: Number,
    cache_read: i64,
) -> (r: Json)
    ensures
        r@ == point_of(t, requests, saved@, saved_marginal@, cost_actual@, cache_read),
{
    let mut o: Vec<(String, Json)> = Vec::new();
    json::put(&mut o, "t", json::integer(t));
    json::put(&mut o, "requests", json::integer(requests));
    json::put(&mut o, "saved", Json::Num(saved));
    json::put(&mut o, "saved_marginal", Json::Num(saved_marginal));
    json::put(&mut o, "cost_actual", Json::Num(cost_actual));
    json::put(&mut o, "cache_read", json::integer(cache_read));
    assert(json::obj_view(o@) =~= point_of(
        t,
        requests,
        saved@,
        saved_marginal@,
        cost_actual@,
        cache_read,
    )->Obj_0);
    Json::Obj(o)
}

/// A series of points.
pub fn series(bucket_ms: i64, from: i64, to: i64, points: Vec<Json>) -> (r: Json)
    ensures
        r@ == JsonView::Obj(
            seq![
                ("bucketMs"@, json::int_of(bucket_ms)),
                ("from"@, json::int_of(from)),
                ("to"@, json::int_of(to)),
                ("points"@, JsonView::Arr(json::arr_view(points@))),
            ],
        ),
{
    let ghost expected = seq![
        ("bucketMs"@, json::int_of(bucket_ms)),
        ("from"@, json::int_of(from)),
        ("to"@, json::int_of(to)),
        ("points"@, JsonView::Arr(json::arr_view(points@))),
    ];
    let mut o: Vec<(String, Json)> = Vec::new();
    json::put(&mut o, "bucketMs", json::integer(bucket_ms));
    json::put(&mut o, "from", json::integer(from));
    json::put(&mut o, "to", json::integer(to));
    json::put(&mut o, "points", Json::Arr(points));
    assert(json::obj_view(o@) =~= expected);
    Json::Obj(o)
}

/// The requests of one session in one family, and the session's project.
#[derive(Clone, Debug)]
pub struct MetaRow {
    pub session: String,
    pub family: String,
    pub requests: i64,
    pub project: String,
}

/// What is said of a session that nothing was said of yet.
pub open spec fn blank_entry(project: Seq<char>) -> JsonView {
    JsonView::Obj(seq![("project"@, JsonView::Str(project)), ("models"@, json::empty_object())])
}

/// What is said of a session, given what was said, with one row more.
pub open spec fn entry_with(entry: JsonView, r: MetaRow) -> JsonView {
    let e = json::with_field(entry, "project"@, JsonView::Str(r.project@));
    match json::field(e, "models"@) {
        Some(models) => json::with_field(
            e,
            "models"@,
            json::with_field(models, r.family@, json::int_of(r.requests)),
        ),
        None => e,
    }
}

/// What is said of the sessions by the rows: of each its project and how many requests it made in
/// each family.
pub open spec fn meta_of(rows: Seq<MetaRow>) -> JsonView
    decreases rows.len(),
{
    if rows.len() == 0 {
        json::empty_object()
    } else {
        let r = rows.last();
        let m = meta_of(rows.drop_last());
        let entry = match json::field(m, r.session@) {
            Some(e) => e,
            None => blank_entry(r.project@),
        };
        json::with_field(m, r.session@, entry_with(entry, r))
    }
}

/// What is said of a session that nothing was said of yet.
fn blank(project: &str) -> (r: Json)
    ensures
        r@ == blank_entry(project@),
{
    let mut o: Vec<(String, Json)> = Vec::new();
    json::put(&mut o, "project", json::string(project));
    json::put(&mut o, "models", json::empty());
    assert(json::obj_view(o@) =~= blank_entry(project@)->Obj_0);
    Json::Obj(o)
}

/// Adds one row to what is said of a session.
fn add_row(entry: &mut Json, r: &MetaRow)
    ensures
        final(entry)@ == entry_with(old(entry)@, *r),
{
    entry.set("project", json::string(r.project.as_str()));
    match entry.get_mut("models") {
        Some(models) => {
            models.set(r.family.as_str(), json::integer(r.requests));
        },
        None => {},
    }
}

/// What is said of the sessions by the rows.
pub fn session_meta(rows: &Vec<MetaRow>) -> (r: Json)
    ensures
        r@ == meta_of(rows@),
{
    let mut meta: Json = json::empty();
    let n: usize = rows.len();
    let mut i: usize = 0;
    assert(rows@.take(0) =~= Seq::empty());
    while i < n
        invariant
            n == rows@.len(),
            i <= n,
            meta@ == meta_of(rows@.take(i as int)),
        decreases n - i,
    {
        let row: &MetaRow = &rows[i];
        assert(rows@.take(i + 1).drop_last() =~= rows@.take(i as int));
        let ghost m = meta@;
        let known: bool = match meta.get_mut(row.session.as_str()) {
            Some(entry) => {
                add_row(entry, row);
                true
            },
            None => false,
        };
        if !known {
            let mut entry: Json = blank(row.project.as_str());
            add_row(&mut entry, row);
            meta.set(row.session.as_str(), entry);
        }
        i += 1;
    }
    assert(rows@.take(n as int) =~= rows@);
    meta
}

/// The row of a rollup by session with what is said of its session.
pub open spec fn row_with_meta(row: JsonView, meta: JsonView) -> JsonView {
    match json::text_field(row, "key"@) {
        Some(key) => match json::field(meta, key) {
            Some(m) => {
                let project = match json::field(m, "project"@) {
                    Some(p) => p,
                    None => JsonView::Null,
                };
                let models = match json::field(m, "models"@) {
                    Some(x) => x,
                    None => json::empty_object(),
                };
                json::with_field(json::with_field(row, "project"@, project), "models"@, models)
            },
            None => row,
        },
        None => row,
    }
}

fn add_meta(row: &mut Json, meta: &Json)
    ensures
        final(row)@ == row_with_meta(old(row)@, meta@),
{
    let found: Option<&Json> = match row.get_text("key") {
        Some(key) => meta.get(key),
        None => None,
    };
    match found {
        Some(m) => {
            let project: Json = match m.get("project") {
                Some(p) => p.copy(),
                None => Json::Null,
            };
            let models: Json = match m.get("models") {
                Some(x) => x.copy(),
                None => json::empty(),
            };
            row.set("project", project);
            row.set("models", models);
        },
        None => {},
    }
}

/// The answer to a question for a rollup.
pub open spec fn stats_of(
    group_by: Seq<char>,
    since: i64,
    totals: JsonView,
    rows: Seq<JsonView>,
    meta: Option<JsonView>,
) -> JsonView {
    let shown = match meta {
        Some(m) => if group_by == "session"@ {
            rows.map_values(|r: JsonView| row_with_meta(r, m))
        } else {
            rows
        },
        None => rows,
    };
    JsonView::Obj(
        seq![
            ("groupBy"@, JsonView::Str(group_by)),
            ("since"@, json::int_of(since)),
            ("totals"@, totals),
            ("rows"@, JsonView::Arr(shown)),
        ],
    )
}

/// The answer to a question for a rollup. One by session says of each session its project and its
/// families, out of `meta`.
pub fn build_stats(
    group_by: &str,
    since: i64,
    totals: Json,
    mut rows: Vec<Json>,
    meta: &Option<Json>,
) -> (r: Json)
    ensures
        r@ == stats_of(group_by@, since, totals@, json::arr_view(rows@), json::opt_view(*meta)),
{
    let ghost expected = stats_of(
        group_by@,
        since,
        totals@,
        json::arr_view(rows@),
        json::opt_view(*meta),
    );
    if text::same(group_by, "session") {
        match meta {
            Some(m) => {
                let ghost r0 = rows@;
                let n: usize = rows.len();
                let mut i: usize = 0;
                while i < n
                    invariant
                        n == rows@.len(),
                        n == r0.len(),
                        i <= n,
                        forall|j: int|
                            0 <= j < i ==> (#[trigger] rows@[j])@ == row_with_meta(r0[j]@, m@),
                        forall|j: int| i <= j < n ==> #[trigger] rows@[j] == r0[j],
                    decreases n - i,
                {
                    add_meta(&mut rows[i], m);
                    i += 1;
                }
                assert(json::arr_view(rows@) =~= json::arr_view(r0).map_values(
                    |r: JsonView| row_with_meta(r, m@),
                ));
            },
            None => {},
        }
    }
    let mut o: Vec<(String, Json)> = Vec::new();
    json::put(&mut o, "groupBy", json::string(group_by));
    json::put(&mut o, "since", json::integer(since));
    json::put(&mut o, "totals", totals);
    json::put(&mut o, "rows", Json::Arr(rows));
    assert(json::obj_view(o@) =~= expected->Obj_0);
    Json::Obj(o)
}

/// Whether the directory of the database has to be there before it is opened.
pub fn has_directory(db_path: &str) -> (r: bool)
    ensures
        r == (db_path@ != config::IN_MEMORY@),
{
    !text::same(db_path, config::IN_MEMORY)
}

/// The time from `from` to `to` can be told.
pub open spec fn span_known(from: i64, to: i64) -> bool {
    i64::MIN <= to - from <= i64::MAX
}

/// Whether the time from `from` to `to` can be told.
pub fn span_fits(from: i64, to: i64) -> (r: bool)
    ensures
        r == span_known(from, to),
{
    to.checked_sub(from).is_some()
}

/// The time since the session's previous request.
pub open spec fn gap_of(session: Seq<char>, ts: i64, last: Option<i64>) -> Option<i64> {
    match last {
        Some(t) => if session.len() > 0 {
            Some((ts - t) as i64)
        } else {
            None
        },
        None => None,
    }
}

/// The time since the session's previous request, which was at `last`. A request without a session
/// has none.
pub fn gap_since(session: &str, ts: i64, last: Option<i64>) -> (r: Option<i64>)
    requires
        session@.len() > 0 ==> (last matches Some(t) ==> span_known(t, ts)),
    ensures
        r == gap_of(session@, ts, last),
{
    match last {
        Some(t) => if session.is_empty() {
            None
        } else {
            Some(ts - t)
        },
        None => None,
    }
}

} // verus!
