use pino::json::{Json, Number};
use pino::store::{
    bucket_width, build_stats, clean_row, gap_since, group_expr, has_directory, kept_project,
    pending_migrations, point, recent_sql, rollup_sql, series, session_meta, span_fits, Dollars, MetaRow,
    RowInput, COLUMNS_SQL, INSERT_SQL, LAST_TS_SQL, META_SQL, PRAGMAS, SCHEMA, SERIES_SQL,
    SPAN_SQL, TOTALS_SQL,
};
use pino::usage::UNITS_PER_USD;
use rusqlite::types::ValueRef;
use rusqlite::Connection;

fn json(text: &str) -> Json {
    from_value(&serde_json::from_str(text).unwrap())
}

fn from_value(v: &serde_json::Value) -> Json {
    match v {
        serde_json::Value::Null => Json::Null,
        serde_json::Value::Bool(b) => Json::Bool(*b),
        serde_json::Value::Number(n) => Json::Num(if let Some(u) = n.as_u64() {
            Number::Unsigned(u)
        } else if let Some(i) = n.as_i64() {
            Number::Signed(i)
        } else {
            Number::Float(n.to_string())
        }),
        serde_json::Value::String(s) => Json::Str(s.clone()),
        serde_json::Value::Array(a) => Json::Arr(a.iter().map(from_value).collect()),
        serde_json::Value::Object(o) => {
            Json::Obj(o.iter().map(|(k, v)| (k.clone(), from_value(v))).collect())
        }
    }
}

fn to_value(v: &Json) -> serde_json::Value {
    match v {
        Json::Null => serde_json::Value::Null,
        Json::Bool(b) => serde_json::Value::Bool(*b),
        Json::Num(Number::Unsigned(u)) => serde_json::Value::from(*u),
        Json::Num(Number::Signed(i)) => serde_json::Value::from(*i),
        Json::Num(Number::Float(t)) => serde_json::Value::from(t.parse::<f64>().unwrap()),
        Json::Str(s) => serde_json::Value::String(s.clone()),
        Json::Arr(a) => serde_json::Value::Array(a.iter().map(to_value).collect()),
        Json::Obj(o) => serde_json::Value::Object(
            o.iter().map(|(k, v)| (k.clone(), to_value(v))).collect(),
        ),
    }
}

fn same(a: &Json, text: &str) {
    let expected: serde_json::Value = serde_json::from_str(text).unwrap();
    assert_eq!(to_value(a), expected);
}

fn usd(units: i128) -> f64 {
    units as f64 / UNITS_PER_USD as f64
}

fn units(dollars: f64) -> i128 {
    (dollars * UNITS_PER_USD as f64).round() as i128
}

fn amounts(r: &RowInput) -> Dollars {
    let n = |v: i128| Number::Float(usd(v).to_string());
    Dollars {
        cost_actual: n(r.cost_actual),
        cost_uncached: n(r.cost_uncached),
        saved: n(r.saved),
        saved_marginal: n(r.saved_marginal),
        write_premium: n(r.write_premium),
    }
}

fn open() -> Connection {
    let conn = Connection::open(":memory:").unwrap();
    conn.execute_batch(PRAGMAS).unwrap();
    conn.execute_batch(SCHEMA).unwrap();
    conn
}

fn record(conn: &Connection, r: &RowInput) -> Json {
    let (project, estimate) = (kept_project(&r.project), r.estimate as i64);
    let money = [r.cost_actual, r.cost_uncached, r.saved, r.saved_marginal, r.write_premium];
    let money = money.map(usd);
    let values: [&dyn rusqlite::ToSql; 21] = [
        &r.req_id, &r.ts, &r.session_id, &r.agent_id, &r.parent_agent, &project, &r.model,
        &r.family, &r.input_tokens, &r.cache_read, &r.cache_create, &r.ephem_5m, &r.ephem_1h,
        &r.output_tokens, &money[0], &money[1], &money[2], &estimate, &r.gap_ms, &money[3],
        &money[4],
    ];
    conn.execute(INSERT_SQL, values.as_slice()).unwrap();
    clean_row(r, &amounts(r))
}

fn rows(conn: &Connection, sql: &str, params: &[&dyn rusqlite::ToSql]) -> Vec<serde_json::Value> {
    let mut stmt = conn.prepare(sql).unwrap();
    let names: Vec<String> = stmt.column_names().map(|s| s.to_string()).collect();
    let found = stmt
        .query_map(params, |row| {
            let mut o = serde_json::Map::new();
            for (i, name) in names.iter().enumerate() {
                let v = match row.get_ref_unwrap(i) {
                    ValueRef::Integer(n) => serde_json::Value::from(n),
                    ValueRef::Real(f) => serde_json::Value::from(f),
                    ValueRef::Text(t) => {
                        serde_json::Value::from(String::from_utf8_lossy(t).into_owned())
                    }
                    _ => serde_json::Value::Null,
                };
                o.insert(name.clone(), v);
            }
            Ok(serde_json::Value::Object(o))
        })
        .unwrap();
    found.map(|r| r.unwrap()).collect()
}

/// The share that was saved, in percent.
fn pct(row: &serde_json::Value) -> f64 {
    let uncached = row["cost_uncached"].as_f64().unwrap_or(0.0);
    if uncached > 0.0 {
        row["saved"].as_f64().unwrap_or(0.0) / uncached * 100.0
    } else {
        0.0
    }
}

fn meta(conn: &Connection) -> Json {
    let mut stmt = conn.prepare(META_SQL).unwrap();
    let found: Vec<MetaRow> = stmt
        .query_map([0i64], |row| {
            Ok(MetaRow {
                session: row.get(0)?,
                family: row.get(1)?,
                requests: row.get(2)?,
                project: row.get(3)?,
            })
        })
        .unwrap()
        .map(|r| r.unwrap())
        .collect();
    session_meta(&found)
}

fn seeds() -> Vec<RowInput> {
    vec![
        RowInput {
            req_id: "r1".into(), ts: 1000, session_id: "s1".into(), agent_id: "a1".into(),
            project: "/x/pino".into(), model: "m-opus".into(), family: "opus".into(),
            input_tokens: 5, cache_read: 1000, cache_create: 100, ephem_5m: 100, ephem_1h: 0,
            output_tokens: 50, cost_actual: units(0.02), cost_uncached: units(0.10),
            saved: units(0.08), ..Default::default()
        },
        RowInput {
            req_id: "r2".into(), ts: 2000, session_id: "s1".into(), agent_id: "a2".into(),
            project: "/x/pino".into(), model: "m-haiku".into(), family: "haiku".into(),
            input_tokens: 1, cache_read: 2000, cache_create: 50, ephem_5m: 50, ephem_1h: 0,
            output_tokens: 20, cost_actual: units(0.001), cost_uncached: units(0.011),
            saved: units(0.01), ..Default::default()
        },
        RowInput {
            req_id: "r3".into(), ts: 3000, session_id: "s2".into(), agent_id: "a3".into(),
            project: "/x/mulch".into(), model: "m-opus".into(), family: "opus".into(),
            input_tokens: 2, cache_read: 500, cache_create: 0, ephem_5m: 0, ephem_1h: 0,
            output_tokens: 10, cost_actual: units(0.005), cost_uncached: units(0.02),
            saved: units(0.015), ..Default::default()
        },
    ]
}

fn seed(conn: &Connection) {
    for r in seeds() {
        record(conn, &r);
    }
}

#[test]
fn query_rollup_groups_and_sorts_by_saved_desc() {
    let conn = open();
    seed(&conn);
    let by_project = rows(&conn, &rollup_sql("project"), &[&0i64, &100i64]);
    assert_eq!(by_project.len(), 2);
    assert_eq!(by_project[0]["key"].as_str().unwrap(), "/x/pino"); // 0.09 saved
    assert_eq!(by_project[0]["requests"].as_i64().unwrap(), 2);
    assert!((by_project[0]["saved"].as_f64().unwrap() - 0.09).abs() < 1e-9);
    assert!(pct(&by_project[0]) > 0.0);
    assert!((pct(&by_project[0]) - 0.09 / 0.111 * 100.0).abs() < 1e-9);
}

#[test]
fn model_grouping_uses_family() {
    let conn = open();
    seed(&conn);
    let by_model = rows(&conn, &rollup_sql("model"), &[&0i64, &100i64]);
    let mut keys: Vec<String> = by_model
        .iter()
        .map(|r| r["key"].as_str().unwrap().to_string())
        .collect();
    keys.sort();
    assert_eq!(keys, vec!["haiku".to_string(), "opus".to_string()]);
}

#[test]
fn totals_aggregate_whole_window() {
    let conn = open();
    seed(&conn);
    let t = &rows(&conn, TOTALS_SQL, &[&0i64])[0];
    assert_eq!(t["requests"].as_i64().unwrap(), 3);
    assert!((t["saved"].as_f64().unwrap() - 0.105).abs() < 1e-9);
}

#[test]
fn record_request_emits_live_event() {
    let conn = open();
    let (tx, mut rx) = tokio::sync::broadcast::channel(16);
    for r in seeds() {
        tx.send(to_value(&record(&conn, &r))).unwrap();
    }
    // Three rows were published; the last is r3.
    let mut last = None;
    while let Ok(row) = rx.try_recv() {
        last = Some(row);
    }
    let got = last.expect("an event");
    assert_eq!(got["req_id"].as_str().unwrap(), "r3");
    assert!((got["saved"].as_f64().unwrap() - 0.015).abs() < 1e-9);
}

#[test]
fn session_meta_reports_project_and_model_mix() {
    let conn = open();
    seed(&conn);
    let meta = to_value(&meta(&conn));
    assert_eq!(meta["s1"]["project"].as_str().unwrap(), "/x/pino");
    let mut models: Vec<String> = meta["s1"]["models"]
        .as_object()
        .unwrap()
        .keys()
        .cloned()
        .collect();
    models.sort();
    assert_eq!(models, vec!["haiku".to_string(), "opus".to_string()]);
}

#[test]
fn clean_rows_hold_every_column() {
    let r = RowInput { req_id: "r".into(), ts: -5, estimate: true, gap_ms: Some(7), ..Default::default() };
    let n = |f: f64| Number::Float(f.to_string());
    let d = Dollars {
        cost_actual: n(1.5),
        cost_uncached: n(2.5),
        saved: n(1.0),
        saved_marginal: n(-0.5),
        write_premium: n(0.5),
    };
    same(&clean_row(&r, &d),
        r#"{"req_id":"r","ts":-5,"session_id":"","agent_id":"","parent_agent":"",
        "project":"unknown","model":"","family":"","input_tokens":0,"cache_read":0,
        "cache_create":0,"ephem_5m":0,"ephem_1h":0,"output_tokens":0,"cost_actual":1.5,
        "cost_uncached":2.5,"saved":1.0,"estimate":1,"gap_ms":7,"saved_marginal":-0.5,
        "write_premium":0.5}"#);
    let none = RowInput { gap_ms: None, ..r };
    assert!(to_value(&clean_row(&none, &d))["gap_ms"].is_null());
}

#[test]
fn dimensions_and_their_expressions() {
    assert_eq!(group_expr("session"), "session_id");
    assert_eq!(group_expr("agent"), "agent_id");
    assert_eq!(group_expr("model"), "family");
    assert!(group_expr("day").starts_with("strftime('%Y-%m-%d'"));
    assert_eq!(group_expr("project"), "project");
    assert_eq!(group_expr("x; DROP TABLE requests"), "project");
    assert_eq!(kept_project(""), "unknown");
    assert_eq!(kept_project("/p"), "/p");
}

#[test]
fn latest_requests_can_be_narrowed() {
    let conn = open();
    seed(&conn);
    let all = rows(&conn, &recent_sql(false, false), &[&2i64]);
    assert_eq!(all.iter().map(|r| r["req_id"].as_str().unwrap()).collect::<Vec<_>>(), ["r3", "r2"]);
    let project = rows(&conn, &recent_sql(true, false), &[&"/x/pino", &10i64]);
    assert_eq!(project.len(), 2);
    let session = rows(&conn, &recent_sql(false, true), &[&"s2", &10i64]);
    assert_eq!(session.len(), 1);
    let both = rows(&conn, &recent_sql(true, true), &[&"/x/pino", &"s2", &10i64]);
    assert!(both.is_empty());
    assert_eq!(recent_sql(true, true),
        "SELECT * FROM requests WHERE project = ? AND session_id = ? ORDER BY ts DESC LIMIT ?");
}

#[test]
fn tables_are_migrated() {
    let conn = Connection::open(":memory:").unwrap();
    conn.execute_batch("CREATE TABLE requests (req_id TEXT PRIMARY KEY, ts INTEGER, gap_ms INTEGER)")
        .unwrap();
    let columns = |conn: &Connection| -> Vec<String> {
        let mut stmt = conn.prepare(COLUMNS_SQL).unwrap();
        let names = stmt.query_map([], |row| row.get::<_, String>(1)).unwrap();
        names.map(|r| r.unwrap()).collect()
    };
    let pending = pending_migrations(&columns(&conn));
    assert_eq!(pending, vec![
        "ALTER TABLE requests ADD COLUMN saved_marginal REAL DEFAULT 0",
        "ALTER TABLE requests ADD COLUMN write_premium REAL DEFAULT 0",
    ]);
    for ddl in &pending {
        conn.execute_batch(ddl).unwrap();
    }
    assert!(pending_migrations(&columns(&conn)).is_empty());
    assert_eq!(pending_migrations(&vec![]).len(), 3);
}

#[test]
fn gaps_are_since_the_previous_request() {
    let conn = open();
    seed(&conn);
    let last: Option<i64> = conn
        .query_row(LAST_TS_SQL, ("s1", 2000i64), |row| row.get(0))
        .unwrap();
    assert_eq!(last, Some(1000));
    assert_eq!(gap_since("s1", 2000, last), Some(1000));
    let none: Option<i64> = conn
        .query_row(LAST_TS_SQL, ("s1", 1000i64), |row| row.get(0))
        .unwrap();
    assert_eq!(gap_since("s1", 1000, none), None);
    assert_eq!(gap_since("", 2000, Some(1000)), None);
}

#[test]
fn buckets_follow_the_span() {
    assert_eq!(bucket_width(0, 80_000, 80, None), 1000);
    assert_eq!(bucket_width(0, 800_000, 80, None), 10_000);
    assert_eq!(bucket_width(0, 800_001, 80, None), 10_001);
    assert_eq!(bucket_width(5, 5, 80, None), 1000);
    assert_eq!(bucket_width(0, 5_000, 0, None), 5_000);
    assert_eq!(bucket_width(0, 5_000, -3, None), 5_000);
    assert_eq!(bucket_width(0, 5_000, 80, Some(7)), 7);
    assert_eq!(bucket_width(i64::MIN, i64::MAX, 80, Some(7)), 7);
}

#[test]
fn series_are_cut_into_buckets() {
    let conn = open();
    seed(&conn);
    let (from, to): (i64, i64) =
        conn.query_row(SPAN_SQL, [0i64], |row| Ok((row.get(0)?, row.get(1)?))).unwrap();
    assert_eq!((from, to), (1000, 3000));
    let width = bucket_width(from, to, 1, None);
    assert_eq!(width, 2000);
    let points = rows(&conn, SERIES_SQL, &[&width, &width, &0i64]);
    assert_eq!(points.len(), 2);
    assert_eq!(points[0]["bucket"].as_i64(), Some(0));
    assert_eq!(points[1]["requests"].as_i64(), Some(2));
    let n = Number::Float("0.5".to_string());
    let p = point(2000, 2, n.clone(), n.clone(), n, 9);
    same(&series(width, from, to, vec![p]),
        r#"{"bucketMs":2000,"from":1000,"to":3000,"points":[{"t":2000,"requests":2,"saved":0.5,
        "saved_marginal":0.5,"cost_actual":0.5,"cache_read":9}]}"#);
}

#[test]
fn stats_by_session_say_more() {
    let rows = || vec![json(r#"{"key":"s1","saved":1}"#), json(r#"{"key":"s9"}"#), json(r#"{"key":null}"#)];
    let meta = || Some(json(r#"{"s1":{"project":"/p","models":{"opus":2}},"s2":{}}"#));
    let by_session = build_stats("session", 5, json(r#"{"requests":1}"#), rows(), &meta());
    same(&by_session,
        r#"{"groupBy":"session","since":5,"totals":{"requests":1},
        "rows":[{"key":"s1","saved":1,"project":"/p","models":{"opus":2}},{"key":"s9"},
                {"key":null}]}"#);
    let by_model = build_stats("model", 0, json("{}"), rows(), &meta());
    same(&by_model,
        r#"{"groupBy":"model","since":0,"totals":{},
        "rows":[{"key":"s1","saved":1},{"key":"s9"},{"key":null}]}"#);
    let bare = build_stats("session", 0, json("{}"), vec![json(r#"{"key":"s2"}"#)], &meta());
    assert_eq!(to_value(&bare)["rows"].to_string(), r#"[{"key":"s2","models":{},"project":null}]"#);
}

#[test]
fn later_rows_settle_a_sessions_project() {
    let row = |family: &str, n: i64, project: &str| MetaRow {
        session: "s".into(),
        family: family.into(),
        requests: n,
        project: project.into(),
    };
    let m = session_meta(&vec![row("opus", 2, "/a"), row("haiku", 1, "/b"), row("opus", 5, "/c")]);
    same(&m, r#"{"s":{"project":"/c","models":{"opus":5,"haiku":1}}}"#);
    same(&session_meta(&vec![]), "{}");
    assert!(has_directory("./data/metrics.db") && !has_directory(":memory:"));
}

#[test]
fn spans_that_cannot_be_told_are_known() {
    assert!(span_fits(0, i64::MAX) && span_fits(5, 3) && span_fits(0, i64::MIN));
    assert!(!span_fits(-1, i64::MAX) && !span_fits(1, i64::MIN));
}
