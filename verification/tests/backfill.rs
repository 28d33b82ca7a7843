use pino::backfill::{
    arg_or_env, capture_id, capture_row, capture_usage, gaps_fit, header_texts, logged_parts,
    pick_headers, price_captures, sort_captures, split_resp_log, Parsed,
};
use pino::identity::ProjectCache;
use pino::json::{Json, Number};
use pino::logger::response_log_preamble;
use pino::store::RowInput;
use pino::text::kebab;
use pino::usage::{Usage, FIVE_MIN_MS};

fn json(text: &str) -> Json {
    from_value(&serde_json::from_str(text).unwrap())
}

fn from_value(v: &serde_json::Value) -> Json {
    match v {
        serde_json::Value::Null => Json::Null,
        serde_json::Value::Bool(b) => Json::Bool(*b),
        serde_json::Value::Number(n) => Json::Num(if let Some(u) = n.as_u64() {
            Number::Unsigned(u)
        } else if let Some(i) = n.as_i64() {
            Number::Signed(i)
        } else {
            Number::Float(n.to_string())
        }),
        serde_json::Value::String(s) => Json::Str(s.clone()),
        serde_json::Value::Array(a) => Json::Arr(a.iter().map(from_value).collect()),
        serde_json::Value::Object(o) => {
            Json::Obj(o.iter().map(|(k, v)| (k.clone(), from_value(v))).collect())
        }
    }
}

fn to_value(v: &Json) -> serde_json::Value {
    match v {
        Json::Null => serde_json::Value::Null,
        Json::Bool(b) => serde_json::Value::Bool(*b),
        Json::Num(Number::Unsigned(u)) => serde_json::Value::from(*u),
        Json::Num(Number::Signed(i)) => serde_json::Value::from(*i),
        Json::Num(Number::Float(t)) => serde_json::Value::from(t.parse::<f64>().unwrap()),
        Json::Str(s) => serde_json::Value::String(s.clone()),
        Json::Arr(a) => serde_json::Value::Array(a.iter().map(to_value).collect()),
        Json::Obj(o) => serde_json::Value::Object(
            o.iter().map(|(k, v)| (k.clone(), to_value(v))).collect(),
        ),
    }
}

fn same(a: &Json, text: &str) {
    let expected: serde_json::Value = serde_json::from_str(text).unwrap();
    assert_eq!(to_value(a), expected);
}

#[test]
fn logs_read_back_as_they_were_written() {
    let headers = r#"{"content-encoding":"gzip","x":"a\nb"}"#;
    let mut log = response_log_preamble(200, &json(headers));
    log.extend_from_slice(b"\n\nbody\n\nwith blank lines\xff");
    let (found, body) = split_resp_log(&log);
    assert_eq!(found, vec![headers]);
    assert_eq!(body, b"\n\nbody\n\nwith blank lines\xff".to_vec());
}

#[test]
fn logs_without_a_blank_line_are_not_read() {
    let (found, body) = split_resp_log(b"# status=200\n# headers={}\n");
    assert!(found.is_empty() && body.is_empty());
    assert!(split_resp_log(b"").1.is_empty());
    assert_eq!(split_resp_log(b"\n\n").1, Vec::<u8>::new());
    assert_eq!(split_resp_log(b"x\n\ny"), (vec![], b"y".to_vec()));
}

#[test]
fn header_lines_are_found_in_order() {
    assert_eq!(
        header_texts("# headers=one\r\n# status=1\n # headers=no\n# headers=two\r"),
        vec!["one", "two\r"]
    );
    assert!(header_texts("").is_empty());
    assert_eq!(header_texts("# headers=\n"), vec![""]);
}

#[test]
fn the_last_headers_that_parse_count() {
    same(&pick_headers(vec![Some(json("1")), Some(json("2")), None]), "2");
    same(&pick_headers(vec![None]), "{}");
    same(&pick_headers(vec![]), "{}");
}

#[test]
fn captures_are_known_by_their_file_names() {
    assert_eq!(capture_id("abc.resp.log").as_deref(), Some("abc"));
    assert_eq!(capture_id("abc.resp.log.resp.log").as_deref(), Some("abc"));
    assert_eq!(capture_id(".resp.log").as_deref(), Some(""));
    assert_eq!(capture_id("abc.req.json"), None);
    assert_eq!(capture_id("resp.log"), None);
}

#[test]
fn arguments_come_before_variables() {
    let s = |t: &str| Some(t.to_string());
    assert_eq!(arg_or_env(s("a"), s("v"), "d"), "a");
    assert_eq!(arg_or_env(None, s(""), "d"), "");
    assert_eq!(arg_or_env(None, None, "d"), "d");
}

#[test]
fn request_logs_give_headers_and_body() {
    let (h, b) = logged_parts(&Some(json(r#"{"meta":{"headers":{"a":1}},"body":{"b":2}}"#)));
    same(&h, r#"{"a":1}"#);
    same(&b, r#"{"b":2}"#);
    let (h, b) = logged_parts(&Some(json(r#"{"meta":3}"#)));
    same(&h, "{}");
    same(&b, "{}");
    same(&logged_parts(&None).0, "{}");
}

const REPORT: &str = "{\"model\":\"m-sonnet\",\"usage\":{\"input_tokens\":1,\
    \"cache_creation_input_tokens\":2,\"cache_read_input_tokens\":3},\"output_tokens\":4}";

#[test]
fn captures_become_rows() {
    let zipped = zstd::stream::encode_all(REPORT.as_bytes(), 1).unwrap();
    let (u, t) = capture_usage(&json(r#"{"content-encoding":"zstd"}"#), &zipped).unwrap();
    assert_eq!(t, REPORT);
    assert_eq!(u, Usage { input_tokens: 1, cache_create: 2, cache_read: 3, output_tokens: 4,
        ..Default::default() });
    assert!(capture_usage(&json("{}"), &zipped).is_none());

    let mut cache = ProjectCache::new();
    let headers = json(&format!(r#"{{"{}":"s"}}"#, kebab("x_claude_code_session_id")));
    let body = json(r#"{"model":"f","system":"cwd: /home/p"}"#);
    let p = capture_row(&mut cache, "id", 77, &t, &u, &headers, &body);
    assert_eq!((p.row.req_id.as_str(), p.row.ts, p.row.session_id.as_str()), ("id", 77, "s"));
    assert_eq!(p.row.project, "/home/p");
    assert_eq!((p.model.as_str(), p.row.family.as_str()), ("m-sonnet", "sonnet"));
    assert_eq!(p.row.cost_actual, (20 + 2 * 3 + 25 * 2) * 3 + 20 * 4 * 15);
    assert_eq!((p.row.gap_ms, p.row.saved_marginal, p.row.write_premium), (None, 0, 0));
    assert_eq!(cache.recall("s"), Some("/home/p"));
    assert_eq!(cache.recall("t"), None);
}

fn capture(id: &str, session: &str, ts: i64) -> Parsed {
    Parsed {
        row: RowInput {
            req_id: id.to_string(),
            session_id: session.to_string(),
            ts,
            ..Default::default()
        },
        usage: Usage { cache_read: 100, ephem_1h: 10, ..Default::default() },
        model: "haiku".to_string(),
    }
}

#[test]
fn captures_are_priced_by_the_gaps_in_their_sessions() {
    let sorted = sort_captures(vec![
        capture("c", "s2", 50),
        capture("b", "s1", 1_000 + FIVE_MIN_MS),
        capture("x", "", 1),
        capture("a", "s1", 1_000),
        capture("y", "", 2),
        capture("d", "s2", 50),
        capture("e", "s10", 7),
    ]);
    let ids: Vec<&str> = sorted.iter().map(|p| p.row.req_id.as_str()).collect();
    assert_eq!(ids, ["x", "y", "a", "b", "e", "c", "d"]);
    assert!(gaps_fit(&sorted));
    let rows = price_captures(sorted);
    let gaps: Vec<Option<i64>> = rows.iter().map(|r| r.gap_ms).collect();
    assert_eq!(gaps, [None, None, None, Some(FIVE_MIN_MS), None, None, Some(0)]);
    assert_eq!(rows[2].saved_marginal, -10 * 15);
    assert_eq!(rows[3].saved_marginal, 100 * 23 - 10 * 15);
    assert!(rows.iter().all(|r| r.write_premium == 10 * 15));
}

#[test]
fn gaps_beyond_all_time_are_told() {
    let far = vec![capture("a", "s", i64::MIN), capture("b", "s", i64::MAX)];
    assert!(!gaps_fit(&far));
    let apart = vec![capture("a", "s", i64::MIN), capture("b", "t", i64::MAX)];
    assert!(gaps_fit(&apart));
}
