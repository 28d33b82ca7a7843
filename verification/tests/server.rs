use pino::cache::count_cache_breakpoints;
use pino::config::{load_config, Config, Env, Location, BETA_FLAG, MAX_METER_BYTES};
use pino::identity::Identity;
use pino::json::{Json, Number};
use pino::server::{
    beta_note, can_mutate, downstream_headers, ensure_beta_header, fallback_model, forwarded_line,
    header_text, headers_to_json, is_hop_by_hop, is_json_request, is_messages_path, meter,
    mutate_body, plan, prepare, upstream_headers, upstream_url, Beta, Header, MeterBuffer, MeterJob,
};
use pino::text::kebab;
use pino::transform::Transform;

fn json(text: &str) -> Json {
    from_value(&serde_json::from_str(text).unwrap())
}

fn from_value(v: &serde_json::Value) -> Json {
    match v {
        serde_json::Value::Null => Json::Null,
        serde_json::Value::Bool(b) => Json::Bool(*b),
        serde_json::Value::Number(n) => Json::Num(if let Some(u) = n.as_u64() {
            Number::Unsigned(u)
        } else if let Some(i) = n.as_i64() {
            Number::Signed(i)
        } else {
            Number::Float(n.to_string())
        }),
        serde_json::Value::String(s) => Json::Str(s.clone()),
        serde_json::Value::Array(a) => Json::Arr(a.iter().map(from_value).collect()),
        serde_json::Value::Object(o) => {
            Json::Obj(o.iter().map(|(k, v)| (k.clone(), from_value(v))).collect())
        }
    }
}

fn to_value(v: &Json) -> serde_json::Value {
    match v {
        Json::Null => serde_json::Value::Null,
        Json::Bool(b) => serde_json::Value::Bool(*b),
        Json::Num(Number::Unsigned(u)) => serde_json::Value::from(*u),
        Json::Num(Number::Signed(i)) => serde_json::Value::from(*i),
        Json::Num(Number::Float(t)) => serde_json::Value::from(t.parse::<f64>().unwrap()),
        Json::Str(s) => serde_json::Value::String(s.clone()),
        Json::Arr(a) => serde_json::Value::Array(a.iter().map(to_value).collect()),
        Json::Obj(o) => serde_json::Value::Object(
            o.iter().map(|(k, v)| (k.clone(), to_value(v))).collect(),
        ),
    }
}

fn same(a: &Json, text: &str) {
    let expected: serde_json::Value = serde_json::from_str(text).unwrap();
    assert_eq!(to_value(a), expected);
}

fn config(auto_cache: bool, model: &str, tail: &str) -> Config {
    let env = Env {
        port: None,
        bind_host: None,
        auto_cache: Some(if auto_cache { "1".to_string() } else { "".to_string() }),
        log_bodies: None,
        log_dir: None,
        tail_ttl: Some(tail.to_string()),
        model_override: Some(model.to_string()),
        metrics: Some("1".to_string()),
        dashboard: None,
        dashboard_token: None,
        db_path: None,
        transform: None,
        transform_file: None,
    };
    let at = Location { canonical: None, absolute: false, joined: None };
    load_config(&env, &at, &at)
}

fn header(name: &str, value: &[u8]) -> Header {
    Header { name: name.to_string(), value: value.to_vec() }
}

fn lines(hs: &[Header]) -> Vec<(String, String)> {
    hs.iter()
        .map(|h| (h.name.clone(), String::from_utf8_lossy(&h.value).into_owned()))
        .collect()
}

fn line(name: &str, value: &str) -> (String, String) {
    (name.to_string(), value.to_string())
}

#[test]
fn headers_of_a_connection_are_known() {
    for name in [
        "connection", "keep-alive", "proxy-authenticate", "proxy-authorization", "te", "trailer",
        "transfer-encoding", "upgrade",
    ] {
        assert!(is_hop_by_hop(name));
    }
    assert!(!is_hop_by_hop("host") && !is_hop_by_hop("Connection"));
    assert!(is_messages_path("/v1/messages"));
    assert!(is_messages_path("/v1/messages/count_tokens"));
    assert!(!is_messages_path("/v1/messages/"));
}

#[test]
fn headers_go_upstream_verbatim() {
    let hs = vec![
        header("host", b"localhost"),
        header("x-api-key", b"k"),
        header("content-length", b"3"),
        header("accept", b"a"),
        header("accept", b"b"),
        header("te", b"trailers"),
        header("x-odd", b"\xff"),
    ];
    let up = upstream_headers(&hs);
    assert_eq!(up.len(), 4);
    assert_eq!(lines(&up)[..3], [line("x-api-key", "k"), line("accept", "a"), line("accept", "b")]);
    assert_eq!(up[3].value, b"\xff".to_vec());
    let down = downstream_headers(&hs);
    assert_eq!(down.len(), 6);
    assert_eq!(lines(&down)[0], line("host", "localhost"));
}

#[test]
fn headers_become_an_object_of_first_values() {
    let hs = vec![
        header("Accept", b"a"),
        header("accept", b"b"),
        header("x-odd", b"caf\xc3\xa9"),
        header("x-tab", b"a\tb"),
    ];
    same(&headers_to_json(&hs), r#"{"accept":"a","x-odd":"","x-tab":"a\tb"}"#);
    assert_eq!(header_text(&hs, "x-tab").as_deref(), Some("a\tb"));
    assert_eq!(header_text(&hs, "x-odd"), None);
    assert_eq!(header_text(&hs, "nope"), None);
}

#[test]
fn json_requests_are_told_by_content_type() {
    assert!(is_json_request(&vec![header("content-type", b"application/json; charset=utf-8")]));
    assert!(!is_json_request(&vec![header("content-type", b"text/plain")]));
    assert!(!is_json_request(&vec![
        header("content-type", b"text/plain"),
        header("content-type", b"application/json"),
    ]));
    assert!(!is_json_request(&vec![]));
}

#[test]
fn the_beta_flag_is_added_once() {
    let mut none = vec![header("accept", b"a")];
    assert_eq!(ensure_beta_header(&mut none), Beta::Added);
    assert_eq!(lines(&none)[1], line("anthropic-beta", BETA_FLAG));
    assert_eq!(ensure_beta_header(&mut none), Beta::Present);
    assert_eq!(none.len(), 2);

    let mut other = vec![header("anthropic-beta", b"one,two")];
    assert_eq!(ensure_beta_header(&mut other), Beta::Appended);
    assert_eq!(lines(&other)[0].1, format!("one,two,{BETA_FLAG}"));

    let mut spaced = vec![header("anthropic-beta", format!("one , {BETA_FLAG} ").as_bytes())];
    assert_eq!(ensure_beta_header(&mut spaced), Beta::Present);

    let mut two = vec![header("anthropic-beta", b"one"), header("anthropic-beta", b"two")];
    assert_eq!(ensure_beta_header(&mut two), Beta::Appended);
    assert_eq!(lines(&two)[0].1, format!("one,{BETA_FLAG}"));
    assert_eq!(lines(&two)[1].1, "two");

    let mut odd = vec![header("anthropic-beta", b"\xff")];
    assert_eq!(ensure_beta_header(&mut odd), Beta::Appended);
    assert_eq!(lines(&odd)[0].1, format!(",{BETA_FLAG}"));
    assert_eq!(beta_note(None), "beta=skipped");
    assert_eq!(beta_note(Some(Beta::Appended)), "beta=appended");
}

#[test]
fn requests_are_planned() {
    let hs = vec![header("content-type", b"application/json")];
    let cached = config(true, "", "5m");
    let p = plan(&cached, true, "POST", "/v1/messages", &hs, false);
    assert!(p.messages && p.mutate && p.meter);
    let count = plan(&cached, true, "POST", "/v1/messages/count_tokens", &hs, false);
    assert!(count.messages && count.mutate && !count.meter);
    assert!(!plan(&cached, false, "POST", "/v1/messages", &hs, false).meter);
    assert!(!plan(&cached, true, "GET", "/v1/messages", &hs, false).messages);
    assert!(!plan(&cached, true, "POST", "/v1/models", &hs, false).messages);
    assert!(!plan(&cached, true, "POST", "/v1/messages", &hs, true).messages);
    assert!(!plan(&cached, true, "POST", "/v1/messages", &vec![], false).messages);
    let plain = plan(&config(false, "", "5m"), true, "POST", "/v1/messages", &hs, false);
    assert!(plain.messages && !plain.mutate && plain.meter);
    assert!(plan(&config(false, "m", "5m"), true, "POST", "/v1/messages", &hs, false).mutate);
}

#[test]
fn bodies_are_changed_in_order() {
    let mut body = json(
        r#"{"model":"old","system":"I am Opus 4.7","tools":[{"name":"A"},{"name":"B"}],
            "messages":[{"role":"user","content":"x\u001b[0m"}]}"#,
    );
    let t = Transform::from_env(Some("B"), None, None);
    let m = kebab("claude_haiku_4_5");
    let cfg = config(true, &m, "1h");
    assert!(can_mutate(&body, &cfg, true));
    let notes = mutate_body(&mut body, &cfg, Some(&t));
    assert_eq!(notes, vec![
        format!("model=old->{m},sys-rewrites=1"),
        "transform=ok".to_string(),
        "cache=rewrote:0,already:2,skipped:1,inject:tools+system-string+tail:1h,mid-stripped:0,\
         tail-ttl:1h".to_string(),
    ]);
    same(&body, &format!(
        r#"{{"model":"{m}",
        "system":[{{"type":"text","text":"I am Haiku 4.5",
                    "cache_control":{{"type":"ephemeral","ttl":"1h"}}}}],
        "tools":[{{"name":"A","cache_control":{{"type":"ephemeral","ttl":"1h"}}}}],
        "messages":[{{"role":"user","content":[{{"type":"text","text":"x",
            "cache_control":{{"type":"ephemeral","ttl":"1h"}}}}]}}]}}"#
    ));
    assert_eq!(count_cache_breakpoints(&body), 3);
    assert_eq!(fallback_model(&Some(body)), m);
    assert_eq!(fallback_model(&None), "");
}

#[test]
fn a_null_body_takes_a_forced_model() {
    let mut body = Json::Null;
    let cfg = config(false, "m", "5m");
    assert!(can_mutate(&body, &cfg, false));
    assert_eq!(mutate_body(&mut body, &cfg, None), vec!["model=->m,sys-rewrites=0"]);
    same(&body, r#"{"model":"m"}"#);
    assert!(!can_mutate(&json("[]"), &cfg, false));
    assert!(can_mutate(&json("[]"), &config(true, "", "5m"), false));
    assert!(!can_mutate(&json(r#"{"messages":[1,2]}"#), &config(true, "", "5m"), true));
}

#[test]
fn nothing_asked_changes_nothing() {
    let text = r#"{"model":"m","messages":[{"role":"user","content":"x"}]}"#;
    let mut body = json(text);
    assert!(mutate_body(&mut body, &config(false, "", "5m"), None).is_empty());
    same(&body, text);
}

#[test]
fn outgoing_requests_carry_the_flag_with_their_breakpoints() {
    let hs = vec![header("host", b"h"), header("anthropic-beta", b"x")];
    let cfg = config(true, "", "5m");
    let mut parsed = Some(json(r#"{"model":"m","messages":[{"role":"user","content":"x"}]}"#));
    let out = prepare(&cfg, None, &hs, &mut parsed);
    assert_eq!(lines(&out.headers), vec![line("anthropic-beta", &format!("x,{BETA_FLAG}"))]);
    assert_eq!(out.notes.len(), 2);
    assert_eq!(out.notes[1], "beta=appended");
    assert_eq!(out.fallback_model, "m");
    assert_eq!(count_cache_breakpoints(parsed.as_ref().unwrap()), 1);

    let mut unread = None;
    let plain = prepare(&cfg, None, &hs, &mut unread);
    assert_eq!(lines(&plain.headers), vec![line("anthropic-beta", "x")]);
    assert_eq!(plain.notes, vec!["beta=skipped"]);
    assert_eq!(plain.fallback_model, "");
    assert!(unread.is_none());
}

#[test]
fn forwarded_requests_are_logged_in_one_line() {
    let notes = vec!["a=1".to_string(), "b=2".to_string()];
    assert_eq!(
        forwarded_line("POST", "/v1/messages?x=1", 200, "id", &notes, true),
        "POST /v1/messages?x=1 -> 200 [id=id a=1 b=2 metered]"
    );
    assert_eq!(
        forwarded_line("GET", "/", 404, "id", &vec![], false),
        "GET / -> 404 [id=id pass-through]"
    );
    assert_eq!(upstream_url("/v1/messages?b=1"), "https://api.anthropic.com/v1/messages?b=1");
}

#[test]
fn the_meter_keeps_all_or_nothing() {
    let mut b = MeterBuffer::new();
    assert!(!b.feed(b"abc"));
    assert!(!b.feed(b""));
    assert!(!b.feed(b"def"));
    assert_eq!(b.finish(), Some(b"abcdef".to_vec()));

    let mut full = MeterBuffer::new();
    let chunk = vec![0u8; MAX_METER_BYTES];
    assert!(!full.feed(&chunk));
    assert!(full.feed(b"x"));
    assert!(!full.feed(b"y"));
    assert_eq!(full.finish(), None);
}

const REPORT: &str = "{\"model\":\"m-haiku\",\"usage\":{\"input_tokens\":10,\
    \"cache_creation_input_tokens\":20,\"cache_read_input_tokens\":1000,\
    \"cache_creation\":{\"ephemeral_5m_input_tokens\":0,\"ephemeral_1h_input_tokens\":20},\
    \"output_tokens\":5}}";

fn job(buf: &[u8], encoding: &str, session: &str) -> MeterJob {
    MeterJob {
        req_id: "r".to_string(),
        ts: 1_000_000,
        identity: Identity {
            session_id: session.to_string(),
            agent_id: "a".to_string(),
            parent_agent_id: "p".to_string(),
            project: "/x".to_string(),
        },
        fallback_model: "fallback".to_string(),
        buf: buf.to_vec(),
        content_encoding: encoding.to_string(),
    }
}

#[test]
fn responses_are_metered() {
    let zipped = zstd::stream::encode_all(REPORT.as_bytes(), 1).unwrap();
    let row = meter(&job(&zipped, "zstd", "s"), Some(1_000_000 - 300_000)).unwrap();
    assert_eq!((row.req_id.as_str(), row.ts), ("r", 1_000_000));
    assert_eq!((row.session_id.as_str(), row.agent_id.as_str()), ("s", "a"));
    assert_eq!((row.parent_agent.as_str(), row.project.as_str()), ("p", "/x"));
    assert_eq!((row.model.as_str(), row.family.as_str()), ("m-haiku", "haiku"));
    assert!(!row.estimate);
    assert_eq!(row.cost_actual, 20 * 10 + 2 * 1000 + 40 * 20 + 20 * 5 * 5);
    assert_eq!(row.cost_uncached, 20 * 1030 + 20 * 5 * 5);
    assert_eq!(row.saved, row.cost_uncached - row.cost_actual);
    assert_eq!(row.gap_ms, Some(300_000));
    assert_eq!(row.write_premium, 20 * 15);
    assert_eq!(row.saved_marginal, 1000 * 23 - 20 * 15);
}

#[test]
fn requests_without_a_session_have_no_gap() {
    let row = meter(&job(REPORT.as_bytes(), "", ""), Some(5)).unwrap();
    assert_eq!(row.gap_ms, None);
    assert_eq!(row.saved_marginal, -20 * 15);
    let first = meter(&job(REPORT.as_bytes(), "", "s"), None).unwrap();
    assert_eq!(first.gap_ms, None);
}

#[test]
fn responses_without_usage_are_not_metered() {
    assert!(meter(&job(b"{\"error\":1}", "", "s"), None).is_none());
    assert!(meter(&job(b"garbage", "gzip", "s"), None).is_none());
    assert!(meter(&job(b"", "", "s"), None).is_none());
    let unnamed = REPORT.replace("\"model\":\"m-haiku\",", "");
    let row = meter(&job(unnamed.as_bytes(), "", "s"), None).unwrap();
    assert_eq!((row.model.as_str(), row.family.as_str()), ("fallback", "opus"));
    assert!(row.estimate);
}
