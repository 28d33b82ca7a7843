use pino::json::{Json, Number};
use pino::logger::{
    epoch_ms, file_stamp, file_ts, is_secret, log_line, now_ms, rand_suffix, request_id,
    request_log, request_log_name, request_meta, response_log_name, response_log_preamble,
    safe_json, sanitize_headers, stamp, suffix_from, ts, Stamp,
};

fn json(text: &str) -> Json {
    from_value(&serde_json::from_str(text).unwrap())
}

fn from_value(v: &serde_json::Value) -> Json {
    match v {
        serde_json::Value::Null => Json::Null,
        serde_json::Value::Bool(b) => Json::Bool(*b),
        serde_json::Value::Number(n) => Json::Num(if let Some(u) = n.as_u64() {
            Number::Unsigned(u)
        } else if let Some(i) = n.as_i64() {
            Number::Signed(i)
        } else {
            Number::Float(n.to_string())
        }),
        serde_json::Value::String(s) => Json::Str(s.clone()),
        serde_json::Value::Array(a) => Json::Arr(a.iter().map(from_value).collect()),
        serde_json::Value::Object(o) => {
            Json::Obj(o.iter().map(|(k, v)| (k.clone(), from_value(v))).collect())
        }
    }
}

fn to_value(v: &Json) -> serde_json::Value {
    match v {
        Json::Null => serde_json::Value::Null,
        Json::Bool(b) => serde_json::Value::Bool(*b),
        Json::Num(Number::Unsigned(u)) => serde_json::Value::from(*u),
        Json::Num(Number::Signed(i)) => serde_json::Value::from(*i),
        Json::Num(Number::Float(t)) => serde_json::Value::from(t.parse::<f64>().unwrap()),
        Json::Str(s) => serde_json::Value::String(s.clone()),
        Json::Arr(a) => serde_json::Value::Array(a.iter().map(to_value).collect()),
        Json::Obj(o) => serde_json::Value::Object(
            o.iter().map(|(k, v)| (k.clone(), to_value(v))).collect(),
        ),
    }
}

fn same(a: &Json, text: &str) {
    let expected: serde_json::Value = serde_json::from_str(text).unwrap();
    assert_eq!(to_value(a), expected);
}

const WHEN: Stamp = Stamp {
    year: 2026,
    month: 6,
    day: 1,
    hour: 5,
    minute: 18,
    second: 9,
    millisecond: 72,
};

#[test]
fn stamps_are_padded() {
    assert_eq!(stamp(&WHEN), "2026-06-01 05:18:09");
    assert_eq!(file_stamp(&WHEN), "2026-06-01T05-18-09-072Z");
    let early = Stamp { year: -42, ..WHEN };
    assert_eq!(stamp(&early), format!("{:04}-06-01 05:18:09", -42));
    let late = Stamp { year: 12345, ..WHEN };
    assert_eq!(stamp(&late), "12345-06-01 05:18:09");
}

#[test]
fn the_current_time_has_the_form_of_a_stamp() {
    let t = ts();
    assert_eq!(t.len(), 19);
    assert_eq!(&t[4..5], "-");
    assert_eq!(&t[10..11], " ");
    assert!(t[..4].parse::<i64>().unwrap() >= 2024);
    let f = file_ts();
    assert_eq!(f.len(), 24);
    assert!(f.ends_with('Z') && !f.contains(':'));
}

#[test]
fn the_epoch_counts_in_milliseconds() {
    assert_eq!(epoch_ms(Some(1_700_000_000_123)), 1_700_000_000_123);
    assert_eq!(epoch_ms(None), 0);
    assert_eq!(epoch_ms(Some(u128::MAX)), -1);
    assert!(now_ms() > 1_700_000_000_000);
}

#[test]
fn suffixes_are_six_characters_of_the_alphabet() {
    for _ in 0..200 {
        let s = rand_suffix();
        assert_eq!(s.len(), 6);
        assert!(s.chars().all(|c| c.is_ascii_digit() || c.is_ascii_lowercase()));
    }
    assert_eq!(suffix_from(&vec![0, 9, 10, 35, 20, 1]), "09azk1");
    assert!((0..50).any(|_| rand_suffix() != rand_suffix()));
}

#[test]
fn log_lines_and_ids() {
    assert_eq!(log_line("2026-06-01 05:18:09", "up"), "[2026-06-01 05:18:09] up");
    assert_eq!(request_id("T", "abc123"), "T-abc123");
    assert_eq!(request_log_name("id"), "id.req.json");
    assert_eq!(response_log_name("id"), "id.resp.log");
}

#[test]
fn secrets_are_redacted() {
    let headers = json(
        r#"{"Authorization":"Bearer s","x-api-key":"k","proxy-authorization":"p",
            "X-Api-Key-2":["k"],"accept":"*/*","n":1}"#,
    );
    let clean = sanitize_headers(&headers);
    same(&clean,
        r#"{"Authorization":"[redacted]","x-api-key":"[redacted]",
            "proxy-authorization":"[redacted]","X-Api-Key-2":"[redacted]","accept":"*/*","n":1}"#);
    same(&sanitize_headers(&clean), &to_value(&clean).to_string());
    same(&sanitize_headers(&json("[1]")), "[1]");
    assert!(is_secret("X-API-KEY"));
    assert!(!is_secret("api-key"));
}

#[test]
fn request_logs_hold_meta_and_body() {
    let meta = request_meta("POST", "/v1/messages?x", &json(r#"{"x-api-key":"k"}"#), true);
    same(&meta,
        r#"{"method":"POST","url":"/v1/messages?x","headers":{"x-api-key":"[redacted]"},
            "mutated":true}"#);
    let log = request_log(json(r#"{"m":1}"#), safe_json(None, "not json"));
    same(&log, r#"{"meta":{"m":1},"body":"not json"}"#);
    same(&safe_json(Some(json("[1,2]")), "[1,2]"), "[1,2]");
}

#[test]
fn preambles_frame_status_and_headers() {
    assert_eq!(
        response_log_preamble(200, &json(r#"{"a":"b"}"#)),
        b"# status=200\n# headers={\"a\":\"b\"}\n\n".to_vec()
    );
}
