use pino::config::{load_config, Config, Env, Location};
use pino::dashboard::{
    authorized, fixed_answer, parse_since, query_param, redirect_target, route, since_in_range,
    Endpoint, Route,
};

fn config(dashboard: bool, token: &str) -> Config {
    let on = |b: bool| Some(if b { "1".to_string() } else { "0".to_string() });
    let env = Env {
        port: None,
        bind_host: None,
        auto_cache: None,
        log_bodies: None,
        log_dir: None,
        tail_ttl: None,
        model_override: None,
        metrics: None,
        dashboard: on(dashboard),
        dashboard_token: Some(token.to_string()),
        db_path: None,
        transform: None,
        transform_file: None,
    };
    let at = Location { canonical: None, absolute: false, joined: None };
    load_config(&env, &at, &at)
}

fn status(r: &Route) -> Option<u16> {
    fixed_answer(r).map(|a| a.status)
}

#[test]
fn probes_answer_always() {
    let off = config(false, "secret");
    let health = route(&off, None, "GET", "/healthz", None, None);
    let a = fixed_answer(&health).unwrap();
    assert_eq!((a.status, a.content_type, a.body), (200, "text/plain", "ok"));
    let ready = fixed_answer(&route(&off, Some(true), "GET", "/readyz", None, None)).unwrap();
    assert_eq!((ready.status, ready.body), (200, "ready"));
    let down = fixed_answer(&route(&off, None, "GET", "/readyz", None, None)).unwrap();
    assert_eq!((down.status, down.body), (503, "not-ready"));
    assert_eq!(status(&route(&off, Some(false), "GET", "/readyz", None, None)), Some(503));
}

#[test]
fn everything_else_is_proxied() {
    let on = config(true, "");
    assert!(matches!(route(&on, Some(true), "POST", "/v1/messages", None, None), Route::Proxy));
    assert!(matches!(route(&on, Some(true), "POST", "/", None, None), Route::Proxy));
    assert!(matches!(route(&on, Some(true), "GET", "/__pinot", None, None), Route::Proxy));
    let off = config(false, "");
    assert!(matches!(route(&off, Some(true), "GET", "/__pino/", None, None), Route::Proxy));
    assert!(matches!(route(&off, Some(true), "GET", "/", None, None), Route::Proxy));
    assert!(fixed_answer(&Route::Proxy).is_none());
}

#[test]
fn the_root_leads_to_the_dashboard() {
    let on = config(true, "secret");
    assert!(matches!(route(&on, None, "GET", "/", None, None), Route::Redirect));
    assert!(matches!(route(&on, None, "GET", "/index.html", None, None), Route::Redirect));
    assert_eq!(redirect_target(), "/__pino/");
}

#[test]
fn the_token_gates_page_and_api() {
    let on = config(true, "secret");
    let bare = route(&on, Some(true), "GET", "/__pino/", None, None);
    assert!(matches!(bare, Route::Unauthorized));
    let a = fixed_answer(&bare).unwrap();
    assert_eq!((a.status, a.body), (401, "{\"error\":\"unauthorized\"}"));
    let q = route(&on, Some(true), "GET", "/__pino", Some("a=1&token=secret"), None);
    assert!(matches!(q, Route::Page));
    let h = route(&on, Some(true), "GET", "/__pino/index.html", None, Some("Bearer secret"));
    assert!(matches!(h, Route::Page));
    assert!(!authorized(Some("token=Secret"), Some("bearer secret"), "secret"));
    assert!(authorized(None, None, ""));
}

#[test]
fn the_api_needs_a_store() {
    let on = config(true, "");
    let r = route(&on, None, "GET", "/__pino/api/stats", None, None);
    let a = fixed_answer(&r).unwrap();
    assert_eq!((a.status, a.body), (503, "{\"error\":\"metrics disabled (set METRICS=1)\"}"));
}

#[test]
fn the_api_reads_its_parameters() {
    let on = config(true, "");
    let ask = |path: &str, query: Option<&str>| match route(
        &on,
        Some(true),
        "GET",
        path,
        query,
        None,
    ) {
        Route::Api { since, endpoint } => (since, endpoint),
        other => panic!("not the API: {other:?}"),
    };
    let (since, stats) = ask("/__pino/api/stats", Some("since=24h&groupBy=session"));
    assert_eq!(since.as_deref(), Some("24h"));
    assert!(matches!(stats, Endpoint::Stats { group_by } if group_by == "session"));
    let (_, plain) = ask("/__pino/api/stats", None);
    assert!(matches!(plain, Endpoint::Stats { group_by } if group_by == "project"));
    let (_, series) = ask("/__pino/api/series", Some("buckets=5&bucketMs=60000"));
    assert!(matches!(series, Endpoint::Series { buckets: 10, bucket_ms: Some(60000) }));
    let (_, many) = ask("/__pino/api/series", Some("buckets=4000&bucketMs=x"));
    assert!(matches!(many, Endpoint::Series { buckets: 400, bucket_ms: None }));
    let (_, usual) = ask("/__pino/api/series", None);
    assert!(matches!(usual, Endpoint::Series { buckets: 80, bucket_ms: None }));
    let (_, requests) = ask("/__pino/api/requests", Some("limit=9999&project=/x&session="));
    assert!(matches!(
        requests,
        Endpoint::Requests { limit: 500, project: Some(p), session: Some(s) } if p == "/x" && s.is_empty()
    ));
    let (_, few) = ask("/__pino/api/requests", None);
    assert!(matches!(few, Endpoint::Requests { limit: 50, project: None, session: None }));
    assert!(matches!(ask("/__pino/api/stream", None).1, Endpoint::Stream));
    let missing = route(&on, Some(true), "GET", "/__pino/api/nope", None, None);
    assert_eq!(fixed_answer(&missing).unwrap().body, "{\"error\":\"not found\"}");
    assert_eq!(status(&missing), Some(404));
}

#[test]
fn query_parameters_are_taken_as_they_stand() {
    assert_eq!(query_param(Some("a=1&b=2&a=3"), "a").as_deref(), Some("1"));
    assert_eq!(query_param(Some("a=x=y"), "a").as_deref(), Some("x=y"));
    assert_eq!(query_param(Some("flag&b"), "flag").as_deref(), Some(""));
    assert_eq!(query_param(Some("a%20=1"), "a "), None);
    assert_eq!(query_param(None, "a"), None);
    assert_eq!(query_param(Some(""), "").as_deref(), Some(""));
}

#[test]
fn windows_are_absolute_or_relative() {
    let now = 1_000_000_000;
    assert_eq!(parse_since(None, now), 0);
    assert_eq!(parse_since(Some(""), now), 0);
    assert_eq!(parse_since(Some("30m"), now), now - 30 * 60_000);
    assert_eq!(parse_since(Some("24h"), now), now - 24 * 3_600_000);
    assert_eq!(parse_since(Some("7d"), now), now - 7 * 86_400_000);
    assert_eq!(parse_since(Some("-1h"), now), now + 3_600_000);
    assert_eq!(parse_since(Some("12345"), now), 12345);
    assert_eq!(parse_since(Some("h"), now), 0);
    assert_eq!(parse_since(Some("soon"), now), 0);
}

#[test]
fn windows_beyond_all_time_are_told() {
    assert!(since_in_range(Some("7d"), 0));
    assert!(since_in_range(Some("9999999999999999999d"), 0));
    assert!(!since_in_range(Some("999999999999999999d"), 0));
    assert!(!since_in_range(Some("-9223372036854775807m"), 5));
}
