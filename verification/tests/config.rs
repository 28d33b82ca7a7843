use pino::config::{
    asked_db_path, asked_log_dir, bind_address, flag, load_config, non_empty, parse_tail_ttl,
    port_from, probe_address, probe_request, probe_succeeded, resolve, summary, tail_ttl_warning,
    ttl_from, Env, Location,
};

fn none() -> Env {
    Env {
        port: None,
        bind_host: None,
        auto_cache: None,
        log_bodies: None,
        log_dir: None,
        tail_ttl: None,
        model_override: None,
        metrics: None,
        dashboard: None,
        dashboard_token: None,
        db_path: None,
        transform: None,
        transform_file: None,
    }
}

fn nowhere() -> Location {
    Location { canonical: None, absolute: false, joined: None }
}

fn set(v: &str) -> Option<String> {
    Some(v.to_string())
}

#[test]
fn defaults() {
    let c = load_config(&none(), &nowhere(), &nowhere());
    assert_eq!(c.port, 8898);
    assert_eq!(c.bind_host, "127.0.0.1");
    assert!(!c.auto_cache && !c.log_bodies && !c.metrics && !c.dashboard && !c.transform_enabled);
    assert_eq!(c.log_dir, "./logs");
    assert_eq!(c.db_path, "./data/metrics.db");
    assert_eq!(c.tail_ttl, "5m");
    assert_eq!(c.model_override, "");
    assert_eq!(c.dashboard_token, "");
    assert_eq!(bind_address(&c), "127.0.0.1:8898");
}

#[test]
fn every_variable_counts() {
    let env = Env {
        port: set("9000"),
        bind_host: set("0.0.0.0"),
        auto_cache: set("1"),
        log_bodies: set("1"),
        log_dir: set("/l"),
        tail_ttl: set(" 1H "),
        model_override: set("m"),
        metrics: set("0"),
        dashboard: set("1"),
        dashboard_token: set("t"),
        db_path: set(":memory:"),
        transform: set("true"),
        transform_file: set("x.js"),
    };
    let at = Location { canonical: set("/canonical"), absolute: true, joined: None };
    let c = load_config(&env, &at, &at);
    assert_eq!(c.port, 9000);
    assert_eq!(c.bind_host, "0.0.0.0");
    assert!(c.auto_cache && c.log_bodies && c.dashboard && c.transform_enabled);
    assert!(c.metrics, "a dashboard has something to show");
    assert_eq!(c.log_dir, "/canonical");
    assert_eq!(c.db_path, ":memory:");
    assert_eq!(c.tail_ttl, "1h");
    assert_eq!(c.model_override, "m");
    assert_eq!(c.dashboard_token, "t");
    assert_eq!(
        summary(&c),
        "settings: AUTO_CACHE=true TAIL_TTL=1h MODEL_OVERRIDE=m TRANSFORM=true LOG_BODIES=true \
         METRICS=true DASHBOARD=true"
    );
}

#[test]
fn empty_variables_are_as_good_as_none() {
    let env = Env {
        bind_host: set(""),
        log_dir: set(""),
        db_path: set(""),
        transform_file: set(""),
        auto_cache: set(""),
        ..none()
    };
    let c = load_config(&env, &nowhere(), &nowhere());
    assert_eq!(c.bind_host, "127.0.0.1");
    assert_eq!(asked_log_dir(&env), "./logs");
    assert_eq!(asked_db_path(&env), "./data/metrics.db");
    assert!(!c.transform_enabled && !c.auto_cache);
    assert!(summary(&c).contains("MODEL_OVERRIDE=(none)"));
}

#[test]
fn only_one_switches_on() {
    assert!(flag(&set("1")));
    assert!(!flag(&set("true")) && !flag(&set("")) && !flag(&None));
    assert!(non_empty(&set("x")) && !non_empty(&set("")) && !non_empty(&None));
}

#[test]
fn ports_that_are_none_give_the_default() {
    assert_eq!(port_from(&set("65535")), 65535);
    assert_eq!(port_from(&set("+80")), 80);
    for bad in ["65536", "-1", "", " 80", "80 ", "abc", "+"] {
        assert_eq!(port_from(&set(bad)), 8898, "{bad}");
    }
}

#[test]
fn tail_ttl_is_one_of_two() {
    assert_eq!(parse_tail_ttl(None), "5m");
    assert_eq!(parse_tail_ttl(set("")), "5m");
    assert_eq!(parse_tail_ttl(set("5M")), "5m");
    assert_eq!(parse_tail_ttl(set("\t1h\n")), "1h");
    assert_eq!(parse_tail_ttl(set("2h")), "5m");
    assert_eq!(tail_ttl_warning(&set("1h")), None);
    assert_eq!(tail_ttl_warning(&None), None);
    assert_eq!(
        tail_ttl_warning(&set(" 2H ")).as_deref(),
        Some("TAIL_TTL must be one of 5m|1h (got \"2h\"), falling back to 5m")
    );
    assert_eq!(ttl_from(Some("1H")), ("5m".to_string(), true));
}

#[test]
fn paths_are_resolved() {
    let canonical = Location { canonical: set("/real"), absolute: false, joined: set("/cwd/x") };
    assert_eq!(resolve("x", &canonical), "/real");
    let joined = Location { canonical: None, absolute: false, joined: set("/cwd/x") };
    assert_eq!(resolve("x", &joined), "/cwd/x");
    let absolute = Location { canonical: None, absolute: true, joined: set("/no") };
    assert_eq!(resolve("/x", &absolute), "/x");
    assert_eq!(resolve("x", &nowhere()), "x");
    assert_eq!(resolve(":memory:", &canonical), ":memory:");
}

#[test]
fn health_probes() {
    assert_eq!(probe_address(80), "127.0.0.1:80");
    assert_eq!(probe_request("a:1"), "GET /healthz HTTP/1.0\r\nHost: a:1\r\n\r\n");
    assert!(probe_succeeded("HTTP/1.1 200 OK\r\n"));
    assert!(probe_succeeded("HTTP/1.0 200"));
    assert!(!probe_succeeded("HTTP/1.1 503 x"));
    assert!(!probe_succeeded(""));
}
