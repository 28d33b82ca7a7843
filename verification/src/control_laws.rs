//! What the settings and the control plane promise, in the words and numbers that users give.

use vstd::prelude::*;
use vstd::string::*;

use crate::config;
use crate::config::Config;
use crate::config::Location;
use crate::dashboard;
use crate::dashboard::{EndpointView, RouteView};
use crate::text;
use crate::text_laws;

verus! {

/// A switch is on if and only if it is set to 1.
pub proof fn law_switches_are_set_to_one(v: Option<Seq<char>>)
    ensures
        config::flag_of(v) <==> (v matches Some(s) && s.len() == 1 && s[0] == '1'),
{
    reveal_strlit("1");
    if let Some(s) = v {
        if s.len() == 1 && s[0] == '1' {
            assert(s =~= "1"@);
        }
    }
}

/// The port is the number that is set, from 0 to 65535, and 8898 where none is.
pub proof fn law_the_port_is_the_one_set(n: nat, s: Seq<char>)
    ensures
        n <= 65535 ==> config::port_of(Some(text::decimal_of(n))) == n,
        n > 65535 ==> config::port_of(Some(text::decimal_of(n))) == 8898,
        config::port_of(None) == 8898,
        (exists|i: int|
            0 <= i < s.len() && !('0' <= #[trigger] s[i] <= '9') && (i > 0 || s[i] != '+'))
            ==> config::port_of(Some(s)) == 8898,
{
    text_laws::law_decimals_read_back(n);
    if text::u16_of(s) is Some {
        text_laws::law_numbers_are_digits(s);
        assert(s[0] != '-');
    }
}

/// A setting that is not set, or set to nothing, has its default; any other is what it is set to.
pub proof fn law_settings_have_defaults(s: Seq<char>, d: Seq<char>)
    ensures
        config::filled_of(None, d) == d,
        s.len() == 0 ==> config::filled_of(Some(s), d) == d,
        s.len() > 0 ==> config::filled_of(Some(s), d) == s,
        config::plain_of(Some(s)) == s,
        config::plain_of(None) == Seq::<char>::empty(),
{
}

/// The rolling tail lives an hour where that is asked for, in whatever case and with whatever white
/// space around it, and five minutes otherwise. Anything but the two is warned of, and nothing is not.
pub proof fn law_the_tail_lives_an_hour_or_five_minutes(raw: Seq<char>)
    ensures
        ({
            let v = text::lowered(text::trim_of(raw));
            let asked = config::normal_of(Some(raw));
            &&& v == "1h"@ ==> config::ttl_of(asked) == "1h"@
            &&& v != "1h"@ ==> config::ttl_of(asked) == "5m"@
            &&& config::ttl_of(config::normal_of(None)) == "5m"@
            &&& v == "1h"@ || v == "5m"@ || v.len() == 0 ==> config::ttl_warning_of(asked) is None
            &&& v != "1h"@ && v != "5m"@ && v.len() > 0 ==> config::ttl_warning_of(asked) == Some(
                "TAIL_TTL must be one of 5m|1h (got \""@ + v + "\"), falling back to 5m"@,
            )
            &&& config::ttl_warning_of(config::normal_of(None)) is None
        }),
{
}

/// A path is used as its canonical one, where there is such a file, and else as an absolute one. A
/// database in memory stays one.
pub proof fn law_paths_are_made_absolute(path: Seq<char>, at: Location)
    ensures
        path == ":memory:"@ ==> config::resolved(path, at) == path,
        path != ":memory:"@ ==> {
            &&& at.canonical matches Some(c) ==> config::resolved(path, at) == c@
            &&& at.canonical is None && at.absolute ==> config::resolved(path, at) == path
            &&& at.canonical is None && !at.absolute ==> match at.joined {
                Some(j) => config::resolved(path, at) == j@,
                None => config::resolved(path, at) == path,
            }
        },
{
}

/// The settings are told in one line.
pub proof fn law_settings_are_told(c: Config)
    ensures
        config::bool_of(true) == "true"@,
        config::bool_of(false) == "false"@,
        config::summary_of(c) == "settings: AUTO_CACHE="@ + (if c.auto_cache {
            "true"@
        } else {
            "false"@
        }) + " TAIL_TTL="@ + c.tail_ttl@ + " MODEL_OVERRIDE="@ + (if c.model_override@.len() > 0 {
            c.model_override@
        } else {
            "(none)"@
        }) + " TRANSFORM="@ + (if c.transform_enabled {
            "true"@
        } else {
            "false"@
        }) + " LOG_BODIES="@ + (if c.log_bodies {
            "true"@
        } else {
            "false"@
        }) + " METRICS="@ + (if c.metrics {
            "true"@
        } else {
            "false"@
        }) + " DASHBOARD="@ + (if c.dashboard {
            "true"@
        } else {
            "false"@
        }),
{
}

/// Of a query the pairs are separated by ampersands, and of those with the same key the first counts.
pub proof fn law_the_first_parameter_counts(a: Seq<char>, b: Seq<char>, key: Seq<char>)
    requires
        !b.contains('&'),
    ensures
        dashboard::param_of(Some(a + "&"@ + b), key) == (match dashboard::param_of(Some(a), key) {
            Some(v) => Some(v),
            None => dashboard::param_of(Some(b), key),
        }),
        dashboard::param_of(None, key) is None,
{
    reveal_strlit("&");
    let whole = a + "&"@ + b;
    assert(whole =~= a.push('&') + b);
    text::lemma_split_tail(a, b, '&');
    text::lemma_split_whole(b, '&');
    lemma_value_pushed(text::split_of(a, '&'), b, key, 0);
    assert(text::split_of(b, '&') =~= Seq::<Seq<char>>::empty().push(b));
    lemma_value_pushed(Seq::empty(), b, key, 0);
}

proof fn lemma_value_pushed(ps: Seq<Seq<char>>, b: Seq<char>, key: Seq<char>, i: int)
    requires
        0 <= i <= ps.len(),
    ensures
        dashboard::value_from(ps.push(b), key, i) == (match dashboard::value_from(ps, key, i) {
            Some(v) => Some(v),
            None => if dashboard::key_of(b) == key {
                Some(dashboard::value_of(b))
            } else {
                None
            },
        }),
    decreases ps.len() - i,
{
    let qs = ps.push(b);
    if i < ps.len() {
        assert(qs[i] == ps[i]);
        lemma_value_pushed(ps, b, key, i + 1);
    } else {
        assert(qs[i] == b);
        assert(dashboard::value_from(qs, key, i + 1) is None);
    }
}

/// A pair is a key and a value with the first equals sign between them; without one it is a key with
/// nothing for a value.
pub proof fn law_pairs_are_keys_and_values(k: Seq<char>, v: Seq<char>, key: Seq<char>)
    requires
        !k.contains('='),
        !k.contains('&'),
        !v.contains('&'),
    ensures
        dashboard::param_of(Some(k + "="@ + v), key) == (if key == k {
            Some(v)
        } else {
            None
        }),
        dashboard::param_of(Some(k), key) == (if key == k {
            Some(Seq::<char>::empty())
        } else {
            None
        }),
{
    reveal_strlit("=");
    let t = k + "="@ + v;
    assert(!t.contains('&')) by {
        if t.contains('&') {
            let i = choose|i: int| 0 <= i < t.len() && t[i] == '&';
            if i < k.len() {
                assert(k[i] == '&');
            } else if i > k.len() {
                assert(v[i - k.len() - 1] == '&');
            }
        }
    }
    text::lemma_split_whole(t, '&');
    text::lemma_split_whole(k, '&');
    assert(t.subrange(k.len() as int, k.len() as int + 1) =~= "="@);
    assert(text::occurs_at(t, "="@, k.len() as int));
    text::lemma_first_from(t, "="@, 0);
    let f = text::first_from(t, "="@, 0)->0;
    if f < k.len() {
        assert(t.subrange(f, f + 1)[0] == "="@[0]);
        assert(k[f] == '=');
    }
    assert(f == k.len());
    assert(t.take(f) =~= k);
    assert(t.skip(f + 1) =~= v);
    text::lemma_first_from(k, "="@, 0);
    if let Some(g) = text::first_from(k, "="@, 0) {
        assert(k.subrange(g, g + 1)[0] == "="@[0]);
        assert(k[g] == '=');
    }
    reveal_with_fuel(dashboard::value_from, 3);
}

/// Without a token everyone is admitted; with one, who gives it in the query or as a bearer, and no one
/// else.
pub proof fn law_the_token_admits(
    query: Option<Seq<char>>,
    authorization: Option<Seq<char>>,
    token: Seq<char>,
)
    ensures
        token.len() == 0 ==> dashboard::admitted(query, authorization, token),
        token.len() > 0 ==> (dashboard::admitted(query, authorization, token) <==> (
        dashboard::param_of(query, "token"@) == Some(token) || authorization == Some(
            "Bearer "@ + token,
        ))),
{
}

/// A window is a number of minutes, hours or days back from now; any other number is a time; anything
/// else is the beginning of time.
pub proof fn law_windows_go_back_from_now(n: nat, now: i64, raw: Seq<char>)
    requires
        n <= i64::MAX,
    ensures
        dashboard::since_of(Some(text::decimal_of(n) + "m"@), now) == now - n * 60_000,
        dashboard::since_of(Some(text::decimal_of(n) + "h"@), now) == now - n * 3_600_000,
        dashboard::since_of(Some(text::decimal_of(n) + "d"@), now) == now - n * 86_400_000,
        dashboard::since_of(Some(text::decimal_of(n)), now) == n,
        dashboard::since_of(None, now) == 0,
        text::i64_of(raw) is None && (raw.len() == 0 || text::i64_of(raw.drop_last()) is None || !(
        raw.last() == 'm' || raw.last() == 'h' || raw.last() == 'd')) ==> dashboard::since_of(
            Some(raw),
            now,
        ) == 0,
{
    let d = text::decimal_of(n);
    text_laws::law_decimals_read_back(n);
    text::lemma_decimal_digits(n);
    reveal_strlit("m");
    reveal_strlit("h");
    reveal_strlit("d");
    assert((d + "m"@).drop_last() =~= d && (d + "m"@).last() == 'm');
    assert((d + "h"@).drop_last() =~= d && (d + "h"@).last() == 'h');
    assert((d + "d"@).drop_last() =~= d && (d + "d"@).last() == 'd');
    assert('0' <= d[d.len() - 1] <= '9');
}

/// A window is refused only where it begins beyond the times that 64 bits can tell.
pub proof fn law_windows_that_fit_are_told(raw: Option<Seq<char>>, now: i64)
    ensures
        dashboard::since_fits(raw, now) ==> i64::MIN <= dashboard::since_of(raw, now) <= i64::MAX,
        !dashboard::since_fits(raw, now) ==> dashboard::since_of(raw, now) < i64::MIN
            || dashboard::since_of(raw, now) > i64::MAX || (raw matches Some(r)
            && dashboard::window_of(r) matches Some(w) && !(i64::MIN <= w <= i64::MAX)),
{
}

/// Requests are answered by the first of these that fits: the probes by themselves, everything else by
/// the proxy where there is no dashboard, the start page by a redirect, paths outside the dashboard's by
/// the proxy, requests without the token by a refusal, the dashboard's page, and its API where there is
/// a store.
pub proof fn law_requests_are_routed(
    on: bool,
    token: Seq<char>,
    ready: Option<bool>,
    method: Seq<char>,
    path: Seq<char>,
    query: Option<Seq<char>>,
    authorization: Option<Seq<char>>,
)
    ensures
        ({
            let r = dashboard::route_of(on, token, ready, method, path, query, authorization);
            let probe = path == "/healthz"@ || path == "/readyz"@;
            let start = method == "GET"@ && (path == "/"@ || path == "/index.html"@);
            let ours = path == "/__pino"@ || text::begins(path, "/__pino/"@);
            let page = path == "/__pino"@ || path == "/__pino/"@ || path == "/__pino/index.html"@;
            let may = token.len() == 0 || dashboard::param_of(query, "token"@) == Some(token)
                || authorization == Some("Bearer "@ + token);
            &&& path == "/healthz"@ ==> r is Health
            &&& path == "/readyz"@ ==> r == (RouteView::Ready { ok: ready == Some(true) })
            &&& !probe && !on ==> r is Proxy
            &&& !probe && on && start ==> r is Redirect
            &&& !probe && on && !start && !ours ==> r is Proxy
            &&& !probe && on && !start && ours && !may ==> r is Unauthorized
            &&& !probe && on && !start && ours && may && page ==> r is Page
            &&& !probe && on && !start && ours && may && !page && ready is None
                ==> r is MetricsDisabled
            &&& !probe && on && !start && ours && may && !page && ready is Some ==> r == (
            RouteView::Api {
                since: dashboard::param_of(query, "since"@),
                endpoint: dashboard::endpoint_of(path, query),
            })
        }),
{
    lemma_paths();
    reveal_strlit("/healthz");
    reveal_strlit("/readyz");
    assert("/healthz"@.len() != "/readyz"@.len());
}

proof fn lemma_paths()
    ensures
        dashboard::PREFIX@ + "/"@ == "/__pino/"@,
        dashboard::PREFIX@ + "/index.html"@ == "/__pino/index.html"@,
        dashboard::PREFIX@ + "/api/stats"@ == "/__pino/api/stats"@,
        dashboard::PREFIX@ + "/api/series"@ == "/__pino/api/series"@,
        dashboard::PREFIX@ + "/api/requests"@ == "/__pino/api/requests"@,
        dashboard::PREFIX@ + "/api/stream"@ == "/__pino/api/stream"@,
{
    reveal_strlit("/__pino");
    reveal_strlit("/");
    reveal_strlit("/__pino/");
    reveal_strlit("/index.html");
    reveal_strlit("/__pino/index.html");
    reveal_strlit("/api/stats");
    reveal_strlit("/__pino/api/stats");
    reveal_strlit("/api/series");
    reveal_strlit("/__pino/api/series");
    reveal_strlit("/api/requests");
    reveal_strlit("/__pino/api/requests");
    reveal_strlit("/api/stream");
    reveal_strlit("/__pino/api/stream");
    assert(dashboard::PREFIX@ + "/"@ =~= "/__pino/"@);
    assert(dashboard::PREFIX@ + "/index.html"@ =~= "/__pino/index.html"@);
    assert(dashboard::PREFIX@ + "/api/stats"@ =~= "/__pino/api/stats"@);
    assert(dashboard::PREFIX@ + "/api/series"@ =~= "/__pino/api/series"@);
    assert(dashboard::PREFIX@ + "/api/requests"@ =~= "/__pino/api/requests"@);
    assert(dashboard::PREFIX@ + "/api/stream"@ =~= "/__pino/api/stream"@);
}

/// The API has four paths. Savings are grouped by project unless asked otherwise; a series has 80
/// stretches unless asked otherwise, at least 10 and at most 400; 50 requests are listed unless asked
/// otherwise, at most 500, of the project and the session that are asked for. There is nothing else.
pub proof fn law_the_api_has_four_paths(path: Seq<char>, query: Option<Seq<char>>)
    ensures
        ({
            let e = dashboard::endpoint_of(path, query);
            let number = |k: Seq<char>|
                match dashboard::param_of(query, k) {
                    Some(t) => text::i64_of(t),
                    None => None,
                };
            &&& path == "/__pino/api/stats"@ ==> e == (EndpointView::Stats {
                group_by: match dashboard::param_of(query, "groupBy"@) {
                    Some(g) => g,
                    None => "project"@,
                },
            })
            &&& path == "/__pino/api/series"@ ==> (e matches EndpointView::Series {
                buckets,
                bucket_ms,
            } && bucket_ms == number("bucketMs"@) && 10 <= buckets <= 400 && match number(
                "buckets"@,
            ) {
                Some(n) => (n < 10 ==> buckets == 10) && (n > 400 ==> buckets == 400) && (10 <= n
                    <= 400 ==> buckets == n),
                None => buckets == 80,
            })
            &&& path == "/__pino/api/requests"@ ==> (e matches EndpointView::Requests {
                limit,
                project,
                session,
            } && project == dashboard::param_of(query, "project"@) && session
                == dashboard::param_of(query, "session"@) && match number("limit"@) {
                Some(n) => if n > 500 {
                    limit == 500
                } else {
                    limit == n
                },
                None => limit == 50,
            })
            &&& path == "/__pino/api/stream"@ ==> e is Stream
            &&& path != "/__pino/api/stats"@ && path != "/__pino/api/series"@ && path
                != "/__pino/api/requests"@ && path != "/__pino/api/stream"@ ==> e is NotFound
        }),
{
    lemma_paths();
    reveal_strlit("/__pino/api/stats");
    reveal_strlit("/__pino/api/series");
    reveal_strlit("/__pino/api/requests");
    reveal_strlit("/__pino/api/stream");
    assert("/__pino/api/stats"@.len() == 17 && "/__pino/api/series"@.len() == 18
        && "/__pino/api/requests"@.len() == 20 && "/__pino/api/stream"@.len() == 18);
    assert("/__pino/api/series"@[13] == 'e' && "/__pino/api/stream"@[13] == 't');
}

/// What is answered by itself is answered with the status that says so.
pub proof fn law_answers_have_their_status(r: RouteView)
    ensures
        ({
            let a = dashboard::answer_of(r);
            &&& r is Health ==> a == Some((200u16, "text/plain"@, "ok"@))
            &&& r == (RouteView::Ready { ok: true }) ==> a == Some(
                (200u16, "text/plain"@, "ready"@),
            )
            &&& r == (RouteView::Ready { ok: false }) ==> a == Some(
                (503u16, "text/plain"@, "not-ready"@),
            )
            &&& r is Unauthorized ==> a == Some(
                (401u16, "application/json"@, "{\"error\":\"unauthorized\"}"@),
            )
            &&& r is MetricsDisabled ==> a == Some(
                (
                    503u16,
                    "application/json"@,
                    "{\"error\":\"metrics disabled (set METRICS=1)\"}"@,
                ),
            )
            &&& r is Api && r->endpoint is NotFound ==> a == Some(
                (404u16, "application/json"@, "{\"error\":\"not found\"}"@),
            )
            &&& r is Proxy || r is Redirect || r is Page || (r is Api && !(
            r->endpoint is NotFound)) ==> a is None
        }),
{
}

/// The variable is set to 1.
pub open spec fn on(v: Option<String>) -> bool {
    v matches Some(s) && s@ == "1"@
}

/// The variable is what is set, or else the default.
pub open spec fn or_default(v: Option<String>, d: Seq<char>, r: Seq<char>) -> bool {
    if v is Some && v->0@.len() > 0 {
        r == v->0@
    } else {
        r == d
    }
}

/// The settings are those that the environment asks for: switches are set to 1, metrics come with the
/// dashboard, the transform with its switch or with a file for it, and everything else is what is set or
/// its default.
pub open spec fn set_by(env: config::Env, log_at: Location, db_at: Location, c: Config) -> bool {
    &&& c.auto_cache == on(env.auto_cache)
    &&& c.log_bodies == on(env.log_bodies)
    &&& c.dashboard == on(env.dashboard)
    &&& c.metrics == (on(env.metrics) || on(env.dashboard))
    &&& c.transform_enabled == (on(env.transform) || (env.transform_file is Some
        && env.transform_file->0@.len() > 0))
    &&& c.port == config::port_of(text::opt_text(env.port))
    &&& or_default(env.bind_host, "127.0.0.1"@, c.bind_host@)
    &&& c.model_override@ == (match env.model_override {
        Some(s) => s@,
        None => seq![],
    })
    &&& c.dashboard_token@ == (match env.dashboard_token {
        Some(s) => s@,
        None => seq![],
    })
    &&& c.tail_ttl@ == (if env.tail_ttl is Some && text::lowered(text::trim_of(env.tail_ttl->0@))
        == "1h"@ {
        "1h"@
    } else {
        "5m"@
    })
    &&& exists|p: Seq<char>|
        or_default(env.log_dir, "./logs"@, p) && c.log_dir@ == #[trigger] config::resolved(p, log_at)
    &&& exists|p: Seq<char>|
        or_default(env.db_path, "./data/metrics.db"@, p) && c.db_path@
            == #[trigger] config::resolved(p, db_at)
}

/// Whatever integer stands before the unit of a window, that many of them are gone back, forward where it
/// is negative.
pub proof fn law_any_number_of_units_is_gone_back(x: Seq<char>, n: i64, now: i64)
    requires
        text::i64_of(x) == Some(n),
    ensures
        dashboard::since_of(Some(x + "m"@), now) == now - n * 60_000,
        dashboard::since_of(Some(x + "h"@), now) == now - n * 3_600_000,
        dashboard::since_of(Some(x + "d"@), now) == now - n * 86_400_000,
        dashboard::since_of(Some(x), now) == n,
{
    reveal_strlit("m");
    reveal_strlit("h");
    reveal_strlit("d");
    text_laws::law_numbers_are_digits(x);
    assert((x + "m"@).drop_last() =~= x && (x + "m"@).last() == 'm');
    assert((x + "h"@).drop_last() =~= x && (x + "h"@).last() == 'h');
    assert((x + "d"@).drop_last() =~= x && (x + "d"@).last() == 'd');
    assert(x[x.len() - 1] == x.last());
}

} // verus!
