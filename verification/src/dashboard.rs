//! The control plane: which requests it answers itself, and what it answers.

use vstd::prelude::*;
use vstd::string::*;

use crate::config::Config;
use crate::text;

verus! {

/// What the paths of the dashboard and its API begin with.
pub const PREFIX: &'static str = "/__pino";

/// The part of a query's pair in front of its first equals sign.
pub open spec fn key_of(pair: Seq<char>) -> Seq<char> {
    match text::first_from(pair, "="@, 0) {
        Some(i) => pair.take(i),
        None => pair,
    }
}

/// The part of a query's pair behind its first equals sign.
pub open spec fn value_of(pair: Seq<char>) -> Seq<char> {
    match text::first_from(pair, "="@, 0) {
        Some(i) => pair.skip(i + 1),
        None => Seq::empty(),
    }
}

/// The value of the first of the pairs under the key `key`, counted from `i`.
pub open spec fn value_from(pairs: Seq<Seq<char>>, key: Seq<char>, i: int) -> Option<Seq<char>>
    decreases pairs.len() - i,
{
    if i < 0 || i >= pairs.len() {
        None
    } else if key_of(pairs[i]) == key {
        Some(value_of(pairs[i]))
    } else {
        value_from(pairs, key, i + 1)
    }
}

/// The parameter `key` of a query.
pub open spec fn param_of(query: Option<Seq<char>>, key: Seq<char>) -> Option<Seq<char>> {
    match query {
        Some(q) => value_from(text::split_of(q, '&'), key, 0),
        None => None,
    }
}

/// The key and the value of a query's pair.
fn parts(pair: &str) -> (r: (String, String))
    ensures
        r.0@ == key_of(pair@),
        r.1@ == value_of(pair@),
{
    match text::find(pair, "=") {
        Some(i) => {
            proof {
                reveal_strlit("=");
                text::lemma_first_from(pair@, "="@, 0);
            }
            let n: usize = pair.unicode_len();
            let k: &str = pair.substring_char(0, i);
            let v: &str = pair.substring_char(i + 1, n);
            assert(k@ =~= pair@.take(i as int));
            assert(v@ =~= pair@.skip(i + 1));
            (k.to_owned(), v.to_owned())
        },
        None => (pair.to_owned(), String::new()),
    }
}

/// The parameter `key` of a query, as it stands there.
pub fn query_param(query: Option<&str>, key: &str) -> (r: Option<String>)
    ensures
        text::opt_text(r) == param_of(text::opt_str(query), key@),
{
    let q: &str = match query {
        Some(q) => q,
        None => {
            return None;
        },
    };
    let pairs: Vec<String> = text::split(q, '&');
    let ghost ps = text::split_of(q@, '&');
    let n: usize = pairs.len();
    let mut i: usize = 0;
    while i < n
        invariant
            n == pairs@.len(),
            i <= n,
            text::opt_str(query) == Some(q@),
            ps == text::split_of(q@, '&'),
            text::texts(pairs@) == ps,
            value_from(ps, key@, 0) == value_from(ps, key@, i as int),
        decreases n - i,
    {
        assert(ps[i as int] == pairs@[i as int]@);
        let (k, v): (String, String) = parts(pairs[i].as_str());
        if text::same(k.as_str(), key) {
            return Some(v);
        }
        i += 1;
    }
    None
}

/// The request may use the control plane: there is no token, or it gives the token in its query or
/// as a bearer.
pub open spec fn admitted(
    query: Option<Seq<char>>,
    authorization: Option<Seq<char>>,
    token: Seq<char>,
) -> bool {
    ||| token.len() == 0
    ||| param_of(query, "token"@) == Some(token)
    ||| authorization == Some("Bearer "@ + token)
}

/// Whether the request may use the control plane.
pub fn authorized(query: Option<&str>, authorization: Option<&str>, token: &str) -> (r: bool)
    ensures
        r == admitted(text::opt_str(query), text::opt_str(authorization), token@),
{
    if token.is_empty() {
        return true;
    }
    match query_param(query, "token") {
        Some(t) => {
            if text::same(t.as_str(), token) {
                return true;
            }
        },
        None => {},
    }
    match authorization {
        Some(h) => text::same(h, text::glue("Bearer ", token).as_str()),
        None => false,
    }
}

/// The milliseconds in the unit of a relative window.
pub open spec fn unit_of(c: char) -> Option<int> {
    if c == 'm' {
        Some(60_000)
    } else if c == 'h' {
        Some(3_600_000)
    } else if c == 'd' {
        Some(86_400_000)
    } else {
        None
    }
}

/// The length of a relative window, in milliseconds: a number of minutes, hours or days.
pub open spec fn window_of(raw: Seq<char>) -> Option<int> {
    if raw.len() == 0 {
        None
    } else {
        match (unit_of(raw.last()), text::i64_of(raw.drop_last())) {
            (Some(unit), Some(n)) => Some(n * unit),
            _ => None,
        }
    }
}

/// The beginning of a window, in milliseconds since the Unix epoch.
pub open spec fn since_of(raw: Option<Seq<char>>, now: i64) -> int {
    match raw {
        Some(r) => match window_of(r) {
            Some(w) => now - w,
            None => match text::i64_of(r) {
                Some(t) => t as int,
                None => 0,
            },
        },
        None => 0,
    }
}

/// The beginning of the window is within the times that can be told.
pub open spec fn since_fits(raw: Option<Seq<char>>, now: i64) -> bool {
    match raw {
        Some(r) => match window_of(r) {
            Some(w) => i64::MIN <= w <= i64::MAX && i64::MIN <= now - w <= i64::MAX,
            None => true,
        },
        None => true,
    }
}

/// The length of a relative window, in milliseconds.
fn window(raw: &str) -> (r: Option<i128>)
    ensures
        match r {
            Some(w) => window_of(raw@) == Some(w as int),
            None => window_of(raw@) is None,
        },
        r matches Some(w) ==> -0x1_0000_0000_0000_0000_0000_0000 < w
            < 0x1_0000_0000_0000_0000_0000_0000,
{
    let len: usize = raw.unicode_len();
    if len == 0 {
        return None;
    }
    let c: char = raw.get_char(len - 1);
    let head: &str = raw.substring_char(0, len - 1);
    assert(head@ =~= raw@.drop_last());
    match text::parse_i64(head) {
        Some(n) => {
            let n: i128 = n as i128;
            if c == 'm' {
                Some(n * 60_000)
            } else if c == 'h' {
                Some(n * 3_600_000)
            } else if c == 'd' {
                Some(n * 86_400_000)
            } else {
                None
            }
        },
        None => None,
    }
}

/// Whether the beginning of the window is within the times that can be told.
pub fn since_in_range(raw: Option<&str>, now: i64) -> (r: bool)
    ensures
        r == since_fits(text::opt_str(raw), now),
{
    match raw {
        Some(t) => match window(t) {
            Some(w) => {
                let from: i128 = now as i128 - w;
                i64::MIN as i128 <= w && w <= i64::MAX as i128 && i64::MIN as i128 <= from && from
                    <= i64::MAX as i128
            },
            None => true,
        },
        None => true,
    }
}

/// The beginning of a window: a time in milliseconds since the Unix epoch, or a number of minutes
/// (`m`), hours (`h`) or days (`d`) before `now`. Anything else is the epoch.
pub fn parse_since(raw: Option<&str>, now: i64) -> (r: i64)
    requires
        since_fits(text::opt_str(raw), now),
    ensures
        r == since_of(text::opt_str(raw), now),
{
    match raw {
        Some(t) => match window(t) {
            Some(w) => (now as i128 - w) as i64,
            None => match text::parse_i64(t) {
                Some(v) => v,
                None => 0,
            },
        },
        None => 0,
    }
}

/// What the API is asked for.
#[derive(Debug)]
pub enum Endpoint {
    /// The savings by a dimension.
    Stats { group_by: String },
    /// The savings over time.
    Series { buckets: i64, bucket_ms: Option<i64> },
    /// The latest requests.
    Requests { limit: i64, project: Option<String>, session: Option<String> },
    /// The requests as they come.
    Stream,
    /// Nothing that there is.
    NotFound,
}

/// What an endpoint holds.
#[verifier::ext_equal]
pub enum EndpointView {
    Stats { group_by: Seq<char> },
    Series { buckets: i64, bucket_ms: Option<i64> },
    Requests { limit: i64, project: Option<Seq<char>>, session: Option<Seq<char>> },
    Stream,
    NotFound,
}

impl View for Endpoint {
    type V = EndpointView;

    open spec fn view(&self) -> EndpointView {
        match *self {
            Endpoint::Stats { group_by } => EndpointView::Stats { group_by: group_by@ },
            Endpoint::Series { buckets, bucket_ms } => EndpointView::Series { buckets, bucket_ms },
            Endpoint::Requests { limit, project, session } => EndpointView::Requests {
                limit,
                project: text::opt_text(project),
                session: text::opt_text(session),
            },
            Endpoint::Stream => EndpointView::Stream,
            Endpoint::NotFound => EndpointView::NotFound,
        }
    }
}

/// Who answers a request, and how.
#[derive(Debug)]
pub enum Route {
    /// The proxy forwards it.
    Proxy,
    /// The process is up.
    Health,
    /// The store is ready or not.
    Ready { ok: bool },
    /// Off to the dashboard.
    Redirect,
    /// The token is missing.
    Unauthorized,
    /// The dashboard.
    Page,
    /// There is no store to ask.
    MetricsDisabled,
    /// The API answers, for the window that begins at `since`.
    Api { since: Option<String>, endpoint: Endpoint },
}

/// What a route holds.
#[verifier::ext_equal]
pub enum RouteView {
    Proxy,
    Health,
    Ready { ok: bool },
    Redirect,
    Unauthorized,
    Page,
    MetricsDisabled,
    Api { since: Option<Seq<char>>, endpoint: EndpointView },
}

impl View for Route {
    type V = RouteView;

    open spec fn view(&self) -> RouteView {
        match *self {
            Route::Proxy => RouteView::Proxy,
            Route::Health => RouteView::Health,
            Route::Ready { ok } => RouteView::Ready { ok },
            Route::Redirect => RouteView::Redirect,
            Route::Unauthorized => RouteView::Unauthorized,
            Route::Page => RouteView::Page,
            Route::MetricsDisabled => RouteView::MetricsDisabled,
            Route::Api { since, endpoint } => RouteView::Api {
                since: text::opt_text(since),
                endpoint: endpoint@,
            },
        }
    }
}

/// The integer that the parameter holds.
pub open spec fn number_param(query: Option<Seq<char>>, key: Seq<char>) -> Option<i64> {
    match param_of(query, key) {
        Some(t) => text::i64_of(t),
        None => None,
    }
}

/// `n`, but at least `low` and at most `high`.
pub open spec fn clamped(n: i64, low: i64, high: i64) -> i64 {
    if n < low {
        low
    } else if n > high {
        high
    } else {
        n
    }
}

/// What the path asks the API for.
pub open spec fn endpoint_of(path: Seq<char>, query: Option<Seq<char>>) -> EndpointView {
    if path == PREFIX@ + "/api/stats"@ {
        EndpointView::Stats {
            group_by: match param_of(query, "groupBy"@) {
                Some(g) => g,
                None => "project"@,
            },
        }
    } else if path == PREFIX@ + "/api/series"@ {
        EndpointView::Series {
            buckets: clamped(
                match number_param(query, "buckets"@) {
                    Some(n) => n,
                    None => 80,
                },
                10,
                400,
            ),
            bucket_ms: number_param(query, "bucketMs"@),
        }
    } else if path == PREFIX@ + "/api/requests"@ {
        EndpointView::Requests {
            limit: clamped(
                match number_param(query, "limit"@) {
                    Some(n) => n,
                    None => 50,
                },
                i64::MIN,
                500,
            ),
            project: param_of(query, "project"@),
            session: param_of(query, "session"@),
        }
    } else if path == PREFIX@ + "/api/stream"@ {
        EndpointView::Stream
    } else {
        EndpointView::NotFound
    }
}

/// The path is one of the dashboard or its API.
pub open spec fn under_prefix(path: Seq<char>) -> bool {
    path == PREFIX@ || text::begins(path, PREFIX@ + "/"@)
}

/// Who answers a request, and how. `ready` says whether the store is, where there is one.
pub open spec fn route_of(
    dashboard: bool,
    token: Seq<char>,
    ready: Option<bool>,
    method: Seq<char>,
    path: Seq<char>,
    query: Option<Seq<char>>,
    authorization: Option<Seq<char>>,
) -> RouteView {
    if path == "/healthz"@ {
        RouteView::Health
    } else if path == "/readyz"@ {
        RouteView::Ready { ok: ready == Some(true) }
    } else if !dashboard {
        RouteView::Proxy
    } else if method == "GET"@ && (path == "/"@ || path == "/index.html"@) {
        RouteView::Redirect
    } else if !under_prefix(path) {
        RouteView::Proxy
    } else if !admitted(query, authorization, token) {
        RouteView::Unauthorized
    } else if path == PREFIX@ || path == PREFIX@ + "/"@ || path == PREFIX@ + "/index.html"@ {
        RouteView::Page
    } else if ready is None {
        RouteView::MetricsDisabled
    } else {
        RouteView::Api { since: param_of(query, "since"@), endpoint: endpoint_of(path, query) }
    }
}

/// The integer that the parameter holds.
fn number(query: Option<&str>, key: &str) -> (r: Option<i64>)
    ensures
        r == number_param(text::opt_str(query), key@),
{
    match query_param(query, key) {
        Some(t) => text::parse_i64(t.as_str()),
        None => None,
    }
}

/// Whether the path is the given one below the prefix.
fn path_is(path: &str, below: &str) -> (r: bool)
    ensures
        r == (path@ == PREFIX@ + below@),
{
    text::same(path, text::glue(PREFIX, below).as_str())
}

/// What the path asks the API for.
fn endpoint(path: &str, query: Option<&str>) -> (r: Endpoint)
    ensures
        r@ == endpoint_of(path@, text::opt_str(query)),
{
    if path_is(path, "/api/stats") {
        let group_by: String = match query_param(query, "groupBy") {
            Some(g) => g,
            None => "project".to_owned(),
        };
        Endpoint::Stats { group_by }
    } else if path_is(path, "/api/series") {
        let asked: i64 = match number(query, "buckets") {
            Some(n) => n,
            None => 80,
        };
        let buckets: i64 = if asked < 10 {
            10
        } else if asked > 400 {
            400
        } else {
            asked
        };
        Endpoint::Series { buckets, bucket_ms: number(query, "bucketMs") }
    } else if path_is(path, "/api/requests") {
        let asked: i64 = match number(query, "limit") {
            Some(n) => n,
            None => 50,
        };
        let limit: i64 = if asked > 500 {
            500
        } else {
            asked
        };
        Endpoint::Requests {
            limit,
            project: query_param(query, "project"),
            session: query_param(query, "session"),
        }
    } else if path_is(path, "/api/stream") {
        Endpoint::Stream
    } else {
        Endpoint::NotFound
    }
}

/// Who answers a request, and how: the health probes always answer, and the dashboard and its API
/// where they are switched on and the token, if there is one, is given. Everything else is the
/// proxy's. `ready` says whether the store is, where there is one.
pub fn route(
    config: &Config,
    ready: Option<bool>,
    method: &str,
    path: &str,
    query: Option<&str>,
    authorization: Option<&str>,
) -> (r: Route)
    ensures
        r@ == route_of(
            config.dashboard,
            config.dashboard_token@,
            ready,
            method@,
            path@,
            text::opt_str(query),
            text::opt_str(authorization),
        ),
{
    if text::same(path, "/healthz") {
        return Route::Health;
    }
    if text::same(path, "/readyz") {
        let ok: bool = match ready {
            Some(b) => b,
            None => false,
        };
        return Route::Ready { ok };
    }
    if !config.dashboard {
        return Route::Proxy;
    }
    if text::same(method, "GET") && (text::same(path, "/") || text::same(path, "/index.html")) {
        return Route::Redirect;
    }
    if !text::same(path, PREFIX) && !text::starts_with(path, text::glue(PREFIX, "/").as_str()) {
        return Route::Proxy;
    }
    if !authorized(query, authorization, config.dashboard_token.as_str()) {
        return Route::Unauthorized;
    }
    if text::same(path, PREFIX) || path_is(path, "/") || path_is(path, "/index.html") {
        return Route::Page;
    }
    if ready.is_none() {
        return Route::MetricsDisabled;
    }
    Route::Api { since: query_param(query, "since"), endpoint: endpoint(path, query) }
}

/// A whole answer.
#[derive(Clone, Copy, Debug)]
pub struct Answer {
    pub status: u16,
    pub content_type: &'static str,
    pub body: &'static str,
}

/// The answer that a route is given by itself: its status, content type and body.
pub open spec fn answer_of(r: RouteView) -> Option<(u16, Seq<char>, Seq<char>)> {
    match r {
        RouteView::Health => Some((200, "text/plain"@, "ok"@)),
        RouteView::Ready { ok } => if ok {
            Some((200, "text/plain"@, "ready"@))
        } else {
            Some((503, "text/plain"@, "not-ready"@))
        },
        RouteView::Unauthorized => Some(
            (401, "application/json"@, "{\"error\":\"unauthorized\"}"@),
        ),
        RouteView::MetricsDisabled => Some(
            (503, "application/json"@, "{\"error\":\"metrics disabled (set METRICS=1)\"}"@),
        ),
        RouteView::Api { since, endpoint } => if endpoint is NotFound {
            Some((404, "application/json"@, "{\"error\":\"not found\"}"@))
        } else {
            None
        },
        _ => None,
    }
}

/// The answer that a route is given by itself; none where the page, the store or the proxy gives it.
pub fn fixed_answer(route: &Route) -> (r: Option<Answer>)
    ensures
        match r {
            Some(a) => answer_of(route@) == Some((a.status, a.content_type@, a.body@)),
            None => answer_of(route@) is None,
        },
{
    match route {
        Route::Health => Some(Answer { status: 200, content_type: "text/plain", body: "ok" }),
        Route::Ready { ok } => if *ok {
            Some(Answer { status: 200, content_type: "text/plain", body: "ready" })
        } else {
            Some(Answer { status: 503, content_type: "text/plain", body: "not-ready" })
        },
        Route::Unauthorized => Some(
            Answer {
                status: 401,
                content_type: "application/json",
                body: "{\"error\":\"unauthorized\"}",
            },
        ),
        Route::MetricsDisabled => Some(
            Answer {
                status: 503,
                content_type: "application/json",
                body: "{\"error\":\"metrics disabled (set METRICS=1)\"}",
            },
        ),
        Route::Api { since: _, endpoint: Endpoint::NotFound } => Some(
            Answer {
                status: 404,
                content_type: "application/json",
                body: "{\"error\":\"not found\"}",
            },
        ),
        _ => None,
    }
}

/// Where a redirect leads.
pub fn redirect_target() -> (r: String)
    ensures
        r@ == PREFIX@ + "/"@,
{
    text::glue(PREFIX, "/")
}

/// The health probes answer whatever the settings are and whoever asks.
pub proof fn law_probes_are_open(
    dashboard: bool,
    token: Seq<char>,
    ready: Option<bool>,
    method: Seq<char>,
    query: Option<Seq<char>>,
    authorization: Option<Seq<char>>,
)
    ensures
        route_of(dashboard, token, ready, method, "/healthz"@, query, authorization) is Health,
        route_of(dashboard, token, ready, method, "/readyz"@, query, authorization) is Ready,
{
    reveal_strlit("/healthz");
    reveal_strlit("/readyz");
    assert("/healthz"@.len() != "/readyz"@.len());
}

/// Without a dashboard everything but the health probes is the proxy's.
pub proof fn law_without_dashboard_all_is_proxied(
    token: Seq<char>,
    ready: Option<bool>,
    method: Seq<char>,
    path: Seq<char>,
    query: Option<Seq<char>>,
    authorization: Option<Seq<char>>,
)
    requires
        path != "/healthz"@,
        path != "/readyz"@,
    ensures
        route_of(false, token, ready, method, path, query, authorization) is Proxy,
{
}

/// Who does not give the token sees neither the page nor the API.
pub proof fn law_token_gates_the_dashboard(
    dashboard: bool,
    token: Seq<char>,
    ready: Option<bool>,
    method: Seq<char>,
    path: Seq<char>,
    query: Option<Seq<char>>,
    authorization: Option<Seq<char>>,
)
    requires
        token.len() > 0,
        param_of(query, "token"@) != Some(token),
        authorization != Some("Bearer "@ + token),
    ensures
        ({
            let r = route_of(dashboard, token, ready, method, path, query, authorization);
            !(r is Page) && !(r is Api) && !(r is MetricsDisabled)
        }),
{
}

/// The message paths are never taken from the proxy.
pub proof fn law_messages_are_proxied(
    dashboard: bool,
    token: Seq<char>,
    ready: Option<bool>,
    method: Seq<char>,
    query: Option<Seq<char>>,
    authorization: Option<Seq<char>>,
)
    ensures
        route_of(dashboard, token, ready, method, "/v1/messages"@, query, authorization) is Proxy,
        route_of(
            dashboard,
            token,
            ready,
            method,
            "/v1/messages/count_tokens"@,
            query,
            authorization,
        ) is Proxy,
{
    reveal_strlit("/v1/messages");
    reveal_strlit("/v1/messages/count_tokens");
    reveal_strlit("/healthz");
    reveal_strlit("/readyz");
    reveal_strlit("/");
    reveal_strlit("/index.html");
    reveal_strlit("/__pino");
    let p = "/v1/messages"@;
    let q = "/v1/messages/count_tokens"@;
    let f = PREFIX@ + "/"@;
    assert(p.len() == 12 && q.len() == 25);
    assert("/healthz"@.len() == 8 && "/readyz"@.len() == 7 && "/index.html"@.len() == 11);
    assert(p[1] == 'v' && q[1] == 'v' && PREFIX@[1] == '_' && f[1] == '_');
    assert(f.len() == 8);
    assert(p.take(f.len() as int)[1] == 'v');
    assert(q.take(f.len() as int)[1] == 'v');
}

/// A window given as a length goes back by it; one given as a time begins there.
pub proof fn law_since_reads_both_forms(raw: Seq<char>, now: i64)
    ensures
        window_of(raw) matches Some(w) ==> since_of(Some(raw), now) == now - w,
        window_of(raw) is None && text::i64_of(raw) is Some ==> since_of(Some(raw), now)
            == text::i64_of(raw)->0,
        since_of(None, now) == 0,
{
}

} // verus!
