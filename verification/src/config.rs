//! Settings and limits.

use vstd::prelude::*;
use vstd::string::*;

use crate::control_laws;
use crate::text;

verus! {

/// The host that requests are forwarded to.
pub const UPSTREAM_HOST: &'static str = "api.anthropic.com";

/// The flag that lets breakpoints live an hour.
pub const BETA_FLAG: &'static str = "extended-cache-ttl-2025-04-11";

/// Breakpoints on system blocks shorter than this waste a slot.
pub const MIN_SYSTEM_CACHE_CHARS: usize = 500;

/// The most breakpoints that one request may carry.
pub const BREAKPOINT_CEILING: usize = 4;

/// The most bytes of one response that are kept for metering.
pub const MAX_METER_BYTES: usize = 8 * 1024 * 1024;

/// The port that is bound where none is asked for.
pub const DEFAULT_PORT: u16 = 8898;

/// The interface that is bound where none is asked for.
pub const DEFAULT_HOST: &'static str = "127.0.0.1";

/// The directory of the logs where none is asked for.
pub const DEFAULT_LOG_DIR: &'static str = "./logs";

/// The metrics database where none is asked for.
pub const DEFAULT_DB_PATH: &'static str = "./data/metrics.db";

/// The path of a database that is kept in memory only.
pub const IN_MEMORY: &'static str = ":memory:";

/// The environment variables that settings are read from.
#[derive(Clone, Debug)]
pub struct Env {
    pub port: Option<String>,
    pub bind_host: Option<String>,
    pub auto_cache: Option<String>,
    pub log_bodies: Option<String>,
    pub log_dir: Option<String>,
    pub tail_ttl: Option<String>,
    pub model_override: Option<String>,
    pub metrics: Option<String>,
    pub dashboard: Option<String>,
    pub dashboard_token: Option<String>,
    pub db_path: Option<String>,
    pub transform: Option<String>,
    pub transform_file: Option<String>,
}

/// What the file system says of a path.
#[derive(Clone, Debug)]
pub struct Location {
    /// The canonical path, where there is such a file.
    pub canonical: Option<String>,
    /// The path is absolute.
    pub absolute: bool,
    /// The path taken from the working directory, where that is known.
    pub joined: Option<String>,
}

/// The settings of the proxy.
#[derive(Clone, Debug)]
pub struct Config {
    pub port: u16,
    pub bind_host: String,
    pub auto_cache: bool,
    pub log_bodies: bool,
    pub log_dir: String,
    pub tail_ttl: String,
    pub model_override: String,
    pub metrics: bool,
    pub dashboard: bool,
    pub dashboard_token: String,
    pub db_path: String,
    /// The body transform runs: `TRANSFORM` is 1 or `TRANSFORM_FILE` is set.
    pub transform_enabled: bool,
}

/// The variable switches something on.
pub open spec fn flag_of(v: Option<Seq<char>>) -> bool {
    v == Some("1"@)
}

/// The variable, or `default` where it is not set or empty.
pub open spec fn filled_of(v: Option<Seq<char>>, default: Seq<char>) -> Seq<char> {
    match v {
        Some(s) => if s.len() > 0 {
            s
        } else {
            default
        },
        None => default,
    }
}

/// The variable, or nothing where it is not set.
pub open spec fn plain_of(v: Option<Seq<char>>) -> Seq<char> {
    match v {
        Some(s) => s,
        None => Seq::empty(),
    }
}

/// The port that the variable asks for.
pub open spec fn port_of(v: Option<Seq<char>>) -> u16 {
    match v {
        Some(s) => match text::u16_of(s) {
            Some(p) => p,
            None => DEFAULT_PORT,
        },
        None => DEFAULT_PORT,
    }
}

/// Whether the variable switches something on.
pub fn flag(v: &Option<String>) -> (r: bool)
    ensures
        r == flag_of(text::opt_text(*v)),
{
    match v {
        Some(s) => text::same(s.as_str(), "1"),
        None => false,
    }
}

/// Whether the variable is set to more than an empty text.
pub fn non_empty(v: &Option<String>) -> (r: bool)
    ensures
        r == (text::opt_text(*v) matches Some(s) && s.len() > 0),
{
    match v {
        Some(s) => !s.as_str().is_empty(),
        None => false,
    }
}

/// The variable, or `default` where it is not set or empty.
fn filled(v: &Option<String>, default: &str) -> (r: String)
    ensures
        r@ == filled_of(text::opt_text(*v), default@),
{
    match v {
        Some(s) => if s.as_str().is_empty() {
            default.to_owned()
        } else {
            s.clone()
        },
        None => default.to_owned(),
    }
}

/// The variable, or an empty text where it is not set.
fn plain(v: &Option<String>) -> (r: String)
    ensures
        r@ == plain_of(text::opt_text(*v)),
{
    match v {
        Some(s) => s.clone(),
        None => String::new(),
    }
}

/// The port that the variable asks for, where it is one, or else the default.
pub fn port_from(v: &Option<String>) -> (r: u16)
    ensures
        r == port_of(text::opt_text(*v)),
{
    match v {
        Some(s) => match text::parse_u16(s.as_str()) {
            Some(p) => p,
            None => DEFAULT_PORT,
        },
        None => DEFAULT_PORT,
    }
}

/// The lifetime of the rolling breakpoint for the variable `v`, in lower case and without outer
/// white space.
pub open spec fn ttl_of(v: Option<Seq<char>>) -> Seq<char> {
    if v == Some("1h"@) {
        "1h"@
    } else {
        "5m"@
    }
}

/// The variable `v`, in lower case and without outer white space, is set to no lifetime.
pub open spec fn ttl_refused(v: Option<Seq<char>>) -> bool {
    v matches Some(s) && s.len() > 0 && s != "5m"@ && s != "1h"@
}

/// The variable in lower case and without outer white space.
pub open spec fn normal_of(v: Option<Seq<char>>) -> Option<Seq<char>> {
    match v {
        Some(s) => Some(text::lowered(text::trim_of(s))),
        None => None,
    }
}

/// The lifetime for a value in lower case and without outer white space, and whether the value is
/// none.
pub fn ttl_from(v: Option<&str>) -> (r: (String, bool))
    ensures
        ({
            let w = match v {
                Some(s) => Some(s@),
                None => None,
            };
            r.0@ == ttl_of(w) && r.1 == ttl_refused(w)
        }),
{
    match v {
        None => ("5m".to_owned(), false),
        Some(s) => if s.is_empty() {
            proof {
                reveal_strlit("1h");
            }
            ("5m".to_owned(), false)
        } else if text::same(s, "1h") {
            ("1h".to_owned(), false)
        } else if text::same(s, "5m") {
            ("5m".to_owned(), false)
        } else {
            ("5m".to_owned(), true)
        },
    }
}

/// The lifetime of the rolling breakpoint: `1h` where that is asked for, and else `5m`.
pub fn parse_tail_ttl(raw: Option<String>) -> (r: String)
    ensures
        r@ == ttl_of(normal_of(text::opt_text(raw))),
{
    match raw {
        Some(s) => {
            let v: String = text::to_lowercase(text::trim(s.as_str()).as_str());
            let (ttl, _): (String, bool) = ttl_from(Some(v.as_str()));
            ttl
        },
        None => {
            let (ttl, _): (String, bool) = ttl_from(None);
            ttl
        },
    }
}

/// The warning that a value which is no lifetime calls for.
pub open spec fn ttl_warning_of(v: Option<Seq<char>>) -> Option<Seq<char>> {
    if ttl_refused(v) {
        Some(
            "TAIL_TTL must be one of 5m|1h (got \""@ + v->0 + "\"), falling back to 5m"@,
        )
    } else {
        None
    }
}

/// The warning that a value which is no lifetime calls for.
pub fn tail_ttl_warning(raw: &Option<String>) -> (r: Option<String>)
    ensures
        text::opt_text(r) == ttl_warning_of(normal_of(text::opt_text(*raw))),
{
    match raw {
        Some(s) => {
            let v: String = text::to_lowercase(text::trim(s.as_str()).as_str());
            let (_, refused): (String, bool) = ttl_from(Some(v.as_str()));
            if refused {
                let mut out: String = text::glue(
                    "TAIL_TTL must be one of 5m|1h (got \"",
                    v.as_str(),
                );
                out.append("\"), falling back to 5m");
                Some(out)
            } else {
                None
            }
        },
        None => None,
    }
}

/// The path that is used for `path`, by what the file system says of it.
pub open spec fn resolved(path: Seq<char>, at: Location) -> Seq<char> {
    if path == IN_MEMORY@ {
        path
    } else if at.canonical is Some {
        at.canonical->0@
    } else if at.absolute {
        path
    } else if at.joined is Some {
        at.joined->0@
    } else {
        path
    }
}

/// The path that is used for `path`: the canonical one, where there is such a file, and else the
/// absolute one. A database in memory has no path.
pub fn resolve(path: &str, at: &Location) -> (r: String)
    ensures
        r@ == resolved(path@, *at),
{
    if text::same(path, IN_MEMORY) {
        return path.to_owned();
    }
    match &at.canonical {
        Some(c) => c.clone(),
        None => if at.absolute {
            path.to_owned()
        } else {
            match &at.joined {
                Some(j) => j.clone(),
                None => path.to_owned(),
            }
        },
    }
}

/// The directory of the logs that is asked for.
pub fn asked_log_dir(env: &Env) -> (r: String)
    ensures
        r@ == filled_of(text::opt_text(env.log_dir), DEFAULT_LOG_DIR@),
{
    filled(&env.log_dir, DEFAULT_LOG_DIR)
}

/// The metrics database that is asked for.
pub fn asked_db_path(env: &Env) -> (r: String)
    ensures
        r@ == filled_of(text::opt_text(env.db_path), DEFAULT_DB_PATH@),
{
    filled(&env.db_path, DEFAULT_DB_PATH)
}

/// The settings that the variables ask for. `log_at` and `db_at` are what the file system says of
/// the log directory and the database that are asked for.
pub fn load_config(env: &Env, log_at: &Location, db_at: &Location) -> (r: Config)
    ensures
        r.port == port_of(text::opt_text(env.port)),
        r.bind_host@ == filled_of(text::opt_text(env.bind_host), DEFAULT_HOST@),
        r.auto_cache == flag_of(text::opt_text(env.auto_cache)),
        r.log_bodies == flag_of(text::opt_text(env.log_bodies)),
        r.log_dir@ == resolved(filled_of(text::opt_text(env.log_dir), DEFAULT_LOG_DIR@), *log_at),
        r.tail_ttl@ == ttl_of(normal_of(text::opt_text(env.tail_ttl))),
        r.model_override@ == plain_of(text::opt_text(env.model_override)),
        r.metrics == (flag_of(text::opt_text(env.metrics)) || flag_of(text::opt_text(env.dashboard))),
        r.dashboard == flag_of(text::opt_text(env.dashboard)),
        r.dashboard_token@ == plain_of(text::opt_text(env.dashboard_token)),
        r.db_path@ == resolved(filled_of(text::opt_text(env.db_path), DEFAULT_DB_PATH@), *db_at),
        r.transform_enabled == (flag_of(text::opt_text(env.transform)) || (text::opt_text(
            env.transform_file,
        ) matches Some(s) && s.len() > 0)),
        well_formed(r),
        control_laws::set_by(*env, *log_at, *db_at, r),
{
    let dashboard: bool = flag(&env.dashboard);
    Config {
        port: port_from(&env.port),
        bind_host: filled(&env.bind_host, DEFAULT_HOST),
        auto_cache: flag(&env.auto_cache),
        log_bodies: flag(&env.log_bodies),
        log_dir: resolve(asked_log_dir(env).as_str(), log_at),
        tail_ttl: parse_tail_ttl(env.tail_ttl.clone()),
        model_override: plain(&env.model_override),
        metrics: flag(&env.metrics) || dashboard,
        dashboard,
        dashboard_token: plain(&env.dashboard_token),
        db_path: resolve(asked_db_path(env).as_str(), db_at),
        transform_enabled: flag(&env.transform) || non_empty(&env.transform_file),
    }
}

/// What holds of every settings: the rolling breakpoint has one of two lifetimes, and a dashboard
/// has metrics to show.
pub open spec fn well_formed(c: Config) -> bool {
    &&& c.tail_ttl@ == "5m"@ || c.tail_ttl@ == "1h"@
    &&& c.dashboard ==> c.metrics
}

/// The address that is bound.
pub fn bind_address(c: &Config) -> (r: String)
    ensures
        r@ == c.bind_host@ + ":"@ + text::decimal_of(c.port as nat),
{
    let mut out: String = text::glue(c.bind_host.as_str(), ":");
    out.append(text::decimal(c.port as u64).as_str());
    out
}

/// `true` or `false`.
pub open spec fn bool_of(b: bool) -> Seq<char> {
    if b {
        "true"@
    } else {
        "false"@
    }
}

/// `true` or `false`.
pub fn bool_text(b: bool) -> (r: &'static str)
    ensures
        r@ == bool_of(b),
{
    if b {
        "true"
    } else {
        "false"
    }
}

/// The settings in one line.
pub open spec fn summary_of(c: Config) -> Seq<char> {
    "settings: AUTO_CACHE="@ + bool_of(c.auto_cache) + " TAIL_TTL="@ + c.tail_ttl@
        + " MODEL_OVERRIDE="@ + (if c.model_override@.len() == 0 {
        "(none)"@
    } else {
        c.model_override@
    }) + " TRANSFORM="@ + bool_of(c.transform_enabled) + " LOG_BODIES="@ + bool_of(c.log_bodies)
        + " METRICS="@ + bool_of(c.metrics) + " DASHBOARD="@ + bool_of(c.dashboard)
}

/// The settings in one line.
pub fn summary(c: &Config) -> (r: String)
    ensures
        r@ == summary_of(*c),
{
    let mut out: String = text::glue("settings: AUTO_CACHE=", bool_text(c.auto_cache));
    out.append(" TAIL_TTL=");
    out.append(c.tail_ttl.as_str());
    out.append(" MODEL_OVERRIDE=");
    if c.model_override.as_str().is_empty() {
        out.append("(none)");
    } else {
        out.append(c.model_override.as_str());
    }
    out.append(" TRANSFORM=");
    out.append(bool_text(c.transform_enabled));
    out.append(" LOG_BODIES=");
    out.append(bool_text(c.log_bodies));
    out.append(" METRICS=");
    out.append(bool_text(c.metrics));
    out.append(" DASHBOARD=");
    out.append(bool_text(c.dashboard));
    out
}

/// The request that a health probe sends to the address.
pub fn probe_request(addr: &str) -> (r: String)
    ensures
        r@ == "GET /healthz HTTP/1.0\r\nHost: "@ + addr@ + "\r\n\r\n"@,
{
    let mut out: String = text::glue("GET /healthz HTTP/1.0\r\nHost: ", addr);
    out.append("\r\n\r\n");
    out
}

/// The address that a health probe asks.
pub fn probe_address(port: u16) -> (r: String)
    ensures
        r@ == "127.0.0.1:"@ + text::decimal_of(port as nat),
{
    text::glue("127.0.0.1:", text::decimal(port as u64).as_str())
}

/// Whether the answer to a health probe is that all is well.
pub fn probe_succeeded(answer: &str) -> (r: bool)
    ensures
        r == (text::begins(answer@, "HTTP/1.0 200"@) || text::begins(answer@, "HTTP/1.1 200"@)),
{
    text::starts_with(answer, "HTTP/1.0 200") || text::starts_with(answer, "HTTP/1.1 200")
}

} // verus!
