//! The proxy's decisions: what becomes of a request's headers and body, what is kept of the response,
//! and what is metered of it.

use vstd::prelude::*;
use vstd::string::*;
use vstd::utf8::*;

use crate::cache;
use crate::cache::TtlCounter;
use crate::cache_laws;
use crate::config::{Config, BETA_FLAG, BREAKPOINT_CEILING, MAX_METER_BYTES, UPSTREAM_HOST};
use crate::http_decode;
use crate::identity::Identity;
use crate::json;
use crate::json::{Json, JsonView};
use crate::model;
use crate::request_laws;
use crate::store;
use crate::store::{RowInput, RowView};
use crate::text;
use crate::transform;
use crate::transform::Transform;
use crate::transform_laws;
use crate::usage;

verus! {

broadcast use crate::json::group_json_view;

/// The most bytes of a request body that are read.
pub const MAX_BODY: usize = 256 * 1024 * 1024;

/// One header line. Names are in lower case.
#[derive(Clone, Debug)]
pub struct Header {
    pub name: String,
    pub value: Vec<u8>,
}

/// What a header line holds.
#[verifier::ext_equal]
pub struct HeaderView {
    pub name: Seq<char>,
    pub value: Seq<u8>,
}

impl View for Header {
    type V = HeaderView;

    open spec fn view(&self) -> HeaderView {
        HeaderView { name: self.name@, value: self.value@ }
    }
}

/// What header lines hold.
pub open spec fn lines(hs: Seq<Header>) -> Seq<HeaderView> {
    hs.map_values(|h: Header| h@)
}

impl Header {
    /// A line that holds the same.
    pub fn copy(&self) -> (r: Header)
        ensures
            r@ == self@,
    {
        let r: Header = Header { name: self.name.clone(), value: self.value.clone() };
        assert(r.value@ =~= self.value@);
        r
    }
}

/// The byte is a visible ASCII character, a space or a tab.
pub open spec fn visible(b: u8) -> bool {
    32 <= b < 127 || b == 9
}

/// The text of a header value that is visible throughout.
pub open spec fn visible_text(value: Seq<u8>) -> Option<Seq<char>> {
    if forall|i: int| 0 <= i < value.len() ==> visible(#[trigger] value[i]) {
        Some(value.map_values(|b: u8| b as char))
    } else {
        None
    }
}

/// The text of a header value, where it holds nothing but visible ASCII characters, spaces and tabs.
fn to_str(value: &[u8]) -> (r: Option<String>)
    ensures
        text::opt_text(r) == visible_text(value@),
{
    let n: usize = value.len();
    let mut i: usize = 0;
    while i < n
        invariant
            n == value@.len(),
            i <= n,
            forall|j: int| 0 <= j < i ==> visible(#[trigger] value@[j]),
        decreases n - i,
    {
        let b: u8 = value[i];
        if !(32 <= b && b < 127 || b == 9) {
            assert(!visible(value@[i as int]));
            return None;
        }
        i += 1;
    }
    proof {
        let t = value@.map_values(|b: u8| b as char);
        assert(is_ascii_chars(t));
        is_ascii_chars_encode_utf8(t);
        assert(encode_utf8(t) =~= value@);
        encode_utf8_valid_utf8(t);
        encode_utf8_decode_utf8(t);
    }
    Some(text::from_utf8_lossy(value))
}

/// The header is one of a single connection and is not passed on.
pub open spec fn hop_by_hop(name: Seq<char>) -> bool {
    ||| name == "connection"@
    ||| name == "keep-alive"@
    ||| name == "proxy-authenticate"@
    ||| name == "proxy-authorization"@
    ||| name == "te"@
    ||| name == "trailer"@
    ||| name == "transfer-encoding"@
    ||| name == "upgrade"@
}

/// Whether the header is one of a single connection.
pub fn is_hop_by_hop(name: &str) -> (r: bool)
    ensures
        r == hop_by_hop(name@),
{
    text::same(name, "connection") || text::same(name, "keep-alive") || text::same(
        name,
        "proxy-authenticate",
    ) || text::same(name, "proxy-authorization") || text::same(name, "te") || text::same(
        name,
        "trailer",
    ) || text::same(name, "transfer-encoding") || text::same(name, "upgrade")
}

/// The path is one that messages are sent to.
pub open spec fn messages_path(path: Seq<char>) -> bool {
    path == "/v1/messages"@ || path == "/v1/messages/count_tokens"@
}

/// Whether the path is one that messages are sent to.
pub fn is_messages_path(path: &str) -> (r: bool)
    ensures
        r == messages_path(path@),
{
    text::same(path, "/v1/messages") || text::same(path, "/v1/messages/count_tokens")
}

/// The position of the first line with the name, counted from `i`.
pub open spec fn first_named(hs: Seq<HeaderView>, name: Seq<char>, i: int) -> Option<int>
    decreases hs.len() - i,
{
    if i < 0 || i >= hs.len() {
        None
    } else if hs[i].name == name {
        Some(i)
    } else {
        first_named(hs, name, i + 1)
    }
}

/// The text of the first line with the name.
pub open spec fn header_text_of(hs: Seq<HeaderView>, name: Seq<char>) -> Option<Seq<char>> {
    match first_named(hs, name, 0) {
        Some(i) => visible_text(hs[i].value),
        None => None,
    }
}

/// The position of the first line with the name.
fn position(headers: &Vec<Header>, name: &str) -> (r: Option<usize>)
    ensures
        match r {
            Some(i) => i < headers@.len() && first_named(lines(headers@), name@, 0) == Some(
                i as int,
            ),
            None => first_named(lines(headers@), name@, 0) is None,
        },
{
    let ghost hs = lines(headers@);
    let n: usize = headers.len();
    let mut i: usize = 0;
    while i < n
        invariant
            n == headers@.len(),
            i <= n,
            hs == lines(headers@),
            first_named(hs, name@, 0) == first_named(hs, name@, i as int),
        decreases n - i,
    {
        assert(hs[i as int] == headers@[i as int]@);
        if text::same(headers[i].name.as_str(), name) {
            return Some(i);
        }
        i += 1;
    }
    None
}

/// The text of the first line with the name, where it is visible throughout.
pub fn header_text(headers: &Vec<Header>, name: &str) -> (r: Option<String>)
    ensures
        text::opt_text(r) == header_text_of(lines(headers@), name@),
{
    match position(headers, name) {
        Some(i) => to_str(headers[i].value.as_slice()),
        None => None,
    }
}

/// The headers announce a JSON body.
pub open spec fn announces_json(hs: Seq<HeaderView>) -> bool {
    header_text_of(hs, "content-type"@) matches Some(t) && text::holds(t, "application/json"@)
}

/// Whether the headers announce a JSON body.
pub fn is_json_request(headers: &Vec<Header>) -> (r: bool)
    ensures
        r == announces_json(lines(headers@)),
{
    match header_text(headers, "content-type") {
        Some(t) => text::contains(t.as_str(), "application/json"),
        None => false,
    }
}

/// The value of a line as text; empty where it is not visible throughout.
pub open spec fn shown_value(h: HeaderView) -> Seq<char> {
    match visible_text(h.value) {
        Some(t) => t,
        None => Seq::empty(),
    }
}

/// The headers as entries of an object: of each name the first value.
pub open spec fn header_entries(hs: Seq<HeaderView>) -> Seq<(Seq<char>, JsonView)>
    decreases hs.len(),
{
    if hs.len() == 0 {
        Seq::empty()
    } else {
        let o = header_entries(hs.drop_last());
        let k = text::lowered(hs.last().name);
        if json::field(JsonView::Obj(o), k) is Some {
            o
        } else {
            o.push((k, JsonView::Str(shown_value(hs.last()))))
        }
    }
}

/// The headers as an object, with names in lower case and of each name the first value.
pub fn headers_to_json(headers: &Vec<Header>) -> (r: Json)
    ensures
        r@ == JsonView::Obj(header_entries(lines(headers@))),
{
    let ghost hs = lines(headers@);
    let mut out: Json = json::empty();
    let n: usize = headers.len();
    let mut i: usize = 0;
    while i < n
        invariant
            n == headers@.len(),
            i <= n,
            hs == lines(headers@),
            out@ == JsonView::Obj(header_entries(hs.take(i as int))),
        decreases n - i,
    {
        assert(hs.take(i + 1).drop_last() =~= hs.take(i as int));
        assert(hs.take(i + 1).last() == headers@[i as int]@);
        let k: String = text::to_lowercase(headers[i].name.as_str());
        if out.get(k.as_str()).is_none() {
            let v: String = match to_str(headers[i].value.as_slice()) {
                Some(t) => t,
                None => String::new(),
            };
            out.set(k.as_str(), Json::Str(v));
        }
        i += 1;
    }
    assert(hs.take(n as int) =~= hs);
    out
}

/// The header, by its name in lower case, is not sent upstream.
pub open spec fn kept_back(name: Seq<char>) -> bool {
    name == "host"@ || name == "content-length"@ || hop_by_hop(name)
}

/// The header lines that are sent upstream: all but those of this connection, as they came.
pub open spec fn upstream_of(hs: Seq<HeaderView>) -> Seq<HeaderView> {
    hs.filter(|h: HeaderView| !kept_back(text::lowered(h.name)))
}

/// The header lines that are sent upstream: all but those of this connection, as they came.
pub fn upstream_headers(headers: &Vec<Header>) -> (r: Vec<Header>)
    ensures
        lines(r@) == upstream_of(lines(headers@)),
{
    let ghost hs = lines(headers@);
    let ghost p = |h: HeaderView| !kept_back(text::lowered(h.name));
    let mut out: Vec<Header> = Vec::new();
    let n: usize = headers.len();
    let mut i: usize = 0;
    proof {
        assert(hs.take(0).filter(p) =~= Seq::empty()) by {
            reveal(Seq::filter);
        }
        assert(lines(out@) =~= Seq::empty());
    }
    while i < n
        invariant
            n == headers@.len(),
            i <= n,
            hs == lines(headers@),
            p == (|h: HeaderView| !kept_back(text::lowered(h.name))),
            lines(out@) == hs.take(i as int).filter(p),
        decreases n - i,
    {
        proof {
            text::lemma_filter_step(hs, i as int, p);
        }
        let h: &Header = &headers[i];
        let name: String = text::to_lowercase(h.name.as_str());
        if !(text::same(name.as_str(), "host") || text::same(name.as_str(), "content-length")
            || is_hop_by_hop(name.as_str())) {
            let ghost before = lines(out@);
            out.push(h.copy());
            assert(lines(out@) =~= before.push(hs[i as int]));
        }
        i += 1;
    }
    assert(hs.take(n as int) =~= hs);
    out
}

/// The header lines that are sent back: all but those of the upstream connection.
pub open spec fn downstream_of(hs: Seq<HeaderView>) -> Seq<HeaderView> {
    hs.filter(|h: HeaderView| !hop_by_hop(h.name))
}

/// The header lines that are sent back: all but those of the upstream connection, as they came.
pub fn downstream_headers(headers: &Vec<Header>) -> (r: Vec<Header>)
    ensures
        lines(r@) == downstream_of(lines(headers@)),
{
    let ghost hs = lines(headers@);
    let ghost p = |h: HeaderView| !hop_by_hop(h.name);
    let mut out: Vec<Header> = Vec::new();
    let n: usize = headers.len();
    let mut i: usize = 0;
    proof {
        assert(hs.take(0).filter(p) =~= Seq::empty()) by {
            reveal(Seq::filter);
        }
        assert(lines(out@) =~= Seq::empty());
    }
    while i < n
        invariant
            n == headers@.len(),
            i <= n,
            hs == lines(headers@),
            p == (|h: HeaderView| !hop_by_hop(h.name)),
            lines(out@) == hs.take(i as int).filter(p),
        decreases n - i,
    {
        proof {
            text::lemma_filter_step(hs, i as int, p);
        }
        let h: &Header = &headers[i];
        if !is_hop_by_hop(h.name.as_str()) {
            let ghost before = lines(out@);
            out.push(h.copy());
            assert(lines(out@) =~= before.push(hs[i as int]));
        }
        i += 1;
    }
    assert(hs.take(n as int) =~= hs);
    out
}

/// The header that carries beta flags.
pub const BETA_HEADER: &'static str = "anthropic-beta";

/// The comma-separated flags `t` name the flag that lets breakpoints live an hour.
pub open spec fn names_flag(t: Seq<char>) -> bool {
    exists|i: int|
        0 <= i < text::split_of(t, ',').len() && text::trim_of(
            #[trigger] text::split_of(t, ',')[i],
        ) == BETA_FLAG@
}

/// The line carries the flag that lets breakpoints live an hour.
pub open spec fn carries_flag(h: HeaderView) -> bool {
    h.name == BETA_HEADER@ && names_flag(shown_value(h))
}

/// What happened to the beta flag.
#[derive(Clone, Copy, Debug, PartialEq, Eq, Structural)]
pub enum Beta {
    Added,
    Present,
    Appended,
}

/// What happens to the beta flag.
pub open spec fn beta_of(hs: Seq<HeaderView>) -> Beta {
    if first_named(hs, BETA_HEADER@, 0) is None {
        Beta::Added
    } else if exists|i: int| 0 <= i < hs.len() && carries_flag(#[trigger] hs[i]) {
        Beta::Present
    } else {
        Beta::Appended
    }
}

/// The header lines with the beta flag.
pub open spec fn with_beta(hs: Seq<HeaderView>) -> Seq<HeaderView> {
    match beta_of(hs) {
        Beta::Added => hs.push(
            HeaderView {
                name: BETA_HEADER@,
                value: vstd::utf8::encode_utf8(BETA_FLAG@),
            },
        ),
        Beta::Present => hs,
        Beta::Appended => {
            let i = first_named(hs, BETA_HEADER@, 0)->0;
            hs.update(
                i,
                HeaderView {
                    name: BETA_HEADER@,
                    value: vstd::utf8::encode_utf8(shown_value(hs[i]) + ","@ + BETA_FLAG@),
                },
            )
        },
    }
}

/// Whether the comma-separated flags name the flag that lets breakpoints live an hour.
fn flag_named(t: &str) -> (r: bool)
    ensures
        r == names_flag(t@),
{
    let pieces: Vec<String> = text::split(t, ',');
    let ghost ps = text::split_of(t@, ',');
    let n: usize = pieces.len();
    let mut i: usize = 0;
    while i < n
        invariant
            n == pieces@.len(),
            i <= n,
            ps == text::split_of(t@, ','),
            text::texts(pieces@) == ps,
            forall|j: int| 0 <= j < i ==> text::trim_of(#[trigger] ps[j]) != BETA_FLAG@,
        decreases n - i,
    {
        assert(ps[i as int] == pieces@[i as int]@);
        if text::same(text::trim(pieces[i].as_str()).as_str(), BETA_FLAG) {
            return true;
        }
        i += 1;
    }
    false
}

/// The value of a line as text; empty where it is not visible throughout.
fn shown(h: &Header) -> (r: String)
    ensures
        r@ == shown_value(h@),
{
    match to_str(h.value.as_slice()) {
        Some(t) => t,
        None => String::new(),
    }
}

/// Sees to it that the beta flag is sent: a line for it is added where there is none, and where none
/// of the lines carries the flag it is appended to the first.
pub fn ensure_beta_header(headers: &mut Vec<Header>) -> (r: Beta)
    ensures
        r == beta_of(lines(old(headers)@)),
        lines(final(headers)@) == with_beta(lines(old(headers)@)),
{
    let ghost hs = lines(headers@);
    let first: usize = match position(headers, BETA_HEADER) {
        Some(i) => i,
        None => {
            headers.push(
                Header { name: BETA_HEADER.to_owned(), value: text::bytes_of(BETA_FLAG) },
            );
            assert(lines(headers@) =~= with_beta(hs));
            return Beta::Added;
        },
    };
    let n: usize = headers.len();
    let mut i: usize = 0;
    while i < n
        invariant
            n == headers@.len(),
            i <= n,
            hs == lines(headers@),
            hs == lines(old(headers)@),
            first_named(hs, BETA_HEADER@, 0) is Some,
            forall|j: int| 0 <= j < i ==> !carries_flag(#[trigger] hs[j]),
        decreases n - i,
    {
        assert(hs[i as int] == headers@[i as int]@);
        if text::same(headers[i].name.as_str(), BETA_HEADER) && flag_named(
            shown(&headers[i]).as_str(),
        ) {
            assert(carries_flag(hs[i as int]));
            return Beta::Present;
        }
        i += 1;
    }
    assert(hs[first as int] == headers@[first as int]@);
    let mut combined: String = shown(&headers[first]);
    combined.append(",");
    combined.append(BETA_FLAG);
    headers.set(
        first,
        Header { name: BETA_HEADER.to_owned(), value: text::bytes_of(combined.as_str()) },
    );
    assert(lines(headers@) =~= with_beta(hs));
    Beta::Appended
}

/// The word that the log has for what happened to the beta flag.
pub open spec fn beta_word_of(b: Option<Beta>) -> Seq<char> {
    match b {
        Some(Beta::Added) => "added"@,
        Some(Beta::Present) => "present"@,
        Some(Beta::Appended) => "appended"@,
        None => "skipped"@,
    }
}

/// The log's note on the beta flag.
pub fn beta_note(b: Option<Beta>) -> (r: String)
    ensures
        r@ == "beta="@ + beta_word_of(b),
{
    let word: &str = match b {
        Some(Beta::Added) => "added",
        Some(Beta::Present) => "present",
        Some(Beta::Appended) => "appended",
        None => "skipped",
    };
    text::glue("beta=", word)
}

/// What is done with a request.
#[derive(Clone, Copy, Debug, PartialEq, Eq, Structural)]
pub struct Plan {
    /// It sends messages.
    pub messages: bool,
    /// Its body is changed.
    pub mutate: bool,
    /// Its response is metered.
    pub meter: bool,
}

/// The request sends messages.
pub open spec fn sends_messages(
    method: Seq<char>,
    path: Seq<char>,
    hs: Seq<HeaderView>,
    empty: bool,
) -> bool {
    method == "POST"@ && messages_path(path) && announces_json(hs) && !empty
}

/// What is done with a request. `has_store` says whether there is a store, and `empty` whether the
/// body is empty.
pub open spec fn plan_of(
    config: Config,
    has_store: bool,
    method: Seq<char>,
    path: Seq<char>,
    hs: Seq<HeaderView>,
    empty: bool,
) -> Plan {
    let messages = sends_messages(method, path, hs, empty);
    Plan {
        messages,
        mutate: messages && (config.auto_cache || config.transform_enabled
            || config.model_override@.len() > 0),
        meter: config.metrics && has_store && messages && path != "/v1/messages/count_tokens"@,
    }
}

/// What is done with a request. `has_store` says whether there is a store, and `empty` whether the
/// body is empty.
pub fn plan(
    config: &Config,
    has_store: bool,
    method: &str,
    path: &str,
    headers: &Vec<Header>,
    empty: bool,
) -> (r: Plan)
    ensures
        r == plan_of(*config, has_store, method@, path@, lines(headers@), empty),
{
    let messages: bool = text::same(method, "POST") && is_messages_path(path) && is_json_request(
        headers,
    ) && !empty;
    let mutate: bool = messages && (config.auto_cache || config.transform_enabled
        || !config.model_override.as_str().is_empty());
    let meter: bool = config.metrics && has_store && messages && !text::same(
        path,
        "/v1/messages/count_tokens",
    );
    Plan { messages, mutate, meter }
}

/// The body with `m` for its model.
pub open spec fn model_forced(body: JsonView, m: Seq<char>) -> JsonView {
    match body {
        JsonView::Null => JsonView::Obj(seq![("model"@, JsonView::Str(m))]),
        _ => json::with_field(body, "model"@, JsonView::Str(m)),
    }
}

/// The body as the forced model `m` leaves it; an empty one forces nothing.
pub open spec fn remodeled(body: JsonView, m: Seq<char>) -> JsonView {
    if m.len() == 0 {
        body
    } else {
        let b = model_forced(body, m);
        model::system_with(b, model::renamed_texts(b, m))
    }
}

/// The model that the body names; empty where it names none.
pub open spec fn model_named(body: JsonView) -> Seq<char> {
    match json::text_field(body, "model"@) {
        Some(t) => t,
        None => Seq::empty(),
    }
}

/// The log's note on a forced model.
pub open spec fn model_note(body: JsonView, m: Seq<char>) -> Seq<char> {
    let b = model_forced(body, m);
    "model="@ + model_named(body) + "->"@ + m + ",sys-rewrites="@ + text::decimal_of(
        model::system_changes(b, model::renamed_texts(b, m)),
    )
}

/// The body with its breakpoints placed and timed.
pub open spec fn cached(body: JsonView, tail: Seq<char>) -> JsonView {
    cache::ttls_applied(cache::injected(cache::intermediate_stripped(body), tail), tail)
}

/// The log's note on breakpoints.
pub open spec fn cache_note(body: JsonView, tail: Seq<char>) -> Seq<char> {
    let b1 = cache::intermediate_stripped(body);
    let b2 = cache::injected(b1, tail);
    "cache=rewrote:"@ + text::decimal_of(cache::shown(cache::head_tally(b2, false)))
        + ",already:"@ + text::decimal_of(cache::shown(cache::head_tally(b2, true)))
        + ",skipped:"@ + text::decimal_of(cache::shown(cache::tail_tally(b2))) + ",inject:"@
        + cache::inject_note(cache::inject_tags(b1, tail)) + ",mid-stripped:"@ + text::decimal_of(
        cache::shown(cache::intermediate_count(body)),
    ) + ",tail-ttl:"@ + tail
}

/// The body as the transform leaves it.
pub open spec fn transformed(body: JsonView, transform: Option<&Transform>) -> JsonView {
    match transform {
        Some(t) => t.applied(body),
        None => body,
    }
}

/// The body as it is sent upstream.
pub open spec fn mutated(body: JsonView, config: Config, transform: Option<&Transform>) -> JsonView {
    let b = transformed(remodeled(body, config.model_override@), transform);
    if config.auto_cache {
        cached(b, config.tail_ttl@)
    } else {
        b
    }
}

/// The log's notes on what was done to the body.
pub open spec fn notes_of(body: JsonView, config: Config, transform: Option<&Transform>) -> Seq<
    Seq<char>,
> {
    let b = transformed(remodeled(body, config.model_override@), transform);
    (if config.model_override@.len() > 0 {
        seq![model_note(body, config.model_override@)]
    } else {
        Seq::empty()
    }) + (if transform is Some {
        seq!["transform=ok"@]
    } else {
        Seq::empty()
    }) + (if config.auto_cache {
        seq![cache_note(b, config.tail_ttl@)]
    } else {
        Seq::empty()
    })
}

/// The body can be changed as asked: a forced model needs an object or null to go into, and the
/// transform needs messages that it can restructure.
pub open spec fn mutable(body: JsonView, config: Config, transform: bool) -> bool {
    &&& config.model_override@.len() > 0 ==> (body is Obj || body is Null)
    &&& transform ==> transform::messages_addressable(body)
}

/// Whether the body can be changed as asked.
pub fn can_mutate(body: &Json, config: &Config, transform: bool) -> (r: bool)
    ensures
        r == mutable(body@, *config, transform),
{
    if !config.model_override.as_str().is_empty() {
        match body {
            Json::Obj(_) => {},
            Json::Null => {},
            _ => {
                return false;
            },
        }
    }
    !transform || transform::can_restructure(body)
}

proof fn lemma_messages_stay(body: JsonView, m: Seq<char>)
    requires
        m.len() > 0 ==> (body is Obj || body is Null),
        transform::messages_addressable(body),
    ensures
        transform::messages_addressable(remodeled(body, m)),
{
    broadcast use json::group_json_fields;

    reveal_strlit("model");
    reveal_strlit("system");
    reveal_strlit("messages");
    assert("model"@.len() == 5 && "system"@.len() == 6 && "messages"@.len() == 8);
    if m.len() > 0 {
        let b = model_forced(body, m);
        model::law_only_the_system_changes(b, model::renamed_texts(b, m), "messages"@);
        if body is Null {
            json::lemma_index_none(b->Obj_0, "messages"@, 0);
        }
    }
}

/// Puts the model into the body and makes the system prompt speak of it. Returns the log's note.
fn force_model(body: &mut Json, m: &str) -> (r: String)
    requires
        m@.len() > 0,
        old(body)@ is Obj || old(body)@ is Null,
    ensures
        final(body)@ == remodeled(old(body)@, m@),
        r@ == model_note(old(body)@, m@),
{
    let ghost body0 = body@;
    let prev: String = match body.get_text("model") {
        Some(t) => t.to_owned(),
        None => String::new(),
    };
    let null: bool = match body {
        Json::Null => true,
        _ => false,
    };
    if null {
        let mut o: Vec<(String, Json)> = Vec::new();
        json::put(&mut o, "model", json::string(m));
        assert(json::obj_view(o@) =~= model_forced(body0, m@)->Obj_0);
        *body = Json::Obj(o);
    } else {
        body.set("model", json::string(m));
    }
    let hits: usize = model::rewrite_system_model_refs(body, m);
    let mut note: String = text::glue("model=", prev.as_str());
    note.append("->");
    note.append(m);
    note.append(",sys-rewrites=");
    note.append(text::decimal(hits as u64).as_str());
    note
}

/// Places the breakpoints of the body and gives them their lifetimes. Returns the log's note.
fn place_breakpoints(body: &mut Json, tail: &str) -> (r: String)
    ensures
        final(body)@ == cached(old(body)@, tail@),
        r@ == cache_note(old(body)@, tail@),
{
    let stripped: usize = cache::strip_intermediate_message_breakpoints(body);
    let tag: String = cache::inject_breakpoint_if_absent(body, tail);
    let c: TtlCounter = cache::apply_ttls(body, tail);
    let mut note: String = text::glue("cache=rewrote:", text::decimal(c.rewritten as u64).as_str());
    note.append(",already:");
    note.append(text::decimal(c.already as u64).as_str());
    note.append(",skipped:");
    note.append(text::decimal(c.skipped as u64).as_str());
    note.append(",inject:");
    note.append(tag.as_str());
    note.append(",mid-stripped:");
    note.append(text::decimal(stripped as u64).as_str());
    note.append(",tail-ttl:");
    note.append(tail);
    note
}

/// Changes the body of a request as the settings ask: the forced model first, then the transform,
/// then the breakpoints. Returns the log's notes on it.
pub fn mutate_body(body: &mut Json, config: &Config, transform: Option<&Transform>) -> (r: Vec<
    String,
>)
    requires
        mutable(old(body)@, *config, transform is Some),
    ensures
        final(body)@ == mutated(old(body)@, *config, transform),
        text::texts(r@) == notes_of(old(body)@, *config, transform),
{
    let mut notes: Vec<String> = Vec::new();
    let ghost body0 = body@;
    let ghost empty = Seq::<Seq<char>>::empty();
    assert(text::texts(notes@) =~= empty);
    if !config.model_override.as_str().is_empty() {
        let note: String = force_model(body, config.model_override.as_str());
        notes.push(note);
        assert(text::texts(notes@) =~= seq![model_note(body0, config.model_override@)]);
    }
    let ghost t1 = text::texts(notes@);
    match transform {
        Some(t) => {
            proof {
                lemma_messages_stay(body0, config.model_override@);
            }
            t.apply(body);
            notes.push("transform=ok".to_owned());
            assert(text::texts(notes@) =~= t1 + seq!["transform=ok"@]);
        },
        None => {
            assert(text::texts(notes@) =~= t1 + empty);
        },
    }
    let ghost t2 = text::texts(notes@);
    if config.auto_cache {
        let ghost b = body@;
        let note: String = place_breakpoints(body, config.tail_ttl.as_str());
        notes.push(note);
        assert(text::texts(notes@) =~= t2 + seq![cache_note(b, config.tail_ttl@)]);
    } else {
        assert(text::texts(notes@) =~= t2 + empty);
    }
    notes
}

/// The model that a response is counted for where it names none: the one that the changed request
/// names, if it was read.
pub fn fallback_model(parsed: &Option<Json>) -> (r: String)
    ensures
        r@ == (match parsed {
            Some(body) => model_named(body@),
            None => Seq::empty(),
        }),
{
    match parsed {
        Some(body) => match body.get_text("model") {
            Some(t) => t.to_owned(),
            None => String::new(),
        },
        None => String::new(),
    }
}

/// What goes upstream beside the body of a request, and what is said of it.
#[derive(Debug)]
pub struct Outgoing {
    pub headers: Vec<Header>,
    pub notes: Vec<String>,
    pub fallback_model: String,
}

/// The request is sent with the beta flag: breakpoints were placed in its body.
pub open spec fn needs_beta(config: Config, parsed: bool) -> bool {
    config.auto_cache && parsed
}

/// Makes a request ready to be forwarded: its body, where it was read to be changed, is changed as
/// the settings ask, its headers are passed on but for those of this connection, and where
/// breakpoints were placed the beta flag is added to them.
pub fn prepare(
    config: &Config,
    transform: Option<&Transform>,
    headers: &Vec<Header>,
    parsed: &mut Option<Json>,
) -> (r: Outgoing)
    requires
        json::opt_view(*old(parsed)) matches Some(b) ==> mutable(b, *config, transform is Some),
    ensures
        json::opt_view(*final(parsed)) == (match json::opt_view(*old(parsed)) {
            Some(b) => Some(mutated(b, *config, transform)),
            None => None,
        }),
        ({
            let up = upstream_of(lines(headers@));
            let beta = needs_beta(*config, *old(parsed) is Some);
            &&& lines(r.headers@) == (if beta {
                with_beta(up)
            } else {
                up
            })
            &&& text::texts(r.notes@) == (match json::opt_view(*old(parsed)) {
                Some(b) => notes_of(b, *config, transform),
                None => Seq::empty(),
            }).push(
                "beta="@ + beta_word_of(
                    if beta {
                        Some(beta_of(up))
                    } else {
                        None
                    },
                ),
            )
        }),
        r.fallback_model@ == (match json::opt_view(*final(parsed)) {
            Some(b) => model_named(b),
            None => Seq::empty(),
        }),
        request_laws::goes_out(
            *config,
            transform,
            lines(headers@),
            json::opt_view(*old(parsed)),
            json::opt_view(*final(parsed)),
            r,
        ),
{
    let ghost before = json::opt_view(*parsed);
    let mut notes: Vec<String> = match parsed {
        Some(body) => mutate_body(body, config, transform),
        None => Vec::new(),
    };
    let ghost noted = text::texts(notes@);
    assert(before is None ==> noted =~= Seq::empty());
    let fallback: String = fallback_model(parsed);
    let mut out: Vec<Header> = upstream_headers(headers);
    let beta: Option<Beta> = if config.auto_cache && parsed.is_some() {
        Some(ensure_beta_header(&mut out))
    } else {
        None
    };
    notes.push(beta_note(beta));
    assert(text::texts(notes@) =~= noted.push("beta="@ + beta_word_of(beta)));
    assert(text::texts(notes@).drop_last() =~= noted);
    assert(Seq::<char>::empty() =~= seq![]);
    Outgoing { headers: out, notes, fallback_model: fallback }
}

/// Where a request is forwarded to.
pub fn upstream_url(path_and_query: &str) -> (r: String)
    ensures
        r@ == "https://"@ + UPSTREAM_HOST@ + path_and_query@,
{
    let mut out: String = text::glue("https://", UPSTREAM_HOST);
    out.append(path_and_query);
    out
}

/// The log's line on a request that was forwarded.
pub fn forwarded_line(
    method: &str,
    path_and_query: &str,
    status: u16,
    req_id: &str,
    notes: &Vec<String>,
    metered: bool,
) -> (r: String)
    ensures
        r@ == method@ + " "@ + path_and_query@ + " -> "@ + text::decimal_of(status as nat)
            + " [id="@ + req_id@ + " "@ + (if notes@.len() == 0 {
            "pass-through"@
        } else {
            text::join_of(text::texts(notes@), " "@)
        }) + (if metered {
            " metered"@
        } else {
            ""@
        }) + "]"@,
{
    let mut out: String = text::glue(method, " ");
    out.append(path_and_query);
    out.append(" -> ");
    out.append(text::decimal(status as u64).as_str());
    out.append(" [id=");
    out.append(req_id);
    out.append(" ");
    if notes.len() == 0 {
        out.append("pass-through");
    } else {
        out.append(text::join(notes, " ").as_str());
    }
    out.append(
        if metered {
            " metered"
        } else {
            ""
        },
    );
    out.append("]");
    out
}

/// What is kept of a response for metering: all of it, until it is too much.
#[derive(Debug)]
pub struct MeterBuffer {
    kept: Option<Vec<u8>>,
}

impl View for MeterBuffer {
    type V = Option<Seq<u8>>;

    closed spec fn view(&self) -> Option<Seq<u8>> {
        match self.kept {
            Some(b) => Some(b@),
            None => None,
        }
    }
}

/// What is kept after one more chunk.
pub open spec fn fed(kept: Option<Seq<u8>>, chunk: Seq<u8>) -> Option<Seq<u8>> {
    match kept {
        Some(b) => if b.len() + chunk.len() > MAX_METER_BYTES {
            None
        } else {
            Some(b + chunk)
        },
        None => None,
    }
}

impl MeterBuffer {
    /// Nothing came yet.
    pub fn new() -> (r: MeterBuffer)
        ensures
            r@ == Some(Seq::<u8>::empty()),
    {
        MeterBuffer { kept: Some(Vec::new()) }
    }

    /// Takes in one more chunk. Says whether the response has just become too much to keep.
    pub fn feed(&mut self, chunk: &[u8]) -> (r: bool)
        ensures
            final(self)@ == fed(old(self)@, chunk@),
            r == (old(self)@ is Some && final(self)@ is None),
    {
        let ghost before = self@;
        let over: bool = match &mut self.kept {
            Some(b) => {
                let ghost b0 = b@;
                b.extend_from_slice(chunk);
                assert(b@ =~= b0 + chunk@);
                b.len() > MAX_METER_BYTES
            },
            None => false,
        };
        if over {
            self.kept = None;
        }
        over
    }

    /// What was kept.
    pub fn finish(self) -> (r: Option<Vec<u8>>)
        ensures
            match r {
                Some(b) => self@ == Some(b@),
                None => self@ is None,
            },
    {
        self.kept
    }
}

/// The chunks, one after the other.
pub open spec fn joined(chunks: Seq<Seq<u8>>) -> Seq<u8>
    decreases chunks.len(),
{
    if chunks.len() == 0 {
        Seq::empty()
    } else {
        joined(chunks.drop_last()) + chunks.last()
    }
}

/// What is kept after the chunks.
pub open spec fn fed_all(chunks: Seq<Seq<u8>>) -> Option<Seq<u8>>
    decreases chunks.len(),
{
    if chunks.len() == 0 {
        Some(Seq::empty())
    } else {
        fed(fed_all(chunks.drop_last()), chunks.last())
    }
}

/// Of a response is kept either all of it or, where it is longer than the limit, nothing, however it
/// is cut into chunks.
pub proof fn law_meter_keeps_all_or_nothing(chunks: Seq<Seq<u8>>)
    ensures
        fed_all(chunks) == (if joined(chunks).len() <= MAX_METER_BYTES {
            Some(joined(chunks))
        } else {
            None
        }),
    decreases chunks.len(),
{
    if chunks.len() > 0 {
        law_meter_keeps_all_or_nothing(chunks.drop_last());
    }
}

/// A response that is to be metered, once it is through.
#[derive(Debug)]
pub struct MeterJob {
    pub req_id: String,
    pub ts: i64,
    pub identity: Identity,
    pub fallback_model: String,
    pub buf: Vec<u8>,
    pub content_encoding: String,
}

/// The text of the response.
pub open spec fn response_text(buf: Seq<u8>, encoding: Seq<char>) -> Seq<char> {
    http_decode::text_of(
        http_decode::decoded(
            buf,
            http_decode::encoding_named(text::lowered(text::trim_of(encoding))),
        ),
    )
}

/// What a response is metered as.
pub open spec fn metered(job: MeterJob, last: Option<i64>) -> Option<RowView> {
    let t = response_text(job.buf@, job.content_encoding@);
    match usage::usage_in(t) {
        Some(u) => Some(
            store::priced_row(
                job.req_id@,
                job.ts,
                job.identity@,
                http_decode::billed_model(t, job.fallback_model@),
                u,
                store::gap_of(job.identity.session_id@, job.ts, last),
            ),
        ),
        None => None,
    }
}

/// The row that a response is metered as. `last` is the time of the session's previous request. A
/// response that reports no usage, or that cannot be decoded, has none.
pub fn meter(job: &MeterJob, last: Option<i64>) -> (r: Option<RowInput>)
    requires
        job.identity.session_id@.len() > 0 ==> (last matches Some(t) ==> store::span_known(
            t,
            job.ts,
        )),
    ensures
        ({
            let t = response_text(job.buf@, job.content_encoding@);
            match usage::usage_in(t) {
                Some(u) => r matches Some(row) && row@ == store::priced_row(
                    job.req_id@,
                    job.ts,
                    job.identity@,
                    http_decode::billed_model(t, job.fallback_model@),
                    u,
                    store::gap_of(job.identity.session_id@, job.ts, last),
                ),
                None => r is None,
            }
        }),
        r matches Some(row) ==> row.write_premium >= 0,
        (match r {
            Some(row) => Some(row@),
            None => None,
        }) == metered(*job, last),
{
    let t: String = http_decode::decode_body(
        job.buf.as_slice(),
        job.content_encoding.as_str(),
    );
    match usage::parse_usage(t.as_str()) {
        Some(u) => {
            let model: String = http_decode::model_from_response(
                t.as_str(),
                job.fallback_model.as_str(),
            );
            let gap: Option<i64> = store::gap_since(job.identity.session_id.as_str(), job.ts, last);
            Some(
                store::price_row(
                    job.req_id.as_str(),
                    job.ts,
                    &job.identity,
                    model.as_str(),
                    &u,
                    gap,
                ),
            )
        },
        None => None,
    }
}

/// A request leaves with no breakpoint outside its last message that lives other than an hour, and
/// none in its last message that lives other than the rolling tail.
pub proof fn law_cached_requests_are_timed(body: JsonView, tail: Seq<char>)
    ensures
        cache_laws::all_timed(cache::without_last(cached(body, tail)), "1h"@),
        cache::last_message(cached(body, tail)) matches Some(m) ==> cache_laws::all_timed(m, tail),
{
    cache_laws::law_all_breakpoints_are_timed(
        cache::injected(cache::intermediate_stripped(body), tail),
        tail,
    );
}

/// Caching never takes a request above the ceiling: it leaves with no more breakpoints than are
/// allowed, or with no more than it came with.
pub proof fn law_cached_requests_keep_the_ceiling(body: JsonView, tail: Seq<char>)
    requires
        json::well_formed(body),
    ensures
        cache::count_of(body) <= BREAKPOINT_CEILING ==> cache::count_of(cached(body, tail))
            <= BREAKPOINT_CEILING,
        cache::count_of(cached(body, tail)) <= BREAKPOINT_CEILING || cache::count_of(
            cached(body, tail),
        ) <= cache::count_of(body),
{
    let b = cache::intermediate_stripped(body);
    cache_laws::law_stripping_adds_no_breakpoint(body);
    cache_laws::law_injection_keeps_the_ceiling(b, tail);
    cache_laws::law_ttls_add_no_breakpoint(cache::injected(b, tail), tail);
}

/// Placing and timing breakpoints keeps a body well formed.
pub proof fn law_caching_keeps_the_form(body: JsonView, tail: Seq<char>)
    requires
        json::well_formed(body),
    ensures
        json::well_formed(cached(body, tail)),
{
    cache_laws::law_stripping_keeps_the_form(body);
    let b = cache::intermediate_stripped(body);
    cache_laws::law_injection_keeps_the_form(b, tail);
    cache_laws::law_ttls_keep_the_form(cache::injected(b, tail), tail);
}

/// Whatever is done to a body, no object in it gets two entries with the same key.
pub proof fn law_mutation_keeps_the_form(
    body: JsonView,
    config: Config,
    transform: Option<&Transform>,
)
    requires
        json::well_formed(body),
    ensures
        json::well_formed(mutated(body, config, transform)),
{
    let m = config.model_override@;
    let f = model_forced(body, m);
    json::lemma_well_formed(JsonView::Str(m));
    json::lemma_well_formed(f);
    if !(body is Null) {
        json::law_with_field_is_well_formed(body, "model"@, JsonView::Str(m));
    }
    model::law_renaming_keeps_the_form(f, model::renamed_texts(f, m));
    let b1 = remodeled(body, m);
    if let Some(t) = transform {
        transform_laws::law_transform_keeps_the_form(*t, b1);
    }
    law_caching_keeps_the_form(transformed(b1, transform), config.tail_ttl@);
}

/// Only requests that send messages are changed or metered: on any other path, and by any other
/// method, a request goes through as it came.
pub proof fn law_only_messages_are_touched(
    config: Config,
    has_store: bool,
    method: Seq<char>,
    path: Seq<char>,
    hs: Seq<HeaderView>,
    empty: bool,
)
    requires
        !messages_path(path) || method != "POST"@,
    ensures
        !plan_of(config, has_store, method, path, hs, empty).mutate,
        !plan_of(config, has_store, method, path, hs, empty).meter,
{
}

/// Counting tokens is never metered.
pub proof fn law_token_counts_are_not_metered(
    config: Config,
    has_store: bool,
    method: Seq<char>,
    hs: Seq<HeaderView>,
    empty: bool,
)
    ensures
        !plan_of(config, has_store, method, "/v1/messages/count_tokens"@, hs, empty).meter,
{
}

/// A request that nothing is asked of goes upstream as it came.
pub proof fn law_nothing_asked_changes_nothing(body: JsonView, config: Config)
    requires
        config.model_override@.len() == 0,
        !config.auto_cache,
    ensures
        mutated(body, config, None) == body,
        notes_of(body, config, None).len() == 0,
{
}

/// A forced model is the one that the request names upstream.
pub proof fn law_forced_model_is_named(body: JsonView, m: Seq<char>)
    requires
        m.len() > 0,
        body is Obj || body is Null,
    ensures
        model_named(remodeled(body, m)) == m,
{
    broadcast use json::group_json_fields;

    reveal_strlit("model");
    reveal_strlit("system");
    assert("model"@.len() != "system"@.len());
    let b = model_forced(body, m);
    if body is Null {
        json::lemma_index_is(b->Obj_0, "model"@, 0, 0);
    }
    model::law_only_the_system_changes(b, model::renamed_texts(b, m), "model"@);
}

/// A line is sent upstream if and only if it came and is not one of this connection.
pub proof fn law_other_headers_go_upstream(hs: Seq<HeaderView>, h: HeaderView)
    ensures
        upstream_of(hs).contains(h) <==> hs.contains(h) && !kept_back(text::lowered(h.name)),
{
    lemma_filter_holds(hs, |h: HeaderView| !kept_back(text::lowered(h.name)), h);
}

/// A line is sent back if and only if it came and is not one of the upstream connection.
pub proof fn law_other_headers_come_back(hs: Seq<HeaderView>, h: HeaderView)
    ensures
        downstream_of(hs).contains(h) <==> hs.contains(h) && !hop_by_hop(h.name),
{
    lemma_filter_holds(hs, |h: HeaderView| !hop_by_hop(h.name), h);
}

proof fn lemma_filter_holds(hs: Seq<HeaderView>, p: spec_fn(HeaderView) -> bool, h: HeaderView)
    ensures
        hs.filter(p).contains(h) <==> hs.contains(h) && p(h),
    decreases hs.len(),
{
    reveal(Seq::filter);
    if hs.len() > 0 {
        let head = hs.drop_last();
        let f = head.filter(p);
        lemma_filter_holds(head, p, h);
        assert(hs =~= head.push(hs.last()));
        assert(head.push(hs.last()).contains(h) <==> head.contains(h) || hs.last() == h) by {
            broadcast use vstd::seq_lib::group_seq_properties;

        }
        assert(f.push(hs.last()).contains(h) <==> f.contains(h) || hs.last() == h) by {
            broadcast use vstd::seq_lib::group_seq_properties;

        }
    }
}

/// The position of the first line whose name in lower case is `k`, counted from `i`.
pub open spec fn first_lowered(hs: Seq<HeaderView>, k: Seq<char>, i: int) -> Option<int>
    decreases hs.len() - i,
{
    if i < 0 || i >= hs.len() {
        None
    } else if text::lowered(hs[i].name) == k {
        Some(i)
    } else {
        first_lowered(hs, k, i + 1)
    }
}

proof fn lemma_first_lowered(hs: Seq<HeaderView>, k: Seq<char>, i: int)
    requires
        0 <= i < hs.len(),
    ensures
        first_lowered(hs, k, i) == (match first_lowered(hs.drop_last(), k, i) {
            Some(j) => Some(j),
            None => if text::lowered(hs.last().name) == k {
                Some(hs.len() - 1)
            } else {
                None
            },
        }),
        first_lowered(hs.drop_last(), k, i) matches Some(j) ==> 0 <= j < hs.len() - 1,
    decreases hs.len() - i,
{
    if i < hs.len() - 1 {
        assert(hs.drop_last()[i] == hs[i]);
        lemma_first_lowered(hs, k, i + 1);
    } else {
        assert(first_lowered(hs, k, i + 1) is None);
    }
}

/// Of headers with the same name the first counts.
pub proof fn law_first_header_counts(hs: Seq<HeaderView>, k: Seq<char>)
    ensures
        json::field(JsonView::Obj(header_entries(hs)), k) == (match first_lowered(hs, k, 0) {
            Some(i) => Some(JsonView::Str(shown_value(hs[i]))),
            None => None,
        }),
    decreases hs.len(),
{
    if hs.len() > 0 {
        let o = header_entries(hs.drop_last());
        let l = text::lowered(hs.last().name);
        law_first_header_counts(hs.drop_last(), k);
        law_first_header_counts(hs.drop_last(), l);
        lemma_first_lowered(hs, k, 0);
        if let Some(j) = first_lowered(hs.drop_last(), k, 0) {
            assert(hs.drop_last()[j] == hs[j]);
        }
        if json::field(JsonView::Obj(o), l) is None {
            let x = JsonView::Str(shown_value(hs.last()));
            assert(json::with_field(JsonView::Obj(o), l, x) == JsonView::Obj(o.push((l, x))));
            json::lemma_field_with(JsonView::Obj(o), l, x, k);
        }
    } else {
        assert(json::index_of(header_entries(hs), k, 0) is None);
    }
}

pub proof fn lemma_flag_text()
    ensures
        BETA_FLAG@.len() == 29,
        vstd::utf8::is_ascii_chars(BETA_FLAG@),
        !BETA_FLAG@.contains(','),
        text::trim_of(BETA_FLAG@) == BETA_FLAG@,
        forall|i: int|
            0 <= i < BETA_FLAG@.len() ==> ' ' < #[trigger] BETA_FLAG@[i] && BETA_FLAG@[i]
                < '\u{7f}',
{
    reveal_strlit("extended-cache-ttl-2025-04-11");
    let f = BETA_FLAG@;
    assert(f.len() == 29);
    assert(f[0] == 'e' && f[28] == '1');
    assert(text::trim_start_of(f) == f);
    assert(text::trim_end_of(f) == f);
}

/// The value of a visible text is shown as that text.
pub proof fn lemma_shown_again(name: Seq<char>, t: Seq<char>)
    requires
        forall|i: int|
            0 <= i < t.len() ==> (' ' <= #[trigger] t[i] && t[i] < '\u{7f}') || t[i] == '\t',
    ensures
        shown_value(HeaderView { name, value: vstd::utf8::encode_utf8(t) }) == t,
{
    assert(vstd::utf8::is_ascii_chars(t));
    vstd::utf8::is_ascii_chars_encode_utf8(t);
    let b = vstd::utf8::encode_utf8(t);
    assert forall|i: int| 0 <= i < b.len() implies visible(#[trigger] b[i]) && b[i] as char
        == t[i] by {
        assert(t[i] as u8 == b[i]);
    }
    assert(b.map_values(|x: u8| x as char) =~= t);
}

/// A header value that is shown is visible throughout.
pub proof fn lemma_shown_is_visible(h: HeaderView)
    ensures
        forall|i: int|
            0 <= i < shown_value(h).len() ==> (' ' <= #[trigger] shown_value(h)[i] && shown_value(
                h,
            )[i] < '\u{7f}') || shown_value(h)[i] == '\t',
{
    let t = shown_value(h);
    assert forall|i: int| 0 <= i < t.len() implies (' ' <= #[trigger] t[i] && t[i] < '\u{7f}')
        || t[i] == '\t' by {
        assert(visible(h.value[i]));
        assert(t[i] == h.value[i] as char);
    }
}

/// However the headers come, the beta flag is among them afterwards, and looking again changes
/// nothing.
pub proof fn law_beta_flag_is_sent(hs: Seq<HeaderView>)
    ensures
        exists|i: int| 0 <= i < with_beta(hs).len() && carries_flag(#[trigger] with_beta(hs)[i]),
        beta_of(with_beta(hs)) == Beta::Present,
        with_beta(with_beta(hs)) == with_beta(hs),
{
    let ws = with_beta(hs);
    lemma_flag_text();
    reveal_strlit(",");
    lemma_first_named(hs, BETA_HEADER@, 0);
    let at = match beta_of(hs) {
        Beta::Added => {
            let i = hs.len() as int;
            lemma_shown_again(BETA_HEADER@, BETA_FLAG@);
            text::lemma_split_whole(BETA_FLAG@, ',');
            assert(text::split_of(BETA_FLAG@, ',')[0] == BETA_FLAG@);
            assert(carries_flag(ws[i]));
            i
        },
        Beta::Present => {
            let i = choose|i: int| 0 <= i < hs.len() && carries_flag(#[trigger] hs[i]);
            assert(carries_flag(ws[i]));
            i
        },
        Beta::Appended => {
            let i = first_named(hs, BETA_HEADER@, 0)->0;
            let t = shown_value(hs[i]);
            let u = t + ","@ + BETA_FLAG@;
            lemma_shown_is_visible(hs[i]);
            assert forall|k: int| 0 <= k < u.len() implies (' ' <= #[trigger] u[k] && u[k]
                < '\u{7f}') || u[k] == '\t' by {
                if k < t.len() {
                    assert(u[k] == t[k]);
                } else if k > t.len() {
                    assert(u[k] == BETA_FLAG@[k - t.len() - 1]);
                }
            }
            lemma_shown_again(BETA_HEADER@, u);
            assert(u =~= t.push(',') + BETA_FLAG@);
            text::lemma_split_tail(t, BETA_FLAG@, ',');
            let p = text::split_of(u, ',');
            assert(p[p.len() - 1] == BETA_FLAG@);
            assert(names_flag(u));
            assert(carries_flag(ws[i]));
            i
        },
    };
    assert(carries_flag(ws[at]));
    lemma_first_named(ws, BETA_HEADER@, 0);
}

pub proof fn lemma_first_named(hs: Seq<HeaderView>, name: Seq<char>, i: int)
    requires
        0 <= i,
    ensures
        match first_named(hs, name, i) {
            Some(j) => i <= j < hs.len() && hs[j].name == name,
            None => forall|j: int| i <= j < hs.len() ==> (#[trigger] hs[j]).name != name,
        },
    decreases hs.len() - i,
{
    if i < hs.len() && hs[i].name != name {
        lemma_first_named(hs, name, i + 1);
    }
}

/// The beta flag takes nothing away: every other line stays where it stood.
pub proof fn law_beta_flag_spares_the_rest(hs: Seq<HeaderView>, i: int)
    requires
        0 <= i < hs.len(),
        hs[i].name != BETA_HEADER@,
    ensures
        with_beta(hs)[i] == hs[i],
{
    lemma_first_named(hs, BETA_HEADER@, 0);
}

} // verus!
