//! Timestamps, request ids, and what is written to the log files.

use vstd::prelude::*;
use vstd::string::*;

use crate::json;
use crate::json::{Json, JsonView};
use crate::text;

verus! {

broadcast use crate::json::group_json_view;

/// A date and time of day in UTC.
#[derive(Clone, Copy, Debug, PartialEq, Eq, Structural)]
pub struct Stamp {
    pub year: i32,
    pub month: u8,
    pub day: u8,
    pub hour: u8,
    pub minute: u8,
    pub second: u8,
    pub millisecond: u16,
}

/// The parts of a date and time are within their ranges.
pub open spec fn in_range(d: Stamp) -> bool {
    &&& 1 <= d.month <= 12
    &&& 1 <= d.day <= 31
    &&& d.hour < 24
    &&& d.minute < 60
    &&& d.second < 60
    &&& d.millisecond < 1000
}

/// `time::OffsetDateTime::now_utc`: the current date and time in UTC, each part within its range.
#[verifier::external_body]
fn now_utc() -> (r: Stamp)
    ensures
        in_range(r),
{
    let d = time::OffsetDateTime::now_utc();
    Stamp {
        year: d.year(),
        month: d.month() as u8,
        day: d.day(),
        hour: d.hour(),
        minute: d.minute(),
        second: d.second(),
        millisecond: d.millisecond(),
    }
}

/// The date and time as `YYYY-MM-DD HH:MM:SS`.
pub open spec fn stamp_of(d: Stamp) -> Seq<char> {
    text::zero_padded_of(d.year as int, 4) + "-"@ + text::zero_padded_of(d.month as int, 2) + "-"@
        + text::zero_padded_of(d.day as int, 2) + " "@ + text::zero_padded_of(d.hour as int, 2)
        + ":"@ + text::zero_padded_of(d.minute as int, 2) + ":"@ + text::zero_padded_of(
        d.second as int,
        2,
    )
}

/// The date and time as `YYYY-MM-DDTHH-MM-SS-mmmZ`, which can stand in a file name.
pub open spec fn file_stamp_of(d: Stamp) -> Seq<char> {
    text::zero_padded_of(d.year as int, 4) + "-"@ + text::zero_padded_of(d.month as int, 2) + "-"@
        + text::zero_padded_of(d.day as int, 2) + "T"@ + text::zero_padded_of(d.hour as int, 2)
        + "-"@ + text::zero_padded_of(d.minute as int, 2) + "-"@ + text::zero_padded_of(
        d.second as int,
        2,
    ) + "-"@ + text::zero_padded_of(d.millisecond as int, 3) + "Z"@
}

/// The date and time as `YYYY-MM-DD HH:MM:SS`.
pub fn stamp(d: &Stamp) -> (r: String)
    ensures
        r@ == stamp_of(*d),
{
    let mut out: String = text::zero_padded(d.year as i64, 4);
    out.append("-");
    out.append(text::zero_padded(d.month as i64, 2).as_str());
    out.append("-");
    out.append(text::zero_padded(d.day as i64, 2).as_str());
    out.append(" ");
    out.append(text::zero_padded(d.hour as i64, 2).as_str());
    out.append(":");
    out.append(text::zero_padded(d.minute as i64, 2).as_str());
    out.append(":");
    out.append(text::zero_padded(d.second as i64, 2).as_str());
    out
}

/// The date and time as `YYYY-MM-DDTHH-MM-SS-mmmZ`, which can stand in a file name.
pub fn file_stamp(d: &Stamp) -> (r: String)
    ensures
        r@ == file_stamp_of(*d),
{
    let mut out: String = text::zero_padded(d.year as i64, 4);
    out.append("-");
    out.append(text::zero_padded(d.month as i64, 2).as_str());
    out.append("-");
    out.append(text::zero_padded(d.day as i64, 2).as_str());
    out.append("T");
    out.append(text::zero_padded(d.hour as i64, 2).as_str());
    out.append("-");
    out.append(text::zero_padded(d.minute as i64, 2).as_str());
    out.append("-");
    out.append(text::zero_padded(d.second as i64, 2).as_str());
    out.append("-");
    out.append(text::zero_padded(d.millisecond as i64, 3).as_str());
    out.append("Z");
    out
}

/// The current date and time as `YYYY-MM-DD HH:MM:SS`.
pub fn ts() -> (r: String)
    ensures
        exists|d: Stamp| in_range(d) && r@ == #[trigger] stamp_of(d),
{
    let d: Stamp = now_utc();
    stamp(&d)
}

/// The current date and time as `YYYY-MM-DDTHH-MM-SS-mmmZ`.
pub fn file_ts() -> (r: String)
    ensures
        exists|d: Stamp| in_range(d) && r@ == #[trigger] file_stamp_of(d),
{
    let d: Stamp = now_utc();
    file_stamp(&d)
}

/// The line that the message `msg` is logged as at the time `at`.
pub fn log_line(at: &str, msg: &str) -> (r: String)
    ensures
        r@ == "["@ + at@ + "] "@ + msg@,
{
    let mut out: String = text::glue("[", at);
    out.append("] ");
    out.append(msg);
    out
}

/// `std::time::SystemTime::elapsed` on the Unix epoch: the milliseconds since then; nothing where
/// the clock is set before it.
#[verifier::external_body]
fn since_epoch() -> (r: Option<u128>) {
    std::time::UNIX_EPOCH.elapsed().ok().map(|d| d.as_millis())
}

/// The milliseconds since the Unix epoch; 0 where the clock is set before it. A count that does not
/// fit keeps its low bits.
pub open spec fn epoch_of(elapsed: Option<u128>) -> i64 {
    match elapsed {
        Some(ms) => ms as i64,
        None => 0,
    }
}

/// The milliseconds since the Unix epoch; 0 where the clock is set before it. A count that does not
/// fit keeps its low bits.
pub fn epoch_ms(elapsed: Option<u128>) -> (r: i64)
    ensures
        r == epoch_of(elapsed),
        elapsed matches Some(ms) ==> (ms <= i64::MAX ==> r == ms),
{
    match elapsed {
        Some(ms) =>
        #[verifier::truncate]
        (ms as i64),
        None => 0,
    }
}

/// The current time in milliseconds since the Unix epoch, by whatever the clock says.
pub fn now_ms() -> (r: i64)
    ensures
        exists|elapsed: Option<u128>| r == #[trigger] epoch_of(elapsed),
{
    epoch_ms(since_epoch())
}

/// The characters that a random suffix is made of.
pub const ALPHABET: &'static str = "0123456789abcdefghijklmnopqrstuvwxyz";

/// The characters of a random suffix.
pub const SUFFIX_LEN: usize = 6;

/// `fastrand::usize`: a random number below `n`.
#[verifier::external_body]
fn random_below(n: usize) -> (r: usize)
    requires
        n > 0,
    ensures
        r < n,
{
    fastrand::usize(..n)
}

/// The suffix for the given picks out of the alphabet.
pub open spec fn suffix_of(picks: Seq<usize>) -> Seq<char> {
    picks.map_values(|p: usize| ALPHABET@[p as int])
}

/// The suffix for the given picks out of the alphabet.
pub fn suffix_from(picks: &Vec<usize>) -> (r: String)
    requires
        forall|i: int| 0 <= i < picks@.len() ==> #[trigger] picks@[i] < 36,
    ensures
        r@ == suffix_of(picks@),
{
    proof {
        reveal_strlit("0123456789abcdefghijklmnopqrstuvwxyz");
    }
    let mut out: String = String::new();
    let n: usize = picks.len();
    let mut i: usize = 0;
    while i < n
        invariant
            n == picks@.len(),
            i <= n,
            ALPHABET@.len() == 36,
            forall|i: int| 0 <= i < picks@.len() ==> #[trigger] picks@[i] < 36,
            out@ == suffix_of(picks@.take(i as int)),
        decreases n - i,
    {
        let p: usize = picks[i];
        let ghost before = out@;
        out.append(ALPHABET.substring_char(p, p + 1));
        assert(out@ =~= before.push(ALPHABET@[p as int]));
        assert(suffix_of(picks@.take(i + 1)) =~= suffix_of(picks@.take(i as int)).push(
            ALPHABET@[p as int],
        ));
        i += 1;
    }
    assert(picks@.take(n as int) =~= picks@);
    out
}

/// A random suffix for a request id: six characters of the alphabet.
pub fn rand_suffix() -> (r: String)
    ensures
        r@.len() == SUFFIX_LEN,
        forall|i: int| 0 <= i < r@.len() ==> ALPHABET@.contains(#[trigger] r@[i]),
{
    let mut picks: Vec<usize> = Vec::new();
    let mut i: usize = 0;
    while i < SUFFIX_LEN
        invariant
            i <= SUFFIX_LEN,
            picks@.len() == i,
            forall|j: int| 0 <= j < picks@.len() ==> #[trigger] picks@[j] < 36,
        decreases SUFFIX_LEN - i,
    {
        picks.push(random_below(36));
        i += 1;
    }
    let r: String = suffix_from(&picks);
    proof {
        reveal_strlit("0123456789abcdefghijklmnopqrstuvwxyz");
        assert forall|j: int| 0 <= j < r@.len() implies ALPHABET@.contains(#[trigger] r@[j]) by {
            assert(r@[j] == ALPHABET@[picks@[j] as int]);
        }
    }
    r
}

/// The id of a request that came at the time `at`.
pub fn request_id(at: &str, suffix: &str) -> (r: String)
    ensures
        r@ == at@ + "-"@ + suffix@,
{
    let mut out: String = text::glue(at, "-");
    out.append(suffix);
    out
}

/// What stands in the logs for the value of a secret header.
pub const REDACTED: &'static str = "[redacted]";

/// The header name `lower`, in lower case, is one of a secret.
pub open spec fn secret_lower(lower: Seq<char>) -> bool {
    text::holds(lower, "authorization"@) || text::holds(lower, "x-api-key"@)
}

/// The header `name` holds a secret.
pub open spec fn secret(name: Seq<char>) -> bool {
    secret_lower(text::lowered(name))
}

/// Whether the header name, in lower case, is one of a secret.
pub fn is_secret_lower(lower: &str) -> (r: bool)
    ensures
        r == secret_lower(lower@),
{
    text::contains(lower, "authorization") || text::contains(lower, "x-api-key")
}

/// Whether the header holds a secret.
pub fn is_secret(name: &str) -> (r: bool)
    ensures
        r == secret(name@),
{
    is_secret_lower(text::to_lowercase(name).as_str())
}

/// The header `e` as it is logged.
pub open spec fn redacted(e: (Seq<char>, JsonView)) -> (Seq<char>, JsonView) {
    if secret(e.0) {
        (e.0, JsonView::Str(REDACTED@))
    } else {
        e
    }
}

/// The headers as they are logged.
pub open spec fn sanitized(headers: JsonView) -> JsonView {
    match headers {
        JsonView::Obj(o) => JsonView::Obj(
            o.map_values(|e: (Seq<char>, JsonView)| redacted(e)),
        ),
        _ => headers,
    }
}

/// The headers as they are logged: every value of a secret one is replaced.
pub fn sanitize_headers(headers: &Json) -> (r: Json)
    ensures
        r@ == sanitized(headers@),
{
    match headers {
        Json::Obj(o) => {
            let ghost v = json::obj_view(o@);
            let n: usize = o.len();
            let mut out: Vec<(String, Json)> = Vec::new();
            let mut i: usize = 0;
            while i < n
                invariant
                    n == o@.len(),
                    i <= n,
                    v == json::obj_view(o@),
                    out@.len() == i,
                    forall|j: int|
                        0 <= j < i ==> (#[trigger] json::obj_view(out@)[j]) == redacted(v[j]),
                decreases n - i,
            {
                let ghost before = json::obj_view(out@);
                let name: &String = &o[i].0;
                let value: Json = if is_secret(name.as_str()) {
                    Json::Str(REDACTED.to_owned())
                } else {
                    o[i].1.copy()
                };
                out.push((name.clone(), value));
                assert(json::obj_view(out@) =~= before.push(redacted(v[i as int])));
                i += 1;
            }
            assert(json::obj_view(out@) =~= v.map_values(|e: (Seq<char>, JsonView)| redacted(e)));
            Json::Obj(out)
        },
        _ => headers.copy(),
    }
}

/// What a request is logged as.
pub open spec fn request_meta_of(
    method: Seq<char>,
    url: Seq<char>,
    headers: JsonView,
    mutated: bool,
) -> JsonView {
    JsonView::Obj(
        seq![
            ("method"@, JsonView::Str(method)),
            ("url"@, JsonView::Str(url)),
            ("headers"@, sanitized(headers)),
            ("mutated"@, JsonView::Bool(mutated)),
        ],
    )
}

/// What is logged of a request beside its body. The values of secret headers are left out.
pub fn request_meta(method: &str, url: &str, headers: &Json, mutated: bool) -> (r: Json)
    ensures
        r@ == request_meta_of(method@, url@, headers@, mutated),
{
    let mut o: Vec<(String, Json)> = Vec::new();
    o.push(("method".to_owned(), Json::Str(method.to_owned())));
    o.push(("url".to_owned(), Json::Str(url.to_owned())));
    o.push(("headers".to_owned(), sanitize_headers(headers)));
    o.push(("mutated".to_owned(), Json::Bool(mutated)));
    assert(json::obj_view(o@) =~= request_meta_of(method@, url@, headers@, mutated)->Obj_0);
    Json::Obj(o)
}

/// The body `t` as it is logged: the JSON value that it is, or else the text itself.
pub fn safe_json(parsed: Option<Json>, t: &str) -> (r: Json)
    ensures
        r@ == (match parsed {
            Some(v) => v@,
            None => JsonView::Str(t@),
        }),
{
    match parsed {
        Some(v) => v,
        None => Json::Str(t.to_owned()),
    }
}

/// What is written to the log of a request.
pub fn request_log(meta: Json, body: Json) -> (r: Json)
    ensures
        r@ == JsonView::Obj(seq![("meta"@, meta@), ("body"@, body@)]),
{
    let ghost expected = seq![("meta"@, meta@), ("body"@, body@)];
    let mut o: Vec<(String, Json)> = Vec::new();
    o.push(("meta".to_owned(), meta));
    o.push(("body".to_owned(), body));
    assert(json::obj_view(o@) =~= expected);
    Json::Obj(o)
}

/// The ending of the names of request logs.
pub const REQUEST_LOG: &'static str = ".req.json";

/// The ending of the names of response logs.
pub const RESPONSE_LOG: &'static str = ".resp.log";

/// The name of the file that a request is logged to.
pub fn request_log_name(req_id: &str) -> (r: String)
    ensures
        r@ == req_id@ + REQUEST_LOG@,
{
    text::glue(req_id, REQUEST_LOG)
}

/// The name of the file that a response is logged to.
pub fn response_log_name(req_id: &str) -> (r: String)
    ensures
        r@ == req_id@ + RESPONSE_LOG@,
{
    text::glue(req_id, RESPONSE_LOG)
}

/// The text in front of a logged response: its status and its headers as JSON text.
pub open spec fn preamble_of(status: u16, headers: Seq<char>) -> Seq<char> {
    "# status="@ + text::decimal_of(status as nat) + "\n# headers="@ + headers + "\n\n"@
}

/// The bytes in front of a logged response: its status and its headers. The headers take one line,
/// unless a number among them does not.
pub fn response_log_preamble(status: u16, headers: &Json) -> (r: Vec<u8>)
    ensures
        r@ == vstd::utf8::encode_utf8(preamble_of(status, json::text_form(headers@))),
        json::one_line(headers@) ==> !json::text_form(headers@).contains('\n'),
{
    let mut out: String = text::glue("# status=", text::decimal(status as u64).as_str());
    out.append("\n# headers=");
    out.append(json::to_text(headers).as_str());
    out.append("\n\n");
    text::bytes_of(out.as_str())
}

/// No log shows the value of a secret header.
pub proof fn law_secrets_are_not_logged(headers: JsonView, i: int)
    requires
        headers matches JsonView::Obj(o) && 0 <= i < o.len() && secret(o[i].0),
    ensures
        sanitized(headers)->Obj_0[i] == (headers->Obj_0[i].0, JsonView::Str(REDACTED@)),
{
}

/// Redaction leaves the other headers, and the names of all of them, as they are.
pub proof fn law_other_headers_are_logged(headers: JsonView, i: int)
    requires
        headers matches JsonView::Obj(o) && 0 <= i < o.len(),
    ensures
        sanitized(headers)->Obj_0.len() == headers->Obj_0.len(),
        sanitized(headers)->Obj_0[i].0 == headers->Obj_0[i].0,
        !secret(headers->Obj_0[i].0) ==> sanitized(headers)->Obj_0[i] == headers->Obj_0[i],
{
}

/// Redacting twice is redacting once.
pub proof fn law_redaction_is_idempotent(headers: JsonView)
    ensures
        sanitized(sanitized(headers)) == sanitized(headers),
{
    if let JsonView::Obj(o) = headers {
        assert(sanitized(sanitized(headers))->Obj_0 =~= sanitized(headers)->Obj_0);
    }
}

} // verus!
