//! Decoding a response body by its content encoding, and finding the model that it was billed as.

use std::io::Read;

use vstd::prelude::*;

use crate::patterns;
use crate::text;

verus! {

/// What `flate2::read::GzDecoder` reads out of the bytes `b`; nothing where it fails.
pub uninterp spec fn gunzipped(b: Seq<u8>) -> Option<Seq<u8>>;

/// What `flate2::read::ZlibDecoder` reads out of the bytes `b`; nothing where it fails.
pub uninterp spec fn inflated(b: Seq<u8>) -> Option<Seq<u8>>;

/// What `brotli::Decompressor` reads out of the bytes `b`; nothing where it fails.
pub uninterp spec fn unbrotlied(b: Seq<u8>) -> Option<Seq<u8>>;

/// What `zstd::stream::decode_all` reads out of the bytes `b`; nothing where it fails.
pub uninterp spec fn unzstded(b: Seq<u8>) -> Option<Seq<u8>>;

/// What an optional buffer holds.
pub open spec fn opt_bytes(o: Option<Vec<u8>>) -> Option<Seq<u8>> {
    match o {
        Some(v) => Some(v@),
        None => None,
    }
}

/// `flate2::read::GzDecoder`, read to its end: the first gzip member of the bytes, decompressed.
#[verifier::external_body]
fn gunzip(b: &[u8]) -> (r: Option<Vec<u8>>)
    ensures
        opt_bytes(r) == gunzipped(b@),
{
    let mut out = Vec::new();
    match flate2::read::GzDecoder::new(b).read_to_end(&mut out) {
        Ok(_) => Some(out),
        Err(_) => None,
    }
}

/// `flate2::read::ZlibDecoder`, read to its end: the zlib stream in the bytes, decompressed.
#[verifier::external_body]
fn inflate(b: &[u8]) -> (r: Option<Vec<u8>>)
    ensures
        opt_bytes(r) == inflated(b@),
{
    let mut out = Vec::new();
    match flate2::read::ZlibDecoder::new(b).read_to_end(&mut out) {
        Ok(_) => Some(out),
        Err(_) => None,
    }
}

/// `brotli::Decompressor`, read to its end: the brotli stream in the bytes, decompressed.
#[verifier::external_body]
fn unbrotli(b: &[u8]) -> (r: Option<Vec<u8>>)
    ensures
        opt_bytes(r) == unbrotlied(b@),
{
    let mut out = Vec::new();
    match brotli::Decompressor::new(b, 4096).read_to_end(&mut out) {
        Ok(_) => Some(out),
        Err(_) => None,
    }
}

/// `zstd::stream::decode_all`: the zstd frames in the bytes, decompressed.
#[verifier::external_body]
fn unzstd(b: &[u8]) -> (r: Option<Vec<u8>>)
    ensures
        opt_bytes(r) == unzstded(b@),
{
    zstd::stream::decode_all(b).ok()
}

/// A content encoding.
#[derive(Clone, Copy, Debug, PartialEq, Eq, Structural)]
pub enum Encoding {
    /// The body is sent as it is.
    Identity,
    Gzip,
    Brotli,
    Deflate,
    Zstd,
    /// One that is not understood.
    Unknown,
}

/// The encoding that a `content-encoding` value in lower case and without outer white space names.
pub open spec fn encoding_named(name: Seq<char>) -> Encoding {
    if name == "gzip"@ {
        Encoding::Gzip
    } else if name == "br"@ {
        Encoding::Brotli
    } else if name == "deflate"@ {
        Encoding::Deflate
    } else if name == "zstd"@ {
        Encoding::Zstd
    } else if name == ""@ {
        Encoding::Identity
    } else {
        Encoding::Unknown
    }
}

/// The encoding that a `content-encoding` value in lower case and without outer white space names.
pub fn encoding_of(name: &str) -> (r: Encoding)
    ensures
        r == encoding_named(name@),
{
    if text::same(name, "gzip") {
        Encoding::Gzip
    } else if text::same(name, "br") {
        Encoding::Brotli
    } else if text::same(name, "deflate") {
        Encoding::Deflate
    } else if text::same(name, "zstd") {
        Encoding::Zstd
    } else if text::same(name, "") {
        Encoding::Identity
    } else {
        Encoding::Unknown
    }
}

/// The bytes `b` with the encoding undone; nothing where that fails.
pub open spec fn decoded(b: Seq<u8>, encoding: Encoding) -> Option<Seq<u8>> {
    match encoding {
        Encoding::Identity => Some(b),
        Encoding::Gzip => gunzipped(b),
        Encoding::Brotli => unbrotlied(b),
        Encoding::Deflate => inflated(b),
        Encoding::Zstd => unzstded(b),
        Encoding::Unknown => None,
    }
}

/// The text of a body whose decoding gave `b`: empty where it failed.
pub open spec fn text_of(b: Option<Seq<u8>>) -> Seq<char> {
    match b {
        Some(b) => text::utf8_of(b),
        None => Seq::empty(),
    }
}

/// The text of a body whose decoding gave `decoded`: empty where it failed, and otherwise what its
/// bytes encode.
pub fn text_from(decoded: Option<&[u8]>) -> (r: String)
    ensures
        match decoded {
            Some(b) => r@ == text_of(Some(b@)),
            None => r@ == text_of(None) && r@.len() == 0,
        },
{
    match decoded {
        Some(b) => text::from_utf8_lossy(b),
        None => String::new(),
    }
}

/// Decodes a body that was sent with the given `content-encoding`. The text is empty where the
/// encoding is not understood or the body does not follow it.
pub fn decode_body(buf: &[u8], encoding: &str) -> (r: String)
    ensures
        r@ == text_of(
            decoded(buf@, encoding_named(text::lowered(text::trim_of(encoding@)))),
        ),
        text::trim_of(encoding@).len() == 0 && vstd::utf8::valid_utf8(buf@) ==> r@
            == vstd::utf8::decode_utf8(buf@),
{
    let trimmed: String = text::trim(encoding);
    let name: String = text::to_lowercase(trimmed.as_str());
    proof {
        reveal_strlit("");
        reveal_strlit("gzip");
        reveal_strlit("br");
        reveal_strlit("deflate");
        reveal_strlit("zstd");
        if trimmed@.len() == 0 {
            assert(name@ =~= ""@);
        }
    }
    let bytes: Option<Vec<u8>> = match encoding_of(name.as_str()) {
        Encoding::Gzip => gunzip(buf),
        Encoding::Brotli => unbrotli(buf),
        Encoding::Deflate => inflate(buf),
        Encoding::Zstd => unzstd(buf),
        Encoding::Identity => {
            return text_from(Some(buf));
        },
        Encoding::Unknown => {
            return text_from(None);
        },
    };
    match bytes {
        Some(b) => text_from(Some(b.as_slice())),
        None => text_from(None),
    }
}

/// The model that a response names, by the groups of the search for it.
pub open spec fn named_model(found: Option<Seq<Option<Seq<char>>>>, fallback: Seq<char>) -> Seq<
    char,
> {
    match found {
        Some(g) => match patterns::group_of(g, 1) {
            Some(t) => t,
            None => fallback,
        },
        None => fallback,
    }
}

/// The model that a response names, by the groups of the search for it, or else the fallback.
pub fn model_from(found: &Option<Vec<Option<String>>>, fallback: &str) -> (r: String)
    ensures
        match found {
            Some(g) => r@ == named_model(Some(patterns::groups_of(g@)), fallback@),
            None => r@ == fallback@,
        },
{
    match found {
        Some(g) => match patterns::group(g, 1) {
            Some(t) => t.to_owned(),
            None => fallback.to_owned(),
        },
        None => fallback.to_owned(),
    }
}

/// The model that a response says it was billed as, or else the fallback.
pub open spec fn billed_model(t: Seq<char>, fallback: Seq<char>) -> Seq<char> {
    match patterns::first_model(t, 0) {
        Some(m) => m,
        None => fallback,
    }
}

/// The model that a response says it was billed as, or else the fallback.
pub fn model_from_response(t: &str, fallback: &str) -> (r: String)
    ensures
        r@ == billed_model(t@, fallback@),
{
    let found: Option<Vec<Option<String>>> = patterns::captures(patterns::RESPONSE_MODEL, t);
    model_from(&found, fallback)
}

} // verus!
