use std::io::Write;

use pino::http_decode::{
    decode_body, encoding_of, model_from, model_from_response, text_from, Encoding,
};

const TEXT: &str = "data: {\"model\":\"m-1\"} räksmörgås";

fn gzip(b: &[u8]) -> Vec<u8> {
    let mut e = flate2::write::GzEncoder::new(Vec::new(), flate2::Compression::default());
    e.write_all(b).unwrap();
    e.finish().unwrap()
}

#[test]
fn gzip_is_undone() {
    assert_eq!(decode_body(&gzip(TEXT.as_bytes()), "gzip"), TEXT);
    assert_eq!(decode_body(&gzip(TEXT.as_bytes()), " GZip "), TEXT);
}

#[test]
fn deflate_is_undone() {
    let mut e = flate2::write::ZlibEncoder::new(Vec::new(), flate2::Compression::default());
    e.write_all(TEXT.as_bytes()).unwrap();
    assert_eq!(decode_body(&e.finish().unwrap(), "deflate"), TEXT);
}

#[test]
fn brotli_is_undone() {
    let mut out = Vec::new();
    {
        let mut e = brotli::CompressorWriter::new(&mut out, 4096, 5, 20);
        e.write_all(TEXT.as_bytes()).unwrap();
    }
    assert_eq!(decode_body(&out, "br"), TEXT);
}

#[test]
fn zstd_is_undone() {
    let out = zstd::stream::encode_all(TEXT.as_bytes(), 3).unwrap();
    assert_eq!(decode_body(&out, "zstd"), TEXT);
}

#[test]
fn bodies_that_do_not_follow_their_encoding_are_empty() {
    for encoding in ["gzip", "deflate", "br", "zstd"] {
        assert_eq!(decode_body(b"\xff\xfe plainly not compressed", encoding), "");
    }
    let cut = &gzip(TEXT.as_bytes())[..20];
    assert_eq!(decode_body(cut, "gzip"), "");
}

#[test]
fn plain_bodies_are_read_and_unknown_encodings_are_not() {
    assert_eq!(decode_body(TEXT.as_bytes(), ""), TEXT);
    assert_eq!(decode_body(TEXT.as_bytes(), "  "), TEXT);
    assert_eq!(decode_body(TEXT.as_bytes(), "identity"), "");
    assert_eq!(decode_body(TEXT.as_bytes(), "gzip, br"), "");
    assert_eq!(decode_body(b"a\xffb", ""), "a\u{fffd}b");
}

#[test]
fn encodings_by_name() {
    assert_eq!(encoding_of("gzip"), Encoding::Gzip);
    assert_eq!(encoding_of("br"), Encoding::Brotli);
    assert_eq!(encoding_of("deflate"), Encoding::Deflate);
    assert_eq!(encoding_of("zstd"), Encoding::Zstd);
    assert_eq!(encoding_of(""), Encoding::Identity);
    assert_eq!(encoding_of("GZIP"), Encoding::Unknown);
}

#[test]
fn failed_decoding_has_no_text() {
    assert_eq!(text_from(None), "");
    assert_eq!(text_from(Some("é".as_bytes())), "é");
}

#[test]
fn the_billed_model_is_the_first_named() {
    let t = r#"{"model":"m-1"} {"model":"m-2"}"#;
    assert_eq!(model_from_response(t, "fallback"), "m-1");
    assert_eq!(model_from_response(r#"{"model":""}"#, "fallback"), "fallback");
    assert_eq!(model_from_response("", "fallback"), "fallback");
}

#[test]
fn the_fallback_stands_in_for_a_missing_model() {
    let g = |t: &str| Some(t.to_string());
    assert_eq!(model_from(&Some(vec![g("all"), g("m")]), "f"), "m");
    assert_eq!(model_from(&Some(vec![g("all")]), "f"), "f");
    assert_eq!(model_from(&None, "f"), "f");
}

#[test]
fn a_model_without_a_name_is_passed_over() {
    let t = "{\"model\":\"\"} \"model\": \"spaced\" {\"model\":\"two\nlines\"}";
    assert_eq!(model_from_response(t, "f"), "two\nlines");
    assert_eq!(model_from_response("\"model\":\"open", "f"), "f");
}
