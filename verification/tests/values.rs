use pino::json::{integer, to_text, Json, Number};
use pino::text::{
    decimal, find, join, kebab, parse_i64, parse_u16, path, put_in_order, split,
    text_less, trim, zero_padded,
};

fn json(text: &str) -> Json {
    from_value(&serde_json::from_str(text).unwrap())
}

fn from_value(v: &serde_json::Value) -> Json {
    match v {
        serde_json::Value::Null => Json::Null,
        serde_json::Value::Bool(b) => Json::Bool(*b),
        serde_json::Value::Number(n) => Json::Num(if let Some(u) = n.as_u64() {
            Number::Unsigned(u)
        } else if let Some(i) = n.as_i64() {
            Number::Signed(i)
        } else {
            Number::Float(n.to_string())
        }),
        serde_json::Value::String(s) => Json::Str(s.clone()),
        serde_json::Value::Array(a) => Json::Arr(a.iter().map(from_value).collect()),
        serde_json::Value::Object(o) => {
            Json::Obj(o.iter().map(|(k, v)| (k.clone(), from_value(v))).collect())
        }
    }
}

fn to_value(v: &Json) -> serde_json::Value {
    match v {
        Json::Null => serde_json::Value::Null,
        Json::Bool(b) => serde_json::Value::Bool(*b),
        Json::Num(Number::Unsigned(u)) => serde_json::Value::from(*u),
        Json::Num(Number::Signed(i)) => serde_json::Value::from(*i),
        Json::Num(Number::Float(t)) => serde_json::Value::from(t.parse::<f64>().unwrap()),
        Json::Str(s) => serde_json::Value::String(s.clone()),
        Json::Arr(a) => serde_json::Value::Array(a.iter().map(to_value).collect()),
        Json::Obj(o) => serde_json::Value::Object(
            o.iter().map(|(k, v)| (k.clone(), to_value(v))).collect(),
        ),
    }
}

fn same(a: &Json, text: &str) {
    let expected: serde_json::Value = serde_json::from_str(text).unwrap();
    assert_eq!(to_value(a), expected);
}

#[test]
fn objects_are_edited_in_place() {
    let mut v = json(r#"{"a":1,"b":"x"}"#);
    v.set("a", json("[2]"));
    v.set("c", Json::Bool(true));
    assert!(v.remove("b"));
    assert!(!v.remove("b"));
    same(&v, r#"{"a":[2],"c":true}"#);
    assert!(v.get("a").is_some() && v.get("b").is_none());
    assert_eq!(v.get_items("a").unwrap().len(), 1);
    assert!(json(r#"{"t":"x"}"#).has_text("t", "x"));
    let mut n = json("3");
    n.set("a", Json::Null);
    same(&n, "3");
    same(&v.copy(), r#"{"a":[2],"c":true}"#);
}

#[test]
fn values_are_written_as_compact_json() {
    for t in [
        r#"{"a":[1,-2,1.5,1e-7,1e300,true,false,null],"b":{},"c":[],"d":{"k":"v"}}"#,
        r#"{"":"\u0000\u001f\b\f\n\r\t\"\\/ \u007f","é":"😀"}"#,
        "18446744073709551615",
        "-9223372036854775808",
        "0",
        "[[],[[]]]",
    ] {
        let v: serde_json::Value = serde_json::from_str(t).unwrap();
        assert_eq!(to_text(&from_value(&v)), v.to_string());
    }
    assert_eq!(to_text(&Json::Str("a\n\"b\"".to_string())), r#""a\n\"b\"""#);
    assert_eq!(to_text(&json(r#"[{"a": "x"}, 0.25]"#)), r#"[{"a":"x"},0.25]"#);
}

#[test]
fn integers_keep_their_sign() {
    assert!(matches!(integer(5), Json::Num(Number::Unsigned(5))));
    assert!(matches!(integer(-5), Json::Num(Number::Signed(-5))));
}

#[test]
fn numbers_are_read_as_a_whole() {
    assert_eq!(parse_i64("-9223372036854775808"), Some(i64::MIN));
    assert_eq!(parse_i64("9223372036854775808"), None);
    assert_eq!(parse_i64("+7"), Some(7));
    assert_eq!(parse_i64("007"), Some(7));
    for bad in ["", "+", "-", "1 ", "0x1", "1e3", "٣", "--1"] {
        assert_eq!(parse_i64(bad), None, "{bad}");
        assert_eq!(bad.parse::<i64>().ok(), None, "{bad}");
    }
    assert_eq!(parse_u16("65535"), Some(65535));
    assert_eq!(parse_u16("65536"), None);
    assert_eq!(parse_u16("-0"), "-0".parse::<u16>().ok());
}

#[test]
fn numbers_are_written_in_full() {
    assert_eq!(decimal(0), "0");
    assert_eq!(decimal(u64::MAX), u64::MAX.to_string());
    for n in [-12345, -7, 0, 7, 42, 12345] {
        assert_eq!(zero_padded(n, 4), format!("{n:04}"));
    }
}

#[test]
fn texts_are_cut_and_joined() {
    assert_eq!(split("a,,b,", ','), vec!["a", "", "b", ""]);
    assert_eq!(split("", ','), vec![""]);
    assert_eq!(join(&vec!["a".to_string(), "b".to_string()], "--"), "a--b");
    assert_eq!(trim("\u{2003} x\u{a0}\n"), "x");
    assert_eq!(find("åäö", "ö"), Some(2));
    assert_eq!(find("abc", "d"), None);
    assert_eq!(kebab("one_two_three"), "one-two-three");
    assert_eq!(path(".a_b"), ".a/b");
}

#[test]
fn texts_are_ordered_as_their_bytes_are() {
    let words = ["", "a", "ab", "b", "z", "é", "\u{ffff}", "\u{10000}"];
    for a in words {
        for b in words {
            assert_eq!(text_less(a, b), a < b, "{a} {b}");
        }
    }
    let mut v = Vec::new();
    for w in ["b", "a", "b", "c", "a"] {
        put_in_order(&mut v, w);
    }
    assert_eq!(v, vec!["a", "b", "c"]);
}
