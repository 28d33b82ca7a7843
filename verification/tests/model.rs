use pino::json::{Json, Number};
use pino::model::{friendly_name, put_system_texts, rewrite_system_model_refs, texts_in_system};
use pino::text::kebab;

fn json(text: &str) -> Json {
    from_value(&serde_json::from_str(text).unwrap())
}

fn from_value(v: &serde_json::Value) -> Json {
    match v {
        serde_json::Value::Null => Json::Null,
        serde_json::Value::Bool(b) => Json::Bool(*b),
        serde_json::Value::Number(n) => Json::Num(if let Some(u) = n.as_u64() {
            Number::Unsigned(u)
        } else if let Some(i) = n.as_i64() {
            Number::Signed(i)
        } else {
            Number::Float(n.to_string())
        }),
        serde_json::Value::String(s) => Json::Str(s.clone()),
        serde_json::Value::Array(a) => Json::Arr(a.iter().map(from_value).collect()),
        serde_json::Value::Object(o) => {
            Json::Obj(o.iter().map(|(k, v)| (k.clone(), from_value(v))).collect())
        }
    }
}

fn to_value(v: &Json) -> serde_json::Value {
    match v {
        Json::Null => serde_json::Value::Null,
        Json::Bool(b) => serde_json::Value::Bool(*b),
        Json::Num(Number::Unsigned(u)) => serde_json::Value::from(*u),
        Json::Num(Number::Signed(i)) => serde_json::Value::from(*i),
        Json::Num(Number::Float(t)) => serde_json::Value::from(t.parse::<f64>().unwrap()),
        Json::Str(s) => serde_json::Value::String(s.clone()),
        Json::Arr(a) => serde_json::Value::Array(a.iter().map(to_value).collect()),
        Json::Obj(o) => serde_json::Value::Object(
            o.iter().map(|(k, v)| (k.clone(), to_value(v))).collect(),
        ),
    }
}

fn same(a: &Json, text: &str) {
    let expected: serde_json::Value = serde_json::from_str(text).unwrap();
    assert_eq!(to_value(a), expected);
}

#[test]
fn references_in_a_text_are_rewritten() {
    let (dated, id) = (kebab("claude_opus_4_7_20260101"), kebab("claude_opus_4_7"));
    let new = kebab("claude_opus_4_6_20250101");
    let mut body = json(&format!(r#"{{"system":"You are Opus 4.7 ({dated}, {id})."}}"#));
    assert_eq!(rewrite_system_model_refs(&mut body, &new), 1);
    same(&body, &format!(r#"{{"system":"You are Opus 4.6 ({new}, {new})."}}"#));
}

#[test]
fn references_in_blocks_are_counted() {
    let mut body = json(&format!(
        r#"{{"system":[{{"text":"Opus 4.7"}},{{"text":"nothing"}},{{"x":1}},{{"text":"{}"}}]}}"#,
        kebab("claude_opus_4_7")
    ));
    assert_eq!(rewrite_system_model_refs(&mut body, "my-model"), 2);
    same(&body,
        r#"{"system":[{"text":"my-model"},{"text":"nothing"},{"x":1},{"text":"my-model"}]}"#);
    assert_eq!(rewrite_system_model_refs(&mut body, "my-model"), 0);
}

#[test]
fn an_empty_model_rewrites_nothing() {
    let mut body = json(r#"{"system":"Opus 4.7"}"#);
    assert_eq!(rewrite_system_model_refs(&mut body, ""), 0);
    same(&body, r#"{"system":"Opus 4.7"}"#);
    assert_eq!(rewrite_system_model_refs(&mut json("[]"), "m"), 0);
}

#[test]
fn names_that_models_are_spoken_of_by() {
    assert_eq!(friendly_name(&kebab("claude_opus_4_6")), "Opus 4.6");
    assert_eq!(friendly_name(&kebab("claude_opus_4_5")), "Opus 4.5");
    assert_eq!(friendly_name(&kebab("claude_sonnet_4_6")), "Sonnet 4.6");
    assert_eq!(friendly_name(&kebab("claude_sonnet_4_5")), "Sonnet 4.5");
    assert_eq!(friendly_name(&kebab("claude_haiku_4_5")), "Haiku 4.5");
    assert_eq!(friendly_name("other"), "other");
}

#[test]
fn texts_are_put_back_in_their_places() {
    let mut body = json(r#"{"system":[{"text":"a"},{"y":2},{"text":"c"}],"model":"m"}"#);
    let texts = texts_in_system(&body);
    assert_eq!(texts, vec!["a", "", "c"]);
    assert_eq!(put_system_texts(&mut body, &texts), 0);
    let new = vec!["A".to_string(), "B".to_string(), "c".to_string()];
    assert_eq!(put_system_texts(&mut body, &new), 1);
    same(&body, r#"{"system":[{"text":"A"},{"y":2},{"text":"c"}],"model":"m"}"#);
}

#[test]
fn dates_are_part_of_a_reference_only_when_whole() {
    let id = kebab("claude_opus_4_7");
    let mut body = json(&format!(
        r#"{{"system":"{id}-2026010 {id}-202601011 {id}{id} Opus 4x7 Opus 4.7Opus 4.7"}}"#
    ));
    assert_eq!(rewrite_system_model_refs(&mut body, "new-20250101"), 1);
    same(&body,
        r#"{"system":"new-20250101-2026010 new-202501011 new-20250101new-20250101 Opus 4x7 newnew"}"#);
}
