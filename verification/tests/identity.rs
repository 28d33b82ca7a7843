use pino::identity::{
    clear_project_cache, identify, project_found, project_from_body, settle_project, ProjectCache,
};
use pino::json::{Json, Number};
use pino::text::kebab;

fn json(text: &str) -> Json {
    from_value(&serde_json::from_str(text).unwrap())
}

fn from_value(v: &serde_json::Value) -> Json {
    match v {
        serde_json::Value::Null => Json::Null,
        serde_json::Value::Bool(b) => Json::Bool(*b),
        serde_json::Value::Number(n) => Json::Num(if let Some(u) = n.as_u64() {
            Number::Unsigned(u)
        } else if let Some(i) = n.as_i64() {
            Number::Signed(i)
        } else {
            Number::Float(n.to_string())
        }),
        serde_json::Value::String(s) => Json::Str(s.clone()),
        serde_json::Value::Array(a) => Json::Arr(a.iter().map(from_value).collect()),
        serde_json::Value::Object(o) => {
            Json::Obj(o.iter().map(|(k, v)| (k.clone(), from_value(v))).collect())
        }
    }
}

fn to_value(v: &Json) -> serde_json::Value {
    match v {
        Json::Null => serde_json::Value::Null,
        Json::Bool(b) => serde_json::Value::Bool(*b),
        Json::Num(Number::Unsigned(u)) => serde_json::Value::from(*u),
        Json::Num(Number::Signed(i)) => serde_json::Value::from(*i),
        Json::Num(Number::Float(t)) => serde_json::Value::from(t.parse::<f64>().unwrap()),
        Json::Str(s) => serde_json::Value::String(s.clone()),
        Json::Arr(a) => serde_json::Value::Array(a.iter().map(to_value).collect()),
        Json::Obj(o) => serde_json::Value::Object(
            o.iter().map(|(k, v)| (k.clone(), to_value(v))).collect(),
        ),
    }
}

fn same(a: &Json, text: &str) {
    let expected: serde_json::Value = serde_json::from_str(text).unwrap();
    assert_eq!(to_value(a), expected);
}

const REQUEST: &str = r#"{"model":"m","system":[
    {"type":"text","text":"You are an assistant."},
    {"type":"text","text":"Here is the environment:\n<env>\nWorking directory: /home/me/work/pino\nPlatform: linux\n</env>"}]}"#;

#[test]
fn identity_extraction() {
    let req_body = json(REQUEST);
    let mut cache = ProjectCache::new();

    // mines the cwd out of a system prompt
    clear_project_cache(&mut cache);
    let found = project_from_body(&mut cache, &req_body, "sess-1");
    assert!(found.starts_with('/'), "an absolute path: {found}");
    assert!(!found.contains('"'));

    // a session's project memo is not poisoned by an early request lacking cwd
    clear_project_cache(&mut cache);
    assert_eq!(project_from_body(&mut cache, &json("{}"), "sess-2"), "unknown");
    let resolved = project_from_body(&mut cache, &req_body, "sess-2");
    assert!(resolved.starts_with('/'));
    assert_eq!(project_from_body(&mut cache, &json("{}"), "sess-2"), resolved); // now sticks

    // identify pulls session and agent ids from headers
    clear_project_cache(&mut cache);
    let id = identify(
        &mut cache,
        &json(&format!(
            r#"{{"{}": "abc", "{}": "ag1", "{}": "ag0"}}"#,
            kebab("x_claude_code_session_id"),
            kebab("x_claude_code_agent_id"),
            kebab("x_claude_code_parent_agent_id"),
        )),
        &req_body,
    );
    assert_eq!(id.session_id, "abc");
    assert_eq!(id.agent_id, "ag1");
    assert_eq!(id.parent_agent_id, "ag0");
    assert!(id.project.starts_with('/'));
}

#[test]
fn a_text_prompt_is_searched_itself() {
    let mut cache = ProjectCache::new();
    let body = json("{\"system\":\"cwd: /srv/app  \\nmore\"}");
    assert_eq!(project_from_body(&mut cache, &body, ""), "/srv/app");
    // without a session nothing is remembered
    assert_eq!(project_from_body(&mut cache, &json("{}"), ""), "unknown");
    same(&body, "{\"system\":\"cwd: /srv/app  \\nmore\"}");
}

#[test]
fn sessions_do_not_share_projects() {
    let mut cache = ProjectCache::new();
    assert_eq!(settle_project(&mut cache, "a", "/one"), "/one");
    assert_eq!(settle_project(&mut cache, "b", "/two"), "/two");
    assert_eq!(settle_project(&mut cache, "a", "/three"), "/one");
    assert_eq!(settle_project(&mut cache, "b", "unknown"), "/two");
    clear_project_cache(&mut cache);
    assert_eq!(settle_project(&mut cache, "a", "/three"), "/three");
}

#[test]
fn a_found_directory_is_trimmed() {
    let g = |t: &str| Some(t.to_string());
    assert_eq!(project_found(&Some(vec![g("all"), g("/x/y \t")])), "/x/y");
    assert_eq!(project_found(&Some(vec![g("all"), None])), "unknown");
    assert_eq!(project_found(&None), "unknown");
}

#[test]
fn missing_headers_are_empty() {
    let mut cache = ProjectCache::new();
    let headers = json(&format!(r#"{{"{}": 7}}"#, kebab("x_claude_code_agent_id")));
    let id = identify(&mut cache, &headers, &json("[]"));
    assert_eq!(id.session_id, "");
    assert_eq!(id.agent_id, "");
    assert_eq!(id.project, "unknown");
}

#[test]
fn a_directory_is_a_slash_and_three_characters_behind_its_words() {
    for (prompt, project) in [
        (r#""cwd/ab, Working directory\": \t/a b,c""#, "/a b"),
        (r#""cwd = /home/x""#, "unknown"),
        (r#""cwd:/abc""#, "/abc"),
        (r#""cwd:/ab""#, "unknown"),
        (r#""Cwd:/abc""#, "unknown"),
        (r#"{"a":1.5,"cwd":"/from/json"}"#, "/from/json"),
        (r#"[null,true,"cwd: /x/y\nz"]"#, "/x/y"),
        ("7", "unknown"),
    ] {
        let mut cache = ProjectCache::new();
        let body = json(&format!(r#"{{"system":{prompt}}}"#));
        assert_eq!(project_from_body(&mut cache, &body, "s"), project, "{prompt}");
    }
    let mut cache = ProjectCache::new();
    let long = format!(r#"{{"system":"cwd /{}"}}"#, "x".repeat(200));
    assert_eq!(project_from_body(&mut cache, &json(&long), "").len(), 161);
}
