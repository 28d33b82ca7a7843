use pino::json::{Json, Number};
use pino::text::path;
use pino::transform::{
    can_restructure, clean_reminder, is_core_context, is_stale_removable, scrub_names, Transform,
};

fn json(text: &str) -> Json {
    from_value(&serde_json::from_str(text).unwrap())
}

fn from_value(v: &serde_json::Value) -> Json {
    match v {
        serde_json::Value::Null => Json::Null,
        serde_json::Value::Bool(b) => Json::Bool(*b),
        serde_json::Value::Number(n) => Json::Num(if let Some(u) = n.as_u64() {
            Number::Unsigned(u)
        } else if let Some(i) = n.as_i64() {
            Number::Signed(i)
        } else {
            Number::Float(n.to_string())
        }),
        serde_json::Value::String(s) => Json::Str(s.clone()),
        serde_json::Value::Array(a) => Json::Arr(a.iter().map(from_value).collect()),
        serde_json::Value::Object(o) => {
            Json::Obj(o.iter().map(|(k, v)| (k.clone(), from_value(v))).collect())
        }
    }
}

fn to_value(v: &Json) -> serde_json::Value {
    match v {
        Json::Null => serde_json::Value::Null,
        Json::Bool(b) => serde_json::Value::Bool(*b),
        Json::Num(Number::Unsigned(u)) => serde_json::Value::from(*u),
        Json::Num(Number::Signed(i)) => serde_json::Value::from(*i),
        Json::Num(Number::Float(t)) => serde_json::Value::from(t.parse::<f64>().unwrap()),
        Json::Str(s) => serde_json::Value::String(s.clone()),
        Json::Arr(a) => serde_json::Value::Array(a.iter().map(to_value).collect()),
        Json::Obj(o) => serde_json::Value::Object(
            o.iter().map(|(k, v)| (k.clone(), to_value(v))).collect(),
        ),
    }
}

fn same(a: &Json, text: &str) {
    let expected: serde_json::Value = serde_json::from_str(text).unwrap();
    assert_eq!(to_value(a), expected);
}

fn plain() -> Transform {
    Transform::from_env(None, Some("0"), None)
}

#[test]
fn dropped_tools_leave_the_catalog() {
    let t = Transform::from_env(Some(" CronList, ,Monitor "), Some("0"), None);
    let mut body = json(r#"{"tools":[{"name":"Read"},{"name":"CronList"},{"x":1},{"name":"Monitor"}]}"#);
    t.apply(&mut body);
    same(&body, r#"{"tools":[{"name":"Read"},{"x":1}]}"#);
}

#[test]
fn bash_description_ends_before_git() {
    let t = Transform::from_env(None, None, Some("1"));
    let mut body = json(
        r#"{"tools":[
          {"name":"Bash","description":"Runs.  \n# Committing changes with git\nmore"},
          {"name":"Other","description":"x # Committing changes with git y"}]}"#,
    );
    t.apply(&mut body);
    same(&body,
        r#"{"tools":[{"name":"Bash","description":"Runs."},
          {"name":"Other","description":"x # Committing changes with git y"}]}"#);
}

#[test]
fn names_are_scrubbed_from_deferred_reminders_only() {
    let names = vec!["CronList".to_string(), "Monitor".to_string()];
    let t = "a <system-reminder>deferred tools:\nRead\n  CronList \nMonitor</system-reminder> b \
             <system-reminder>note\nCronList</system-reminder> c";
    assert_eq!(
        scrub_names(t, &names),
        "a <system-reminder>deferred tools:\nRead</system-reminder> b \
         <system-reminder>note\nCronList</system-reminder> c"
    );
    assert_eq!(scrub_names("no reminder at all $1", &names), "no reminder at all $1");
    assert_eq!(
        scrub_names("<system-reminder>see toolsearch\nMonitor</system-reminder>", &names),
        "<system-reminder>see toolsearch</system-reminder>"
    );
}

#[test]
fn a_reminder_is_cleaned_by_its_lines() {
    let names = vec!["A".to_string()];
    assert_eq!(
        clean_reminder("whole", "x\nA\n A \nAB", true, &names),
        "<system-reminder>x\nAB</system-reminder>"
    );
    assert_eq!(clean_reminder("whole", "x\nA", false, &names), "whole");
}

#[test]
fn apply_scrubs_reminders_in_messages() {
    let t = Transform::from_env(Some("Monitor"), Some("0"), None);
    let mut body = json(
        r#"{"messages":[{"role":"user","content":"<system-reminder>ToolSearch\nMonitor</system-reminder>"}]}"#,
    );
    t.apply(&mut body);
    same(&body,
        r#"{"messages":[{"role":"user","content":"<system-reminder>ToolSearch</system-reminder>"}]}"#);
}

#[test]
fn escapes_are_stripped_wherever_text_stands() {
    let t = Transform::from_env(None, None, None);
    let mut body = json(
        r#"{"messages":[{"role":"user","content":[
          {"type":"text","text":"\u001b[1;31mred\u001b[0m"},
          {"type":"tool_result","content":"\u001b[2Kline"},
          {"type":"tool_result","content":[{"type":"text","text":"a\u001b[0mb"},{"type":"image"}]}]}]}"#,
    );
    t.apply(&mut body);
    same(&body,
        r#"{"messages":[{"role":"user","content":[
          {"type":"text","text":"red"},
          {"type":"tool_result","content":"line"},
          {"type":"tool_result","content":[{"type":"text","text":"ab"},{"type":"image"}]}]}]}"#);
    let mut kept = json(r#"{"messages":[{"content":"\u001b[0m"}]}"#);
    plain().apply(&mut kept);
    same(&kept, r#"{"messages":[{"content":"\u001b[0m"}]}"#);
}

#[test]
fn context_is_hoisted_and_scaffolding_dropped() {
    let mut body = json(
        r#"{"messages":[
          {"role":"assistant","content":[{"type":"text","text":"hello"},
             {"type":"text","text":"<system-reminder>old"}]},
          {"role":"user","content":"<command-name>x"},
          {"role":"user","content":[{"type":"text","text":"about claudeMd"},
             {"type":"image","data":"d"}]},
          {"role":"user","content":[{"type":"text","text":"about claudeMd"},
             {"type":"text","text":"<system-reminder>fresh"}]}]}"#,
    );
    plain().apply(&mut body);
    same(&body,
        r#"{"messages":[
          {"role":"user","content":[{"type":"text","text":"about claudeMd"},
             {"type":"text","text":"hello"}]},
          {"role":"user","content":[{"type":"image","data":"d"}]},
          {"role":"user","content":[{"type":"text","text":"<system-reminder>fresh"}]}]}"#);
}

#[test]
fn messages_without_blocks_are_dropped() {
    let mut body = json(
        r#"{"messages":[{"role":"user","content":7},null,{"role":"user","content":"x"}]}"#,
    );
    assert!(can_restructure(&body));
    plain().apply(&mut body);
    same(&body, r#"{"messages":[{"role":"user","content":[{"type":"text","text":"x"}]}]}"#);
}

#[test]
fn one_message_is_left_alone() {
    let text = r#"{"messages":[{"role":"user","content":"claudeMd"}]}"#;
    let mut body = json(text);
    plain().apply(&mut body);
    same(&body, text);
}

#[test]
fn messages_that_are_no_objects_cannot_be_restructured() {
    assert!(!can_restructure(&json(r#"{"messages":["a",{}]}"#)));
    assert!(can_restructure(&json(r#"{"messages":["a"]}"#)));
    assert!(can_restructure(&json("{}")));
}

#[test]
fn context_and_scaffolding_are_told_apart() {
    assert!(is_core_context("x ToolSearch"));
    assert!(is_core_context(&path(".claude_plans_p")));
    assert!(!is_core_context("ToolSearch <local-command-stdout>"));
    assert!(!is_core_context("plain"));
    assert!(is_stale_removable("<command-name>/x"));
    assert!(!is_stale_removable(" <command-name>/x"));
}

#[test]
fn the_announcement_lists_names_once_and_in_order() {
    let t = Transform::from_env(Some("b,a,b,c"), Some("0"), Some("1"));
    let (first, second) = t.announcement();
    assert_eq!(first, "[transform] DROP_TOOLS=a,b,c");
    assert_eq!(second, "[transform] STRIP_ANSI=false TRIM_BASH_GIT=true");
    assert_eq!(plain().announcement().0, "[transform] DROP_TOOLS=(none)");
    assert_eq!(t.dropped_names(), vec!["a", "b", "c"]);
}

#[test]
fn restructuring_twice_is_restructuring_once() {
    let mut body = json(
        r#"{"messages":[
          {"role":"assistant","content":[{"type":"text","text":"hello"},
             {"type":"text","text":"<system-reminder>old"}]},
          {"role":"user","content":[{"type":"text","text":"about claudeMd"},
             {"type":"text","text":"ToolSearch"},{"type":"text","text":"about claudeMd"}]},
          null,
          {"role":"user","content":[{"type":"image","data":"d"},
             {"type":"text","text":"<command-name>kept"}]},
          {"role":"user","content":"about claudeMd"}]}"#,
    );
    plain().apply(&mut body);
    let once = to_value(&body);
    same(&body,
        r#"{"messages":[
          {"role":"user","content":[{"type":"text","text":"about claudeMd"},
             {"type":"text","text":"ToolSearch"},{"type":"text","text":"hello"}]},
          {"role":"user","content":[{"type":"image","data":"d"}]}]}"#);
    plain().apply(&mut body);
    assert_eq!(to_value(&body), once);
    plain().restructure_v123(&mut body);
    assert_eq!(to_value(&body), once);
}

#[test]
fn only_whole_escapes_are_stripped() {
    let t = Transform::from_env(None, None, None);
    let mut body = json(
        r#"{"messages":[{"role":"user","content":
          "\u001b[;;H1\u001b[3 \u001b\u001b[mx\u001b(B\u001b[1;\u001b[0Z\u001b["}]}"#,
    );
    t.apply(&mut body);
    same(&body,
        r#"{"messages":[{"role":"user","content":"1\u001b[3 \u001bx\u001b(B\u001b[1;\u001b["}]}"#);
}

#[test]
fn reminders_end_at_the_first_closing_tag() {
    let drop = vec!["Gone".to_string()];
    let open = "<system-reminder>";
    let close = "</system-reminder>";
    let t = format!("{open}{open}deferred tools\nGone\n{close}Gone\n{close}{open}Gone");
    assert_eq!(
        scrub_names(&t, &drop),
        format!("{open}{open}deferred tools\n{close}Gone\n{close}{open}Gone")
    );
    let t = format!("{open}DEFERRED TOOLS\nGone\nKept{close}");
    assert_eq!(scrub_names(&t, &drop), format!("{open}DEFERRED TOOLS\nKept{close}"));
}
