use pino::cache::{
    apply_ttls, count_cache_breakpoints, inject_breakpoint_if_absent,
    strip_intermediate_message_breakpoints,
};
use pino::json::{Json, Number};
use pino::text::kebab;

fn json(text: &str) -> Json {
    from_value(&serde_json::from_str(text).unwrap())
}

fn from_value(v: &serde_json::Value) -> Json {
    match v {
        serde_json::Value::Null => Json::Null,
        serde_json::Value::Bool(b) => Json::Bool(*b),
        serde_json::Value::Number(n) => Json::Num(if let Some(u) = n.as_u64() {
            Number::Unsigned(u)
        } else if let Some(i) = n.as_i64() {
            Number::Signed(i)
        } else {
            Number::Float(n.to_string())
        }),
        serde_json::Value::String(s) => Json::Str(s.clone()),
        serde_json::Value::Array(a) => Json::Arr(a.iter().map(from_value).collect()),
        serde_json::Value::Object(o) => {
            Json::Obj(o.iter().map(|(k, v)| (k.clone(), from_value(v))).collect())
        }
    }
}

fn to_value(v: &Json) -> serde_json::Value {
    match v {
        Json::Null => serde_json::Value::Null,
        Json::Bool(b) => serde_json::Value::Bool(*b),
        Json::Num(Number::Unsigned(u)) => serde_json::Value::from(*u),
        Json::Num(Number::Signed(i)) => serde_json::Value::from(*i),
        Json::Num(Number::Float(t)) => serde_json::Value::from(t.parse::<f64>().unwrap()),
        Json::Str(s) => serde_json::Value::String(s.clone()),
        Json::Arr(a) => serde_json::Value::Array(a.iter().map(to_value).collect()),
        Json::Obj(o) => serde_json::Value::Object(
            o.iter().map(|(k, v)| (k.clone(), to_value(v))).collect(),
        ),
    }
}

fn same(a: &Json, text: &str) {
    let expected: serde_json::Value = serde_json::from_str(text).unwrap();
    assert_eq!(to_value(a), expected);
}

fn pipeline(body: &mut Json, tail_ttl: &str) {
    strip_intermediate_message_breakpoints(body);
    inject_breakpoint_if_absent(body, tail_ttl);
    apply_ttls(body, tail_ttl);
}

const LONG: &str = "You are a helpful assistant with a fairly long system prompt that comfortably \
exceeds the five-hundred character minimum so it is worth caching. ";

#[test]
fn pipeline_string_system_tools_and_messages() {
    let model = kebab("claude_opus_4_8");
    for ttl in ["5m", "1h"] {
        let system = LONG.repeat(5);
        let mut body = json(&format!(
            r#"{{"model":"{model}","system":"{system}",
            "tools":[{{"name":"Read","description":"read a file"}},
                     {{"name":"Bash","description":"run a command"}}],
            "messages":[
              {{"role":"user","content":[{{"type":"text","text":"first message with reminders"}}]}},
              {{"role":"assistant","content":[{{"type":"text","text":"ok"}}]}},
              {{"role":"user","content":[{{"type":"text","text":"latest turn"}}]}}]}}"#
        ));
        pipeline(&mut body, ttl);
        same(&body, &format!(
            r#"{{"model":"{model}",
            "system":[{{"type":"text","text":"{system}",
                        "cache_control":{{"type":"ephemeral","ttl":"1h"}}}}],
            "tools":[{{"name":"Read","description":"read a file"}},
                     {{"name":"Bash","description":"run a command",
                       "cache_control":{{"type":"ephemeral","ttl":"1h"}}}}],
            "messages":[
              {{"role":"user","content":[{{"type":"text","text":"first message with reminders",
                "cache_control":{{"type":"ephemeral","ttl":"1h"}}}}]}},
              {{"role":"assistant","content":[{{"type":"text","text":"ok"}}]}},
              {{"role":"user","content":[{{"type":"text","text":"latest turn",
                "cache_control":{{"type":"ephemeral","ttl":"{ttl}"}}}}]}}]}}"#
        ));
        assert_eq!(count_cache_breakpoints(&body), 4);
    }
}

#[test]
fn pipeline_array_system_and_single_message() {
    let model = kebab("claude_opus_4_8");
    for ttl in ["5m", "1h"] {
        let long = "a much longer second system block that is definitely beyond the minimum cache \
                    size threshold so it should receive a breakpoint on the last entry of the \
                    system array. "
            .repeat(4);
        let mut body = json(&format!(
            r#"{{"model":"{model}",
            "system":[{{"type":"text","text":"tiny"}},{{"type":"text","text":"{long}"}}],
            "messages":[{{"role":"user",
              "content":[{{"type":"text","text":"only one message here"}}]}}]}}"#
        ));
        pipeline(&mut body, ttl);
        same(&body, &format!(
            r#"{{"model":"{model}",
            "system":[{{"type":"text","text":"tiny"}},
                      {{"type":"text","text":"{long}",
                        "cache_control":{{"type":"ephemeral","ttl":"1h"}}}}],
            "messages":[{{"role":"user","content":[{{"type":"text","text":"only one message here",
              "cache_control":{{"type":"ephemeral","ttl":"{ttl}"}}}}]}}]}}"#
        ));
    }
}

#[test]
fn pipeline_client_tail_and_intermediate_breakpoints() {
    let model = kebab("claude_opus_4_8");
    for ttl in ["5m", "1h"] {
        let system = "system text long enough to be cached ".repeat(20);
        let mut body = json(&format!(
            r#"{{"model":"{model}","system":[{{"type":"text","text":"{system}"}}],
            "messages":[
              {{"role":"user","content":[{{"type":"text","text":"msg0 reminders"}}]}},
              {{"role":"assistant","content":[{{"type":"text","text":"mid",
                "cache_control":{{"type":"ephemeral"}}}}]}},
              {{"role":"user","content":[{{"type":"text","text":"another mid",
                "cache_control":{{"type":"ephemeral","ttl":"1h"}}}}]}},
              {{"role":"assistant","content":[{{"type":"text","text":"tail block",
                "cache_control":{{"type":"ephemeral"}}}}]}}]}}"#
        ));
        pipeline(&mut body, ttl);
        same(&body, &format!(
            r#"{{"model":"{model}",
            "system":[{{"type":"text","text":"{system}",
                        "cache_control":{{"type":"ephemeral","ttl":"1h"}}}}],
            "messages":[
              {{"role":"user","content":[{{"type":"text","text":"msg0 reminders",
                "cache_control":{{"type":"ephemeral","ttl":"1h"}}}}]}},
              {{"role":"assistant","content":[{{"type":"text","text":"mid"}}]}},
              {{"role":"user","content":[{{"type":"text","text":"another mid"}}]}},
              {{"role":"assistant","content":[{{"type":"text","text":"tail block",
                "cache_control":{{"type":"ephemeral","ttl":"{ttl}"}}}}]}}]}}"#
        ));
    }
}

#[test]
fn pipeline_small_system_block_with_client_control() {
    let model = kebab("claude_opus_4_8");
    for ttl in ["5m", "1h"] {
        let long = "a properly long system block well beyond the minimum threshold for caching to \
                    be worthwhile here today. "
            .repeat(5);
        let mut body = json(&format!(
            r#"{{"model":"{model}",
            "system":[{{"type":"text","text":"short",
                        "cache_control":{{"type":"ephemeral","ttl":"1h"}}}},
                      {{"type":"text","text":"{long}"}}],
            "messages":[{{"role":"user","content":"msg one as a string"}},
              {{"role":"user",
                "content":"the final turn, also a string, to test normalization"}}]}}"#
        ));
        pipeline(&mut body, ttl);
        same(&body, &format!(
            r#"{{"model":"{model}",
            "system":[{{"type":"text","text":"short"}},
                      {{"type":"text","text":"{long}",
                        "cache_control":{{"type":"ephemeral","ttl":"1h"}}}}],
            "messages":[
              {{"role":"user","content":[{{"type":"text","text":"msg one as a string",
                "cache_control":{{"type":"ephemeral","ttl":"1h"}}}}]}},
              {{"role":"user","content":[{{"type":"text",
                "text":"the final turn, also a string, to test normalization",
                "cache_control":{{"type":"ephemeral","ttl":"{ttl}"}}}}]}}]}}"#
        ));
    }
}

#[test]
fn pipeline_string_content_in_last_message() {
    let model = kebab("claude_opus_4_8");
    for ttl in ["5m", "1h"] {
        let mut body = json(&format!(
            r#"{{"model":"{model}","tools":[{{"name":"Read","description":"read"}}],
            "messages":[{{"role":"user","content":[{{"type":"text","text":"block one"}}]}},
                        {{"role":"assistant","content":"a plain string tail message"}}]}}"#
        ));
        pipeline(&mut body, ttl);
        same(&body, &format!(
            r#"{{"model":"{model}",
            "tools":[{{"name":"Read","description":"read",
                       "cache_control":{{"type":"ephemeral","ttl":"1h"}}}}],
            "messages":[
              {{"role":"user","content":[{{"type":"text","text":"block one",
                "cache_control":{{"type":"ephemeral","ttl":"1h"}}}}]}},
              {{"role":"assistant","content":[{{"type":"text","text":"a plain string tail message",
                "cache_control":{{"type":"ephemeral","ttl":"{ttl}"}}}}]}}]}}"#
        ));
    }
}

#[test]
fn notes_name_what_was_placed() {
    let mut body = json(
        r#"{"tools":[{"name":"Read"}],"system":"be brief",
        "messages":[{"role":"user","content":"a"},{"role":"user","content":"b"}]}"#,
    );
    assert_eq!(inject_breakpoint_if_absent(&mut body, "5m"), "tools+system-string+msg0+tail:5m");
    assert_eq!(inject_breakpoint_if_absent(&mut json("{}"), "5m"), "none");
    let mut small = json(
        r#"{"system":[{"type":"text","text":"x","cache_control":{"type":"ephemeral"}},
                      {"type":"text","text":"y","cache_control":{"type":"ephemeral"}}]}"#,
    );
    assert_eq!(inject_breakpoint_if_absent(&mut small, "5m"), "strip-sys:2+system");
    same(&small,
        r#"{"system":[{"type":"text","text":"x"},
            {"type":"text","text":"y","cache_control":{"type":"ephemeral","ttl":"1h"}}]}"#);
}

#[test]
fn messages_get_none_beyond_the_ceiling() {
    let mut body = json(
        r#"{"messages":[
          {"role":"user","content":[
            {"type":"text","text":"a","cache_control":{"type":"ephemeral"}},
            {"type":"text","text":"b","cache_control":{"type":"ephemeral"}},
            {"type":"text","text":"c","cache_control":{"type":"ephemeral"}},
            {"type":"text","text":"d","cache_control":{"type":"ephemeral"}},
            {"type":"text","text":"e"}]},
          {"role":"user","content":"f"}]}"#,
    );
    assert_eq!(inject_breakpoint_if_absent(&mut body, "5m"), "none");
    assert_eq!(count_cache_breakpoints(&body), 4);
}

#[test]
fn three_client_breakpoints_leave_one_slot() {
    let mut body = json(
        r#"{"messages":[
          {"role":"user","content":[
            {"type":"text","text":"a","cache_control":{"type":"ephemeral"}},
            {"type":"text","text":"b","cache_control":{"type":"ephemeral"}},
            {"type":"text","text":"c","cache_control":{"type":"ephemeral"}},
            {"type":"text","text":"d"}]},
          {"role":"user","content":"e"}]}"#,
    );
    assert_eq!(inject_breakpoint_if_absent(&mut body, "5m"), "msg0");
    assert_eq!(count_cache_breakpoints(&body), 4);
}

#[test]
fn tail_skips_messages_that_cannot_carry_one() {
    let mut body = json(
        r#"{"messages":[
          {"role":"user","content":[{"type":"tool_result","content":"r"},{"type":"other"}]},
          {"role":"assistant","content":[{"type":"thinking","thinking":"t"}]},
          {"role":"assistant","content":""}]}"#,
    );
    assert_eq!(inject_breakpoint_if_absent(&mut body, "5m"), "msg0");
    same(&body,
        r#"{"messages":[
          {"role":"user","content":[{"type":"tool_result","content":"r",
            "cache_control":{"type":"ephemeral","ttl":"1h"}},{"type":"other"}]},
          {"role":"assistant","content":[{"type":"thinking","thinking":"t"}]},
          {"role":"assistant","content":""}]}"#);
}

#[test]
fn lists_that_do_not_end_in_an_object_stay() {
    let mut body = json(r#"{"tools":[{"name":"a"},"b"],"system":[]}"#);
    assert_eq!(inject_breakpoint_if_absent(&mut body, "5m"), "none");
    same(&body, r#"{"tools":[{"name":"a"},"b"],"system":[]}"#);
}

#[test]
fn ttl_counters_add_up() {
    let text = r#"{"tools":[{"cache_control":{"type":"ephemeral"}}],
        "system":[{"cache_control":{"type":"ephemeral","ttl":"1h"}},
                  {"cache_control":{"type":"other"}}],
        "messages":[{"content":[{"cache_control":{"type":"ephemeral","ttl":"5m"}}]},
                    {"content":[{"cache_control":{"type":"ephemeral"}},
                                {"cache_control":{"type":"ephemeral","ttl":"1h"}}]}]}"#;
    let mut body = json(text);
    let c = apply_ttls(&mut body, "5m");
    assert_eq!((c.rewritten, c.already, c.skipped), (2, 1, 2));
    same(&body,
        r#"{"tools":[{"cache_control":{"type":"ephemeral","ttl":"1h"}}],
        "system":[{"cache_control":{"type":"ephemeral","ttl":"1h"}},
                  {"cache_control":{"type":"other"}}],
        "messages":[{"content":[{"cache_control":{"type":"ephemeral","ttl":"1h"}}]},
                    {"content":[{"cache_control":{"type":"ephemeral","ttl":"5m"}},
                                {"cache_control":{"type":"ephemeral","ttl":"5m"}}]}]}"#);
    let again = apply_ttls(&mut body, "5m");
    assert_eq!((again.rewritten, again.already, again.skipped), (0, 3, 2));
}

#[test]
fn breakpoints_are_found_at_any_depth() {
    let body = json(
        r#"{"a":[{"b":{"cache_control":{"type":"ephemeral"}}}],
            "cache_control":{"type":"ephemeral"},"c":{"cache_control":{"type":"x"}}}"#,
    );
    assert_eq!(count_cache_breakpoints(&body), 2);
    assert_eq!(count_cache_breakpoints(&json("7")), 0);
}

#[test]
fn stripping_spares_the_first_and_the_last_message() {
    let mut body = json(
        r#"{"messages":[
          {"content":[{"cache_control":{"type":"ephemeral"}}]},
          {"content":[{"cache_control":{"type":"x"}},{"cache_control":null},{"t":1}]},
          {"content":"text"},
          {"content":[{"cache_control":{"type":"ephemeral"}}]}]}"#,
    );
    assert_eq!(strip_intermediate_message_breakpoints(&mut body), 2);
    same(&body,
        r#"{"messages":[
          {"content":[{"cache_control":{"type":"ephemeral"}}]},
          {"content":[{},{},{"t":1}]},
          {"content":"text"},
          {"content":[{"cache_control":{"type":"ephemeral"}}]}]}"#);
    assert_eq!(strip_intermediate_message_breakpoints(&mut body), 0);
    assert_eq!(strip_intermediate_message_breakpoints(&mut json("{}")), 0);
}

const FULL: &str = r#"{"role":"user","content":[
    {"type":"text","text":"a","cache_control":{"type":"ephemeral"}},
    {"type":"text","text":"b","cache_control":{"type":"ephemeral"}},
    {"type":"text","text":"c","cache_control":{"type":"ephemeral"}},
    {"type":"text","text":"d","cache_control":{"type":"ephemeral"}}]}"#;

#[test]
fn tools_and_system_get_none_beyond_the_ceiling() {
    let prompts = [r#""be brief""#, r#"[{"type":"text","text":"be brief"}]"#];
    for system in prompts {
        let text = format!(
            r#"{{"tools":[{{"name":"Read"}}],"system":{system},
            "messages":[{{"role":"user","content":"first"}},{FULL}]}}"#
        );
        let mut body = json(&text);
        assert_eq!(inject_breakpoint_if_absent(&mut body, "5m"), "none");
        same(&body, &text);
        assert_eq!(count_cache_breakpoints(&body), 4);
    }
}

#[test]
fn the_last_slot_goes_to_the_tools() {
    let mut body = json(
        r#"{"tools":[{"name":"Read"}],"system":"be brief","messages":[
          {"role":"user","content":"first"},
          {"role":"user","content":[
            {"type":"text","text":"a","cache_control":{"type":"ephemeral"}},
            {"type":"text","text":"b","cache_control":{"type":"ephemeral"}},
            {"type":"text","text":"c","cache_control":{"type":"ephemeral"}}]}]}"#,
    );
    assert_eq!(inject_breakpoint_if_absent(&mut body, "5m"), "tools");
    assert_eq!(count_cache_breakpoints(&body), 4);
    assert!(matches!(body.get("system"), Some(Json::Str(s)) if s == "be brief"));
}

#[test]
fn a_slot_of_a_small_block_is_free_again() {
    let mut body = json(
        r#"{"tools":[{"name":"Read"}],
        "system":[{"type":"text","text":"x","cache_control":{"type":"ephemeral"}}],
        "messages":[{"role":"user","content":[
            {"type":"text","text":"a","cache_control":{"type":"ephemeral"}},
            {"type":"text","text":"b","cache_control":{"type":"ephemeral"}},
            {"type":"text","text":"c","cache_control":{"type":"ephemeral"}}]}]}"#,
    );
    assert_eq!(inject_breakpoint_if_absent(&mut body, "5m"), "strip-sys:1+tools");
    assert_eq!(count_cache_breakpoints(&body), 4);
}

#[test]
fn a_body_above_the_ceiling_gets_none() {
    let text = format!(
        r#"{{"tools":[{{"name":"Read"}}],"cache_control":{{"type":"ephemeral"}},
        "messages":[{FULL}]}}"#
    );
    let mut body = json(&text);
    assert_eq!(inject_breakpoint_if_absent(&mut body, "5m"), "none");
    same(&body, &text);
}

#[test]
fn breakpoints_anywhere_outside_the_last_message_live_an_hour() {
    let mut body = json(r#"{"cache_control":{"type":"ephemeral"},"messages":[]}"#);
    let c = apply_ttls(&mut body, "5m");
    assert_eq!((c.rewritten, c.already, c.skipped), (1, 0, 0));
    same(&body, r#"{"cache_control":{"type":"ephemeral","ttl":"1h"},"messages":[]}"#);
    let mut body = json(
        r#"{"metadata":{"a":[{"cache_control":{"type":"ephemeral","ttl":"5m"}}]},"n":7,
        "messages":[{"cache_control":{"type":"ephemeral"}},
                    {"cache_control":{"type":"ephemeral"}}]}"#,
    );
    let c = apply_ttls(&mut body, "5m");
    assert_eq!((c.rewritten, c.already, c.skipped), (2, 0, 1));
    same(&body,
        r#"{"metadata":{"a":[{"cache_control":{"type":"ephemeral","ttl":"1h"}}]},"n":7,
        "messages":[{"cache_control":{"type":"ephemeral","ttl":"1h"}},
                    {"cache_control":{"type":"ephemeral","ttl":"5m"}}]}"#);
    let mut list = json(r#"[{"cache_control":{"type":"ephemeral"}}]"#);
    assert_eq!(apply_ttls(&mut list, "5m").rewritten, 1);
    let mut odd = json(r#"{"messages":{"cache_control":{"type":"ephemeral"}}}"#);
    assert_eq!(apply_ttls(&mut odd, "5m").rewritten, 1);
    same(&odd, r#"{"messages":{"cache_control":{"type":"ephemeral","ttl":"1h"}}}"#);
}

#[test]
fn placing_twice_is_placing_once() {
    let texts = [
        r#"{"tools":[{"name":"Read"}],"system":"be brief",
            "messages":[{"role":"user","content":"a"},{"role":"user","content":"b"}]}"#,
        r#"{"system":[{"cache_control":{"type":"x"},"text":"small","type":"text"}],
            "messages":[{"role":"user","content":"a"}]}"#,
        r#"{"system":"","messages":[{"role":"user","content":""}]}"#,
    ];
    for text in texts {
        let mut body = json(text);
        inject_breakpoint_if_absent(&mut body, "5m");
        let once = to_value(&body);
        inject_breakpoint_if_absent(&mut body, "5m");
        assert_eq!(to_value(&body), once);
    }
}
