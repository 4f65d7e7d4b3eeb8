use bwaa::json::Json;
use bwaa::reactions::{reaction_kind, QueuedReaction, ReactionKind};
use bwaa::tools::{
    parse_id, AddReactionTool, Embed, ExecuteJsTool, SendMessageTool, SendPlan, Tool, ToolOutput,
    ToolResult,
};

fn obj(members: Vec<(&str, Json)>) -> Json {
    Json::Object(members.into_iter().map(|(k, v)| (k.to_string(), v)).collect())
}

fn s(t: &str) -> Json {
    Json::Str(t.to_string())
}

fn member<'a>(j: &'a Json, key: &str) -> Option<&'a Json> {
    match j {
        Json::Object(m) => m.iter().find(|(k, _)| k == key).map(|(_, v)| v),
        _ => None,
    }
}

fn str_member(j: &Json, key: &str) -> Option<String> {
    match member(j, key) {
        Some(Json::Str(x)) => Some(x.clone()),
        _ => None,
    }
}

#[test]
fn tool_names_and_descriptions() {
    assert_eq!(SendMessageTool.name(), "send_message");
    assert_eq!(AddReactionTool.name(), "add_reaction");
    assert_eq!(AddReactionTool.description(), "React to a message with a unicode or custom emoji.");
}

#[test]
fn ids_are_read_as_decimal() {
    assert_eq!(parse_id(Some("123")), Some(123));
    assert_eq!(parse_id(Some("18446744073709551615")), Some(u64::MAX));
    assert_eq!(parse_id(Some("18446744073709551616")), None);
    assert_eq!(parse_id(Some("")), None);
    assert_eq!(parse_id(Some("-1")), None);
    assert_eq!(parse_id(Some("+7")), Some(7));
    assert_eq!(parse_id(Some("12a")), None);
    assert_eq!(parse_id(None), None);
}

#[test]
fn blank_message_is_skipped() {
    let plan = SendMessageTool.plan(" \n\t ", Some("5"));
    assert!(matches!(plan, SendPlan::Skip));
    match SendMessageTool::outcome(&plan) {
        ToolOutput::ActionExecuted(m) => assert_eq!(m, "Empty message skipped"),
        _ => panic!("expected an action"),
    }
}

#[test]
fn message_is_trimmed_cut_and_replies() {
    let content = format!("  {}  ", "z".repeat(2000));
    let plan = SendMessageTool.plan(&content, Some("99"));
    match &plan {
        SendPlan::Send { chunks, reply_to } => {
            let lens: Vec<usize> = chunks.iter().map(|c| c.len()).collect();
            assert_eq!(lens, vec![1900, 100]);
            assert_eq!(*reply_to, Some(99));
        }
        SendPlan::Skip => panic!("expected a message"),
    }
    match SendMessageTool::outcome(&plan) {
        ToolOutput::ActionExecuted(m) => assert_eq!(m, "Message sent"),
        _ => panic!("expected an action"),
    }
    match SendMessageTool.plan("hi", Some("nope")) {
        SendPlan::Send { chunks, reply_to } => {
            assert_eq!(chunks, vec!["hi".to_string()]);
            assert_eq!(reply_to, None);
        }
        SendPlan::Skip => panic!("expected a message"),
    }
}

#[test]
fn reaction_targets_named_or_trigger_message() {
    let r = AddReactionTool.plan(1, 2, "👍".to_string(), None, Some("3"));
    assert_eq!((r.channel_id, r.message_id), (1, 3));
    assert_eq!(r.emoji_name, "👍");
    let r = AddReactionTool.plan(1, 2, "x".to_string(), Some("55".to_string()), Some("bad"));
    assert_eq!(r.message_id, 2);
    assert_eq!(r.emoji_id.as_deref(), Some("55"));
    let r = AddReactionTool.plan(1, 2, "x".to_string(), None, None);
    assert_eq!(r.message_id, 2);
    match AddReactionTool::outcome() {
        ToolOutput::ActionExecuted(m) => assert_eq!(m, "Reaction queued"),
        _ => panic!("expected an action"),
    }
}

#[test]
fn reaction_kind_custom_or_unicode() {
    match reaction_kind("pepe".to_string(), Some("123".to_string())) {
        ReactionKind::Custom { id, name } => {
            assert_eq!(id, 123);
            assert_eq!(name, "pepe");
        }
        ReactionKind::Unicode { .. } => panic!("expected a custom emoji"),
    }
    assert!(matches!(
        reaction_kind("😀".to_string(), Some("x1".to_string())),
        ReactionKind::Unicode { name } if name == "😀"
    ));
    assert!(matches!(reaction_kind("😀".to_string(), None), ReactionKind::Unicode { .. }));
    let q = QueuedReaction { channel_id: 1, message_id: 2, emoji_name: "e".to_string(), emoji_id: Some("9".to_string()) };
    assert!(matches!(q.kind(), ReactionKind::Custom { id: 9, .. }));
}

#[test]
fn tool_result_constructors() {
    let r = ToolResult::info(Json::Bool(false));
    assert!(matches!(r.model_response, Json::Bool(false)));
    assert!(r.visual_embed.is_none());
    let e = Embed { title: Some("t".to_string()), description: None, fields: vec![], color: None, kind: "rich".to_string() };
    let r = ToolResult::info_with_embed(Json::Null, e);
    assert_eq!(r.visual_embed.and_then(|e| e.title).as_deref(), Some("t"));
}

#[test]
fn display_of_logs_and_value() {
    let out = obj(vec![
        ("logs", Json::Array(vec![s("a"), Json::Number("1".to_string()), s("b")])),
        ("return_value", Json::Number("3".to_string())),
    ]);
    assert_eq!(ExecuteJsTool::display_text(&out), "a\nb\n\n[Returned]: 3");
}

#[test]
fn display_of_logs_only() {
    let out = obj(vec![("logs", Json::Array(vec![s("x")])), ("return_value", Json::Null)]);
    assert_eq!(ExecuteJsTool::display_text(&out), "x");
    let out = obj(vec![("logs", Json::Array(vec![s("x")]))]);
    assert_eq!(ExecuteJsTool::display_text(&out), "x");
}

#[test]
fn display_of_value_only_or_nothing() {
    let out = obj(vec![("logs", Json::Array(vec![])), ("return_value", s("hi"))]);
    assert_eq!(ExecuteJsTool::display_text(&out), "\"hi\"");
    let out = obj(vec![("logs", Json::Array(vec![])), ("return_value", Json::Null)]);
    assert_eq!(ExecuteJsTool::display_text(&out), "undefined");
    assert_eq!(ExecuteJsTool::display_text(&Json::Null), "undefined");
}

#[test]
fn report_of_a_successful_run() {
    let output = obj(vec![("logs", Json::Array(vec![])), ("return_value", Json::Number("2".to_string()))]);
    let r = ExecuteJsTool.report("1 + 1", Ok(output), 17);
    let res = match r {
        ToolOutput::Info(res) => res,
        _ => panic!("expected information"),
    };
    assert_eq!(str_member(&res.model_response, "status").as_deref(), Some("success"));
    assert!(matches!(member(&res.model_response, "result"), Some(Json::Object(_))));
    let e = res.visual_embed.expect("embed");
    assert_eq!(e.title.as_deref(), Some("⚡ JS Sandbox Executed"));
    assert_eq!(e.description.as_deref(), Some("```js\n1 + 1\n```"));
    assert_eq!(e.fields.len(), 1);
    assert_eq!(e.fields[0].name, "✨ Output (17ms)");
    assert_eq!(e.fields[0].value, "```json\n2\n```");
    assert!(!e.fields[0].inline);
    assert_eq!(e.color, Some(0xF472B6));
    assert_eq!(e.kind, "rich");
}

#[test]
fn report_of_a_failed_run() {
    let r = ExecuteJsTool.report("oops(", Err("Execution timed out".to_string()), 5000);
    let res = match r {
        ToolOutput::Info(res) => res,
        _ => panic!("expected information"),
    };
    assert_eq!(str_member(&res.model_response, "status").as_deref(), Some("error"));
    assert_eq!(str_member(&res.model_response, "error").as_deref(), Some("Execution timed out"));
    let e = res.visual_embed.expect("embed");
    assert_eq!(e.title.as_deref(), Some("⚠️ JS Execution Failed"));
    assert_eq!(e.fields[0].name, "💥 Error (5000ms)");
    assert_eq!(e.fields[0].value, "```json\nExecution timed out\n```");
    assert_eq!(e.color, Some(0xEF4444));
}

#[test]
fn report_cuts_long_code_to_900_bytes() {
    let code = "c".repeat(1000);
    let r = ExecuteJsTool.report(&code, Err("e".to_string()), 0);
    let e = match r {
        ToolOutput::Info(res) => res.visual_embed.expect("embed"),
        _ => panic!("expected information"),
    };
    assert_eq!(e.description, Some(format!("```js\n{}\n```", "c".repeat(900))));
}

#[test]
fn display_pretty_prints_structured_values() {
    let value = obj(vec![("a", Json::Number("1".to_string())), ("b", Json::Array(vec![Json::Bool(true), Json::Null]))]);
    let out = obj(vec![("logs", Json::Array(vec![s("log")])), ("return_value", value)]);
    let expected = serde_json::to_string_pretty(&serde_json::from_str::<serde_json::Value>("{\"a\":1,\"b\":[true,null]}").unwrap()).unwrap();
    assert_eq!(ExecuteJsTool::display_text(&out), format!("log\n\n[Returned]: {expected}"));
}

#[test]
fn report_shows_the_pretty_printed_value() {
    let output = obj(vec![("logs", Json::Array(vec![])), ("return_value", obj(vec![("k", s("v"))]))]);
    let r = ExecuteJsTool.report("({k: 'v'})", Ok(output), 3);
    let e = match r {
        ToolOutput::Info(res) => res.visual_embed.expect("embed"),
        _ => panic!("expected information"),
    };
    assert_eq!(e.fields[0].value, "```json\n{\n  \"k\": \"v\"\n}\n```");
}
