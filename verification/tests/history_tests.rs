use bwaa::history::sanitize_history;
use bwaa::json::Json;
use bwaa::model::{Blob, Content, FunctionCall, FunctionResponse, Part, PartData};

fn text(t: &str) -> Part {
    Part { data: Some(PartData::Text(t.to_string())) }
}

fn call(name: &str) -> Part {
    Part {
        data: Some(PartData::FunctionCall(FunctionCall {
            id: format!("id-{name}"),
            name: name.to_string(),
            args: Some(Json::Null),
        })),
    }
}

fn response(name: &str) -> Part {
    Part {
        data: Some(PartData::FunctionResponse(FunctionResponse {
            id: format!("id-{name}"),
            name: name.to_string(),
            response: Some(Json::Null),
        })),
    }
}

fn turn(role: &str, parts: Vec<Part>) -> Content {
    Content { role: role.to_string(), parts }
}

/// Each part described as a short string: `text:..`, `call:..`, `response:..`, `data`.
fn describe(c: &Content) -> Vec<String> {
    c.parts
        .iter()
        .map(|p| match &p.data {
            Some(PartData::Text(t)) => format!("text:{t}"),
            Some(PartData::FunctionCall(f)) => format!("call:{}", f.name),
            Some(PartData::FunctionResponse(f)) => format!("response:{}", f.name),
            Some(PartData::InlineData(_)) => "data".to_string(),
            None => "none".to_string(),
        })
        .collect()
}

fn roles(cs: &[Content]) -> Vec<String> {
    cs.iter().map(|c| c.role.clone()).collect()
}

#[test]
fn sanitize_empty_history() {
    assert!(sanitize_history(&[]).is_empty());
}

#[test]
fn sanitize_drops_blank_texts_and_media_and_empty_turns() {
    let history = vec![
        turn("user", vec![text("hi"), text("   ")]),
        turn(
            "model",
            vec![Part {
                data: Some(PartData::InlineData(Blob {
                    mime_type: "image/png".to_string(),
                    data: vec![1, 2, 3],
                })),
            }],
        ),
        turn("user", vec![Part { data: None }]),
    ];
    let out = sanitize_history(&history);
    assert_eq!(out.len(), 1);
    assert_eq!(out[0].role, "user");
    assert_eq!(describe(&out[0]), vec!["text:hi"]);
}

#[test]
fn sanitize_replaces_old_tool_parts_by_notes() {
    let history = vec![
        turn("user", vec![text("do it")]),
        turn("model", vec![call("send_message")]),
        turn("user", vec![response("send_message")]),
        turn("user", vec![text("again")]),
        turn("model", vec![text("ok")]),
    ];
    let out = sanitize_history(&history);
    assert_eq!(roles(&out), vec!["user", "model", "user", "model"]);
    assert_eq!(describe(&out[1]), vec!["text:[Called tool: send_message]"]);
    assert_eq!(describe(&out[2]), vec!["text:[Tool send_message finished]", "text:again"]);
    assert_eq!(describe(&out[3]), vec!["text:ok"]);
}

#[test]
fn sanitize_keeps_tool_parts_of_the_active_turn() {
    let history = vec![
        turn("user", vec![text("run")]),
        turn("model", vec![call("execute_js")]),
        turn("user", vec![response("execute_js")]),
    ];
    let out = sanitize_history(&history);
    assert_eq!(roles(&out), vec!["user", "model", "user"]);
    assert_eq!(describe(&out[1]), vec!["call:execute_js"]);
    assert_eq!(describe(&out[2]), vec!["response:execute_js"]);
}

#[test]
fn sanitize_response_before_last_turn_becomes_a_note() {
    let history = vec![
        turn("user", vec![text("run")]),
        turn("model", vec![call("a")]),
        turn("user", vec![response("a")]),
        turn("model", vec![call("b")]),
    ];
    let out = sanitize_history(&history);
    assert_eq!(describe(&out[1]), vec!["text:[Called tool: a]"]);
    assert_eq!(describe(&out[2]), vec!["text:[Tool a finished]"]);
    assert_eq!(describe(&out[3]), vec!["call:b"]);
}

#[test]
fn sanitize_merges_consecutive_turns_of_one_role() {
    let history = vec![
        turn("user", vec![text("a")]),
        turn("user", vec![text("b")]),
        turn("user", vec![text("c")]),
        turn("model", vec![text("d")]),
    ];
    let out = sanitize_history(&history);
    assert_eq!(roles(&out), vec!["user", "model"]);
    assert_eq!(describe(&out[0]), vec!["text:a", "text:b", "text:c"]);
}

#[test]
fn sanitize_does_not_merge_turns_with_tool_parts() {
    let history = vec![
        turn("user", vec![text("a")]),
        turn("model", vec![call("x")]),
        turn("model", vec![text("b")]),
    ];
    let out = sanitize_history(&history);
    assert_eq!(roles(&out), vec!["user", "model", "model"]);
    assert_eq!(describe(&out[1]), vec!["call:x"]);
}

#[test]
fn sanitize_drops_a_leading_model_turn() {
    let history = vec![turn("model", vec![text("hello")]), turn("user", vec![text("hi")])];
    let out = sanitize_history(&history);
    assert_eq!(roles(&out), vec!["user"]);
    assert_eq!(describe(&out[0]), vec!["text:hi"]);
}

#[test]
fn sanitize_drops_every_leading_model_turn() {
    // Two leading model turns stay apart (the second holds a call of the active turn),
    // and both go.
    let history = vec![turn("model", vec![text("a")]), turn("model", vec![call("x")])];
    assert!(sanitize_history(&history).is_empty());
    let history = vec![
        turn("model", vec![text("a")]),
        turn("model", vec![call("f")]),
        turn("user", vec![response("f")]),
    ];
    let out = sanitize_history(&history);
    assert_eq!(roles(&out), vec!["user"]);
    assert_eq!(describe(&out[0]), vec!["response:f"]);
}

#[test]
fn sanitizing_twice_changes_nothing() {
    let history = vec![
        turn("model", vec![text("hello")]),
        turn("user", vec![text("a"), text(" ")]),
        turn("user", vec![text("b")]),
        turn("model", vec![call("f")]),
        turn("user", vec![response("f")]),
        turn("model", vec![call("g")]),
        turn("user", vec![response("g")]),
    ];
    let once = sanitize_history(&history);
    let twice = sanitize_history(&once);
    assert_eq!(roles(&once), roles(&twice));
    let a: Vec<Vec<String>> = once.iter().map(describe).collect();
    let b: Vec<Vec<String>> = twice.iter().map(describe).collect();
    assert_eq!(a, b);
}
