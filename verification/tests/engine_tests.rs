use bwaa::engine::{plan_final_dispatch, split_parts, tool_not_found, AgentTurn, ModelStep, MAX_TURNS};
use bwaa::json::Json;
use bwaa::model::{Content, FunctionCall, Part, PartData};
use bwaa::request::{Candidate, GeminiTool, GenerateContentResponse};
use bwaa::tools::{Embed, ToolOutput, ToolResult};

fn text(t: &str) -> Part {
    Part { data: Some(PartData::Text(t.to_string())) }
}

fn call(name: &str) -> FunctionCall {
    FunctionCall { id: format!("id-{name}"), name: name.to_string(), args: None }
}

fn call_part(name: &str) -> Part {
    Part { data: Some(PartData::FunctionCall(call(name))) }
}

fn answer(parts: Vec<Part>) -> GenerateContentResponse {
    GenerateContentResponse {
        candidates: vec![Candidate { content: Some(Content { role: "model".to_string(), parts }) }],
    }
}

fn embed(title: &str) -> Embed {
    Embed {
        title: Some(title.to_string()),
        description: None,
        fields: vec![],
        color: None,
        kind: "rich".to_string(),
    }
}

fn member<'a>(j: &'a Json, key: &str) -> Option<&'a Json> {
    match j {
        Json::Object(m) => m.iter().find(|(k, _)| k == key).map(|(_, v)| v),
        _ => None,
    }
}

fn str_member(j: &Json, key: &str) -> Option<String> {
    match member(j, key) {
        Some(Json::Str(s)) => Some(s.clone()),
        _ => None,
    }
}

#[test]
fn split_parts_separates_calls_and_non_blank_texts() {
    let parts = vec![text("one"), call_part("a"), text("  "), Part { data: None }, text("two"), call_part("b")];
    let (calls, texts) = split_parts(&parts);
    let names: Vec<&str> = calls.iter().map(|c| c.name.as_str()).collect();
    assert_eq!(names, vec!["a", "b"]);
    assert_eq!(texts, vec!["one".to_string(), "two".to_string()]);
}

#[test]
fn request_carries_sanitized_history_instruction_and_tool() {
    let history = vec![
        Content::from_text("model".to_string(), "earlier".to_string()),
        Content::from_text("user".to_string(), "hi".to_string()),
    ];
    let t = AgentTurn::new(history);
    let req = t.request("models/x", "be nice", GeminiTool { function_declarations: vec![] });
    assert_eq!(req.model, "models/x");
    assert_eq!(req.contents.len(), 1);
    assert_eq!(req.contents[0].role, "user");
    let sys = req.system_instruction.expect("system instruction");
    assert_eq!(sys.role, "system");
    assert!(matches!(&sys.parts[0].data, Some(PartData::Text(t)) if t == "be nice"));
    assert_eq!(req.tools.len(), 1);
    assert!(req.generation_config.is_none());
}

#[test]
fn no_candidate_ends_the_turn() {
    let mut t = AgentTurn::new(vec![]);
    let step = t.on_model_response(GenerateContentResponse { candidates: vec![] });
    assert!(matches!(step, ModelStep::NoCandidate));
    assert!(t.finished);
    assert!(t.history.is_empty());
    assert!(t.dispatch_plan().is_empty());
}

#[test]
fn answer_without_calls_ends_the_turn_with_its_text() {
    let mut t = AgentTurn::new(vec![Content::from_text("user".to_string(), "hi".to_string())]);
    let step = t.on_model_response(answer(vec![text("hello"), text("there")]));
    match step {
        ModelStep::Answered { recorded, calls } => {
            assert!(calls.is_empty());
            assert_eq!(recorded.role, "model");
        }
        ModelStep::NoCandidate => panic!("expected an answer"),
    }
    assert!(t.finished);
    assert_eq!(t.history.len(), 2);
    assert_eq!(t.final_text.as_deref(), Some("hello\nthere"));
    let plan = t.dispatch_plan();
    assert_eq!(plan.len(), 1);
    assert_eq!(plan[0].content.as_deref(), Some("hello\nthere"));
    assert!(!plan[0].with_embeds);
}

#[test]
fn candidate_without_content_records_an_empty_model_turn() {
    let mut t = AgentTurn::new(vec![]);
    let step = t.on_model_response(GenerateContentResponse { candidates: vec![Candidate { content: None }] });
    assert!(matches!(step, ModelStep::Answered { .. }));
    assert!(t.finished);
    assert_eq!(t.history.len(), 1);
    assert_eq!(t.history[0].role, "model");
    assert!(t.history[0].parts.is_empty());
    assert!(t.final_text.is_none());
}

#[test]
fn tool_results_become_one_user_turn_of_responses() {
    let mut t = AgentTurn::new(vec![]);
    let step = t.on_model_response(answer(vec![call_part("a"), call_part("b"), call_part("c"), call_part("d")]));
    let calls = match step {
        ModelStep::Answered { calls, .. } => calls,
        ModelStep::NoCandidate => panic!("expected an answer"),
    };
    assert_eq!(calls.len(), 4);
    assert!(!t.finished);
    let mut it = calls.into_iter();
    let results = vec![
        (it.next().unwrap(), Ok(ToolOutput::ActionExecuted("Message sent"))),
        (it.next().unwrap(), Ok(ToolOutput::Stop)),
        (it.next().unwrap(), Err("Tool 'c' not found".to_string())),
        (
            it.next().unwrap(),
            Ok(ToolOutput::Info(ToolResult::info_with_embed(Json::Bool(true), embed("e")))),
        ),
    ];
    let content = t.on_tool_results(results);
    assert_eq!(content.role, "user");
    assert_eq!(content.parts.len(), 4);
    let payloads: Vec<(String, Json)> = content
        .parts
        .into_iter()
        .map(|p| match p.data {
            Some(PartData::FunctionResponse(r)) => (r.name, r.response.expect("response")),
            _ => panic!("expected a function response"),
        })
        .collect();
    assert_eq!(payloads[0].0, "a");
    assert_eq!(str_member(&payloads[0].1, "status").as_deref(), Some("ok"));
    assert_eq!(str_member(&payloads[0].1, "message").as_deref(), Some("Message sent"));
    assert_eq!(str_member(&payloads[1].1, "status").as_deref(), Some("stopped"));
    assert_eq!(str_member(&payloads[2].1, "status").as_deref(), Some("error"));
    assert_eq!(str_member(&payloads[2].1, "error").as_deref(), Some("Tool 'c' not found"));
    assert!(matches!(payloads[3].1, Json::Bool(true)));
    // A stop ends the turn, even beside an informational result; the embed is kept.
    assert!(t.finished);
    assert_eq!(t.step, 1);
    assert_eq!(t.embeds.len(), 1);
    assert_eq!(t.history.len(), 2);
}

#[test]
fn results_without_information_end_the_turn() {
    let mut t = AgentTurn::new(vec![]);
    let step = t.on_model_response(answer(vec![text("sending"), call_part("send_message")]));
    let calls = match step {
        ModelStep::Answered { calls, .. } => calls,
        ModelStep::NoCandidate => panic!("expected an answer"),
    };
    let results = calls
        .into_iter()
        .map(|c| (c, Ok(ToolOutput::ActionExecuted("Message sent"))))
        .collect();
    t.on_tool_results(results);
    assert!(t.finished);
    assert_eq!(t.final_text.as_deref(), Some("sending"));
}

#[test]
fn turn_ends_after_max_rounds() {
    let mut t = AgentTurn::new(vec![]);
    let mut rounds = 0;
    while !t.finished {
        let step = t.on_model_response(answer(vec![call_part("execute_js")]));
        let calls = match step {
            ModelStep::Answered { calls, .. } => calls,
            ModelStep::NoCandidate => panic!("expected an answer"),
        };
        let results = calls
            .into_iter()
            .map(|c| (c, Ok(ToolOutput::Info(ToolResult::info(Json::Null)))))
            .collect();
        t.on_tool_results(results);
        rounds += 1;
    }
    assert_eq!(rounds, MAX_TURNS);
    assert_eq!(t.step, MAX_TURNS);
}

#[test]
fn final_dispatch_of_nothing_is_nothing() {
    assert!(plan_final_dispatch(None, false).is_empty());
    assert!(plan_final_dispatch(Some("  \n".to_string()), false).is_empty());
}

#[test]
fn final_dispatch_of_embeds_only_is_one_empty_message() {
    let plan = plan_final_dispatch(None, true);
    assert_eq!(plan.len(), 1);
    assert!(plan[0].content.is_none());
    assert!(plan[0].with_embeds);
}

#[test]
fn final_dispatch_cuts_long_text_and_attaches_embeds_to_the_first() {
    let text = "x".repeat(4000);
    let plan = plan_final_dispatch(Some(text), true);
    assert_eq!(plan.len(), 3);
    assert_eq!(plan[0].content.as_ref().map(|c| c.len()), Some(1900));
    assert_eq!(plan[2].content.as_ref().map(|c| c.len()), Some(200));
    assert!(plan[0].with_embeds);
    assert!(!plan[1].with_embeds);
    assert!(!plan[2].with_embeds);
}

#[test]
fn missing_tool_error() {
    assert_eq!(tool_not_found("fly"), "Tool 'fly' not found");
}

#[test]
fn stop_beside_information_ends_the_turn() {
    let mut t = AgentTurn::new(vec![]);
    let step = t.on_model_response(answer(vec![call_part("a"), call_part("b")]));
    let calls = match step {
        ModelStep::Answered { calls, .. } => calls,
        ModelStep::NoCandidate => panic!("expected an answer"),
    };
    let mut it = calls.into_iter();
    let results = vec![
        (it.next().unwrap(), Ok(ToolOutput::Stop)),
        (it.next().unwrap(), Ok(ToolOutput::Info(ToolResult::info(Json::Null)))),
    ];
    t.on_tool_results(results);
    assert!(t.finished);
    assert_eq!(t.step, 1);
}

#[test]
fn final_dispatch_of_multibyte_text_loses_nothing() {
    let text = "€".repeat(700);
    let plan = plan_final_dispatch(Some(text.clone()), true);
    let pieces: Vec<String> = plan.iter().map(|m| m.content.clone().expect("text")).collect();
    assert_eq!(pieces.concat(), text);
    assert!(pieces.iter().all(|p| p.len() <= 1900 && !p.is_empty()));
    assert_eq!(pieces.iter().map(|p| p.len()).collect::<Vec<_>>(), vec![1899, 201]);
    assert!(plan[0].with_embeds);
    assert!(!plan[1].with_embeds);
}
