use bwaa::handler::{
    decide, decision_request, inject_recalled_memories, is_invalid_argument, js_error_message,
    plan_actions, text_only_request, Action, DecisionResponse, MessagePlan, TurnPlan, TurnTask,
    MODEL_NAME,
};
use bwaa::model::{Blob, Content, Part, PartData};

fn messages(plan: &TurnPlan) -> Vec<&MessagePlan> {
    plan.tasks
        .iter()
        .filter_map(|t| match t {
            TurnTask::Send(m) => Some(m),
            TurnTask::Run(_) => None,
        })
        .collect()
}

fn scripts(plan: &TurnPlan) -> Vec<String> {
    plan.tasks
        .iter()
        .filter_map(|t| match t {
            TurnTask::Run(c) => Some(c.clone()),
            TurnTask::Send(_) => None,
        })
        .collect()
}

fn text_of(p: &Part) -> Option<&str> {
    match &p.data {
        Some(PartData::Text(t)) => Some(t.as_str()),
        _ => None,
    }
}

fn reaction(message_id: Option<&str>, emoji: &str, emoji_id: Option<&str>) -> Action {
    Action::AddReaction {
        message_id: message_id.map(|s| s.to_string()),
        emoji_name: emoji.to_string(),
        emoji_id: emoji_id.map(|s| s.to_string()),
    }
}

fn send(content: &str, reply: Option<&str>) -> Action {
    Action::SendMessage {
        content: content.to_string(),
        reply_to_message_id: reply.map(|s| s.to_string()),
    }
}

#[test]
fn recalled_memories_go_in_front_of_the_last_turn() {
    let mut history = vec![
        Content::from_text("user".to_string(), "first".to_string()),
        Content::from_text("user".to_string(), "what about cats".to_string()),
    ];
    let recalled = vec!["[cats] cats are great (learned from a)".to_string(), "[x] y (learned from b)".to_string()];
    inject_recalled_memories(&mut history, &recalled);
    assert_eq!(text_of(&history[0].parts[0]), Some("first"));
    assert_eq!(
        text_of(&history[1].parts[0]),
        Some("=== RECALLED MEMORIES ===\n[cats] cats are great (learned from a)\n[x] y (learned from b)\n\nwhat about cats")
    );
}

#[test]
fn no_memories_leave_the_history_unchanged() {
    let mut history = vec![Content::from_text("user".to_string(), "hi".to_string())];
    inject_recalled_memories(&mut history, &vec![]);
    assert_eq!(text_of(&history[0].parts[0]), Some("hi"));
    let mut empty: Vec<Content> = vec![];
    inject_recalled_memories(&mut empty, &vec!["m".to_string()]);
    assert!(empty.is_empty());
}

#[test]
fn memories_are_not_put_in_front_of_media() {
    let mut history = vec![Content {
        role: "user".to_string(),
        parts: vec![Part {
            data: Some(PartData::InlineData(Blob { mime_type: "image/png".to_string(), data: vec![0] })),
        }],
    }];
    inject_recalled_memories(&mut history, &vec!["m".to_string()]);
    assert!(matches!(history[0].parts[0].data, Some(PartData::InlineData(_))));
}

#[test]
fn decision_request_asks_for_json() {
    let history = vec![Content::from_text("user".to_string(), "hi".to_string())];
    let req = decision_request(history, "persona".to_string());
    assert_eq!(req.model, MODEL_NAME);
    assert_eq!(req.model, "models/gemini-3.1-flash-lite");
    assert_eq!(req.contents.len(), 1);
    assert!(req.tools.is_empty());
    assert_eq!(req.generation_config.as_ref().map(|g| g.response_mime_type.as_str()), Some("application/json"));
    let sys = req.system_instruction.expect("system");
    assert_eq!(sys.role, "system");
    assert_eq!(text_of(&sys.parts[0]), Some("persona"));
}

#[test]
fn invalid_argument_errors_are_recognised() {
    assert!(is_invalid_argument("status: Invalid argument, message: bad image"));
    assert!(!is_invalid_argument("status: Unavailable"));
    assert!(!is_invalid_argument("invalid argument"));
}

#[test]
fn retry_keeps_only_text_parts() {
    let history = vec![Content {
        role: "user".to_string(),
        parts: vec![
            Part { data: Some(PartData::Text("look".to_string())) },
            Part { data: Some(PartData::InlineData(Blob { mime_type: "image/png".to_string(), data: vec![1] })) },
            Part { data: None },
        ],
    }];
    let req = text_only_request(decision_request(history, "p".to_string()));
    assert_eq!(req.contents.len(), 1);
    assert_eq!(req.contents[0].parts.len(), 1);
    assert_eq!(text_of(&req.contents[0].parts[0]), Some("look"));
    assert_eq!(req.model, MODEL_NAME);
    assert!(req.generation_config.is_some());
}

#[test]
fn parsed_decision_is_kept() {
    let parsed = DecisionResponse { reason: "why".to_string(), actions: vec![Action::DoNothing] };
    let d = decide(Some(parsed), "{}", 5);
    assert_eq!(d.reason, "why");
    assert_eq!(d.actions.len(), 1);
    assert!(matches!(d.actions[0], Action::DoNothing));
}

#[test]
fn unparsed_answer_becomes_a_reply_to_the_trigger() {
    let d = decide(None, "just text", 1234567890123);
    assert_eq!(d.reason, "Fallback parse");
    assert_eq!(d.actions.len(), 1);
    match &d.actions[0] {
        Action::SendMessage { content, reply_to_message_id } => {
            assert_eq!(content, "just text");
            assert_eq!(reply_to_message_id.as_deref(), Some("1234567890123"));
        }
        _ => panic!("expected a message"),
    }
    let plan = plan_actions(&d, 1234567890123);
    assert_eq!(plan.tasks.len(), 1);
    let msgs = messages(&plan);
    assert_eq!(msgs[0].reply_to, Some(1234567890123));
    assert_eq!(msgs[0].chunks, vec!["just text".to_string()]);
    assert!(plan.reactions.is_empty());
    assert!(scripts(&plan).is_empty());
}

#[test]
fn reactions_are_grouped_by_message_in_order() {
    let d = DecisionResponse {
        reason: String::new(),
        actions: vec![
            reaction(None, "a", None),
            reaction(Some("77"), "b", Some("900")),
            reaction(Some("not an id"), "c", None),
            Action::DoNothing,
            reaction(Some("77"), "d", None),
        ],
    };
    let plan = plan_actions(&d, 10);
    assert_eq!(plan.reactions.len(), 2);
    assert_eq!(plan.reactions[0].message_id, 10);
    let first: Vec<&str> = plan.reactions[0].emojis.iter().map(|e| e.0.as_str()).collect();
    assert_eq!(first, vec!["a", "c"]);
    assert_eq!(plan.reactions[1].message_id, 77);
    let second: Vec<(&str, Option<&str>)> =
        plan.reactions[1].emojis.iter().map(|e| (e.0.as_str(), e.1.as_deref())).collect();
    assert_eq!(second, vec![("b", Some("900")), ("d", None)]);
}

#[test]
fn messages_are_trimmed_and_blank_ones_skipped() {
    let d = DecisionResponse {
        reason: String::new(),
        actions: vec![send("   ", None), send("  hi there \n", Some("42")), send("x", Some("abc"))],
    };
    let plan = plan_actions(&d, 1);
    let msgs = messages(&plan);
    assert_eq!(msgs.len(), 2);
    assert_eq!(msgs[0].text, "hi there");
    assert_eq!(msgs[0].reply_to, Some(42));
    assert_eq!(msgs[1].reply_to, None);
}

#[test]
fn long_messages_are_cut() {
    let d = DecisionResponse { reason: String::new(), actions: vec![send(&"y".repeat(3900), None)] };
    let plan = plan_actions(&d, 1);
    let lens: Vec<usize> = messages(&plan)[0].chunks.iter().map(|c| c.len()).collect();
    assert_eq!(lens, vec![1900, 1900, 100]);
}

#[test]
fn scripts_are_kept_in_order() {
    let d = DecisionResponse {
        reason: String::new(),
        actions: vec![
            Action::ExecuteJs { code: "1 + 1".to_string() },
            send("a", None),
            Action::ExecuteJs { code: "console.log(2)".to_string() },
        ],
    };
    let plan = plan_actions(&d, 1);
    assert_eq!(scripts(&plan), vec!["1 + 1".to_string(), "console.log(2)".to_string()]);
    // Messages and scripts keep the order of the actions.
    assert!(matches!(&plan.tasks[0], TurnTask::Run(c) if c == "1 + 1"));
    assert!(matches!(&plan.tasks[1], TurnTask::Send(m) if m.text == "a"));
    assert!(matches!(&plan.tasks[2], TurnTask::Run(c) if c == "console.log(2)"));
}

#[test]
fn script_errors_are_shown_in_a_code_block() {
    assert_eq!(js_error_message("boom"), "```js\n[JS Eval Error]: boom\n```");
}

#[test]
fn pauses_between_reactions() {
    assert_eq!(bwaa::handler::GROUPED_REACTION_PAUSE_MS, 200);
    assert_eq!(bwaa::reactions::REACTION_PAUSE_MS, 250);
}
