use bwaa::config::{system_instruction_with_lore, Config, BASE_PROMPT};
use bwaa::media::{attachment_action, download_failed_note, AttachmentAction, MAX_ATTACHMENT_BYTES};
use bwaa::memory::{format_memory, fts_query};
use bwaa::model::{Content, Part, PartData};
use bwaa::prompt::{
    clean_prompt, format_user_turn, is_ignored, is_mentioned, is_reply_to_bot, should_respond,
};
use bwaa::request::{Candidate, GeminiTool, GenerateContentResponse, RequestBuilder};
use bwaa::sandbox::{hydration_script, wrapped_script, SandboxError, JS_BOOTSTRAP};

#[test]
fn fts_query_joins_words_with_or() {
    assert_eq!(fts_query("hello, world! how's it going?").as_deref(), Some("hello OR world OR hows OR it OR going"));
    assert_eq!(fts_query("  cats\tand\ndogs ").as_deref(), Some("cats OR and OR dogs"));
    assert_eq!(fts_query("日本 語").as_deref(), Some("日本 OR 語"));
}

#[test]
fn fts_query_of_punctuation_only_is_none() {
    assert_eq!(fts_query(""), None);
    assert_eq!(fts_query("?!... --"), None);
    assert_eq!(fts_query("   "), None);
}

#[test]
fn memory_lines() {
    assert_eq!(format_memory("cats", "are great", "ann"), "[cats] are great (learned from ann)");
}

#[test]
fn prompt_without_mentions() {
    assert_eq!(clean_prompt("<@42> hey <@!42> there <@7>", &vec![42]), "hey  there <@7>");
    assert_eq!(clean_prompt("  <@1><@2> x ", &vec![1, 2]), "x");
    assert_eq!(clean_prompt(" plain ", &vec![]), "plain");
}

#[test]
fn user_turn_text() {
    assert_eq!(format_user_turn(123, "ann", "hi"), "[Msg ID: 123] ann: hi");
    assert_eq!(format_user_turn(0, "", ""), "[Msg ID: 0] : ");
}

#[test]
fn which_messages_are_answered() {
    assert!(is_ignored(true, 5, 9));
    assert!(is_ignored(false, 9, 9));
    assert!(!is_ignored(false, 5, 9));
    assert!(is_mentioned(&vec![1, 9, 3], 9));
    assert!(!is_mentioned(&vec![1, 3], 9));
    assert!(is_reply_to_bot(Some(9), 9));
    assert!(!is_reply_to_bot(Some(8), 9));
    assert!(!is_reply_to_bot(None, 9));
    assert!(should_respond(false, false, true));
    assert!(should_respond(true, false, false));
    assert!(!should_respond(false, false, false));
}

#[test]
fn attachments_by_size_and_type() {
    assert_eq!(attachment_action(10, Some("image/png")), AttachmentAction::Download);
    assert_eq!(attachment_action(10, Some("video/mp4")), AttachmentAction::Download);
    assert_eq!(attachment_action(10, Some("audio/ogg")), AttachmentAction::Download);
    assert_eq!(attachment_action(10, Some("text/plain")), AttachmentAction::Skip);
    assert_eq!(attachment_action(10, None), AttachmentAction::Skip);
    assert_eq!(attachment_action(MAX_ATTACHMENT_BYTES, Some("image/png")), AttachmentAction::Download);
    assert_eq!(attachment_action(MAX_ATTACHMENT_BYTES + 1, Some("image/png")), AttachmentAction::TooLarge);
    assert_eq!(MAX_ATTACHMENT_BYTES, 20 * 1024 * 1024);
}

#[test]
fn failed_download_note() {
    assert_eq!(download_failed_note("a.png"), "\n[Attachment 'a.png' download timed out or failed]");
}

#[test]
fn system_instruction_has_persona_and_lore() {
    let s = system_instruction_with_lore("\n  lore here \n");
    assert!(s.starts_with("you are bwaa, a chaotic pink creature/catgirl"));
    assert!(s.ends_with("\n\n=== SERVER LORE ===\nlore here"));
    assert_eq!(s, format!("{}\n\n=== SERVER LORE ===\nlore here", BASE_PROMPT.trim()));
    let c = Config::new("tok".to_string(), "key".to_string(), "");
    assert_eq!(c.discord_token, "tok");
    assert_eq!(c.gemini_api_key, "key");
    assert!(c.system_instruction.ends_with("=== SERVER LORE ===\n"));
}

#[test]
fn hydration_script_quotes_like_serde_json() {
    let content = "he said \"hi\"\\\n\t\u{1}é";
    let s = hydration_script(7, content, "ann", 8);
    let expected = format!(
        "globalThis.message = new Message({{ id: {}, content: {}, author: {}, channelId: {} }});",
        serde_json::to_string("7").unwrap(),
        serde_json::to_string(content).unwrap(),
        serde_json::to_string("ann").unwrap(),
        serde_json::to_string("8").unwrap(),
    );
    assert_eq!(s, expected);
    assert!(s.contains("content: \"he said \\\"hi\\\"\\\\\\n\\t\\u0001é\""));
}

#[test]
fn wrapped_script_evaluates_quoted_code() {
    let s = wrapped_script("console.log(\"x\")");
    assert!(s.starts_with("(async () => {\n"));
    assert!(s.contains("return eval(\"console.log(\\\"x\\\")\");"));
    assert!(s.contains("return_value: __ret !== undefined ? __ret : null,"));
    assert!(JS_BOOTSTRAP.contains("globalThis.Message = Message;"));
}

#[test]
fn sandbox_error_message() {
    assert_eq!(SandboxError("boom".to_string()).message(), "boom");
}

#[test]
fn request_builder_builds_what_it_was_given() {
    let req = RequestBuilder::new("models/m".to_string())
        .system_instruction("sys".to_string())
        .history(vec![Content::from_text("user".to_string(), "hi".to_string())])
        .tool(GeminiTool { function_declarations: vec![] })
        .tool(GeminiTool { function_declarations: vec![] })
        .build();
    assert_eq!(req.model, "models/m");
    assert_eq!(req.contents.len(), 1);
    assert_eq!(req.tools.len(), 2);
    assert!(req.generation_config.is_none());
    let sys = req.system_instruction.expect("system");
    assert!(matches!(&sys.parts[0].data, Some(PartData::Text(t)) if t == "sys"));
    let bare = RequestBuilder::new("m".to_string()).build();
    assert!(bare.system_instruction.is_none());
    assert!(bare.contents.is_empty());
    assert!(bare.tools.is_empty());
}

#[test]
fn first_text_of_a_response() {
    let r = GenerateContentResponse {
        candidates: vec![Candidate {
            content: Some(Content { role: "model".to_string(), parts: vec![Part { data: Some(PartData::Text("{\"a\":1}".to_string())) }] }),
        }],
    };
    assert_eq!(r.first_text(), "{\"a\":1}");
    assert_eq!(GenerateContentResponse { candidates: vec![] }.first_text(), "{}");
    let no_text = GenerateContentResponse {
        candidates: vec![Candidate { content: Some(Content { role: "model".to_string(), parts: vec![Part { data: None }] }) }],
    };
    assert_eq!(no_text.first_text(), "{}");
    let no_content = GenerateContentResponse { candidates: vec![Candidate { content: None }] };
    assert_eq!(no_content.first_text(), "{}");
}

#[test]
fn quoted_values_hold_no_raw_quote_or_line_break() {
    let s = hydration_script(1, "a\"b\nc\u{0}d\\", "x\ry", 2);
    let inner = s
        .strip_prefix("globalThis.message = new Message({ id: \"1\", content: \"")
        .and_then(|t| t.strip_suffix("\", channelId: \"2\" });"))
        .expect("shape");
    assert_eq!(inner, "a\\\"b\\nc\\u0000d\\\\\", author: \"x\\ry");
    assert!(!s.contains('\n'));
    assert!(!s.contains('\r'));
}

#[test]
fn request_builder_keeps_the_last_history_and_instruction() {
    let req = RequestBuilder::new("m".to_string())
        .history(vec![Content::from_text("user".to_string(), "old".to_string())])
        .system_instruction("first".to_string())
        .tool(GeminiTool { function_declarations: vec![] })
        .history(vec![])
        .system_instruction("second".to_string())
        .build();
    assert!(req.contents.is_empty());
    assert_eq!(req.tools.len(), 1);
    let sys = req.system_instruction.expect("system");
    assert!(matches!(&sys.parts[0].data, Some(PartData::Text(t)) if t == "second"));
}
