use bwaa::json::Json;
use bwaa::registry::ToolRegistry;
use bwaa::schema::{json_to_gemini_schema, Schema, SchemaType};
use bwaa::tools::{AddReactionTool, BotTool, ExecuteJsTool, SendMessageTool, Tool};

fn all_tools() -> ToolRegistry<BotTool> {
    ToolRegistry::builder()
        .register(BotTool::SendMessage(SendMessageTool))
        .register(BotTool::AddReaction(AddReactionTool))
        .register(BotTool::ExecuteJs(ExecuteJsTool))
        .build()
}

fn property<'a>(s: &'a Schema, name: &str) -> &'a Schema {
    &s.properties.iter().find(|(k, _)| k == name).expect("property").1
}

#[test]
fn registered_tools_are_found_by_name() {
    let reg = all_tools();
    assert_eq!(reg.get("send_message").map(|t| t.name()), Some("send_message"));
    assert_eq!(reg.get("add_reaction").map(|t| t.name()), Some("add_reaction"));
    assert_eq!(reg.get("execute_js").map(|t| t.name()), Some("execute_js"));
    assert!(reg.get("nope").is_none());
    assert!(reg.get("").is_none());
}

#[test]
fn registering_a_name_twice_keeps_one_tool() {
    let reg = ToolRegistry::builder()
        .register(BotTool::ExecuteJs(ExecuteJsTool))
        .register(BotTool::ExecuteJs(ExecuteJsTool))
        .build();
    assert_eq!(reg.to_gemini_tool().function_declarations.len(), 1);
}

#[test]
fn empty_registry_declares_nothing() {
    let reg: ToolRegistry<BotTool> = ToolRegistry::builder().build();
    assert!(reg.get("send_message").is_none());
    assert!(reg.to_gemini_tool().function_declarations.is_empty());
}

#[test]
fn gemini_tool_declares_every_tool_in_order() {
    let tool = all_tools().to_gemini_tool();
    let names: Vec<&str> = tool.function_declarations.iter().map(|d| d.name.as_str()).collect();
    assert_eq!(names, vec!["send_message", "add_reaction", "execute_js"]);
    let d = &tool.function_declarations[0];
    assert_eq!(d.description, "Send a message or reply directly to the active Discord channel.");
    let p = d.parameters.as_ref().expect("parameters");
    assert_eq!(p.schema_type, SchemaType::Object);
    assert_eq!(p.required, vec!["content".to_string()]);
    let content = property(p, "content");
    assert_eq!(content.schema_type, SchemaType::String);
    assert_eq!(content.description, "Text content to send. May include URLs or Discord mentions.");
    assert_eq!(
        property(p, "reply_to_message_id").description,
        "Optional Message ID to reply to directly."
    );
}

#[test]
fn add_reaction_parameters() {
    let schema = json_to_gemini_schema(&AddReactionTool.parameters_schema());
    assert_eq!(schema.schema_type, SchemaType::Object);
    assert_eq!(schema.required, vec!["emoji_name".to_string()]);
    assert_eq!(schema.properties.len(), 3);
    assert_eq!(
        property(&schema, "emoji_name").description,
        "Unicode emoji (e.g. 💀) or custom emoji name"
    );
    assert_eq!(property(&schema, "emoji_id").description, "Snowflake ID if custom server emoji");
    assert_eq!(
        property(&schema, "message_id").description,
        "Target message ID (defaults to trigger message)"
    );
}

#[test]
fn execute_js_parameters() {
    let schema = json_to_gemini_schema(&ExecuteJsTool.parameters_schema());
    assert_eq!(schema.required, vec!["code".to_string()]);
    assert_eq!(property(&schema, "code").schema_type, SchemaType::String);
    assert_eq!(ExecuteJsTool.name(), "execute_js");
    assert_eq!(
        ExecuteJsTool.description(),
        "Execute dynamic JavaScript inside an isolated Deno runtime with channel context."
    );
}

fn obj(members: Vec<(&str, Json)>) -> Json {
    Json::Object(members.into_iter().map(|(k, v)| (k.to_string(), v)).collect())
}

fn s(t: &str) -> Json {
    Json::Str(t.to_string())
}

#[test]
fn schema_of_each_type_name() {
    let cases = [
        ("string", SchemaType::String),
        ("number", SchemaType::Number),
        ("integer", SchemaType::Integer),
        ("boolean", SchemaType::Boolean),
        ("array", SchemaType::Array),
        ("object", SchemaType::Object),
        ("date", SchemaType::Unspecified),
    ];
    for (name, ty) in cases {
        assert_eq!(json_to_gemini_schema(&obj(vec![("type", s(name))])).schema_type, ty);
    }
}

#[test]
fn schema_of_a_non_object_is_empty() {
    for j in [Json::Null, s("string"), Json::Bool(true), Json::Array(vec![])] {
        let schema = json_to_gemini_schema(&j);
        assert_eq!(schema.schema_type, SchemaType::Unspecified);
        assert_eq!(schema.description, "");
        assert!(!schema.nullable);
        assert!(schema.required.is_empty());
        assert!(schema.properties.is_empty());
        assert!(schema.items.is_none());
    }
}

#[test]
fn schema_reads_nullable_required_and_items() {
    let j = obj(vec![
        ("type", s("array")),
        ("nullable", Json::Bool(true)),
        ("required", Json::Array(vec![s("a"), Json::Number("1".to_string()), s("b")])),
        ("items", obj(vec![("type", s("integer")), ("description", s("n"))])),
    ]);
    let schema = json_to_gemini_schema(&j);
    assert_eq!(schema.schema_type, SchemaType::Array);
    assert!(schema.nullable);
    assert_eq!(schema.required, vec!["a".to_string(), "b".to_string()]);
    let items = schema.items.expect("items");
    assert_eq!(items.schema_type, SchemaType::Integer);
    assert_eq!(items.description, "n");
}

#[test]
fn schema_ignores_members_of_the_wrong_kind() {
    let j = obj(vec![
        ("type", Json::Bool(true)),
        ("description", Json::Null),
        ("nullable", s("yes")),
        ("required", s("a")),
        ("properties", Json::Array(vec![])),
    ]);
    let schema = json_to_gemini_schema(&j);
    assert_eq!(schema.schema_type, SchemaType::Unspecified);
    assert_eq!(schema.description, "");
    assert!(!schema.nullable);
    assert!(schema.required.is_empty());
    assert!(schema.properties.is_empty());
}

#[test]
fn schema_properties_of_one_name_keep_the_last() {
    let j = obj(vec![(
        "properties",
        obj(vec![("a", obj(vec![("description", s("first"))])), ("b", obj(vec![])), ("a", obj(vec![("description", s("second"))]))]),
    )]);
    let schema = json_to_gemini_schema(&j);
    let names: Vec<&str> = schema.properties.iter().map(|(k, _)| k.as_str()).collect();
    assert_eq!(names, vec!["a", "b"]);
    assert_eq!(schema.properties[0].1.description, "second");
}
