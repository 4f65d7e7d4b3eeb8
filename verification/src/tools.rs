//! The tools that the model may call, what calling them yields, and how their results
//! are reported back.
use crate::json::{
    json_array, json_member, json_object, json_pretty, json_str, members_view, pretty_json, Json,
    JsonV,
};
use crate::reactions::QueuedReaction;
use crate::schema::{find_member, member, strings_in, strings_of};
use crate::text::{
    chunk_utf8, decimal, join, joined, parse_u64, spec_parse_u64, spec_trim, strings_view, trim,
    truncate_str, u64_to_decimal, utf8_chunks,
};
use vstd::prelude::*;
use vstd::string::*;
use vstd::utf8::{encode_utf8, is_char_boundary};

verus! {

/// A tool that the model may call: its name, what it does, and the JSON Schema of its
/// arguments.
pub trait Tool {
    spec fn spec_name(&self) -> Seq<char>;

    spec fn spec_description(&self) -> Seq<char>;

    spec fn spec_parameters(&self) -> JsonV;

    fn name(&self) -> (r: &'static str)
        ensures
            r@ == self.spec_name(),
    ;

    fn description(&self) -> (r: &'static str)
        ensures
            r@ == self.spec_description(),
    ;

    fn parameters_schema(&self) -> (r: Json)
        ensures
            r@ == self.spec_parameters(),
    ;
}

/// One field of an embed.
pub struct EmbedField {
    pub name: String,
    pub value: String,
    pub inline: bool,
}

/// A rich message attachment shown with a reply.
pub struct Embed {
    pub title: Option<String>,
    pub description: Option<String>,
    pub fields: Vec<EmbedField>,
    pub color: Option<u32>,
    pub kind: String,
}

/// What an informational tool hands back.
pub struct ToolResult {
    /// The JSON payload sent back to the model in the function response.
    pub model_response: Json,
    /// An optional embed to attach to the final reply.
    pub visual_embed: Option<Embed>,
}

impl ToolResult {
    /// A result with no embed.
    pub fn info(data: Json) -> (r: ToolResult)
        ensures
            r.model_response == data,
            r.visual_embed is None,
    {
        ToolResult { model_response: data, visual_embed: None }
    }

    /// A result with an embed.
    pub fn info_with_embed(data: Json, embed: Embed) -> (r: ToolResult)
        ensures
            r.model_response == data,
            r.visual_embed == Some(embed),
    {
        ToolResult { model_response: data, visual_embed: Some(embed) }
    }
}

/// What running a tool yields.
pub enum ToolOutput {
    /// An informational answer, with an optional embed.
    Info(ToolResult),
    /// A side effect was carried out (or deliberately skipped).
    ActionExecuted(&'static str),
    /// The turn is to end.
    Stop,
}

/// The schema of a string property with a description.
pub open spec fn string_property(description: Seq<char>) -> JsonV {
    JsonV::Object(
        seq![("description"@, JsonV::Str(description)), ("type"@, JsonV::Str("string"@))],
    )
}

fn string_property_json(description: &str) -> (r: Json)
    ensures
        r@ == string_property(description@),
{
    let d = json_member("description", json_str(description));
    let t = json_member("type", json_str("string"));
    let ghost dv = (d.0@, d.1@);
    let ghost tv = (t.0@, t.1@);
    let members = vec![d, t];
    let r = json_object(members);
    assert(members_view(members@) =~= seq![dv, tv]);
    r
}

/// The schema of an object with the given properties, of which `required` are required.
pub open spec fn object_schema(properties: Seq<(Seq<char>, JsonV)>, required: Seq<char>) -> JsonV {
    JsonV::Object(
        seq![
            ("properties"@, JsonV::Object(properties)),
            ("required"@, JsonV::Array(seq![JsonV::Str(required)])),
            ("type"@, JsonV::Str("object"@)),
        ],
    )
}

fn object_schema_json(properties: Vec<(String, Json)>, required: &str) -> (r: Json)
    ensures
        r@ == object_schema(members_view(properties@), required@),
{
    let p = json_member("properties", json_object(properties));
    let req_items = vec![json_str(required)];
    let req_arr = json_array(req_items);
    assert(req_items@.map_values(|x: Json| x@) =~= seq![JsonV::Str(required@)]);
    let q = json_member("required", req_arr);
    let t = json_member("type", json_str("object"));
    let ghost pv = (p.0@, p.1@);
    let ghost qv = (q.0@, q.1@);
    let ghost tv = (t.0@, t.1@);
    let members = vec![p, q, t];
    let r = json_object(members);
    assert(members_view(members@) =~= seq![pv, qv, tv]);
    r
}

/// The tool that sends a message to the channel.
pub struct SendMessageTool;

/// The arguments of `send_message`.
pub open spec fn send_message_parameters() -> JsonV {
    object_schema(
        seq![
            ("content"@, string_property(
                "Text content to send. May include URLs or Discord mentions."@,
            )),
            ("reply_to_message_id"@, string_property("Optional Message ID to reply to directly."@)),
        ],
        "content"@,
    )
}

impl Tool for SendMessageTool {
    open spec fn spec_name(&self) -> Seq<char> {
        "send_message"@
    }

    open spec fn spec_description(&self) -> Seq<char> {
        "Send a message or reply directly to the active Discord channel."@
    }

    open spec fn spec_parameters(&self) -> JsonV {
        send_message_parameters()
    }

    fn name(&self) -> (r: &'static str) {
        "send_message"
    }

    fn description(&self) -> (r: &'static str) {
        "Send a message or reply directly to the active Discord channel."
    }

    fn parameters_schema(&self) -> (r: Json) {
        let c = json_member(
            "content",
            string_property_json("Text content to send. May include URLs or Discord mentions."),
        );
        let m = json_member(
            "reply_to_message_id",
            string_property_json("Optional Message ID to reply to directly."),
        );
        let ghost cv = (c.0@, c.1@);
        let ghost mv = (m.0@, m.1@);
        let props = vec![c, m];
        assert(members_view(props@) =~= seq![cv, mv]);
        object_schema_json(props, "content")
    }
}

/// What sending a message comes to.
pub enum SendPlan {
    /// The message is blank: nothing is sent.
    Skip,
    /// Send these pieces, in order, each as a reply to `reply_to` where it is given.
    Send { chunks: Vec<String>, reply_to: Option<u64> },
}

/// The largest piece of a message, in bytes.
pub const CHUNK_BYTES: usize = 1900;

/// The id that an optional decimal text names, where it reads as one.
pub open spec fn parsed_id(s: Option<Seq<char>>) -> Option<u64> {
    match s {
        Some(t) => spec_parse_u64(t),
        None => None,
    }
}

/// Reads an optional decimal id.
pub fn parse_id(s: Option<&str>) -> (r: Option<u64>)
    ensures
        r == parsed_id(
            match s {
                Some(t) => Some(t@),
                None => None,
            },
        ),
{
    match s {
        Some(t) => parse_u64(t),
        None => None,
    }
}

impl SendMessageTool {
    /// What to send for `content`: nothing where it is blank; otherwise its trimmed text
    /// cut into pieces of at most `CHUNK_BYTES` bytes (pieces that are not valid UTF-8 on
    /// their own are left out), as replies to `reply_to_message_id` where that reads as an
    /// id.
    pub fn plan(&self, content: &str, reply_to_message_id: Option<&str>) -> (r: SendPlan)
        ensures
            spec_trim(content@).len() == 0 <==> r is Skip,
            r matches SendPlan::Send { chunks, reply_to } ==> {
                &&& chunks@.map_values(|c: String| c@) == utf8_chunks(
                    encode_utf8(spec_trim(content@)),
                    CHUNK_BYTES as nat,
                )
                &&& reply_to == parsed_id(
                    match reply_to_message_id {
                        Some(t) => Some(t@),
                        None => None,
                    },
                )
            },
    {
        let trimmed = trim(content);
        if trimmed.unicode_len() == 0 {
            return SendPlan::Skip;
        }
        let chunks = chunk_utf8(trimmed, CHUNK_BYTES);
        SendPlan::Send { chunks, reply_to: parse_id(reply_to_message_id) }
    }

    /// What the tool reports once the plan is carried out.
    pub fn outcome(plan: &SendPlan) -> (r: ToolOutput)
        ensures
            r matches ToolOutput::ActionExecuted(m) && (m@ == if plan is Skip {
                "Empty message skipped"@
            } else {
                "Message sent"@
            }),
    {
        match plan {
            SendPlan::Skip => ToolOutput::ActionExecuted("Empty message skipped"),
            SendPlan::Send { .. } => ToolOutput::ActionExecuted("Message sent"),
        }
    }
}

/// The tool that reacts to a message with an emoji.
pub struct AddReactionTool;

/// The arguments of `add_reaction`.
pub open spec fn add_reaction_parameters() -> JsonV {
    object_schema(
        seq![
            ("emoji_id"@, string_property("Snowflake ID if custom server emoji"@)),
            ("emoji_name"@, string_property(
                "Unicode emoji (e.g. \u{1f480}) or custom emoji name"@,
            )),
            ("message_id"@, string_property("Target message ID (defaults to trigger message)"@)),
        ],
        "emoji_name"@,
    )
}

impl Tool for AddReactionTool {
    open spec fn spec_name(&self) -> Seq<char> {
        "add_reaction"@
    }

    open spec fn spec_description(&self) -> Seq<char> {
        "React to a message with a unicode or custom emoji."@
    }

    open spec fn spec_parameters(&self) -> JsonV {
        add_reaction_parameters()
    }

    fn name(&self) -> (r: &'static str) {
        "add_reaction"
    }

    fn description(&self) -> (r: &'static str) {
        "React to a message with a unicode or custom emoji."
    }

    fn parameters_schema(&self) -> (r: Json) {
        let a = json_member("emoji_id", string_property_json("Snowflake ID if custom server emoji"));
        let b = json_member(
            "emoji_name",
            string_property_json("Unicode emoji (e.g. \u{1f480}) or custom emoji name"),
        );
        let c = json_member(
            "message_id",
            string_property_json("Target message ID (defaults to trigger message)"),
        );
        let ghost av = (a.0@, a.1@);
        let ghost bv = (b.0@, b.1@);
        let ghost cv = (c.0@, c.1@);
        let props = vec![a, b, c];
        assert(members_view(props@) =~= seq![av, bv, cv]);
        object_schema_json(props, "emoji_name")
    }
}

impl AddReactionTool {
    /// The reaction to queue: on the message that `message_id` names where it reads as an
    /// id, on the triggering message otherwise.
    pub fn plan(
        &self,
        channel_id: u64,
        trigger_message_id: u64,
        emoji_name: String,
        emoji_id: Option<String>,
        message_id: Option<&str>,
    ) -> (r: QueuedReaction)
        ensures
            r.channel_id == channel_id,
            r.message_id == match parsed_id(
                match message_id {
                    Some(t) => Some(t@),
                    None => None,
                },
            ) {
                Some(id) => id,
                None => trigger_message_id,
            },
            r.emoji_name == emoji_name,
            r.emoji_id == emoji_id,
    {
        let target = match parse_id(message_id) {
            Some(id) => id,
            None => trigger_message_id,
        };
        QueuedReaction { channel_id, message_id: target, emoji_name, emoji_id }
    }

    /// What the tool reports once the reaction is queued.
    pub fn outcome() -> (r: ToolOutput)
        ensures
            r matches ToolOutput::ActionExecuted(m) && m@ == "Reaction queued"@,
    {
        ToolOutput::ActionExecuted("Reaction queued")
    }
}

/// The mathematical form of an `Embed`: title, description, fields (name, value,
/// inline), color and kind.
pub struct EmbedV {
    pub title: Option<Seq<char>>,
    pub description: Option<Seq<char>>,
    pub fields: Seq<(Seq<char>, Seq<char>, bool)>,
    pub color: Option<u32>,
    pub kind: Seq<char>,
}

impl View for Embed {
    type V = EmbedV;

    open spec fn view(&self) -> EmbedV {
        EmbedV {
            title: match &self.title {
                Some(t) => Some(t@),
                None => None,
            },
            description: match &self.description {
                Some(d) => Some(d@),
                None => None,
            },
            fields: self.fields@.map_values(|f: EmbedField| (f.name@, f.value@, f.inline)),
            color: self.color,
            kind: self.kind@,
        }
    }
}

/// The tool that runs JavaScript in the sandbox.
pub struct ExecuteJsTool;

/// The arguments of `execute_js`.
pub open spec fn execute_js_parameters() -> JsonV {
    object_schema(
        seq![("code"@, string_property("JS code to execute in sandbox."@))],
        "code"@,
    )
}

impl Tool for ExecuteJsTool {
    open spec fn spec_name(&self) -> Seq<char> {
        "execute_js"@
    }

    open spec fn spec_description(&self) -> Seq<char> {
        "Execute dynamic JavaScript inside an isolated Deno runtime with channel context."@
    }

    open spec fn spec_parameters(&self) -> JsonV {
        execute_js_parameters()
    }

    fn name(&self) -> (r: &'static str) {
        "execute_js"
    }

    fn description(&self) -> (r: &'static str) {
        "Execute dynamic JavaScript inside an isolated Deno runtime with channel context."
    }

    fn parameters_schema(&self) -> (r: Json) {
        let c = json_member("code", string_property_json("JS code to execute in sandbox."));
        let ghost cv = (c.0@, c.1@);
        let props = vec![c];
        assert(members_view(props@) =~= seq![cv]);
        object_schema_json(props, "code")
    }
}

/// Any of the bot's tools, so that one registry can hold them all.
pub enum BotTool {
    SendMessage(SendMessageTool),
    AddReaction(AddReactionTool),
    ExecuteJs(ExecuteJsTool),
}

impl Tool for BotTool {
    open spec fn spec_name(&self) -> Seq<char> {
        match self {
            BotTool::SendMessage(t) => t.spec_name(),
            BotTool::AddReaction(t) => t.spec_name(),
            BotTool::ExecuteJs(t) => t.spec_name(),
        }
    }

    open spec fn spec_description(&self) -> Seq<char> {
        match self {
            BotTool::SendMessage(t) => t.spec_description(),
            BotTool::AddReaction(t) => t.spec_description(),
            BotTool::ExecuteJs(t) => t.spec_description(),
        }
    }

    open spec fn spec_parameters(&self) -> JsonV {
        match self {
            BotTool::SendMessage(t) => t.spec_parameters(),
            BotTool::AddReaction(t) => t.spec_parameters(),
            BotTool::ExecuteJs(t) => t.spec_parameters(),
        }
    }

    fn name(&self) -> (r: &'static str) {
        match self {
            BotTool::SendMessage(t) => t.name(),
            BotTool::AddReaction(t) => t.name(),
            BotTool::ExecuteJs(t) => t.name(),
        }
    }

    fn description(&self) -> (r: &'static str) {
        match self {
            BotTool::SendMessage(t) => t.description(),
            BotTool::AddReaction(t) => t.description(),
            BotTool::ExecuteJs(t) => t.description(),
        }
    }

    fn parameters_schema(&self) -> (r: Json) {
        match self {
            BotTool::SendMessage(t) => t.parameters_schema(),
            BotTool::AddReaction(t) => t.parameters_schema(),
            BotTool::ExecuteJs(t) => t.parameters_schema(),
        }
    }
}

/// The member `key` of a JSON object (none for anything but an object).
pub open spec fn json_field(j: JsonV, key: Seq<char>) -> Option<JsonV> {
    match j {
        JsonV::Object(m) => member(m, key),
        _ => None,
    }
}

/// The console output of a sandbox run: its `logs` strings, one per line.
pub open spec fn spec_logs(output: JsonV) -> Seq<char> {
    match json_field(output, "logs"@) {
        Some(JsonV::Array(a)) => joined(strings_in(a), "\n"@),
        _ => Seq::empty(),
    }
}

/// What a sandbox run shows: its logs, followed by the returned value (pretty-printed)
/// where there is one that is not null; the returned value alone where there are no logs;
/// `undefined` where there is neither.
pub open spec fn spec_display(output: JsonV) -> Seq<char> {
    let logs = spec_logs(output);
    let ret = json_field(output, "return_value"@);
    if logs.len() > 0 {
        match ret {
            Some(v) => if v != JsonV::Null {
                logs + "\n\n[Returned]: "@ + json_pretty(v)
            } else {
                logs
            },
            None => logs,
        }
    } else {
        match ret {
            Some(JsonV::Null) => "undefined"@,
            Some(v) => json_pretty(v),
            None => "undefined"@,
        }
    }
}

fn field_of<'a>(j: &'a Json, key: &str) -> (r: Option<&'a Json>)
    ensures
        match json_field(j@, key@) {
            Some(v) => r is Some && r->0@ == v,
            None => r is None,
        },
{
    match j {
        Json::Object(m) => {
            proof {
                crate::json::lemma_object_view(*m);
            }
            match find_member(m, key) {
                Some(k) => Some(&m[k].1),
                None => None,
            }
        },
        _ => None,
    }
}

impl ExecuteJsTool {
    /// What a sandbox run shows (see `spec_display`).
    pub fn display_text(output: &Json) -> (r: String)
        ensures
            r@ == spec_display(output@),
    {
        let logs = match field_of(output, "logs") {
            Some(Json::Array(a)) => {
                proof {
                    crate::json::lemma_array_view(*a);
                }
                let lines = strings_of(a);
                join(&lines, "\n")
            },
            _ => String::new(),
        };
        let ret = field_of(output, "return_value");
        if logs.as_str().unicode_len() > 0 {
            match ret {
                Some(v) => {
                    let is_null = match v {
                        Json::Null => true,
                        _ => false,
                    };
                    if !is_null {
                        let pretty = pretty_json(v);
                        let mut t = logs;
                        t.append("\n\n[Returned]: ");
                        t.append(pretty.as_str());
                        t
                    } else {
                        logs
                    }
                },
                None => logs,
            }
        } else {
            match ret {
                Some(Json::Null) => String::from_str("undefined"),
                Some(v) => pretty_json(v),
                None => String::from_str("undefined"),
            }
        }
    }
}

/// The text a sandbox run reports: what it shows, or the error.
pub open spec fn spec_output_text(eval: Result<JsonV, Seq<char>>) -> Seq<char> {
    match eval {
        Ok(o) => spec_display(o),
        Err(e) => e,
    }
}

/// The first `max` bytes of the text `s` (all of it where it is shorter), as text.
pub open spec fn truncated(s: Seq<char>, max: nat) -> Seq<char> {
    if encode_utf8(s).len() <= max {
        s
    } else {
        vstd::utf8::decode_utf8(encode_utf8(s).subrange(0, max as int))
    }
}

/// A text that can be cut after `max` bytes without splitting a character.
pub open spec fn cuttable(s: Seq<char>, max: nat) -> bool {
    encode_utf8(s).len() <= max || is_char_boundary(encode_utf8(s), max as int)
}

/// The largest part of the code or of the output shown in an embed, in bytes.
pub const EMBED_TEXT_BYTES: usize = 900;

/// The embed that reports a sandbox run.
pub open spec fn spec_js_embed(
    code: Seq<char>,
    output_text: Seq<char>,
    success: bool,
    elapsed_ms: u64,
) -> EmbedV {
    EmbedV {
        title: Some(
            if success {
                "\u{26a1} JS Sandbox Executed"@
            } else {
                "\u{26a0}\u{fe0f} JS Execution Failed"@
            },
        ),
        description: Some("```js\n"@ + truncated(code, EMBED_TEXT_BYTES as nat) + "\n```"@),
        fields: seq![
            ((if success {
                "\u{2728} Output"@
            } else {
                "\u{1f4a5} Error"@
            }) + " ("@ + decimal(elapsed_ms as nat) + "ms)"@, "```json\n"@ + truncated(
                output_text,
                EMBED_TEXT_BYTES as nat,
            ) + "\n```"@, false),
        ],
        color: Some(
            if success {
                0xF472B6u32
            } else {
                0xEF4444u32
            },
        ),
        kind: "rich"@,
    }
}

/// The payload a sandbox run hands back to the model.
pub open spec fn spec_js_response(eval: Result<JsonV, Seq<char>>) -> JsonV {
    match eval {
        Ok(v) => JsonV::Object(
            seq![("result"@, v), ("status"@, JsonV::Str("success"@))],
        ),
        Err(e) => JsonV::Object(seq![("error"@, JsonV::Str(e)), ("status"@, JsonV::Str("error"@))]),
    }
}

/// The view of an evaluation result.
pub open spec fn eval_view(eval: &Result<Json, String>) -> Result<JsonV, Seq<char>> {
    match eval {
        Ok(v) => Ok(v@),
        Err(e) => Err(e@),
    }
}

fn truncate_text(s: &str) -> (r: String)
    requires
        cuttable(s@, EMBED_TEXT_BYTES as nat),
    ensures
        r@ == truncated(s@, EMBED_TEXT_BYTES as nat),
{
    let t = truncate_str(s, EMBED_TEXT_BYTES);
    proof {
        vstd::utf8::encode_utf8_decode_utf8(t@);
    }
    t.to_owned()
}

fn fenced(open: &str, body: &str) -> (r: String)
    ensures
        r@ == open@ + body@ + "\n```"@,
{
    let mut s = String::from_str(open);
    s.append(body);
    s.append("\n```");
    s
}

impl ExecuteJsTool {
    /// What the tool reports for a run of `code`: the run's payload for the model and an
    /// embed showing the code and its output (or error), each cut to `EMBED_TEXT_BYTES`
    /// bytes. Cutting inside a character would panic, so both must be cuttable there.
    pub fn report(
        &self,
        code: &str,
        eval: Result<Json, String>,
        elapsed_ms: u64,
    ) -> (r: ToolOutput)
        requires
            cuttable(code@, EMBED_TEXT_BYTES as nat),
            cuttable(spec_output_text(eval_view(&eval)), EMBED_TEXT_BYTES as nat),
        ensures
            r is Info,
            r->Info_0.model_response@ == spec_js_response(eval_view(&eval)),
            r->Info_0.visual_embed is Some,
            r->Info_0.visual_embed->0@ == spec_js_embed(
                code@,
                spec_output_text(eval_view(&eval)),
                eval is Ok,
                elapsed_ms,
            ),
    {
        let success = eval.is_ok();
        let output_text = match &eval {
            Ok(output) => ExecuteJsTool::display_text(output),
            Err(e) => e.clone(),
        };
        let mut field_name = if success {
            String::from_str("\u{2728} Output")
        } else {
            String::from_str("\u{1f4a5} Error")
        };
        field_name.append(" (");
        let ms = u64_to_decimal(elapsed_ms);
        field_name.append(ms.as_str());
        field_name.append("ms)");
        let code_shown = truncate_text(code);
        let output_shown = truncate_text(output_text.as_str());
        let field = EmbedField {
            name: field_name,
            value: fenced("```json\n", output_shown.as_str()),
            inline: false,
        };
        let ghost fv = (field.name@, field.value@, field.inline);
        let fields = vec![field];
        let embed = Embed {
            title: Some(
                if success {
                    String::from_str("\u{26a1} JS Sandbox Executed")
                } else {
                    String::from_str("\u{26a0}\u{fe0f} JS Execution Failed")
                },
            ),
            description: Some(fenced("```js\n", code_shown.as_str())),
            fields,
            color: Some(
                if success {
                    0xF472B6u32
                } else {
                    0xEF4444u32
                },
            ),
            kind: String::from_str("rich"),
        };
        assert(embed@.fields =~= seq![fv]);
        let response_data = match eval {
            Ok(val) => {
                let a = json_member("result", val);
                let b = json_member("status", json_str("success"));
                let ghost av = (a.0@, a.1@);
                let ghost bv = (b.0@, b.1@);
                let members = vec![a, b];
                assert(members_view(members@) =~= seq![av, bv]);
                json_object(members)
            },
            Err(e) => {
                let a = json_member("error", Json::Str(e));
                let b = json_member("status", json_str("error"));
                let ghost av = (a.0@, a.1@);
                let ghost bv = (b.0@, b.1@);
                let members = vec![a, b];
                assert(members_view(members@) =~= seq![av, bv]);
                json_object(members)
            },
        };
        ToolOutput::Info(ToolResult::info_with_embed(response_data, embed))
    }
}

/// `t` is what an embed shows of `s` within `max` bytes: the longest start of `s` that
/// fits, so all of `s` where it fits and exactly `max` bytes of it otherwise.
pub open spec fn shown_start(t: Seq<char>, s: Seq<char>, max: nat) -> bool {
    &&& encode_utf8(t).len() <= max
    &&& t.len() <= s.len()
    &&& s.take(t.len() as int) == t
    &&& encode_utf8(s).len() <= max ==> t == s
    &&& encode_utf8(s).len() > max ==> encode_utf8(t).len() == max
}

proof fn lemma_truncated(s: Seq<char>, max: nat)
    requires
        cuttable(s, max),
    ensures
        shown_start(truncated(s, max), s, max),
{
    let bytes = encode_utf8(s);
    if bytes.len() <= max {
        assert(s.take(s.len() as int) =~= s);
    } else {
        vstd::utf8::encode_utf8_valid_utf8(s);
        vstd::utf8::encode_utf8_decode_utf8(s);
        vstd::utf8::decode_utf8_split(bytes, max as int);
        vstd::utf8::valid_utf8_split(bytes, max as int);
        let pre = bytes.subrange(0, max as int);
        let t = vstd::utf8::decode_utf8(pre);
        vstd::utf8::decode_utf8_encode_utf8(pre);
        let rest = vstd::utf8::decode_utf8(bytes.subrange(max as int, bytes.len() as int));
        assert(s == t + rest);
        assert(s.take(t.len() as int) =~= t);
    }
}

/// The embed of a run shows at most `EMBED_TEXT_BYTES` bytes of the code and of the output:
/// each stands in its block as the longest start that fits (all of it where it fits).
pub proof fn lemma_js_embed_cuts(code: Seq<char>, output: Seq<char>, success: bool, ms: u64)
    requires
        cuttable(code, EMBED_TEXT_BYTES as nat),
        cuttable(output, EMBED_TEXT_BYTES as nat),
    ensures
        ({
            let e = spec_js_embed(code, output, success, ms);
            &&& e.fields.len() == 1
            &&& exists|t: Seq<char>|
                e.fields[0].1 == "```json\n"@ + t + "\n```"@ && shown_start(
                    t,
                    output,
                    EMBED_TEXT_BYTES as nat,
                )
            &&& exists|t: Seq<char>|
                e.description == Some("```js\n"@ + t + "\n```"@) && shown_start(
                    t,
                    code,
                    EMBED_TEXT_BYTES as nat,
                )
        }),
{
    lemma_truncated(code, EMBED_TEXT_BYTES as nat);
    lemma_truncated(output, EMBED_TEXT_BYTES as nat);
    let e = spec_js_embed(code, output, success, ms);
    let t1 = truncated(output, EMBED_TEXT_BYTES as nat);
    let t2 = truncated(code, EMBED_TEXT_BYTES as nat);
    assert(e.fields[0].1 == "```json\n"@ + t1 + "\n```"@);
    assert(e.description == Some("```js\n"@ + t2 + "\n```"@));
}

} // verus!
