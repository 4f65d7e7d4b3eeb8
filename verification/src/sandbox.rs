//! The JavaScript sandbox's programs: the bootstrap that sets up its globals, the
//! script that describes the triggering message, and the wrapper around user code.
use crate::text::{decimal, u64_to_decimal};
use vstd::prelude::*;
use vstd::string::*;

verus! {

/// An error raised inside the sandbox, with its message.
pub struct SandboxError(pub String);

impl SandboxError {
    /// The error's message (what it displays as).
    pub fn message(&self) -> (r: String)
        ensures
            r@ == self.0@,
    {
        self.0.clone()
    }
}

/// The program that sets up the sandbox's globals: a `console` that collects what is
/// logged, and the `Channel` and `Message` classes.
pub const JS_BOOTSTRAP: &'static str = "\n((globalThis) => {\n    const { ops } = Deno.core;\n\n    globalThis.__console_logs = [];\n    globalThis.console = {\n        log: (...args) => {\n            globalThis.__console_logs.push(\n                args.map(a => (typeof a === 'object' ? JSON.stringify(a) : String(a))).join(' ')\n            );\n        },\n        error: (...args) => {\n            globalThis.__console_logs.push(\n                \"[ERROR] \" + args.map(a => (typeof a === 'object' ? JSON.stringify(a) : String(a))).join(' ')\n            );\n        },\n        warn: (...args) => {\n            globalThis.__console_logs.push(\n                \"[WARN] \" + args.map(a => (typeof a === 'object' ? JSON.stringify(a) : String(a))).join(' ')\n            );\n        }\n    };\n\n    class Channel {\n        constructor(id) {\n            this.id = id;\n        }\n\n        getHistory(limit = 10) {\n            return ops.op_get_channel_messages(limit);\n        }\n    }\n\n    class Message {\n        constructor(data) {\n            this.id = data.id;\n            this.content = data.content;\n            this.author = data.author;\n            this.channel = new Channel(data.channelId);\n        }\n\n        async reply(text) {\n            return await ops.op_send_reply(text);\n        }\n    }\n\n    globalThis.Message = Message;\n    globalThis.Channel = Channel;\n})(globalThis);\n";

/// The hexadecimal digit of `d` (lower case).
pub open spec fn hex_digit(d: int) -> char {
    if d < 10 {
        (48 + d) as char
    } else {
        (87 + d) as char
    }
}

/// How a JSON string writes `c`: quote, backslash and control characters escaped (the
/// usual short forms where there is one, `\u00XX` otherwise), anything else as it is.
pub open spec fn json_escape_char(c: char) -> Seq<char> {
    if c == '"' {
        seq!['\\', '"']
    } else if c == '\\' {
        seq!['\\', '\\']
    } else if c == '\u{8}' {
        seq!['\\', 'b']
    } else if c == '\t' {
        seq!['\\', 't']
    } else if c == '\n' {
        seq!['\\', 'n']
    } else if c == '\u{c}' {
        seq!['\\', 'f']
    } else if c == '\r' {
        seq!['\\', 'r']
    } else if (c as u32) < 0x20 {
        seq!['\\', 'u', '0', '0', hex_digit((c as u32) as int / 16), hex_digit((c as u32) as int % 16)]
    } else {
        seq![c]
    }
}

/// The characters of `s` as a JSON string writes them.
pub open spec fn json_escaped(s: Seq<char>) -> Seq<char>
    decreases s.len(),
{
    if s.len() == 0 {
        Seq::empty()
    } else {
        json_escaped(s.drop_last()) + json_escape_char(s.last())
    }
}

/// `s` as a JSON string literal.
pub open spec fn json_quoted(s: Seq<char>) -> Seq<char> {
    seq!['"'] + json_escaped(s) + seq!['"']
}

/// `serde_json::to_string` of a string: the JSON string literal for `s` (which cannot
/// fail for a string).
#[verifier::external_body]
fn json_quote(s: &str) -> (r: String)
    ensures
        r@ == json_quoted(s@),
{
    serde_json::to_string(s).unwrap_or_default()
}

/// The script that describes the triggering message to user code.
pub open spec fn spec_hydration_script(
    message_id: u64,
    content: Seq<char>,
    author: Seq<char>,
    channel_id: u64,
) -> Seq<char> {
    "globalThis.message = new Message({ id: "@ + json_quoted(decimal(message_id as nat))
        + ", content: "@ + json_quoted(content) + ", author: "@ + json_quoted(author)
        + ", channelId: "@ + json_quoted(decimal(channel_id as nat)) + " });"@
}

/// The script that sets `globalThis.message` to the triggering message: its id, content,
/// author and channel, each written as a JSON string.
pub fn hydration_script(message_id: u64, content: &str, author: &str, channel_id: u64) -> (r:
    String)
    ensures
        r@ == spec_hydration_script(message_id, content@, author@, channel_id),
{
    let id = u64_to_decimal(message_id);
    let ch = u64_to_decimal(channel_id);
    let mut s = String::from_str("globalThis.message = new Message({ id: ");
    s.append(json_quote(id.as_str()).as_str());
    s.append(", content: ");
    s.append(json_quote(content).as_str());
    s.append(", author: ");
    s.append(json_quote(author).as_str());
    s.append(", channelId: ");
    s.append(json_quote(ch.as_str()).as_str());
    s.append(" });");
    s
}

/// The script that runs user code: it clears the collected logs, evaluates the code
/// (given as a JSON string) and yields its value (`null` for `undefined`) with the logs.
pub open spec fn spec_wrapped_script(code: Seq<char>) -> Seq<char> {
    "(async () => {\n                globalThis.__console_logs = [];\n                let __ret = await (async () => {\n                    return eval("@ + json_quoted(code) + ");\n                })();\n                return {\n                    return_value: __ret !== undefined ? __ret : null,\n                    logs: globalThis.__console_logs || []\n                };\n            })()"@
}

/// The script that runs `code` and yields its value and the logs.
pub fn wrapped_script(code: &str) -> (r: String)
    ensures
        r@ == spec_wrapped_script(code@),
{
    let mut s = String::from_str("(async () => {\n                globalThis.__console_logs = [];\n                let __ret = await (async () => {\n                    return eval(");
    s.append(json_quote(code).as_str());
    s.append(");\n                })();\n                return {\n                    return_value: __ret !== undefined ? __ret : null,\n                    logs: globalThis.__console_logs || []\n                };\n            })()");
    s
}

/// A character that a JSON string may hold as it is: neither a quote, nor a backslash,
/// nor a control character.
pub open spec fn is_plain_json_char(c: char) -> bool {
    c != '"' && c != '\\' && (c as u32) >= 0x20
}

/// A hexadecimal digit.
pub open spec fn is_hex_char(c: char) -> bool {
    ('0' <= c && c <= '9') || ('a' <= c && c <= 'f') || ('A' <= c && c <= 'F')
}

/// A character that may follow a backslash in a two-character JSON escape.
pub open spec fn is_short_escape(c: char) -> bool {
    c == '"' || c == '\\' || c == '/' || c == 'b' || c == 'f' || c == 'n' || c == 'r' || c == 't'
}

/// What may stand between the quotes of a JSON string: plain characters, two-character
/// escapes and `\uXXXX` escapes.
pub open spec fn json_string_body(t: Seq<char>) -> bool
    decreases t.len(),
{
    if t.len() == 0 {
        true
    } else if is_plain_json_char(t[0]) {
        json_string_body(t.drop_first())
    } else if t[0] == '\\' && t.len() >= 2 && is_short_escape(t[1]) {
        json_string_body(t.subrange(2, t.len() as int))
    } else if t[0] == '\\' && t.len() >= 6 && t[1] == 'u' && is_hex_char(t[2]) && is_hex_char(t[3])
        && is_hex_char(t[4]) && is_hex_char(t[5]) {
        json_string_body(t.subrange(6, t.len() as int))
    } else {
        false
    }
}

proof fn lemma_body_concat(a: Seq<char>, b: Seq<char>)
    requires
        json_string_body(a),
        json_string_body(b),
    ensures
        json_string_body(a + b),
    decreases a.len(),
{
    let t = a + b;
    if a.len() == 0 {
        assert(t =~= b);
    } else if is_plain_json_char(a[0]) {
        lemma_body_concat(a.drop_first(), b);
        assert(t.drop_first() =~= a.drop_first() + b);
    } else if a[0] == '\\' && a.len() >= 2 && is_short_escape(a[1]) {
        lemma_body_concat(a.subrange(2, a.len() as int), b);
        assert(t.subrange(2, t.len() as int) =~= a.subrange(2, a.len() as int) + b);
    } else {
        lemma_body_concat(a.subrange(6, a.len() as int), b);
        assert(t.subrange(6, t.len() as int) =~= a.subrange(6, a.len() as int) + b);
    }
}

proof fn lemma_hex_digit(d: int)
    requires
        0 <= d < 16,
    ensures
        is_hex_char(hex_digit(d)),
{
    if d < 10 {
        assert(((48 + d) as char) as u32 == 48 + d);
    } else {
        assert(((87 + d) as char) as u32 == 87 + d);
    }
}

proof fn lemma_escape_char_body(c: char)
    ensures
        json_string_body(json_escape_char(c)),
{
    reveal_with_fuel(json_string_body, 2);
    let e = json_escape_char(c);
    if c == '"' || c == '\\' || c == '\u{8}' || c == '\t' || c == '\n' || c == '\u{c}' || c
        == '\r' {
        assert(e.subrange(2, e.len() as int) =~= Seq::<char>::empty());
    } else if (c as u32) < 0x20 {
        lemma_hex_digit((c as u32) as int / 16);
        lemma_hex_digit((c as u32) as int % 16);
        assert(e.subrange(6, e.len() as int) =~= Seq::<char>::empty());
    } else {
        assert(e.drop_first() =~= Seq::<char>::empty());
    }
}

/// Every text that the sandbox's scripts write as a JSON string is a well-formed one:
/// between its quotes stand only plain characters and escape sequences, so no content,
/// name or code can end the string early or break the script.
pub proof fn lemma_json_quoted_well_formed(s: Seq<char>)
    ensures
        json_quoted(s) == seq!['"'] + json_escaped(s) + seq!['"'],
        json_string_body(json_escaped(s)),
    decreases s.len(),
{
    if s.len() > 0 {
        lemma_json_quoted_well_formed(s.drop_last());
        lemma_escape_char_body(s.last());
        lemma_body_concat(json_escaped(s.drop_last()), json_escape_char(s.last()));
    }
}

} // verus!
