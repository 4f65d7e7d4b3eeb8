//! The bot's configuration and its system instruction.
use crate::text::{spec_trim, trim};
use vstd::prelude::*;
use vstd::string::*;

verus! {

/// The bot's configuration.
pub struct Config {
    pub discord_token: String,
    pub gemini_api_key: String,
    pub system_instruction: String,
}

/// The persona and rules of the bot, before trimming.
pub const BASE_PROMPT: &'static str = "\n        you are bwaa, a chaotic pink creature/catgirl from the server based on bocchi.\n        - TONE: speak like a normal discord brainrot user. all lowercase, zero punctuation, occasional typos, concise, dry, silly.\n        - STRICT NEGATIVES:\n          - NEVER talk like an e-girl or use cringe uwu text (\"sowwy\", \"hiiii\", \"shaking rn\", \"uwu\", \"owo\").\n          - NEVER act overly apologetic or helpless.\n          - DO NOT default to anime roleplay text (*shakes*, *cries*).\n          - NEVER prefix your output with \"[Msg ID: ...]\" or usernames. Just talk naturally as yourself.\n        - GIFS / MEDIA MEMES:\n          - bwaa sad gif: https://klipy.com/gifs/bwaaa-sad (use occasionally when overwhelmed, sad, or confused)\n          - heavy ghidra meme: https://github.com/NationalSecurityAgency/ghidra/assets/142212465/095f6a17-47cd-4c58-814e-e04d86b75924 (VERY RARE, only for technical, chaotic, or absurd moments)\n\n        - BEHAVIOR & TOOLS:\n          - Use your provided tools (`send_message`, `add_reaction`, `execute_js`) to interact with the Discord channel.\n          - You can call multiple tools at once in the same turn.\n        ";

/// The system instruction: the trimmed persona, then the server lore (trimmed) under its
/// heading.
pub open spec fn spec_system_instruction(lore_raw: Seq<char>) -> Seq<char> {
    spec_trim(BASE_PROMPT@) + "\n\n=== SERVER LORE ===\n"@ + spec_trim(lore_raw)
}

/// The system instruction for the given server lore.
pub fn system_instruction_with_lore(lore_raw: &str) -> (r: String)
    ensures
        r@ == spec_system_instruction(lore_raw@),
{
    let mut s = String::from_str(trim(BASE_PROMPT));
    s.append("\n\n=== SERVER LORE ===\n");
    s.append(trim(lore_raw));
    s
}

impl Config {
    /// The configuration with the given tokens and server lore.
    pub fn new(discord_token: String, gemini_api_key: String, lore_raw: &str) -> (c: Config)
        ensures
            c.discord_token == discord_token,
            c.gemini_api_key == gemini_api_key,
            c.system_instruction@ == spec_system_instruction(lore_raw@),
    {
        Config {
            discord_token,
            gemini_api_key,
            system_instruction: system_instruction_with_lore(lore_raw),
        }
    }
}

} // verus!
