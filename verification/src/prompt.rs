//! Reading an incoming message: whether to ignore it, its prompt, the turn it becomes, and
//! whether the bot answers it.
use crate::text::{decimal, replace_all, replaced, spec_trim, trim, u64_to_decimal};
use vstd::prelude::*;
use vstd::string::*;

verus! {

/// The mention of a user: `<@id>`.
pub open spec fn mention(id: u64) -> Seq<char> {
    "<@"@ + decimal(id as nat) + ">"@
}

/// The nickname mention of a user: `<@!id>`.
pub open spec fn nick_mention(id: u64) -> Seq<char> {
    "<@!"@ + decimal(id as nat) + ">"@
}

/// `s` without the mentions of the given users, in order.
pub open spec fn strip_mentions(s: Seq<char>, ids: Seq<u64>) -> Seq<char>
    decreases ids.len(),
{
    if ids.len() == 0 {
        s
    } else {
        let t = strip_mentions(s, ids.drop_last());
        replaced(replaced(t, mention(ids.last()), Seq::empty()), nick_mention(ids.last()), Seq::empty())
    }
}

/// The prompt of a message: its content without the mentions of the mentioned users,
/// trimmed.
pub open spec fn spec_clean_prompt(content: Seq<char>, ids: Seq<u64>) -> Seq<char> {
    spec_trim(strip_mentions(content, ids))
}

fn mention_text(open: &str, id: u64) -> (r: String)
    ensures
        r@ == open@ + decimal(id as nat) + ">"@,
{
    let mut s = String::from_str(open);
    let d = u64_to_decimal(id);
    s.append(d.as_str());
    s.append(">");
    s
}

/// The prompt of a message: its content without the mentions (`<@id>` and `<@!id>`) of
/// the mentioned users, trimmed.
pub fn clean_prompt(content: &str, mentioned_ids: &Vec<u64>) -> (r: String)
    ensures
        r@ == spec_clean_prompt(content@, mentioned_ids@),
{
    let mut clean = String::from_str(content);
    let mut i: usize = 0;
    while i < mentioned_ids.len()
        invariant
            i <= mentioned_ids@.len(),
            clean@ == strip_mentions(content@, mentioned_ids@.subrange(0, i as int)),
        decreases mentioned_ids@.len() - i,
    {
        let id = mentioned_ids[i];
        let m = mention_text("<@", id);
        let n = mention_text("<@!", id);
        proof {
            reveal_strlit("<@");
            reveal_strlit("<@!");
            reveal_strlit("");
            assert(""@ =~= Seq::<char>::empty());
        }
        let once = replace_all(clean.as_str(), m.as_str(), "");
        let twice = replace_all(once.as_str(), n.as_str(), "");
        assert(mentioned_ids@.subrange(0, i + 1).drop_last() =~= mentioned_ids@.subrange(0, i as int));
        assert(mentioned_ids@.subrange(0, i + 1).last() == id);
        assert(m@ == mention(id));
        assert(n@ == nick_mention(id));
        clean = twice;
        i = i + 1;
    }
    assert(mentioned_ids@.subrange(0, i as int) =~= mentioned_ids@);
    trim(clean.as_str()).to_owned()
}

/// The text of the turn a message becomes: `[Msg ID: id] author: prompt`.
pub open spec fn spec_user_turn_text(message_id: u64, author: Seq<char>, prompt: Seq<char>) -> Seq<char> {
    "[Msg ID: "@ + decimal(message_id as nat) + "] "@ + author + ": "@ + prompt
}

/// The text of the turn a message becomes, so that the model can refer to the message.
pub fn format_user_turn(message_id: u64, author: &str, prompt: &str) -> (r: String)
    ensures
        r@ == spec_user_turn_text(message_id, author@, prompt@),
{
    let mut s = String::from_str("[Msg ID: ");
    let d = u64_to_decimal(message_id);
    s.append(d.as_str());
    s.append("] ");
    s.append(author);
    s.append(": ");
    s.append(prompt);
    s
}

/// Whether a message is ignored: it comes from a bot, or from this bot.
pub fn is_ignored(author_is_bot: bool, author_id: u64, bot_id: u64) -> (b: bool)
    ensures
        b == (author_is_bot || author_id == bot_id),
{
    author_is_bot || author_id == bot_id
}

/// Whether the bot is among the mentioned users.
pub fn is_mentioned(mentioned_ids: &Vec<u64>, bot_id: u64) -> (b: bool)
    ensures
        b == mentioned_ids@.contains(bot_id),
{
    let mut i: usize = 0;
    while i < mentioned_ids.len()
        invariant
            i <= mentioned_ids@.len(),
            forall|k: int| 0 <= k < i ==> mentioned_ids@[k] != bot_id,
        decreases mentioned_ids@.len() - i,
    {
        if mentioned_ids[i] == bot_id {
            assert(mentioned_ids@[i as int] == bot_id);
            return true;
        }
        i = i + 1;
    }
    false
}

/// Whether the message replies to one of the bot's (given the author of the message it
/// replies to, where it replies to one).
pub fn is_reply_to_bot(replied_author_id: Option<u64>, bot_id: u64) -> (b: bool)
    ensures
        b == (replied_author_id == Some(bot_id)),
{
    match replied_author_id {
        Some(a) => a == bot_id,
        None => false,
    }
}

/// Whether the bot answers: where it is mentioned, replied to, or the chance roll came up.
pub fn should_respond(mentioned: bool, replied_to: bool, random_roll: bool) -> (b: bool)
    ensures
        b == (mentioned || replied_to || random_roll),
{
    mentioned || replied_to || random_roll
}

} // verus!
