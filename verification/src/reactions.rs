//! Reactions that wait to be placed on messages.
use crate::text::{parse_u64, spec_parse_u64};
use vstd::prelude::*;

verus! {

/// The pause after placing a queued reaction before the next one, in milliseconds: it
/// keeps the queue's order and stays under the rate limits.
pub const REACTION_PAUSE_MS: u64 = 250;

/// A reaction waiting to be placed on a message.
pub struct QueuedReaction {
    pub channel_id: u64,
    pub message_id: u64,
    pub emoji_name: String,
    pub emoji_id: Option<String>,
}

/// The kind of emoji a reaction uses.
pub enum ReactionKind {
    /// A custom emoji of a server, by id (and name).
    Custom { id: u64, name: String },
    /// A Unicode emoji, by name.
    Unicode { name: String },
}

/// The mathematical form of a `ReactionKind`.
pub enum ReactionKindV {
    Custom { id: u64, name: Seq<char> },
    Unicode { name: Seq<char> },
}

impl View for ReactionKind {
    type V = ReactionKindV;

    open spec fn view(&self) -> ReactionKindV {
        match self {
            ReactionKind::Custom { id, name } => ReactionKindV::Custom { id: *id, name: name@ },
            ReactionKind::Unicode { name } => ReactionKindV::Unicode { name: name@ },
        }
    }
}

/// The kind of emoji for a name and an optional id: a custom emoji where the id is a
/// decimal `u64`, a Unicode emoji otherwise.
pub open spec fn spec_reaction_kind(emoji_name: Seq<char>, emoji_id: Option<Seq<char>>) -> ReactionKindV {
    match emoji_id {
        Some(i) => match spec_parse_u64(i) {
            Some(id) => ReactionKindV::Custom { id, name: emoji_name },
            None => ReactionKindV::Unicode { name: emoji_name },
        },
        None => ReactionKindV::Unicode { name: emoji_name },
    }
}

/// The view of an optional string.
pub open spec fn opt_str_view(s: Option<String>) -> Option<Seq<char>> {
    match s {
        Some(x) => Some(x@),
        None => None,
    }
}

/// The kind of emoji to react with: a custom emoji where `emoji_id` reads as a `u64`, a
/// Unicode emoji otherwise.
pub fn reaction_kind(emoji_name: String, emoji_id: Option<String>) -> (r: ReactionKind)
    ensures
        r@ == spec_reaction_kind(emoji_name@, opt_str_view(emoji_id)),
{
    match emoji_id {
        Some(id_str) => match parse_u64(id_str.as_str()) {
            Some(raw_id) => ReactionKind::Custom { id: raw_id, name: emoji_name },
            None => ReactionKind::Unicode { name: emoji_name },
        },
        None => ReactionKind::Unicode { name: emoji_name },
    }
}

impl QueuedReaction {
    /// The kind of emoji this reaction uses.
    pub fn kind(self) -> (r: ReactionKind)
        ensures
            r@ == spec_reaction_kind(self.emoji_name@, opt_str_view(self.emoji_id)),
    {
        reaction_kind(self.emoji_name, self.emoji_id)
    }
}

} // verus!
