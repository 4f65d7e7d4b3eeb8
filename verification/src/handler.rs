//! The decisions of one autonomous chat turn: the request to the model, the retry with
//! text only, reading the model's decision, and what its actions come to.
use crate::model::{
    contents_view, parts_view, Content, ContentV, DataV, Part, PartData, PartV,
};
use crate::reactions::opt_str_view;
use crate::request::{
    system_content, system_turn, GenerateContentRequest, GenerationConfig, RequestV,
};
use crate::text::{
    chunk_utf8, contains, decimal, join, joined, lemma_parse_decimal, occurs_at, spec_trim,
    strings_view, trim, u64_to_decimal, utf8_chunks,
};
use crate::tools::{parse_id, parsed_id, CHUNK_BYTES};
use vstd::prelude::*;
use vstd::string::*;
use vstd::utf8::encode_utf8;

verus! {

/// The pause between the reactions of one message, in milliseconds, so that they are
/// placed in the order asked.
pub const GROUPED_REACTION_PAUSE_MS: u64 = 200;

/// The model that decides each turn.
pub const MODEL_NAME: &'static str = "models/gemini-3.1-flash-lite";

/// One thing the model decides to do.
pub enum Action {
    /// React to a message (the triggering one where `message_id` is absent or not an id).
    AddReaction { message_id: Option<String>, emoji_name: String, emoji_id: Option<String> },
    /// Send a message, optionally as a reply.
    SendMessage { content: String, reply_to_message_id: Option<String> },
    /// Run JavaScript in the sandbox.
    ExecuteJs { code: String },
    /// Do nothing.
    DoNothing,
}

/// The model's decision: why, and what to do.
pub struct DecisionResponse {
    pub reason: String,
    pub actions: Vec<Action>,
}

/// The mathematical form of an `Action`.
pub enum ActionV {
    AddReaction {
        message_id: Option<Seq<char>>,
        emoji_name: Seq<char>,
        emoji_id: Option<Seq<char>>,
    },
    SendMessage { content: Seq<char>, reply_to_message_id: Option<Seq<char>> },
    ExecuteJs { code: Seq<char> },
    DoNothing,
}

impl View for Action {
    type V = ActionV;

    open spec fn view(&self) -> ActionV {
        match self {
            Action::AddReaction { message_id, emoji_name, emoji_id } => ActionV::AddReaction {
                message_id: opt_str_view(*message_id),
                emoji_name: emoji_name@,
                emoji_id: opt_str_view(*emoji_id),
            },
            Action::SendMessage { content, reply_to_message_id } => ActionV::SendMessage {
                content: content@,
                reply_to_message_id: opt_str_view(*reply_to_message_id),
            },
            Action::ExecuteJs { code } => ActionV::ExecuteJs { code: code@ },
            Action::DoNothing => ActionV::DoNothing,
        }
    }
}

/// The views of a sequence of actions.
pub open spec fn actions_view(a: Seq<Action>) -> Seq<ActionV> {
    a.map_values(|x: Action| x@)
}

/// The banner that introduces recalled memories.
pub open spec fn recalled_prefix(recalled: Seq<Seq<char>>) -> Seq<char> {
    "=== RECALLED MEMORIES ===\n"@ + joined(recalled, "\n"@) + "\n\n"@
}

/// The history with recalled memories put in front of the text of the first part of the
/// last turn, where there are memories and that part is text; unchanged otherwise.
pub open spec fn spec_inject(history: Seq<ContentV>, recalled: Seq<Seq<char>>) -> Seq<ContentV> {
    if recalled.len() > 0 && history.len() > 0 && history.last().parts.len() > 0 {
        match history.last().parts[0] {
            Some(DataV::Text(t)) => history.update(
                history.len() - 1,
                ContentV {
                    role: history.last().role,
                    parts: history.last().parts.update(
                        0,
                        Some(DataV::Text(recalled_prefix(recalled) + t)),
                    ),
                },
            ),
            _ => history,
        }
    } else {
        history
    }
}

/// Puts recalled memories in front of the text of the first part of the last turn.
pub fn inject_recalled_memories(history: &mut Vec<Content>, recalled: &Vec<String>)
    ensures
        contents_view(final(history)@) == spec_inject(
            contents_view(old(history)@),
            strings_view(recalled@),
        ),
{
    if recalled.len() == 0 || history.len() == 0 {
        return;
    }
    let ghost h0 = contents_view(history@);
    let mut last = history.pop().unwrap();
    assert(last@ == h0.last());
    let new_text = if last.parts.len() > 0 {
        match &last.parts[0].data {
            Some(PartData::Text(t)) => {
                let mut s = String::from_str("=== RECALLED MEMORIES ===\n");
                let j = join(recalled, "\n");
                s.append(j.as_str());
                s.append("\n\n");
                s.append(t.as_str());
                Some(s)
            },
            _ => None,
        }
    } else {
        None
    };
    match new_text {
        Some(s) => {
            let ghost pv = parts_view(last.parts@);
            let ghost sv = s@;
            last.parts.set(0, Part::text(s));
            assert(parts_view(last.parts@) =~= pv.update(0, Some(DataV::Text(sv))));
        },
        None => {},
    }
    let ghost lv = last@;
    history.push(last);
    assert(contents_view(history@) =~= h0.drop_last().push(lv));
    assert(h0.drop_last().push(h0.last()) =~= h0);
}

/// The text parts among the parts, in order.
pub open spec fn text_parts(parts: Seq<PartV>) -> Seq<PartV>
    decreases parts.len(),
{
    if parts.len() == 0 {
        Seq::empty()
    } else {
        let rest = text_parts(parts.drop_last());
        if parts.last() matches Some(DataV::Text(_)) {
            rest.push(parts.last())
        } else {
            rest
        }
    }
}

/// Each turn with only its text parts.
pub open spec fn spec_text_only(cs: Seq<ContentV>) -> Seq<ContentV> {
    cs.map_values(|c: ContentV| ContentV { role: c.role, parts: text_parts(c.parts) })
}

/// Copies of the turns, each keeping only its text parts (for a retry without media).
pub fn text_only_contents(contents: &Vec<Content>) -> (r: Vec<Content>)
    ensures
        contents_view(r@) == spec_text_only(contents_view(contents@)),
{
    let ghost cs = contents_view(contents@);
    let mut out: Vec<Content> = Vec::new();
    let mut i: usize = 0;
    while i < contents.len()
        invariant
            cs == contents_view(contents@),
            i <= contents@.len(),
            contents_view(out@) == spec_text_only(cs.subrange(0, i as int)),
        decreases contents@.len() - i,
    {
        let c = &contents[i];
        let ghost pv = parts_view(c.parts@);
        let mut parts: Vec<Part> = Vec::new();
        let mut k: usize = 0;
        while k < c.parts.len()
            invariant
                pv == parts_view(c.parts@),
                k <= c.parts@.len(),
                parts_view(parts@) == text_parts(pv.subrange(0, k as int)),
            decreases c.parts@.len() - k,
        {
            assert(pv.subrange(0, k + 1).drop_last() =~= pv.subrange(0, k as int));
            assert(pv.subrange(0, k + 1).last() == c.parts@[k as int]@);
            if c.parts[k].is_text() {
                let ghost before = parts_view(parts@);
                parts.push(c.parts[k].duplicate());
                assert(parts_view(parts@) =~= before.push(c.parts@[k as int]@));
            }
            k = k + 1;
        }
        assert(pv.subrange(0, k as int) =~= pv);
        let ghost before = contents_view(out@);
        out.push(Content { role: c.role.clone(), parts });
        assert(contents_view(out@) =~= before.push(
            ContentV { role: cs[i as int].role, parts: text_parts(cs[i as int].parts) },
        ));
        assert(spec_text_only(cs.subrange(0, i + 1)) =~= spec_text_only(
            cs.subrange(0, i as int),
        ).push(ContentV { role: cs[i as int].role, parts: text_parts(cs[i as int].parts) }));
        i = i + 1;
    }
    assert(cs.subrange(0, i as int) =~= cs);
    out
}

/// The request for the model's decision: `MODEL_NAME`, the history, the system
/// instruction, and an answer in JSON.
pub open spec fn spec_decision_request(history: Seq<ContentV>, system_instruction: Seq<char>) -> RequestV {
    RequestV {
        model: MODEL_NAME@,
        contents: history,
        system_instruction: Some(system_turn(system_instruction)),
        tools: Seq::empty(),
        response_mime_type: Some("application/json"@),
    }
}

/// The request for the model's decision on `history`.
pub fn decision_request(history: Vec<Content>, system_instruction: String) -> (r:
    GenerateContentRequest)
    ensures
        r@ == spec_decision_request(contents_view(history@), system_instruction@),
{
    let r = GenerateContentRequest {
        model: String::from_str(MODEL_NAME),
        contents: history,
        system_instruction: Some(system_content(system_instruction)),
        tools: Vec::new(),
        generation_config: Some(GenerationConfig { response_mime_type: String::from_str("application/json") }),
    };
    assert(r@.tools =~= Seq::empty());
    r
}

/// Whether a failed request was refused as an invalid argument (then it is retried with
/// text only).
pub fn is_invalid_argument(error_text: &str) -> (b: bool)
    ensures
        b == exists|i: int| occurs_at(error_text@, "Invalid argument"@, i),
{
    contains(error_text, "Invalid argument")
}

/// The retry of a refused request: the same request with each turn keeping only its
/// text parts.
pub fn text_only_request(req: GenerateContentRequest) -> (r: GenerateContentRequest)
    ensures
        r@ == (RequestV { contents: spec_text_only(req@.contents), ..req@ }),
{
    let contents = text_only_contents(&req.contents);
    GenerateContentRequest { contents, ..req }
}

/// The decision taken where the model's answer is not a decision: send the answer's text
/// as a reply to the triggering message.
pub open spec fn spec_fallback(raw_text: Seq<char>, trigger_message_id: u64) -> (Seq<char>, Seq<ActionV>) {
    (
        "Fallback parse"@,
        seq![
            ActionV::SendMessage {
                content: raw_text,
                reply_to_message_id: Some(decimal(trigger_message_id as nat)),
            },
        ],
    )
}

/// The view of a decision: its reason and its actions.
pub open spec fn decision_view(d: DecisionResponse) -> (Seq<char>, Seq<ActionV>) {
    (d.reason@, actions_view(d.actions@))
}

/// The decision to act on: the parsed decision where the answer was one, and otherwise a
/// reply to the triggering message with the answer's text.
pub fn decide(parsed: Option<DecisionResponse>, raw_text: &str, trigger_message_id: u64) -> (r:
    DecisionResponse)
    ensures
        decision_view(r) == match parsed {
            Some(d) => decision_view(d),
            None => spec_fallback(raw_text@, trigger_message_id),
        },
{
    match parsed {
        Some(d) => d,
        None => {
            let a = Action::SendMessage {
                content: String::from_str(raw_text),
                reply_to_message_id: Some(u64_to_decimal(trigger_message_id)),
            };
            let ghost av = a@;
            let actions = vec![a];
            assert(actions_view(actions@) =~= seq![av]);
            DecisionResponse { reason: String::from_str("Fallback parse"), actions }
        },
    }
}

/// An emoji to react with: its name and optional id.
pub type EmojiV = (Seq<char>, Option<Seq<char>>);

/// The message that a reaction action targets: the one its `message_id` names where that
/// reads as an id, the triggering one otherwise.
pub open spec fn reaction_target(message_id: Option<Seq<char>>, trigger_message_id: u64) -> u64 {
    match parsed_id(message_id) {
        Some(id) => id,
        None => trigger_message_id,
    }
}

/// The reactions the actions ask for, in order: target message and emoji.
pub open spec fn reactions_in(actions: Seq<ActionV>, trigger_message_id: u64) -> Seq<(u64, EmojiV)>
    decreases actions.len(),
{
    if actions.len() == 0 {
        Seq::empty()
    } else {
        let rest = reactions_in(actions.drop_last(), trigger_message_id);
        match actions.last() {
            ActionV::AddReaction { message_id, emoji_name, emoji_id } => rest.push(
                (reaction_target(message_id, trigger_message_id), (emoji_name, emoji_id)),
            ),
            _ => rest,
        }
    }
}

/// The index of the group of `target`, or -1 where there is none.
pub open spec fn group_index(groups: Seq<(u64, Seq<EmojiV>)>, target: u64) -> int
    decreases groups.len(),
{
    if groups.len() == 0 {
        -1
    } else if groups.last().0 == target {
        groups.len() - 1
    } else {
        group_index(groups.drop_last(), target)
    }
}

/// Groups with one more reaction: appended to its target's group, or in a new group at
/// the end.
pub open spec fn add_to_group(groups: Seq<(u64, Seq<EmojiV>)>, item: (u64, EmojiV)) -> Seq<
    (u64, Seq<EmojiV>),
> {
    let k = group_index(groups, item.0);
    if 0 <= k < groups.len() {
        groups.update(k, (item.0, groups[k].1.push(item.1)))
    } else {
        groups.push((item.0, seq![item.1]))
    }
}

/// The reactions grouped by target message, groups in order of first appearance.
pub open spec fn group_reactions(items: Seq<(u64, EmojiV)>) -> Seq<(u64, Seq<EmojiV>)>
    decreases items.len(),
{
    if items.len() == 0 {
        Seq::empty()
    } else {
        add_to_group(group_reactions(items.drop_last()), items.last())
    }
}

proof fn lemma_group_index(groups: Seq<(u64, Seq<EmojiV>)>, target: u64)
    ensures
        -1 <= group_index(groups, target) < groups.len(),
        0 <= group_index(groups, target) ==> groups[group_index(groups, target)].0 == target,
        group_index(groups, target) < 0 ==> forall|i: int|
            0 <= i < groups.len() ==> (#[trigger] groups[i]).0 != target,
    decreases groups.len(),
{
    if groups.len() > 0 {
        lemma_group_index(groups.drop_last(), target);
        assert forall|i: int| 0 <= i < groups.len() - 1 implies groups.drop_last()[i]
            == groups[i] by {}
    }
}

/// The emojis of the reactions on `target`, in order.
pub open spec fn emojis_for(items: Seq<(u64, EmojiV)>, target: u64) -> Seq<EmojiV>
    decreases items.len(),
{
    if items.len() == 0 {
        Seq::empty()
    } else if items.last().0 == target {
        emojis_for(items.drop_last(), target).push(items.last().1)
    } else {
        emojis_for(items.drop_last(), target)
    }
}

proof fn lemma_emojis_for_empty(items: Seq<(u64, EmojiV)>, target: u64)
    requires
        forall|m: int| 0 <= m < items.len() ==> (#[trigger] items[m]).0 != target,
    ensures
        emojis_for(items, target).len() == 0,
    decreases items.len(),
{
    if items.len() > 0 {
        assert(items[items.len() - 1].0 != target);
        assert forall|m: int| 0 <= m < items.drop_last().len() implies (
        #[trigger] items.drop_last()[m]).0 != target by {
            assert(items.drop_last()[m] == items[m]);
        }
        lemma_emojis_for_empty(items.drop_last(), target);
    }
}

/// Grouping keeps, for every message, the reactions on it in the order they were asked:
/// the groups have distinct targets, each group holds exactly the emojis asked for its
/// target in order, and every reaction's target has a group.
pub proof fn lemma_reaction_groups(items: Seq<(u64, EmojiV)>)
    ensures
        forall|i: int, j: int|
            0 <= i < group_reactions(items).len() && 0 <= j < group_reactions(items).len() && i
                != j ==> (#[trigger] group_reactions(items)[i]).0 != (#[trigger] group_reactions(
                items,
            )[j]).0,
        forall|k: int|
            0 <= k < group_reactions(items).len() ==> (#[trigger] group_reactions(items)[k]).1
                == emojis_for(items, group_reactions(items)[k].0),
        forall|m: int|
            0 <= m < items.len() ==> exists|k: int|
                0 <= k < group_reactions(items).len() && (#[trigger] group_reactions(items)[k]).0
                    == (#[trigger] items[m]).0,
    decreases items.len(),
{
    if items.len() > 0 {
        let prev = items.drop_last();
        lemma_reaction_groups(prev);
        let gs = group_reactions(prev);
        let it = items.last();
        let t = it.0;
        let r = group_reactions(items);
        assert(r == add_to_group(gs, it));
        lemma_group_index(gs, t);
        let k = group_index(gs, t);
        assert forall|j: int| 0 <= j < gs.len() && gs[j].0 != t implies emojis_for(items, gs[j].0)
            == emojis_for(prev, gs[j].0) by {}
        if 0 <= k < gs.len() {
            assert(r == gs.update(k, (t, gs[k].1.push(it.1))));
            assert(emojis_for(items, t) == emojis_for(prev, t).push(it.1));
            assert forall|j: int| 0 <= j < r.len() implies (#[trigger] r[j]).1 == emojis_for(
                items,
                r[j].0,
            ) by {
                if j != k {
                    assert(r[j] == gs[j]);
                    assert(gs[j].0 != gs[k].0);
                }
            }
            assert forall|m: int| 0 <= m < items.len() implies exists|q: int|
                0 <= q < r.len() && (#[trigger] r[q]).0 == (#[trigger] items[m]).0 by {
                if m < prev.len() {
                    assert(items[m] == prev[m]);
                    let q = choose|q: int| 0 <= q < gs.len() && (#[trigger] gs[q]).0 == prev[m].0;
                    assert(r[q].0 == gs[q].0);
                } else {
                    assert(r[k].0 == items[m].0);
                }
            }
        } else {
            assert(r == gs.push((t, seq![it.1])));
            assert forall|m: int| 0 <= m < prev.len() implies (#[trigger] prev[m]).0 != t by {
                let q = choose|q: int| 0 <= q < gs.len() && (#[trigger] gs[q]).0 == prev[m].0;
                assert(gs[q].0 != t);
            }
            lemma_emojis_for_empty(prev, t);
            assert(emojis_for(items, t) =~= seq![it.1]);
            assert forall|j: int| 0 <= j < r.len() implies (#[trigger] r[j]).1 == emojis_for(
                items,
                r[j].0,
            ) by {
                if j < gs.len() {
                    assert(r[j] == gs[j]);
                }
            }
            assert forall|m: int| 0 <= m < items.len() implies exists|q: int|
                0 <= q < r.len() && (#[trigger] r[q]).0 == (#[trigger] items[m]).0 by {
                if m < prev.len() {
                    assert(items[m] == prev[m]);
                    let q = choose|q: int| 0 <= q < gs.len() && (#[trigger] gs[q]).0 == prev[m].0;
                    assert(r[q] == gs[q]);
                } else {
                    assert(r[gs.len() as int].0 == items[m].0);
                }
            }
        }
        assert forall|i: int, j: int|
            0 <= i < r.len() && 0 <= j < r.len() && i != j implies (#[trigger] r[i]).0 != (
            #[trigger] r[j]).0 by {
            if 0 <= k < gs.len() {
                if i != k && j != k {
                    assert(r[i] == gs[i] && r[j] == gs[j]);
                } else if i == k {
                    assert(r[j] == gs[j]);
                    assert(gs[j].0 != gs[k].0);
                } else {
                    assert(r[i] == gs[i]);
                    assert(gs[i].0 != gs[k].0);
                }
            } else {
                if i < gs.len() && j < gs.len() {
                    assert(r[i] == gs[i] && r[j] == gs[j]);
                } else if i < gs.len() {
                    assert(r[i] == gs[i]);
                } else {
                    assert(r[j] == gs[j]);
                }
            }
        }
    }
}

/// A message to send: its trimmed text (recorded as a turn of the model), its pieces,
/// and the message it replies to.
pub struct MessagePlan {
    pub text: String,
    pub chunks: Vec<String>,
    pub reply_to: Option<u64>,
}

/// The reactions on one message, in the order they are to be placed.
pub struct ReactionGroup {
    pub message_id: u64,
    pub emojis: Vec<(String, Option<String>)>,
}

/// A message to send or a script to run.
pub enum TurnTask {
    Send(MessagePlan),
    Run(String),
}

/// What a decision comes to: its reactions, grouped by message, and its messages and
/// scripts in the order the actions ask for them.
pub struct TurnPlan {
    pub reactions: Vec<ReactionGroup>,
    pub tasks: Vec<TurnTask>,
}

/// The mathematical form of a `TurnTask`.
pub enum TaskV {
    Send((Seq<char>, Seq<Seq<char>>, Option<u64>)),
    Run(Seq<char>),
}

/// The mathematical form of a `MessagePlan`.
pub open spec fn message_view(m: MessagePlan) -> (Seq<char>, Seq<Seq<char>>, Option<u64>) {
    (m.text@, strings_view(m.chunks@), m.reply_to)
}

/// The mathematical form of a `TurnTask`.
pub open spec fn task_view(t: TurnTask) -> TaskV {
    match t {
        TurnTask::Send(m) => TaskV::Send(message_view(m)),
        TurnTask::Run(code) => TaskV::Run(code@),
    }
}

/// The mathematical form of a `ReactionGroup`.
pub open spec fn group_view(g: ReactionGroup) -> (u64, Seq<EmojiV>) {
    (g.message_id, g.emojis@.map_values(|e: (String, Option<String>)| (e.0@, opt_str_view(e.1))))
}

/// The message that a send action comes to: nothing for a blank text; otherwise the
/// trimmed text, cut into pieces of at most `CHUNK_BYTES` bytes (keeping the pieces that
/// are valid UTF-8), replying to the message its reply id names where that reads as one.
pub open spec fn message_for(content: Seq<char>, reply_to: Option<Seq<char>>) -> Option<
    (Seq<char>, Seq<Seq<char>>, Option<u64>),
> {
    let t = spec_trim(content);
    if t.len() == 0 {
        None
    } else {
        Some((t, utf8_chunks(encode_utf8(t), CHUNK_BYTES as nat), parsed_id(reply_to)))
    }
}

/// The messages to send and the scripts to run that the actions ask for, in order.
pub open spec fn tasks_in(actions: Seq<ActionV>) -> Seq<TaskV>
    decreases actions.len(),
{
    if actions.len() == 0 {
        Seq::empty()
    } else {
        let rest = tasks_in(actions.drop_last());
        match actions.last() {
            ActionV::SendMessage { content, reply_to_message_id } => match message_for(
                content,
                reply_to_message_id,
            ) {
                Some(m) => rest.push(TaskV::Send(m)),
                None => rest,
            },
            ActionV::ExecuteJs { code } => rest.push(TaskV::Run(code)),
            _ => rest,
        }
    }
}

fn copy_opt(s: &Option<String>) -> (r: Option<String>)
    ensures
        opt_str_view(r) == opt_str_view(*s),
{
    match s {
        Some(t) => Some(t.clone()),
        None => None,
    }
}

fn find_group(groups: &Vec<ReactionGroup>, target: u64) -> (r: Option<usize>)
    ensures
        match r {
            Some(k) => k < groups@.len() && k == group_index(
                groups@.map_values(|g: ReactionGroup| group_view(g)),
                target,
            ),
            None => group_index(groups@.map_values(|g: ReactionGroup| group_view(g)), target) == -1,
        },
{
    let ghost gv = groups@.map_values(|g: ReactionGroup| group_view(g));
    let mut i: usize = groups.len();
    assert(gv.subrange(0, i as int) =~= gv);
    while i > 0
        invariant
            gv == groups@.map_values(|g: ReactionGroup| group_view(g)),
            i <= groups@.len(),
            group_index(gv, target) == group_index(gv.subrange(0, i as int), target),
        decreases i,
    {
        assert(gv.subrange(0, i as int).drop_last() =~= gv.subrange(0, i - 1));
        if groups[i - 1].message_id == target {
            return Some(i - 1);
        }
        i = i - 1;
    }
    None
}

/// What a decision comes to: its reactions grouped by target message (groups in order
/// of first appearance, each in the order asked), and its messages and scripts in order.
pub fn plan_actions(decision: &DecisionResponse, trigger_message_id: u64) -> (r: TurnPlan)
    ensures
        r.reactions@.map_values(|g: ReactionGroup| group_view(g)) == group_reactions(
            reactions_in(actions_view(decision.actions@), trigger_message_id),
        ),
        r.tasks@.map_values(|t: TurnTask| task_view(t)) == tasks_in(
            actions_view(decision.actions@),
        ),
{
    let ghost av = actions_view(decision.actions@);
    let mut groups: Vec<ReactionGroup> = Vec::new();
    let mut tasks: Vec<TurnTask> = Vec::new();
    let mut i: usize = 0;
    while i < decision.actions.len()
        invariant
            av == actions_view(decision.actions@),
            i <= av.len(),
            groups@.map_values(|g: ReactionGroup| group_view(g)) == group_reactions(
                reactions_in(av.subrange(0, i as int), trigger_message_id),
            ),
            tasks@.map_values(|t: TurnTask| task_view(t)) == tasks_in(av.subrange(0, i as int)),
        decreases av.len() - i,
    {
        assert(av.subrange(0, i + 1).drop_last() =~= av.subrange(0, i as int));
        assert(av.subrange(0, i + 1).last() == decision.actions@[i as int]@);
        match &decision.actions[i] {
            Action::AddReaction { message_id, emoji_name, emoji_id } => {
                let target = match parse_id(
                    match message_id {
                        Some(m) => Some(m.as_str()),
                        None => None,
                    },
                ) {
                    Some(id) => id,
                    None => trigger_message_id,
                };
                let emoji = (emoji_name.clone(), copy_opt(emoji_id));
                let ghost ev = (emoji.0@, opt_str_view(emoji.1));
                let ghost gv0 = groups@.map_values(|g: ReactionGroup| group_view(g));
                let ghost items = reactions_in(av.subrange(0, i + 1), trigger_message_id);
                assert(items == reactions_in(av.subrange(0, i as int), trigger_message_id).push(
                    (target, ev),
                ));
                assert(items.drop_last() =~= reactions_in(
                    av.subrange(0, i as int),
                    trigger_message_id,
                ));
                match find_group(&groups, target) {
                    Some(k) => {
                        proof {
                            lemma_group_index(gv0, target);
                        }
                        let mut g = groups.remove(k);
                        let ghost g0 = group_view(g);
                        let ghost em0 = g.emojis@;
                        g.emojis.push(emoji);
                        assert(g.emojis@.map_values(
                            |e: (String, Option<String>)| (e.0@, opt_str_view(e.1)),
                        ) =~= g0.1.push(ev));
                        groups.insert(k, g);
                        assert(groups@.map_values(|g: ReactionGroup| group_view(g)) =~= gv0.update(
                            k as int,
                            (target, gv0[k as int].1.push(ev)),
                        ));
                    },
                    None => {
                        let mut emojis: Vec<(String, Option<String>)> = Vec::new();
                        emojis.push(emoji);
                        let g = ReactionGroup { message_id: target, emojis };
                        assert(group_view(g).1 =~= seq![ev]);
                        groups.push(g);
                        assert(groups@.map_values(|g: ReactionGroup| group_view(g)) =~= gv0.push(
                            (target, seq![ev]),
                        ));
                    },
                }
            },
            Action::SendMessage { content, reply_to_message_id } => {
                let trimmed = trim(content.as_str());
                if trimmed.unicode_len() > 0 {
                    let chunks = chunk_utf8(trimmed, CHUNK_BYTES);
                    let reply_to = parse_id(
                        match reply_to_message_id {
                            Some(m) => Some(m.as_str()),
                            None => None,
                        },
                    );
                    let m = TurnTask::Send(MessagePlan { text: trimmed.to_owned(), chunks, reply_to });
                    let ghost tb = tasks@.map_values(|t: TurnTask| task_view(t));
                    let ghost tv = task_view(m);
                    tasks.push(m);
                    assert(tasks@.map_values(|t: TurnTask| task_view(t)) =~= tb.push(tv));
                }
            },
            Action::ExecuteJs { code } => {
                let ghost tb = tasks@.map_values(|t: TurnTask| task_view(t));
                tasks.push(TurnTask::Run(code.clone()));
                assert(tasks@.map_values(|t: TurnTask| task_view(t)) =~= tb.push(TaskV::Run(code@)));
            },
            Action::DoNothing => {},
        }
        i = i + 1;
    }
    assert(av.subrange(0, i as int) =~= av);
    TurnPlan { reactions: groups, tasks }
}

/// The message that reports a failed script.
pub open spec fn spec_js_error_message(error: Seq<char>) -> Seq<char> {
    "```js\n[JS Eval Error]: "@ + error + "\n```"@
}

/// The message that reports a failed script: the error in a code block.
pub fn js_error_message(error: &str) -> (r: String)
    ensures
        r@ == spec_js_error_message(error@),
{
    let mut s = String::from_str("```js\n[JS Eval Error]: ");
    s.append(error);
    s.append("\n```");
    s
}

/// Where the model's answer is not a decision, the bot only replies: with the answer's
/// trimmed text, as a reply to the triggering message, unless that text is blank; it
/// places no reaction and runs no script.
pub proof fn lemma_fallback_replies_to_trigger(raw_text: Seq<char>, trigger_message_id: u64)
    ensures
        ({
            let actions = spec_fallback(raw_text, trigger_message_id).1;
            let t = spec_trim(raw_text);
            &&& tasks_in(actions) == (if t.len() == 0 {
                Seq::empty()
            } else {
                seq![
                    TaskV::Send(
                        (t, utf8_chunks(encode_utf8(t), CHUNK_BYTES as nat), Some(trigger_message_id)),
                    ),
                ]
            })
            &&& reactions_in(actions, trigger_message_id).len() == 0
        }),
{
    lemma_parse_decimal(trigger_message_id);
    let actions = spec_fallback(raw_text, trigger_message_id).1;
    let reply = Some(decimal(trigger_message_id as nat));
    assert(parsed_id(reply) == Some(trigger_message_id));
    assert(actions.drop_last() =~= Seq::<ActionV>::empty());
    assert(actions.last() == ActionV::SendMessage { content: raw_text, reply_to_message_id: reply });
    assert(tasks_in(actions.drop_last()) =~= Seq::empty());
    assert(reactions_in(actions.drop_last(), trigger_message_id) =~= Seq::empty());
    let t = spec_trim(raw_text);
    if t.len() > 0 {
        assert(message_for(raw_text, reply) == Some(
            (t, utf8_chunks(encode_utf8(t), CHUNK_BYTES as nat), Some(trigger_message_id)),
        ));
        assert(tasks_in(actions) =~= seq![
            TaskV::Send(
                (t, utf8_chunks(encode_utf8(t), CHUNK_BYTES as nat), Some(trigger_message_id)),
            ),
        ]);
    } else {
        assert(tasks_in(actions) =~= Seq::empty());
    }
}

} // verus!
