//! The decisions of one agent turn: what to ask the model, what its answer asks for, what
//! the tools' results come to, when the turn ends, and what is finally posted.
use crate::history::{sanitize_history, spec_sanitize_history};
use crate::json::{json_member, json_object, json_str, members_view, Json, JsonV};
use crate::model::{
    contents_view, duplicate_parts, parts_view, CallV, Content, ContentV, DataV, FunctionCall,
    FunctionResponse, Part, PartData, PartV,
};
use crate::request::{
    system_turn, tools_view, GeminiTool, GenerateContentRequest, GenerateContentResponse,
    RequestBuilder, RequestV,
};
use crate::text::{
    chunk_text, is_blank, join, joined, lemma_text_pieces, spec_is_blank, strings_view,
    text_pieces,
};
use crate::tools::{Embed, EmbedV, ToolOutput, ToolResult, CHUNK_BYTES};
use vstd::prelude::*;
use vstd::string::*;
use vstd::utf8::encode_utf8;

verus! {

/// The most rounds of model answer and tool calls in one turn.
pub const MAX_TURNS: usize = 4;

/// The function calls among the parts, in order.
pub open spec fn calls_in(parts: Seq<PartV>) -> Seq<CallV>
    decreases parts.len(),
{
    if parts.len() == 0 {
        Seq::empty()
    } else {
        let rest = calls_in(parts.drop_last());
        match parts.last() {
            Some(DataV::FunctionCall(c)) => rest.push(c),
            _ => rest,
        }
    }
}

/// The non-blank texts among the parts, in order.
pub open spec fn texts_in(parts: Seq<PartV>) -> Seq<Seq<char>>
    decreases parts.len(),
{
    if parts.len() == 0 {
        Seq::empty()
    } else {
        let rest = texts_in(parts.drop_last());
        match parts.last() {
            Some(DataV::Text(t)) => if spec_is_blank(t) {
                rest
            } else {
                rest.push(t)
            },
            _ => rest,
        }
    }
}

/// The views of a sequence of function calls.
pub open spec fn calls_view(c: Seq<FunctionCall>) -> Seq<CallV> {
    c.map_values(|x: FunctionCall| x@)
}

fn duplicate_call(c: &FunctionCall) -> (r: FunctionCall)
    ensures
        r@ == c@,
{
    FunctionCall {
        id: c.id.clone(),
        name: c.name.clone(),
        args: match &c.args {
            Some(j) => Some(j.duplicate()),
            None => None,
        },
    }
}

/// The function calls and the non-blank texts of a model answer.
pub fn split_parts(parts: &Vec<Part>) -> (r: (Vec<FunctionCall>, Vec<String>))
    ensures
        calls_view(r.0@) == calls_in(parts_view(parts@)),
        strings_view(r.1@) == texts_in(parts_view(parts@)),
{
    let ghost pv = parts_view(parts@);
    let mut calls: Vec<FunctionCall> = Vec::new();
    let mut texts: Vec<String> = Vec::new();
    let mut i: usize = 0;
    while i < parts.len()
        invariant
            pv == parts_view(parts@),
            i <= parts@.len(),
            calls_view(calls@) == calls_in(pv.subrange(0, i as int)),
            strings_view(texts@) == texts_in(pv.subrange(0, i as int)),
        decreases parts@.len() - i,
    {
        assert(pv.subrange(0, i + 1).drop_last() =~= pv.subrange(0, i as int));
        assert(pv.subrange(0, i + 1).last() == parts@[i as int]@);
        match &parts[i].data {
            Some(PartData::FunctionCall(c)) => {
                let ghost before = calls_view(calls@);
                calls.push(duplicate_call(c));
                assert(calls_view(calls@) =~= before.push(c@));
            },
            Some(PartData::Text(t)) => {
                if !is_blank(t.as_str()) {
                    let ghost before = strings_view(texts@);
                    texts.push(t.clone());
                    assert(strings_view(texts@) =~= before.push(t@));
                }
            },
            _ => {},
        }
        i = i + 1;
    }
    assert(pv.subrange(0, i as int) =~= pv);
    (calls, texts)
}

/// What a tool's result is reported to the model as: an informational result as its own
/// payload; an executed action as `{"message": .., "status": "ok"}`; a stop as
/// `{"status": "stopped"}`; a failure as `{"error": .., "status": "error"}`.
pub open spec fn outcome_json(o: Result<ToolOutput, String>) -> JsonV {
    match o {
        Ok(ToolOutput::Info(r)) => r.model_response@,
        Ok(ToolOutput::ActionExecuted(m)) => JsonV::Object(
            seq![("message"@, JsonV::Str(m@)), ("status"@, JsonV::Str("ok"@))],
        ),
        Ok(ToolOutput::Stop) => JsonV::Object(seq![("status"@, JsonV::Str("stopped"@))]),
        Err(e) => JsonV::Object(seq![("error"@, JsonV::Str(e@)), ("status"@, JsonV::Str("error"@))]),
    }
}

/// Whether a tool's result is informational.
pub open spec fn is_informational(o: Result<ToolOutput, String>) -> bool {
    o matches Ok(ToolOutput::Info(_))
}

/// Whether a tool's result asks to end the turn.
pub open spec fn is_stop(o: Result<ToolOutput, String>) -> bool {
    o matches Ok(ToolOutput::Stop)
}

/// The function-response part answering `call` with the result `o`.
pub open spec fn response_part(call: FunctionCall, o: Result<ToolOutput, String>) -> PartV {
    Some(DataV::FunctionResponse(CallV { id: call.id@, name: call.name@, args: Some(outcome_json(o)) }))
}

/// The embeds that the results carry, in order.
pub open spec fn embeds_in(results: Seq<(FunctionCall, Result<ToolOutput, String>)>) -> Seq<EmbedV>
    decreases results.len(),
{
    if results.len() == 0 {
        Seq::empty()
    } else {
        let rest = embeds_in(results.drop_last());
        match results.last().1 {
            Ok(ToolOutput::Info(r)) => match r.visual_embed {
                Some(e) => rest.push(e@),
                None => rest,
            },
            _ => rest,
        }
    }
}

/// The views of a sequence of embeds.
pub open spec fn embeds_view(e: Seq<Embed>) -> Seq<EmbedV> {
    e.map_values(|x: Embed| x@)
}

fn outcome_to_json(o: Result<ToolOutput, String>) -> (r: (Json, bool, Option<Embed>))
    ensures
        r.0@ == outcome_json(o),
        r.1 == is_informational(o),
        r.2 == match o {
            Ok(ToolOutput::Info(t)) => t.visual_embed,
            _ => None,
        },
{
    match o {
        Ok(ToolOutput::Info(ToolResult { model_response, visual_embed })) => (
            model_response,
            true,
            visual_embed,
        ),
        Ok(ToolOutput::ActionExecuted(msg)) => {
            let a = json_member("message", json_str(msg));
            let b = json_member("status", json_str("ok"));
            let ghost av = (a.0@, a.1@);
            let ghost bv = (b.0@, b.1@);
            let members = vec![a, b];
            assert(members_view(members@) =~= seq![av, bv]);
            (json_object(members), false, None)
        },
        Ok(ToolOutput::Stop) => {
            let b = json_member("status", json_str("stopped"));
            let ghost bv = (b.0@, b.1@);
            let members = vec![b];
            assert(members_view(members@) =~= seq![bv]);
            (json_object(members), false, None)
        },
        Err(e) => {
            let a = json_member("error", Json::Str(e));
            let b = json_member("status", json_str("error"));
            let ghost av = (a.0@, a.1@);
            let ghost bv = (b.0@, b.1@);
            let members = vec![a, b];
            assert(members_view(members@) =~= seq![av, bv]);
            (json_object(members), false, None)
        },
    }
}

/// The error reported for a call of a tool that is not registered.
pub open spec fn spec_tool_not_found(name: Seq<char>) -> Seq<char> {
    "Tool '"@ + name + "' not found"@
}

/// The error reported for a call of a tool that is not registered: `Tool '<name>' not
/// found`.
pub fn tool_not_found(name: &str) -> (r: String)
    ensures
        r@ == spec_tool_not_found(name@),
{
    let mut s = String::from_str("Tool '");
    s.append(name);
    s.append("' not found");
    s
}

/// The state of one agent turn.
pub struct AgentTurn {
    /// The rounds of tool calls done so far.
    pub step: usize,
    /// The conversation so far.
    pub history: Vec<Content>,
    /// The text to post at the end, where the model gave one.
    pub final_text: Option<String>,
    /// The embeds to post at the end.
    pub embeds: Vec<Embed>,
    /// Whether the turn is over.
    pub finished: bool,
}

/// What the model's answer in a round comes to.
pub enum ModelStep {
    /// The model gave no candidate: the turn is over.
    NoCandidate,
    /// The model answered with `recorded` (now part of the history); `calls` are the
    /// function calls to run, in order.
    Answered { recorded: Content, calls: Vec<FunctionCall> },
}

/// The view of an optional string.
pub open spec fn opt_text(s: Option<String>) -> Option<Seq<char>> {
    match s {
        Some(t) => Some(t@),
        None => None,
    }
}

/// The turn that stands for a candidate without content.
pub open spec fn empty_model_turn() -> ContentV {
    ContentV { role: "model"@, parts: Seq::empty() }
}

impl AgentTurn {
    /// A turn that has not run out of rounds before it is over.
    pub open spec fn wf(&self) -> bool {
        &&& self.step <= MAX_TURNS
        &&& !self.finished ==> self.step < MAX_TURNS
    }

    /// A turn starting from `history`.
    pub fn new(history: Vec<Content>) -> (t: AgentTurn)
        ensures
            t.wf(),
            t.step == 0,
            t.history == history,
            t.final_text is None,
            t.embeds@.len() == 0,
            !t.finished,
    {
        AgentTurn { step: 0, history, final_text: None, embeds: Vec::new(), finished: false }
    }

    /// The request for the next round: to `model`, with the system instruction, the
    /// sanitized history and the tools.
    pub fn request(&self, model: &str, system_instruction: &str, tool: GeminiTool) -> (r:
        GenerateContentRequest)
        ensures
            r@ == (RequestV {
                model: model@,
                contents: spec_sanitize_history(contents_view(self.history@)),
                system_instruction: Some(system_turn(system_instruction@)),
                tools: seq![tool@],
                response_mime_type: None,
            }),
    {
        let ghost tv = tool@;
        let r = RequestBuilder::new(String::from_str(model)).system_instruction(
            String::from_str(system_instruction),
        ).history(sanitize_history(self.history.as_slice())).tool(tool).build();
        assert(Seq::<Seq<crate::request::DeclarationV>>::empty().push(tv) =~= seq![tv]);
        r
    }

    /// Takes the model's answer: with no candidate the turn is over; otherwise the first
    /// candidate's content (an empty turn of the model where it has none) joins the
    /// history, its non-blank texts (joined by newlines) become the final text where there
    /// are any, and the turn is over where it asks for no function call.
    pub fn on_model_response(&mut self, response: GenerateContentResponse) -> (r: ModelStep)
        requires
            old(self).wf(),
            !old(self).finished,
        ensures
            final(self).wf(),
            final(self).step == old(self).step,
            final(self).embeds == old(self).embeds,
            response.candidates@.len() == 0 ==> {
                &&& r is NoCandidate
                &&& final(self).finished
                &&& final(self).history == old(self).history
                &&& final(self).final_text == old(self).final_text
            },
            response.candidates@.len() > 0 ==> {
                let answer = match response.candidates@[0].content {
                    Some(c) => c@,
                    None => empty_model_turn(),
                };
                let texts = texts_in(answer.parts);
                &&& r is Answered
                &&& r->recorded@ == answer
                &&& calls_view(r->calls@) == calls_in(answer.parts)
                &&& contents_view(final(self).history@) == contents_view(old(self).history@).push(
                    answer,
                )
                &&& opt_text(final(self).final_text) == if texts.len() > 0 {
                    Some(joined(texts, "\n"@))
                } else {
                    opt_text(old(self).final_text)
                }
                &&& final(self).finished == (calls_in(answer.parts).len() == 0)
            },
    {
        let mut candidates = response.candidates;
        if candidates.len() == 0 {
            self.finished = true;
            return ModelStep::NoCandidate;
        }
        let first = candidates.remove(0);
        let model_content = match first.content {
            Some(c) => c,
            None => {
                let c = Content { role: String::from_str("model"), parts: Vec::new() };
                assert(parts_view(c.parts@) =~= Seq::<PartV>::empty());
                c
            },
        };
        let (calls, texts) = split_parts(&model_content.parts);
        let recorded = model_content.duplicate();
        let ghost before = contents_view(self.history@);
        let ghost mv = model_content@;
        self.history.push(model_content);
        assert(contents_view(self.history@) =~= before.push(mv));
        if texts.len() > 0 {
            self.final_text = Some(join(&texts, "\n"));
        }
        if calls.len() == 0 {
            self.finished = true;
        }
        ModelStep::Answered { recorded, calls }
    }

    /// Takes the tools' results, one per call in order: their responses join the history
    /// as one turn of the user, the embeds they carry are kept for the final reply, and
    /// the turn is over where none of them is informational, where one of them asks to
    /// stop, or where the rounds are used up.
    pub fn on_tool_results(&mut self, results: Vec<(FunctionCall, Result<ToolOutput, String>)>) -> (r:
        Content)
        requires
            old(self).wf(),
            !old(self).finished,
        ensures
            final(self).wf(),
            final(self).step == old(self).step + 1,
            r@.role == "user"@,
            r@.parts == results@.map_values(
                |x: (FunctionCall, Result<ToolOutput, String>)| response_part(x.0, x.1),
            ),
            contents_view(final(self).history@) == contents_view(old(self).history@).push(r@),
            embeds_view(final(self).embeds@) == embeds_view(old(self).embeds@) + embeds_in(
                results@,
            ),
            final(self).final_text == old(self).final_text,
            final(self).finished == (final(self).step >= MAX_TURNS || !(exists|i: int|
                0 <= i < results@.len() && is_informational(#[trigger] results@[i].1)) || (exists|
                i: int|
                0 <= i < results@.len() && is_stop(#[trigger] results@[i].1))),
    {
        let ghost rs = results@;
        let ghost spec_parts = rs.map_values(
            |x: (FunctionCall, Result<ToolOutput, String>)| response_part(x.0, x.1),
        );
        let mut collected: Vec<Embed> = Vec::new();
        let mut parts: Vec<Part> = Vec::new();
        let mut informational = false;
        let mut stopped = false;
        let mut results = results;
        let mut i: usize = 0;
        let n = results.len();
        while i < n
            invariant
                n == rs.len(),
                i <= n,
                spec_parts.len() == n,
                spec_parts == rs.map_values(
                    |x: (FunctionCall, Result<ToolOutput, String>)| response_part(x.0, x.1),
                ),
                results@ == rs.subrange(i as int, n as int),
                parts_view(parts@) == spec_parts.subrange(0, i as int),
                embeds_view(collected@) == embeds_in(rs.subrange(0, i as int)),
                informational == exists|j: int| 0 <= j < i && is_informational(#[trigger] rs[j].1),
                stopped == exists|j: int| 0 <= j < i && is_stop(#[trigger] rs[j].1),
            decreases n - i,
        {
            let (call, outcome) = results.remove(0);
            assert(rs[i as int] == (call, outcome));
            assert(results@ =~= rs.subrange(i + 1, n as int));
            let ghost call0 = call;
            let is_stop_result = match &outcome {
                Ok(ToolOutput::Stop) => true,
                _ => false,
            };
            if is_stop_result {
                stopped = true;
            }
            let (json, info, embed) = outcome_to_json(outcome);
            if info {
                informational = true;
            }
            let ghost eb = embeds_view(collected@);
            assert(rs.subrange(0, i + 1).drop_last() =~= rs.subrange(0, i as int));
            assert(rs.subrange(0, i + 1).last() == rs[i as int]);
            match embed {
                Some(e) => {
                    let ghost ev = e@;
                    collected.push(e);
                    assert(embeds_view(collected@) =~= eb.push(ev));
                },
                None => {},
            }
            let part = Part {
                data: Some(
                    PartData::FunctionResponse(
                        FunctionResponse { id: call.id, name: call.name, response: Some(json) },
                    ),
                ),
            };
            let ghost pb = parts_view(parts@);
            parts.push(part);
            assert(parts_view(parts@) =~= pb.push(response_part(call0, rs[i as int].1)));
            assert(spec_parts.subrange(0, i + 1) =~= spec_parts.subrange(0, i as int).push(
                response_part(call0, rs[i as int].1),
            ));
            i = i + 1;
        }
        assert(spec_parts.subrange(0, n as int) =~= spec_parts);
        assert(rs.subrange(0, n as int) =~= rs);
        let ghost eo = self.embeds@;
        let ghost ec = collected@;
        self.embeds.append(&mut collected);
        assert(embeds_view(self.embeds@) =~= embeds_view(eo) + embeds_view(ec));
        let content = Content { role: String::from_str("user"), parts };
        let recorded = content.duplicate();
        let ghost before = contents_view(self.history@);
        let ghost cv = content@;
        self.history.push(content);
        assert(contents_view(self.history@) =~= before.push(cv));
        self.step = self.step + 1;
        if !informational || stopped || self.step >= MAX_TURNS {
            self.finished = true;
        }
        recorded
    }
}

/// One message of the final reply: its text (none for an empty piece) and whether the
/// embeds go with it.
pub struct OutgoingMessage {
    pub content: Option<String>,
    pub with_embeds: bool,
}

/// The final reply: nothing where there is neither non-blank text nor an embed;
/// otherwise one message per piece of the text (the text cut at character boundaries into
/// pieces of at most `CHUNK_BYTES` bytes; one empty piece for an empty text), the first
/// carrying the embeds.
pub open spec fn spec_dispatch(text: Option<Seq<char>>, has_embeds: bool) -> Seq<
    (Option<Seq<char>>, bool),
> {
    let has_text = text is Some && !spec_is_blank(text->0);
    if !has_text && !has_embeds {
        Seq::empty()
    } else {
        let content = match text {
            Some(t) => t,
            None => Seq::empty(),
        };
        let chunks = if content.len() == 0 {
            seq![Seq::<char>::empty()]
        } else {
            text_pieces(content, CHUNK_BYTES as nat)
        };
        Seq::new(
            chunks.len(),
            |i: int|
                (if chunks[i].len() > 0 {
                    Some(chunks[i])
                } else {
                    None
                }, i == 0 && has_embeds),
        )
    }
}

/// The views of the messages of a reply.
pub open spec fn messages_view(m: Seq<OutgoingMessage>) -> Seq<(Option<Seq<char>>, bool)> {
    m.map_values(|x: OutgoingMessage| (opt_text(x.content), x.with_embeds))
}

/// The messages of the final reply (see `spec_dispatch`).
pub fn plan_final_dispatch(text: Option<String>, has_embeds: bool) -> (r: Vec<OutgoingMessage>)
    ensures
        messages_view(r@) == spec_dispatch(opt_text(text), has_embeds),
{
    let has_text = match &text {
        Some(t) => !is_blank(t.as_str()),
        None => false,
    };
    if !has_text && !has_embeds {
        let r: Vec<OutgoingMessage> = Vec::new();
        assert(messages_view(r@) =~= Seq::<(Option<Seq<char>>, bool)>::empty());
        return r;
    }
    let content_str = match text {
        Some(t) => t,
        None => String::new(),
    };
    let chunks: Vec<String> = if content_str.as_str().unicode_len() == 0 {
        let mut v: Vec<String> = Vec::new();
        v.push(String::new());
        assert(strings_view(v@) =~= seq![Seq::<char>::empty()]);
        v
    } else {
        chunk_text(content_str.as_str(), CHUNK_BYTES)
    };
    let ghost cs = strings_view(chunks@);
    let mut out: Vec<OutgoingMessage> = Vec::new();
    let mut i: usize = 0;
    while i < chunks.len()
        invariant
            cs == strings_view(chunks@),
            i <= chunks@.len(),
            out@.len() == i,
            forall|k: int|
                0 <= k < i ==> (#[trigger] out@[k]).with_embeds == (k == 0 && has_embeds)
                    && opt_text(out@[k].content) == if cs[k].len() > 0 {
                    Some(cs[k])
                } else {
                    None
                },
        decreases chunks@.len() - i,
    {
        let piece = &chunks[i];
        let content = if piece.as_str().unicode_len() > 0 {
            Some(piece.clone())
        } else {
            None
        };
        out.push(OutgoingMessage { content, with_embeds: i == 0 && has_embeds });
        i = i + 1;
    }
    assert(messages_view(out@) =~= spec_dispatch(opt_text(text), has_embeds));
    out
}

impl AgentTurn {
    /// The messages of the final reply for this turn.
    pub fn dispatch_plan(&self) -> (r: Vec<OutgoingMessage>)
        ensures
            messages_view(r@) == spec_dispatch(opt_text(self.final_text), self.embeds@.len() > 0),
    {
        let text = match &self.final_text {
            Some(t) => Some(t.clone()),
            None => None,
        };
        plan_final_dispatch(text, self.embeds.len() > 0)
    }
}

/// A turn ends within `MAX_TURNS` rounds: every round of tool results that leaves it
/// unfinished takes a step, and no unfinished turn has used `MAX_TURNS` steps.
pub proof fn lemma_turn_bounded(t: AgentTurn)
    requires
        t.wf(),
    ensures
        !t.finished ==> MAX_TURNS - t.step >= 1,
        t.step <= MAX_TURNS,
{
}

/// The final reply loses no text: where the text is not blank, each message carries a
/// non-empty piece of at most `CHUNK_BYTES` bytes, the pieces in order give back the text,
/// and the embeds go with the first message only.
pub proof fn lemma_final_reply_keeps_text(text: Seq<char>, has_embeds: bool)
    requires
        !spec_is_blank(text),
    ensures
        ({
            let d = spec_dispatch(Some(text), has_embeds);
            &&& d.len() > 0
            &&& forall|i: int|
                0 <= i < d.len() ==> {
                    &&& (#[trigger] d[i]).0 is Some
                    &&& d[i].0->0.len() > 0
                    &&& encode_utf8(d[i].0->0).len() <= CHUNK_BYTES
                    &&& d[i].1 == (i == 0 && has_embeds)
                }
            &&& d.map_values(|m: (Option<Seq<char>>, bool)| m.0->0).flatten() == text
        }),
{
    lemma_text_pieces(text, CHUNK_BYTES as nat);
    let d = spec_dispatch(Some(text), has_embeds);
    let pieces = text_pieces(text, CHUNK_BYTES as nat);
    assert(text.len() > 0) by {
        if text.len() == 0 {
            assert(crate::text::spec_trim(text) =~= text);
        }
    }
    crate::text::lemma_fitting_chars(text, CHUNK_BYTES as nat);
    assert(pieces.len() > 0);
    assert(d.map_values(|m: (Option<Seq<char>>, bool)| m.0->0) =~= pieces);
}

/// The calls of an answer are all its function-call parts, in order: those of two runs of
/// parts are the first run's followed by the second's; a function-call part is one call
/// and any other part none.
pub proof fn lemma_calls_in(a: Seq<PartV>, b: Seq<PartV>, c: CallV, p: PartV)
    ensures
        calls_in(a + b) == calls_in(a) + calls_in(b),
        calls_in(seq![Some(DataV::FunctionCall(c))]) == seq![c],
        !(p matches Some(DataV::FunctionCall(_))) ==> calls_in(seq![p]).len() == 0,
    decreases b.len(),
{
    if b.len() == 0 {
        assert(a + b =~= a);
        assert(calls_in(a) + calls_in(b) =~= calls_in(a));
    } else {
        lemma_calls_in(a, b.drop_last(), c, p);
        assert((a + b).drop_last() =~= a + b.drop_last());
        assert((a + b).last() == b.last());
        match b.last() {
            Some(DataV::FunctionCall(x)) => {
                assert((calls_in(a) + calls_in(b.drop_last())).push(x) =~= calls_in(a) + calls_in(
                    b.drop_last(),
                ).push(x));
            },
            _ => {},
        }
    }
    let one = seq![Some(DataV::FunctionCall(c))];
    assert(one.drop_last() =~= Seq::<PartV>::empty());
    assert(one.last() == Some(DataV::FunctionCall(c)));
    assert(calls_in(one.drop_last()) == Seq::<CallV>::empty());
    assert(Seq::<CallV>::empty().push(c) =~= seq![c]);
    let other = seq![p];
    assert(other.drop_last() =~= Seq::<PartV>::empty());
    assert(other.last() == p);
    assert(calls_in(other.drop_last()) == Seq::<CallV>::empty());
}

/// The final text of an answer is made of all its non-blank texts, in order: those of two
/// runs of parts are the first run's followed by the second's; a non-blank text part is
/// one text, and a blank text or any other part none.
pub proof fn lemma_texts_in(a: Seq<PartV>, b: Seq<PartV>, t: Seq<char>, p: PartV)
    ensures
        texts_in(a + b) == texts_in(a) + texts_in(b),
        !spec_is_blank(t) ==> texts_in(seq![Some(DataV::Text(t))]) == seq![t],
        spec_is_blank(t) ==> texts_in(seq![Some(DataV::Text(t))]).len() == 0,
        !(p matches Some(DataV::Text(_))) ==> texts_in(seq![p]).len() == 0,
    decreases b.len(),
{
    if b.len() == 0 {
        assert(a + b =~= a);
        assert(texts_in(a) + texts_in(b) =~= texts_in(a));
    } else {
        lemma_texts_in(a, b.drop_last(), t, p);
        assert((a + b).drop_last() =~= a + b.drop_last());
        assert((a + b).last() == b.last());
        match b.last() {
            Some(DataV::Text(x)) => {
                assert((texts_in(a) + texts_in(b.drop_last())).push(x) =~= texts_in(a) + texts_in(
                    b.drop_last(),
                ).push(x));
            },
            _ => {},
        }
    }
    let one = seq![Some(DataV::Text(t))];
    assert(one.drop_last() =~= Seq::<PartV>::empty());
    assert(one.last() == Some(DataV::Text(t)));
    assert(texts_in(one.drop_last()) == Seq::<Seq<char>>::empty());
    assert(Seq::<Seq<char>>::empty().push(t) =~= seq![t]);
    let other = seq![p];
    assert(other.drop_last() =~= Seq::<PartV>::empty());
    assert(other.last() == p);
    assert(texts_in(other.drop_last()) == Seq::<Seq<char>>::empty());
}

/// Every embed that the results carry is kept, in order: those of two runs of results are
/// the first run's followed by the second's; an informational result with an embed gives
/// that embed, and any other result none.
pub proof fn lemma_embeds_in(
    a: Seq<(FunctionCall, Result<ToolOutput, String>)>,
    b: Seq<(FunctionCall, Result<ToolOutput, String>)>,
    x: (FunctionCall, Result<ToolOutput, String>),
)
    ensures
        embeds_in(a + b) == embeds_in(a) + embeds_in(b),
        embeds_in(seq![x]) == match x.1 {
            Ok(ToolOutput::Info(r)) => match r.visual_embed {
                Some(e) => seq![e@],
                None => Seq::empty(),
            },
            _ => Seq::empty(),
        },
    decreases b.len(),
{
    if b.len() == 0 {
        assert(a + b =~= a);
        assert(embeds_in(a) + embeds_in(b) =~= embeds_in(a));
    } else {
        lemma_embeds_in(a, b.drop_last(), x);
        assert((a + b).drop_last() =~= a + b.drop_last());
        assert((a + b).last() == b.last());
        match b.last().1 {
            Ok(ToolOutput::Info(r)) => match r.visual_embed {
                Some(e) => {
                    assert((embeds_in(a) + embeds_in(b.drop_last())).push(e@) =~= embeds_in(a)
                        + embeds_in(b.drop_last()).push(e@));
                },
                None => {},
            },
            _ => {},
        }
    }
    let one = seq![x];
    assert(one.drop_last() =~= Seq::<(FunctionCall, Result<ToolOutput, String>)>::empty());
    assert(one.last() == x);
    assert(embeds_in(one.drop_last()) == Seq::<EmbedV>::empty());
    match x.1 {
        Ok(ToolOutput::Info(r)) => match r.visual_embed {
            Some(e) => {
                assert(Seq::<EmbedV>::empty().push(e@) =~= seq![e@]);
            },
            None => {},
        },
        _ => {},
    }
}

} // verus!
