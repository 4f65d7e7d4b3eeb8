//! Requests to and responses from the generative language service, and a builder for
//! requests.
use crate::model::{contents_view, Content, ContentV, DataV};
use crate::schema::{Schema, SchemaV};
use vstd::prelude::*;
use vstd::string::*;

verus! {

/// A function (tool) that the model may call.
pub struct FunctionDeclaration {
    pub name: String,
    pub description: String,
    pub parameters: Option<Schema>,
}

/// The mathematical form of a `FunctionDeclaration`.
pub struct DeclarationV {
    pub name: Seq<char>,
    pub description: Seq<char>,
    pub parameters: Option<SchemaV>,
}

impl View for FunctionDeclaration {
    type V = DeclarationV;

    open spec fn view(&self) -> DeclarationV {
        DeclarationV {
            name: self.name@,
            description: self.description@,
            parameters: match &self.parameters {
                Some(s) => Some(s@),
                None => None,
            },
        }
    }
}

/// The views of a sequence of declarations.
pub open spec fn declarations_view(d: Seq<FunctionDeclaration>) -> Seq<DeclarationV> {
    d.map_values(|x: FunctionDeclaration| x@)
}

/// A set of functions offered to the model.
pub struct GeminiTool {
    pub function_declarations: Vec<FunctionDeclaration>,
}

impl View for GeminiTool {
    type V = Seq<DeclarationV>;

    open spec fn view(&self) -> Seq<DeclarationV> {
        declarations_view(self.function_declarations@)
    }
}

/// The views of a sequence of tools.
pub open spec fn tools_view(t: Seq<GeminiTool>) -> Seq<Seq<DeclarationV>> {
    t.map_values(|x: GeminiTool| x@)
}

/// How the model is to answer.
pub struct GenerationConfig {
    pub response_mime_type: String,
}

/// A request for content.
pub struct GenerateContentRequest {
    pub model: String,
    pub contents: Vec<Content>,
    pub system_instruction: Option<Content>,
    pub tools: Vec<GeminiTool>,
    pub generation_config: Option<GenerationConfig>,
}

/// The mathematical form of a `GenerateContentRequest`.
pub struct RequestV {
    pub model: Seq<char>,
    pub contents: Seq<ContentV>,
    pub system_instruction: Option<ContentV>,
    pub tools: Seq<Seq<DeclarationV>>,
    pub response_mime_type: Option<Seq<char>>,
}

impl View for GenerateContentRequest {
    type V = RequestV;

    open spec fn view(&self) -> RequestV {
        RequestV {
            model: self.model@,
            contents: contents_view(self.contents@),
            system_instruction: match &self.system_instruction {
                Some(c) => Some(c@),
                None => None,
            },
            tools: tools_view(self.tools@),
            response_mime_type: match &self.generation_config {
                Some(g) => Some(g.response_mime_type@),
                None => None,
            },
        }
    }
}

/// One answer that the model offers.
pub struct Candidate {
    pub content: Option<Content>,
}

/// The answers to a request for content.
pub struct GenerateContentResponse {
    pub candidates: Vec<Candidate>,
}

/// The turn that carries a system instruction.
pub open spec fn system_turn(prompt: Seq<char>) -> ContentV {
    ContentV { role: "system"@, parts: seq![Some(DataV::Text(prompt))] }
}

/// A turn of role `system` holding the instruction as its one text part.
pub fn system_content(prompt: String) -> (c: Content)
    ensures
        c@ == system_turn(prompt@),
{
    Content::from_text(String::from_str("system"), prompt)
}

/// Builds a request for content step by step.
pub struct RequestBuilder {
    model: String,
    system_instruction: Option<String>,
    history: Vec<Content>,
    tools: Vec<GeminiTool>,
}

/// The mathematical form of a `RequestBuilder`: the request it builds.
impl View for RequestBuilder {
    type V = RequestV;

    closed spec fn view(&self) -> RequestV {
        RequestV {
            model: self.model@,
            contents: contents_view(self.history@),
            system_instruction: match &self.system_instruction {
                Some(p) => Some(system_turn(p@)),
                None => None,
            },
            tools: tools_view(self.tools@),
            response_mime_type: None,
        }
    }
}

/// One call on a request builder, by the value it is given.
pub enum BuilderCall {
    Instruction(Seq<char>),
    History(Seq<ContentV>),
    Tool(Seq<DeclarationV>),
}

/// The request of a new builder for `model`.
pub open spec fn new_request(model: Seq<char>) -> RequestV {
    RequestV {
        model,
        contents: Seq::empty(),
        system_instruction: None,
        tools: Seq::empty(),
        response_mime_type: None,
    }
}

/// The request after one call on a builder whose request was `v`.
pub open spec fn builder_step(v: RequestV, c: BuilderCall) -> RequestV {
    match c {
        BuilderCall::Instruction(p) => RequestV { system_instruction: Some(system_turn(p)), ..v },
        BuilderCall::History(h) => RequestV { contents: h, ..v },
        BuilderCall::Tool(t) => RequestV { tools: v.tools.push(t), ..v },
    }
}

/// The request after the calls, in order, on a builder whose request was `v`.
pub open spec fn builder_calls(v: RequestV, calls: Seq<BuilderCall>) -> RequestV
    decreases calls.len(),
{
    if calls.len() == 0 {
        v
    } else {
        builder_step(builder_calls(v, calls.drop_last()), calls.last())
    }
}

/// The instruction of the last `Instruction` call, where there is one.
pub open spec fn last_instruction(calls: Seq<BuilderCall>) -> Option<Seq<char>>
    decreases calls.len(),
{
    if calls.len() == 0 {
        None
    } else {
        match calls.last() {
            BuilderCall::Instruction(p) => Some(p),
            _ => last_instruction(calls.drop_last()),
        }
    }
}

/// The history of the last `History` call (none where there is no such call).
pub open spec fn last_history(calls: Seq<BuilderCall>) -> Seq<ContentV>
    decreases calls.len(),
{
    if calls.len() == 0 {
        Seq::empty()
    } else {
        match calls.last() {
            BuilderCall::History(h) => h,
            _ => last_history(calls.drop_last()),
        }
    }
}

/// The tools of the `Tool` calls, in call order.
pub open spec fn tools_added(calls: Seq<BuilderCall>) -> Seq<Seq<DeclarationV>>
    decreases calls.len(),
{
    if calls.len() == 0 {
        Seq::empty()
    } else {
        match calls.last() {
            BuilderCall::Tool(t) => tools_added(calls.drop_last()).push(t),
            _ => tools_added(calls.drop_last()),
        }
    }
}

/// Whatever calls follow `RequestBuilder::new(model)`, the request built holds the model,
/// the history of the last `history` call (none without one), the instruction of the last
/// `system_instruction` call as a system turn (none without one), and every tool added,
/// in call order.
pub proof fn lemma_builder_chain(model: Seq<char>, calls: Seq<BuilderCall>)
    ensures
        builder_calls(new_request(model), calls) == (RequestV {
            model,
            contents: last_history(calls),
            system_instruction: match last_instruction(calls) {
                Some(p) => Some(system_turn(p)),
                None => None,
            },
            tools: tools_added(calls),
            response_mime_type: None,
        }),
    decreases calls.len(),
{
    if calls.len() > 0 {
        lemma_builder_chain(model, calls.drop_last());
    }
}

impl RequestBuilder {
    /// A builder for a request to `model`, with no instruction, history or tool.
    pub fn new(model: String) -> (b: RequestBuilder)
        ensures
            b@ == new_request(model@),
    {
        let b = RequestBuilder {
            model,
            system_instruction: None,
            history: Vec::new(),
            tools: Vec::new(),
        };
        assert(contents_view(b.history@) =~= Seq::empty());
        assert(tools_view(b.tools@) =~= Seq::empty());
        b
    }

    /// Sets the system instruction.
    pub fn system_instruction(self, prompt: String) -> (b: RequestBuilder)
        ensures
            b@ == builder_step(self@, BuilderCall::Instruction(prompt@)),
    {
        RequestBuilder { system_instruction: Some(prompt), ..self }
    }

    /// Sets the history.
    pub fn history(self, contents: Vec<Content>) -> (b: RequestBuilder)
        ensures
            b@ == builder_step(self@, BuilderCall::History(contents_view(contents@))),
    {
        RequestBuilder { history: contents, ..self }
    }

    /// Adds a tool.
    pub fn tool(self, tool: GeminiTool) -> (b: RequestBuilder)
        ensures
            b@ == builder_step(self@, BuilderCall::Tool(tool@)),
    {
        let mut tools = self.tools;
        let ghost before = tools@;
        let ghost tv = tool@;
        tools.push(tool);
        assert(tools_view(tools@) =~= tools_view(before).push(tv));
        RequestBuilder { tools, ..self }
    }

    /// The request.
    pub fn build(self) -> (r: GenerateContentRequest)
        ensures
            r@ == self@,
    {
        let system_instruction = match self.system_instruction {
            Some(p) => Some(system_content(p)),
            None => None,
        };
        GenerateContentRequest {
            model: self.model,
            contents: self.history,
            system_instruction,
            tools: self.tools,
            generation_config: None,
        }
    }
}

/// The text of the first part of the first candidate, where that part is text; `{}`
/// otherwise (an empty decision).
pub open spec fn spec_first_text(candidates: Seq<Option<ContentV>>) -> Seq<char> {
    if candidates.len() > 0 && candidates[0] is Some && candidates[0]->0.parts.len() > 0 {
        match candidates[0]->0.parts[0] {
            Some(DataV::Text(t)) => t,
            _ => "{}"@,
        }
    } else {
        "{}"@
    }
}

/// The candidates' contents, as views.
pub open spec fn candidates_view(c: Seq<Candidate>) -> Seq<Option<ContentV>> {
    c.map_values(
        |x: Candidate|
            match x.content {
                Some(c) => Some(c@),
                None => None,
            },
    )
}

impl GenerateContentResponse {
    /// The text of the first part of the first candidate, or `{}` where there is none.
    pub fn first_text(&self) -> (r: String)
        ensures
            r@ == spec_first_text(candidates_view(self.candidates@)),
    {
        if self.candidates.len() > 0 {
            match &self.candidates[0].content {
                Some(c) => {
                    if c.parts.len() > 0 {
                        match &c.parts[0].data {
                            Some(crate::model::PartData::Text(t)) => {
                                return t.clone();
                            },
                            _ => {},
                        }
                    }
                },
                None => {},
            }
        }
        String::from_str("{}")
    }
}

} // verus!
