//! The conversation model exchanged with the generative language service: turns
//! (`Content`) made of parts (`Part`), and the mathematical forms they are specified by.
use crate::json::{Json, JsonV};
use vstd::prelude::*;

verus! {

/// A call of a function (a tool) that the model asked for.
pub struct FunctionCall {
    pub id: String,
    pub name: String,
    pub args: Option<Json>,
}

/// The answer to a function call, handed back to the model.
pub struct FunctionResponse {
    pub id: String,
    pub name: String,
    pub response: Option<Json>,
}

/// Raw media bytes with their MIME type.
pub struct Blob {
    pub mime_type: String,
    pub data: Vec<u8>,
}

/// What a part carries.
pub enum PartData {
    Text(String),
    InlineData(Blob),
    FunctionCall(FunctionCall),
    FunctionResponse(FunctionResponse),
}

/// One part of a turn; a part may carry nothing.
pub struct Part {
    pub data: Option<PartData>,
}

/// One turn of a conversation: who spoke (`role`) and what was said.
pub struct Content {
    pub role: String,
    pub parts: Vec<Part>,
}

/// The mathematical form of a `FunctionCall`.
pub struct CallV {
    pub id: Seq<char>,
    pub name: Seq<char>,
    pub args: Option<JsonV>,
}

/// The mathematical form of what a part carries.
pub enum DataV {
    Text(Seq<char>),
    InlineData(Seq<char>, Seq<u8>),
    FunctionCall(CallV),
    FunctionResponse(CallV),
}

/// The mathematical form of a `Part`.
pub type PartV = Option<DataV>;

/// The mathematical form of a `Content`.
pub struct ContentV {
    pub role: Seq<char>,
    pub parts: Seq<PartV>,
}

pub open spec fn opt_json_view(j: Option<Json>) -> Option<JsonV> {
    match j {
        Some(v) => Some(v@),
        None => None,
    }
}

impl View for FunctionCall {
    type V = CallV;

    open spec fn view(&self) -> CallV {
        CallV { id: self.id@, name: self.name@, args: opt_json_view(self.args) }
    }
}

impl View for FunctionResponse {
    type V = CallV;

    open spec fn view(&self) -> CallV {
        CallV { id: self.id@, name: self.name@, args: opt_json_view(self.response) }
    }
}

impl View for PartData {
    type V = DataV;

    open spec fn view(&self) -> DataV {
        match self {
            PartData::Text(t) => DataV::Text(t@),
            PartData::InlineData(b) => DataV::InlineData(b.mime_type@, b.data@),
            PartData::FunctionCall(c) => DataV::FunctionCall(c@),
            PartData::FunctionResponse(r) => DataV::FunctionResponse(r@),
        }
    }
}

impl View for Part {
    type V = PartV;

    open spec fn view(&self) -> PartV {
        match self.data {
            Some(d) => Some(d@),
            None => None,
        }
    }
}

/// The views of a sequence of parts.
pub open spec fn parts_view(ps: Seq<Part>) -> Seq<PartV> {
    ps.map_values(|p: Part| p@)
}

impl View for Content {
    type V = ContentV;

    open spec fn view(&self) -> ContentV {
        ContentV { role: self.role@, parts: parts_view(self.parts@) }
    }
}

/// The views of a sequence of turns.
pub open spec fn contents_view(cs: Seq<Content>) -> Seq<ContentV> {
    cs.map_values(|c: Content| c@)
}

fn duplicate_opt_json(j: &Option<Json>) -> (r: Option<Json>)
    ensures
        opt_json_view(r) == opt_json_view(*j),
{
    match j {
        Some(v) => Some(v.duplicate()),
        None => None,
    }
}

fn duplicate_bytes(b: &Vec<u8>) -> (r: Vec<u8>)
    ensures
        r@ == b@,
{
    let mut r: Vec<u8> = Vec::new();
    let mut i: usize = 0;
    while i < b.len()
        invariant
            i <= b@.len(),
            r@ == b@.subrange(0, i as int),
        decreases b@.len() - i,
    {
        r.push(b[i]);
        i = i + 1;
    }
    assert(r@ =~= b@);
    r
}

impl Part {
    /// A text part.
    pub fn text(t: String) -> (p: Part)
        ensures
            p@ == Some(DataV::Text(t@)),
    {
        Part { data: Some(PartData::Text(t)) }
    }

    /// A copy of this part.
    pub fn duplicate(&self) -> (r: Part)
        ensures
            r@ == self@,
    {
        match &self.data {
            None => Part { data: None },
            Some(PartData::Text(t)) => Part { data: Some(PartData::Text(t.clone())) },
            Some(PartData::InlineData(b)) => Part {
                data: Some(
                    PartData::InlineData(
                        Blob { mime_type: b.mime_type.clone(), data: duplicate_bytes(&b.data) },
                    ),
                ),
            },
            Some(PartData::FunctionCall(c)) => Part {
                data: Some(
                    PartData::FunctionCall(
                        FunctionCall {
                            id: c.id.clone(),
                            name: c.name.clone(),
                            args: duplicate_opt_json(&c.args),
                        },
                    ),
                ),
            },
            Some(PartData::FunctionResponse(c)) => Part {
                data: Some(
                    PartData::FunctionResponse(
                        FunctionResponse {
                            id: c.id.clone(),
                            name: c.name.clone(),
                            response: duplicate_opt_json(&c.response),
                        },
                    ),
                ),
            },
        }
    }

    /// Whether this part is a function call or a function response.
    pub fn is_tool_part(&self) -> (b: bool)
        ensures
            b == spec_is_tool_part(self@),
    {
        match &self.data {
            Some(PartData::FunctionCall(_)) => true,
            Some(PartData::FunctionResponse(_)) => true,
            _ => false,
        }
    }

    /// Whether this part carries text.
    pub fn is_text(&self) -> (b: bool)
        ensures
            b == (self@ matches Some(DataV::Text(_))),
    {
        match &self.data {
            Some(PartData::Text(_)) => true,
            _ => false,
        }
    }
}

/// A function call or a function response.
pub open spec fn spec_is_tool_part(p: PartV) -> bool {
    p matches Some(DataV::FunctionCall(_)) || p matches Some(DataV::FunctionResponse(_))
}

/// A turn that holds a function call or a function response.
pub open spec fn has_tool_part(parts: Seq<PartV>) -> bool {
    exists|k: int| 0 <= k < parts.len() && spec_is_tool_part(#[trigger] parts[k])
}

/// Copies of the given parts.
pub fn duplicate_parts(ps: &Vec<Part>) -> (r: Vec<Part>)
    ensures
        parts_view(r@) == parts_view(ps@),
{
    let mut r: Vec<Part> = Vec::new();
    let mut i: usize = 0;
    while i < ps.len()
        invariant
            i <= ps@.len(),
            parts_view(r@) == parts_view(ps@.subrange(0, i as int)),
        decreases ps@.len() - i,
    {
        let p = ps[i].duplicate();
        r.push(p);
        assert(parts_view(ps@.subrange(0, i + 1)) =~= parts_view(ps@.subrange(0, i as int)).push(
            ps@[i as int]@,
        ));
        assert(parts_view(r@) =~= parts_view(ps@.subrange(0, i as int)).push(ps@[i as int]@));
        i = i + 1;
    }
    assert(ps@.subrange(0, i as int) =~= ps@);
    r
}

/// Whether any of the given parts is a function call or a function response.
pub fn any_tool_part(ps: &Vec<Part>) -> (b: bool)
    ensures
        b == has_tool_part(parts_view(ps@)),
{
    let mut i: usize = 0;
    while i < ps.len()
        invariant
            i <= ps@.len(),
            forall|k: int| 0 <= k < i ==> !spec_is_tool_part(#[trigger] parts_view(ps@)[k]),
        decreases ps@.len() - i,
    {
        if ps[i].is_tool_part() {
            assert(spec_is_tool_part(parts_view(ps@)[i as int]));
            return true;
        }
        i = i + 1;
    }
    false
}

impl Content {
    /// A copy of this turn.
    pub fn duplicate(&self) -> (r: Content)
        ensures
            r@ == self@,
    {
        Content { role: self.role.clone(), parts: duplicate_parts(&self.parts) }
    }

    /// A turn of the given role holding one text part.
    pub fn from_text(role: String, text: String) -> (c: Content)
        ensures
            c@.role == role@,
            c@.parts == seq![Some(DataV::Text(text@))],
    {
        let mut parts: Vec<Part> = Vec::new();
        parts.push(Part::text(text));
        let c = Content { role, parts };
        assert(parts_view(c.parts@) =~= seq![Some(DataV::Text(text@))]);
        c
    }
}

} // verus!
