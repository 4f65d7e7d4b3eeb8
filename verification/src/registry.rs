//! The set of tools offered to the model, by name.
use crate::request::{declarations_view, DeclarationV, FunctionDeclaration, GeminiTool};
use crate::schema::{json_to_gemini_schema, spec_schema};
use crate::text::str_eq;
use crate::tools::Tool;
use vstd::prelude::*;
use vstd::string::*;

verus! {

/// The index of the first tool of `ts` named `name`, or -1 where there is none.
pub open spec fn tool_index<T: Tool>(ts: Seq<T>, name: Seq<char>) -> int
    decreases ts.len(),
{
    if ts.len() == 0 {
        -1
    } else if ts[0].spec_name() == name {
        0
    } else {
        let k = tool_index(ts.drop_first(), name);
        if k < 0 {
            -1
        } else {
            k + 1
        }
    }
}

/// No two tools of `ts` share a name.
pub open spec fn unique_names<T: Tool>(ts: Seq<T>) -> bool {
    forall|i: int, j: int|
        0 <= i < ts.len() && 0 <= j < ts.len() && i != j ==> (#[trigger] ts[i]).spec_name()
            != (#[trigger] ts[j]).spec_name()
}

/// The tool of `ts` named `name`, where there is one.
pub open spec fn tool_named<T: Tool>(ts: Seq<T>, name: Seq<char>) -> Option<T> {
    let k = tool_index(ts, name);
    if 0 <= k < ts.len() {
        Some(ts[k])
    } else {
        None
    }
}

/// `ts` with `t` registered: in place of the tool of the same name where there is one,
/// appended otherwise.
pub open spec fn with_tool<T: Tool>(ts: Seq<T>, t: T) -> Seq<T> {
    let k = tool_index(ts, t.spec_name());
    if 0 <= k < ts.len() {
        ts.update(k, t)
    } else {
        ts.push(t)
    }
}

/// The declaration that offers a tool to the model.
pub open spec fn declaration_of<T: Tool>(t: T) -> DeclarationV {
    DeclarationV {
        name: t.spec_name(),
        description: t.spec_description(),
        parameters: Some(spec_schema(t.spec_parameters())),
    }
}

proof fn lemma_tool_index<T: Tool>(ts: Seq<T>, name: Seq<char>)
    ensures
        -1 <= tool_index(ts, name) < ts.len(),
        0 <= tool_index(ts, name) ==> ts[tool_index(ts, name)].spec_name() == name,
        0 <= tool_index(ts, name) ==> forall|i: int|
            0 <= i < tool_index(ts, name) ==> (#[trigger] ts[i]).spec_name() != name,
        tool_index(ts, name) < 0 ==> forall|i: int|
            0 <= i < ts.len() ==> (#[trigger] ts[i]).spec_name() != name,
    decreases ts.len(),
{
    if ts.len() > 0 && ts[0].spec_name() != name {
        lemma_tool_index(ts.drop_first(), name);
        assert forall|i: int| 0 < i < ts.len() implies ts.drop_first()[i - 1] == ts[i] by {}
    }
}

proof fn lemma_unique_index<T: Tool>(ts: Seq<T>, i: int)
    requires
        unique_names(ts),
        0 <= i < ts.len(),
    ensures
        tool_index(ts, ts[i].spec_name()) == i,
{
    lemma_tool_index(ts, ts[i].spec_name());
}

/// The tools offered to the model, by name.
pub struct ToolRegistry<T: Tool> {
    tools: Vec<T>,
}

/// Gathers tools for a registry.
pub struct ToolRegistryBuilder<T: Tool> {
    tools: Vec<T>,
}

impl<T: Tool> View for ToolRegistry<T> {
    type V = Seq<T>;

    closed spec fn view(&self) -> Seq<T> {
        self.tools@
    }
}

impl<T: Tool> View for ToolRegistryBuilder<T> {
    type V = Seq<T>;

    closed spec fn view(&self) -> Seq<T> {
        self.tools@
    }
}

fn find_tool<T: Tool>(tools: &Vec<T>, name: &str) -> (r: Option<usize>)
    ensures
        match r {
            Some(k) => k < tools@.len() && k == tool_index(tools@, name@),
            None => tool_index(tools@, name@) == -1,
        },
{
    proof {
        lemma_tool_index(tools@, name@);
    }
    let mut i: usize = 0;
    while i < tools.len()
        invariant
            i <= tools@.len(),
            forall|j: int| 0 <= j < i ==> (#[trigger] tools@[j]).spec_name() != name@,
            -1 <= tool_index(tools@, name@) < tools@.len(),
            0 <= tool_index(tools@, name@) ==> tools@[tool_index(tools@, name@)].spec_name()
                == name@,
            0 <= tool_index(tools@, name@) ==> forall|j: int|
                0 <= j < tool_index(tools@, name@) ==> (#[trigger] tools@[j]).spec_name() != name@,
            tool_index(tools@, name@) < 0 ==> forall|j: int|
                0 <= j < tools@.len() ==> (#[trigger] tools@[j]).spec_name() != name@,
        decreases tools@.len() - i,
    {
        if str_eq(tools[i].name(), name) {
            return Some(i);
        }
        i = i + 1;
    }
    None
}

impl<T: Tool> ToolRegistry<T> {
    /// No two registered tools share a name.
    #[verifier::type_invariant]
    spec fn wf(&self) -> bool {
        unique_names(self.tools@)
    }

    /// A builder with no tool.
    pub fn builder() -> (b: ToolRegistryBuilder<T>)
        ensures
            b@ == Seq::<T>::empty(),
    {
        ToolRegistryBuilder { tools: Vec::new() }
    }

    /// The tool named `name`, where one is registered.
    pub fn get(&self, name: &str) -> (r: Option<&T>)
        ensures
            match tool_named(self@, name@) {
                Some(t) => r is Some && *r->0 == t,
                None => r is None,
            },
    {
        match find_tool(&self.tools, name) {
            Some(k) => Some(&self.tools[k]),
            None => None,
        }
    }

    /// The declarations of all registered tools, in the order they were registered.
    pub fn to_gemini_tool(&self) -> (r: GeminiTool)
        ensures
            r@ == self@.map_values(|t: T| declaration_of(t)),
    {
        let mut decls: Vec<FunctionDeclaration> = Vec::new();
        let mut i: usize = 0;
        while i < self.tools.len()
            invariant
                i <= self@.len(),
                self@ == self.tools@,
                declarations_view(decls@) == self@.subrange(0, i as int).map_values(
                    |t: T| declaration_of(t),
                ),
            decreases self@.len() - i,
        {
            let t = &self.tools[i];
            let schema = json_to_gemini_schema(&t.parameters_schema());
            let d = FunctionDeclaration {
                name: String::from_str(t.name()),
                description: String::from_str(t.description()),
                parameters: Some(schema),
            };
            let ghost before = declarations_view(decls@);
            decls.push(d);
            assert(declarations_view(decls@) =~= before.push(declaration_of(self@[i as int])));
            assert(self@.subrange(0, i + 1).map_values(|t: T| declaration_of(t)) =~= self@.subrange(
                0,
                i as int,
            ).map_values(|t: T| declaration_of(t)).push(declaration_of(self@[i as int])));
            i = i + 1;
        }
        assert(self@.subrange(0, i as int) =~= self@);
        GeminiTool { function_declarations: decls }
    }
}

impl<T: Tool> ToolRegistryBuilder<T> {
    /// No two gathered tools share a name.
    #[verifier::type_invariant]
    spec fn wf(&self) -> bool {
        unique_names(self.tools@)
    }

    /// Adds `tool`, in place of any tool of the same name.
    pub fn register(self, tool: T) -> (b: ToolRegistryBuilder<T>)
        ensures
            unique_names(b@),
            b@ == with_tool(self@, tool),
    {
        proof {
            use_type_invariant(&self);
        }
        let mut tools = self.tools;
        let ghost ts = tools@;
        let ghost name = tool.spec_name();
        proof {
            lemma_tool_index(ts, name);
        }
        match find_tool(&tools, tool.name()) {
            Some(k) => {
                tools.set(k, tool);
                assert forall|i: int, j: int|
                    0 <= i < tools@.len() && 0 <= j < tools@.len() && i != j implies (
                    #[trigger] tools@[i]).spec_name() != (#[trigger] tools@[j]).spec_name() by {
                    if i != k && j != k {
                        assert(tools@[i] == ts[i] && tools@[j] == ts[j]);
                    } else if i == k {
                        assert(tools@[j] == ts[j]);
                    } else {
                        assert(tools@[i] == ts[i]);
                    }
                }
            },
            None => {
                tools.push(tool);
                assert forall|i: int, j: int|
                    0 <= i < tools@.len() && 0 <= j < tools@.len() && i != j implies (
                    #[trigger] tools@[i]).spec_name() != (#[trigger] tools@[j]).spec_name() by {
                    if i < ts.len() && j < ts.len() {
                        assert(tools@[i] == ts[i] && tools@[j] == ts[j]);
                    } else if i < ts.len() {
                        assert(tools@[i] == ts[i]);
                    } else {
                        assert(tools@[j] == ts[j]);
                    }
                }
            },
        }
        ToolRegistryBuilder { tools }
    }

    /// The registry of the gathered tools.
    pub fn build(self) -> (r: ToolRegistry<T>)
        ensures
            unique_names(r@),
            r@ == self@,
    {
        proof {
            use_type_invariant(&self);
        }
        ToolRegistry { tools: self.tools }
    }
}

/// A tool just registered is the one found under its name, and a registration leaves
/// the tools of every other name as they were.
pub proof fn lemma_register_then_get<T: Tool>(ts: Seq<T>, t: T, name: Seq<char>)
    requires
        unique_names(ts),
    ensures
        tool_named(with_tool(ts, t), t.spec_name()) == Some(t),
        name != t.spec_name() ==> tool_named(with_tool(ts, t), name) == tool_named(ts, name),
{
    let r = with_tool(ts, t);
    let k = tool_index(ts, t.spec_name());
    lemma_tool_index(ts, t.spec_name());
    lemma_tool_index(ts, name);
    lemma_tool_index(r, t.spec_name());
    lemma_tool_index(r, name);
    if 0 <= k < ts.len() {
        assert(r[k] == t);
        assert(unique_names(r)) by {
            assert forall|i: int, j: int|
                0 <= i < r.len() && 0 <= j < r.len() && i != j implies (#[trigger] r[i]).spec_name()
                != (#[trigger] r[j]).spec_name() by {
                if i != k && j != k {
                    assert(r[i] == ts[i] && r[j] == ts[j]);
                } else if i == k {
                    assert(r[j] == ts[j]);
                } else {
                    assert(r[i] == ts[i]);
                }
            }
        }
        lemma_unique_index(r, k);
        if name != t.spec_name() {
            let m = tool_index(ts, name);
            if 0 <= m < ts.len() {
                assert(r[m] == ts[m]);
                lemma_unique_index(r, m);
            } else {
                assert forall|i: int| 0 <= i < r.len() implies (#[trigger] r[i]).spec_name()
                    != name by {
                    if i != k {
                        assert(r[i] == ts[i]);
                    }
                }
            }
        }
    } else {
        assert(r[ts.len() as int] == t);
        assert(unique_names(r)) by {
            assert forall|i: int, j: int|
                0 <= i < r.len() && 0 <= j < r.len() && i != j implies (#[trigger] r[i]).spec_name()
                != (#[trigger] r[j]).spec_name() by {
                if i < ts.len() && j < ts.len() {
                    assert(r[i] == ts[i] && r[j] == ts[j]);
                } else if i < ts.len() {
                    assert(r[i] == ts[i]);
                } else {
                    assert(r[j] == ts[j]);
                }
            }
        }
        lemma_unique_index(r, ts.len() as int);
        if name != t.spec_name() {
            let m = tool_index(ts, name);
            if 0 <= m < ts.len() {
                assert(r[m] == ts[m]);
                lemma_unique_index(r, m);
            } else {
                assert forall|i: int| 0 <= i < r.len() implies (#[trigger] r[i]).spec_name()
                    != name by {
                    if i < ts.len() {
                        assert(r[i] == ts[i]);
                    }
                }
            }
        }
    }
}

} // verus!
