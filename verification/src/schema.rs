//! Function-parameter schemas: reading a JSON Schema document into the schema form that
//! the generative language service takes.
use crate::json::{lemma_array_view, lemma_object_view, members_view, Json, JsonV};
use crate::text::{str_eq, strings_view};
use vstd::prelude::*;

verus! {

/// The type that a schema admits.
#[derive(PartialEq, Eq, Structural, Clone, Copy, Debug)]
pub enum SchemaType {
    Unspecified,
    String,
    Number,
    Integer,
    Boolean,
    Array,
    Object,
}

/// A schema of a value.
pub struct Schema {
    pub schema_type: SchemaType,
    pub description: String,
    pub nullable: bool,
    pub required: Vec<String>,
    /// The schemas of an object's properties, by name.
    pub properties: Vec<(String, Schema)>,
    /// The schema of an array's items.
    pub items: Option<Box<Schema>>,
}

/// The mathematical form of a `Schema`.
pub struct SchemaV {
    pub schema_type: SchemaType,
    pub description: Seq<char>,
    pub nullable: bool,
    pub required: Seq<Seq<char>>,
    pub properties: Seq<(Seq<char>, SchemaV)>,
    pub items: Option<Box<SchemaV>>,
}

impl View for Schema {
    type V = SchemaV;

    open spec fn view(&self) -> SchemaV
        decreases self,
    {
        SchemaV {
            schema_type: self.schema_type,
            description: self.description@,
            nullable: self.nullable,
            required: strings_view(self.required@),
            properties: Seq::new(
                self.properties@.len(),
                |i: int|
                    if 0 <= i < self.properties@.len() {
                        (self.properties@[i].0@, self.properties@[i].1.view())
                    } else {
                        (Seq::empty(), default_schema())
                    },
            ),
            items: match &self.items {
                Some(b) => Some(Box::new((**b).view())),
                None => None,
            },
        }
    }
}

/// The schema that admits anything and says nothing.
pub open spec fn default_schema() -> SchemaV {
    SchemaV {
        schema_type: SchemaType::Unspecified,
        description: Seq::empty(),
        nullable: false,
        required: Seq::empty(),
        properties: Seq::empty(),
        items: None,
    }
}

/// The index of the first member of `m` named `key`, or -1 where there is none.
pub open spec fn key_index(m: Seq<(Seq<char>, JsonV)>, key: Seq<char>) -> int
    decreases m.len(),
{
    if m.len() == 0 {
        -1
    } else if m[0].0 == key {
        0
    } else {
        let k = key_index(m.drop_first(), key);
        if k < 0 {
            -1
        } else {
            k + 1
        }
    }
}

/// The value of member `key` of the object `m`, where it has one.
pub open spec fn member(m: Seq<(Seq<char>, JsonV)>, key: Seq<char>) -> Option<JsonV> {
    let k = key_index(m, key);
    if 0 <= k < m.len() {
        Some(m[k].1)
    } else {
        None
    }
}

/// The schema type that a JSON Schema type name stands for.
pub open spec fn type_named(t: Seq<char>) -> SchemaType {
    if t == "string"@ {
        SchemaType::String
    } else if t == "number"@ {
        SchemaType::Number
    } else if t == "integer"@ {
        SchemaType::Integer
    } else if t == "boolean"@ {
        SchemaType::Boolean
    } else if t == "array"@ {
        SchemaType::Array
    } else if t == "object"@ {
        SchemaType::Object
    } else {
        SchemaType::Unspecified
    }
}

/// The strings among `a`, in order.
pub open spec fn strings_in(a: Seq<JsonV>) -> Seq<Seq<char>>
    decreases a.len(),
{
    if a.len() == 0 {
        Seq::empty()
    } else {
        let rest = strings_in(a.drop_last());
        match a.last() {
            JsonV::Str(s) => rest.push(s),
            _ => rest,
        }
    }
}

proof fn lemma_key_index_bounds(m: Seq<(Seq<char>, JsonV)>, key: Seq<char>)
    ensures
        -1 <= key_index(m, key) < m.len(),
        0 <= key_index(m, key) ==> m[key_index(m, key)].0 == key,
        key_index(m, key) < 0 ==> forall|i: int| 0 <= i < m.len() ==> (#[trigger] m[i]).0 != key,
    decreases m.len(),
{
    if m.len() > 0 && m[0].0 != key {
        lemma_key_index_bounds(m.drop_first(), key);
        assert forall|i: int| 0 <= i < m.len() && key_index(m, key) < 0 implies (#[trigger] m[i]).0
            != key by {
            if i > 0 {
                assert(m[i] == m.drop_first()[i - 1]);
            }
        }
    }
}

/// The index of the property named `name`, or -1 where there is none.
pub open spec fn prop_index(ps: Seq<(Seq<char>, SchemaV)>, name: Seq<char>) -> int
    decreases ps.len(),
{
    if ps.len() == 0 {
        -1
    } else if ps[0].0 == name {
        0
    } else {
        let k = prop_index(ps.drop_first(), name);
        if k < 0 {
            -1
        } else {
            k + 1
        }
    }
}

/// The properties with `e` set: in place of the property of the same name where there is
/// one, appended otherwise (as a map insertion).
pub open spec fn insert_property(
    ps: Seq<(Seq<char>, SchemaV)>,
    e: (Seq<char>, SchemaV),
) -> Seq<(Seq<char>, SchemaV)> {
    let k = prop_index(ps, e.0);
    if 0 <= k < ps.len() {
        ps.update(k, e)
    } else {
        ps.push(e)
    }
}

/// The properties that the members of a `properties` object describe, setting each in
/// turn: a later member of a name replaces an earlier one.
pub open spec fn schema_properties(p: Seq<(Seq<char>, JsonV)>) -> Seq<(Seq<char>, SchemaV)>
    decreases p,
{
    if p.len() == 0 {
        Seq::empty()
    } else {
        proof {
            assert(decreases_to!(p => p[p.len() - 1]));
        }
        insert_property(
            schema_properties(p.subrange(0, p.len() - 1)),
            (p[p.len() - 1].0, spec_schema(p[p.len() - 1].1)),
        )
    }
}

/// The schema that a JSON Schema document describes: from an object, its `type`,
/// `description`, `nullable`, `required` (the strings among them), `properties` (by name:
/// a later member of a name replaces an earlier one) and `items`; from anything else, the
/// default schema.
pub open spec fn spec_schema(j: JsonV) -> SchemaV
    decreases j,
{
    match j {
        JsonV::Object(m) => SchemaV {
            schema_type: match member(m, "type"@) {
                Some(JsonV::Str(t)) => type_named(t),
                _ => SchemaType::Unspecified,
            },
            description: match member(m, "description"@) {
                Some(JsonV::Str(d)) => d,
                _ => Seq::empty(),
            },
            nullable: match member(m, "nullable"@) {
                Some(JsonV::Bool(b)) => b,
                _ => false,
            },
            required: match member(m, "required"@) {
                Some(JsonV::Array(a)) => strings_in(a),
                _ => Seq::empty(),
            },
            properties: {
                let k = key_index(m, "properties"@);
                if 0 <= k < m.len() {
                    match m[k].1 {
                        JsonV::Object(p) => schema_properties(p),
                        _ => Seq::empty(),
                    }
                } else {
                    Seq::empty()
                }
            },
            items: {
                let k = key_index(m, "items"@);
                if 0 <= k < m.len() {
                    Some(Box::new(spec_schema(m[k].1)))
                } else {
                    None
                }
            },
        },
        _ => default_schema(),
    }
}

/// The index of the first member of `m` named `key`.
pub(crate) fn find_member(m: &Vec<(String, Json)>, key: &str) -> (r: Option<usize>)
    ensures
        match r {
            Some(k) => k < m@.len() && k == key_index(members_view(m@), key@),
            None => key_index(members_view(m@), key@) == -1,
        },
{
    let ghost mv = members_view(m@);
    let mut i: usize = 0;
    assert(mv.subrange(0, mv.len() as int) =~= mv);
    while i < m.len()
        invariant
            mv == members_view(m@),
            i <= m@.len(),
            key_index(mv, key@) == if key_index(mv.subrange(i as int, mv.len() as int), key@) < 0 {
                -1
            } else {
                key_index(mv.subrange(i as int, mv.len() as int), key@) + i
            },
        decreases m@.len() - i,
    {
        let ghost rest = mv.subrange(i as int, mv.len() as int);
        assert(rest.drop_first() =~= mv.subrange(i + 1, mv.len() as int));
        assert(rest[0].0 == m@[i as int].0@);
        if str_eq(m[i].0.as_str(), key) {
            return Some(i);
        }
        i = i + 1;
    }
    None
}

/// The views of properties.
pub open spec fn props_view(ps: Seq<(String, Schema)>) -> Seq<(Seq<char>, SchemaV)> {
    Seq::new(ps.len(), |i: int| (ps[i].0@, ps[i].1@))
}

proof fn lemma_prop_index_bounds(ps: Seq<(Seq<char>, SchemaV)>, name: Seq<char>)
    ensures
        -1 <= prop_index(ps, name) < ps.len(),
        0 <= prop_index(ps, name) ==> ps[prop_index(ps, name)].0 == name,
        0 <= prop_index(ps, name) ==> forall|i: int|
            0 <= i < prop_index(ps, name) ==> (#[trigger] ps[i]).0 != name,
        prop_index(ps, name) < 0 ==> forall|i: int| 0 <= i < ps.len() ==> (#[trigger] ps[i]).0 != name,
    decreases ps.len(),
{
    if ps.len() > 0 && ps[0].0 != name {
        lemma_prop_index_bounds(ps.drop_first(), name);
        assert forall|i: int| 0 < i < ps.len() implies ps.drop_first()[i - 1] == ps[i] by {}
    }
}

/// The index of the property named `name`.
fn find_property(ps: &Vec<(String, Schema)>, name: &str) -> (r: Option<usize>)
    ensures
        match r {
            Some(k) => k < ps@.len() && k == prop_index(props_view(ps@), name@),
            None => prop_index(props_view(ps@), name@) == -1,
        },
{
    let ghost pv = props_view(ps@);
    proof {
        lemma_prop_index_bounds(pv, name@);
    }
    let mut i: usize = 0;
    while i < ps.len()
        invariant
            pv == props_view(ps@),
            i <= ps@.len(),
            forall|j: int| 0 <= j < i ==> (#[trigger] pv[j]).0 != name@,
            -1 <= prop_index(pv, name@) < pv.len(),
            0 <= prop_index(pv, name@) ==> pv[prop_index(pv, name@)].0 == name@,
            0 <= prop_index(pv, name@) ==> forall|j: int|
                0 <= j < prop_index(pv, name@) ==> (#[trigger] pv[j]).0 != name@,
            prop_index(pv, name@) < 0 ==> forall|j: int|
                0 <= j < pv.len() ==> (#[trigger] pv[j]).0 != name@,
        decreases ps@.len() - i,
    {
        assert(pv[i as int].0 == ps@[i as int].0@);
        if str_eq(ps[i].0.as_str(), name) {
            return Some(i);
        }
        i = i + 1;
    }
    None
}

/// The schema type named by a JSON Schema type name.
fn type_from_name(t: &str) -> (r: SchemaType)
    ensures
        r == type_named(t@),
{
    if str_eq(t, "string") {
        SchemaType::String
    } else if str_eq(t, "number") {
        SchemaType::Number
    } else if str_eq(t, "integer") {
        SchemaType::Integer
    } else if str_eq(t, "boolean") {
        SchemaType::Boolean
    } else if str_eq(t, "array") {
        SchemaType::Array
    } else if str_eq(t, "object") {
        SchemaType::Object
    } else {
        SchemaType::Unspecified
    }
}

/// The strings among the items of an array.
pub(crate) fn strings_of(a: &Vec<Json>) -> (r: Vec<String>)
    ensures
        strings_view(r@) == strings_in(a@.map_values(|x: Json| x@)),
{
    let ghost av = a@.map_values(|x: Json| x@);
    let mut r: Vec<String> = Vec::new();
    let mut i: usize = 0;
    while i < a.len()
        invariant
            av == a@.map_values(|x: Json| x@),
            i <= a@.len(),
            strings_view(r@) == strings_in(av.subrange(0, i as int)),
        decreases a@.len() - i,
    {
        assert(av.subrange(0, i + 1).drop_last() =~= av.subrange(0, i as int));
        assert(av.subrange(0, i + 1).last() == a@[i as int]@);
        match &a[i] {
            Json::Str(s) => {
                let ghost before = strings_view(r@);
                r.push(s.clone());
                assert(strings_view(r@) =~= before.push(s@));
            },
            _ => {},
        }
        i = i + 1;
    }
    assert(av.subrange(0, i as int) =~= av);
    r
}

/// A schema that admits anything and says nothing.
fn empty_schema() -> (s: Schema)
    ensures
        s@ == default_schema(),
{
    let s = Schema {
        schema_type: SchemaType::Unspecified,
        description: String::new(),
        nullable: false,
        required: Vec::new(),
        properties: Vec::new(),
        items: None,
    };
    assert(s@.properties =~= Seq::<(Seq<char>, SchemaV)>::empty());
    assert(s@.required =~= Seq::<Seq<char>>::empty());
    s
}

/// Reads a JSON Schema document: from an object its `type`, `description`, `nullable`,
/// `required` (the strings among them), `properties` (by name, a later member of a name
/// replacing an earlier one) and `items`; anything else gives the default schema.
pub fn json_to_gemini_schema(json: &Json) -> (s: Schema)
    ensures
        s@ == spec_schema(json@),
        distinct_names(s@.properties),
    decreases json,
{
    match json {
        Json::Object(m) => {
            proof {
                lemma_object_view(*m);
            }
            let ghost mv = members_view(m@);
            let mut schema = empty_schema();
            match find_member(m, "type") {
                Some(k) => match &m[k].1 {
                    Json::Str(t) => {
                        schema.schema_type = type_from_name(t.as_str());
                    },
                    _ => {},
                },
                None => {},
            }
            match find_member(m, "description") {
                Some(k) => match &m[k].1 {
                    Json::Str(d) => {
                        schema.description = d.clone();
                    },
                    _ => {},
                },
                None => {},
            }
            match find_member(m, "nullable") {
                Some(k) => match &m[k].1 {
                    Json::Bool(b) => {
                        schema.nullable = *b;
                    },
                    _ => {},
                },
                None => {},
            }
            match find_member(m, "required") {
                Some(k) => match &m[k].1 {
                    Json::Array(a) => {
                        proof {
                            lemma_array_view(*a);
                        }
                        schema.required = strings_of(a);
                    },
                    _ => {},
                },
                None => {},
            }
            match find_member(m, "properties") {
                Some(k) => match &m[k].1 {
                    Json::Object(p) => {
                        proof {
                            lemma_object_view(*p);
                        }
                        let ghost pv = members_view(p@);
                        let mut props: Vec<(String, Schema)> = Vec::new();
                        let mut i: usize = 0;
                        assert(props_view(props@) =~= schema_properties(pv.subrange(0, 0)));
                        while i < p.len()
                            invariant
                                *json == Json::Object(*m),
                                m@[k as int].1 == Json::Object(*p),
                                k < m@.len(),
                                pv == members_view(p@),
                                i <= p@.len(),
                                props_view(props@) == schema_properties(pv.subrange(0, i as int)),
                            decreases p@.len() - i,
                        {
                            proof {
                                assert(decreases_to!(*json => (*json)->Object_0));
                                assert(decreases_to!(*m => m[k as int]));
                                assert(decreases_to!(m[k as int] => m[k as int].1));
                                assert(decreases_to!(m[k as int].1 => (m[k as int].1)->Object_0));
                                assert(decreases_to!(*p => p[i as int]));
                                assert(decreases_to!(p[i as int] => p[i as int].1));
                            }
                            let sub = json_to_gemini_schema(&p[i].1);
                            let name = p[i].0.clone();
                            let ghost e = (name@, sub@);
                            assert(e == (pv[i as int].0, spec_schema(pv[i as int].1)));
                            let ghost before = props_view(props@);
                            assert(pv.subrange(0, i + 1).subrange(0, i as int) =~= pv.subrange(0, i as int));
                            match find_property(&props, p[i].0.as_str()) {
                                Some(at) => {
                                    props.set(at, (name, sub));
                                    assert(props_view(props@) =~= before.update(at as int, e));
                                },
                                None => {
                                    props.push((name, sub));
                                    assert(props_view(props@) =~= before.push(e));
                                },
                            }
                            i = i + 1;
                        }
                        assert(pv.subrange(0, i as int) =~= pv);
                        let ghost pr = props@;
                        assert forall|j: int| 0 <= j < pr.len() implies (#[trigger] pr[j]).0@ == schema_properties(pv)[j].0
                            && pr[j].1@ == schema_properties(pv)[j].1 by {
                            assert(props_view(pr)[j] == (pr[j].0@, pr[j].1@));
                        }
                        schema.properties = props;
                    },
                    _ => {},
                },
                None => {},
            }
            match find_member(m, "items") {
                Some(k) => {
                    proof {
                        assert(decreases_to!(*json => (*json)->Object_0));
                        assert(decreases_to!(*m => m[k as int]));
                        assert(decreases_to!(m[k as int] => m[k as int].1));
                    }
                    let sub = json_to_gemini_schema(&m[k].1);
                    schema.items = Some(Box::new(sub));
                },
                None => {},
            }
            proof {
                lemma_key_index_bounds(mv, "type"@);
                lemma_key_index_bounds(mv, "description"@);
                lemma_key_index_bounds(mv, "nullable"@);
                lemma_key_index_bounds(mv, "required"@);
                lemma_key_index_bounds(mv, "properties"@);
                lemma_key_index_bounds(mv, "items"@);
            }
            let ghost sv = spec_schema(json@);
            assert(schema@.schema_type == sv.schema_type);
            assert(schema@.description == sv.description);
            assert(schema@.nullable == sv.nullable);
            assert(schema@.required == sv.required);
            assert(schema@.properties =~= sv.properties);
            assert(schema@.items == sv.items);
            assert(schema@ =~= spec_schema(json@));
            proof {
                lemma_schema_names_distinct(json@);
            }
            schema
        },
        _ => {
            let s = empty_schema();
            assert(s@.properties.len() == 0);
            s
        },
    }
}

/// No two entries share a name.
pub open spec fn distinct_names<V>(ps: Seq<(Seq<char>, V)>) -> bool {
    forall|i: int, j: int|
        0 <= i < ps.len() && 0 <= j < ps.len() && i != j ==> (#[trigger] ps[i]).0 != (
        #[trigger] ps[j]).0
}

proof fn lemma_insert_property_distinct(ps: Seq<(Seq<char>, SchemaV)>, e: (Seq<char>, SchemaV))
    requires
        distinct_names(ps),
    ensures
        distinct_names(insert_property(ps, e)),
{
    lemma_prop_index_bounds(ps, e.0);
    let r = insert_property(ps, e);
    let k = prop_index(ps, e.0);
    assert forall|i: int, j: int|
        0 <= i < r.len() && 0 <= j < r.len() && i != j implies (#[trigger] r[i]).0 != (
        #[trigger] r[j]).0 by {
        if 0 <= k < ps.len() {
            if i != k && j != k {
                assert(r[i] == ps[i] && r[j] == ps[j]);
            } else if i == k {
                assert(r[j] == ps[j]);
                assert(ps[k].0 == e.0);
            } else {
                assert(r[i] == ps[i]);
                assert(ps[k].0 == e.0);
            }
        } else {
            if i < ps.len() && j < ps.len() {
                assert(r[i] == ps[i] && r[j] == ps[j]);
            } else if i < ps.len() {
                assert(r[i] == ps[i]);
            } else {
                assert(r[j] == ps[j]);
            }
        }
    }
}

proof fn lemma_schema_properties_distinct(p: Seq<(Seq<char>, JsonV)>)
    ensures
        distinct_names(schema_properties(p)),
    decreases p.len(),
{
    if p.len() > 0 {
        let pre = p.subrange(0, p.len() - 1);
        lemma_schema_properties_distinct(pre);
        lemma_insert_property_distinct(
            schema_properties(pre),
            (p[p.len() - 1].0, spec_schema(p[p.len() - 1].1)),
        );
    }
}

/// A schema read from a document never has two properties of one name, as the service's
/// map of properties cannot: a later member of a name replaces an earlier one.
pub proof fn lemma_schema_names_distinct(j: JsonV)
    ensures
        distinct_names(spec_schema(j).properties),
{
    match j {
        JsonV::Object(m) => {
            let k = key_index(m, "properties"@);
            if 0 <= k < m.len() {
                match m[k].1 {
                    JsonV::Object(p) => lemma_schema_properties_distinct(p),
                    _ => {},
                }
            }
        },
        _ => {},
    }
}

} // verus!
