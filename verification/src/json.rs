use serde_json::Value;
use vstd::prelude::*;
use vstd::string::*;

verus! {

#[verifier::external_type_specification]
#[verifier::external_body]
pub struct ExJsonValue(Value);

/// The `serde_json::Value` holding the same value as `v`, member for member and item for
/// item (a number by its decimal text).
#[verifier::external_body]
fn serde_value(v: &Json) -> Value {
    match v {
        Json::Null => Value::Null,
        Json::Bool(b) => Value::Bool(*b),
        Json::Number(n) => n.parse().map_or(Value::Null, Value::Number),
        Json::Str(s) => Value::String(s.clone()),
        Json::Array(a) => Value::Array(a.iter().map(serde_value).collect()),
        Json::Object(m) => Value::Object(m.iter().map(|(k, x)| (k.clone(), serde_value(x))).collect()),
    }
}

/// What `serde_json::to_string_pretty` writes for a value: a function of the value alone.
pub uninterp spec fn json_pretty(v: JsonV) -> Seq<char>;

/// `serde_json::to_string_pretty` of the value (which cannot fail for a `Value`).
#[verifier::external_body]
pub(crate) fn pretty_json(v: &Json) -> (r: String)
    ensures
        r@ == json_pretty(v@),
{
    serde_json::to_string_pretty(&serde_value(v)).unwrap_or_default()
}

/// A JSON value.
pub enum Json {
    Null,
    Bool(bool),
    /// A number, held as its decimal text.
    Number(String),
    Str(String),
    Array(Vec<Json>),
    /// An object: its members in order.
    Object(Vec<(String, Json)>),
}

/// The mathematical form of a JSON value.
pub enum JsonV {
    Null,
    Bool(bool),
    Number(Seq<char>),
    Str(Seq<char>),
    Array(Seq<JsonV>),
    Object(Seq<(Seq<char>, JsonV)>),
}

impl View for Json {
    type V = JsonV;

    open spec fn view(&self) -> JsonV
        decreases self,
    {
        match self {
            Json::Null => JsonV::Null,
            Json::Bool(b) => JsonV::Bool(*b),
            Json::Number(n) => JsonV::Number(n@),
            Json::Str(s) => JsonV::Str(s@),
            Json::Array(a) => JsonV::Array(
                Seq::new(
                    a@.len(),
                    |i: int|
                        if 0 <= i < a@.len() {
                            a@[i].view()
                        } else {
                            JsonV::Null
                        },
                ),
            ),
            Json::Object(o) => JsonV::Object(
                Seq::new(
                    o@.len(),
                    |i: int|
                        if 0 <= i < o@.len() {
                            (o@[i].0@, o@[i].1.view())
                        } else {
                            (Seq::empty(), JsonV::Null)
                        },
                ),
            ),
        }
    }
}

impl Json {
    /// A copy of this value.
    pub fn duplicate(&self) -> (r: Json)
        ensures
            r@ == self@,
        decreases self,
    {
        match self {
            Json::Null => Json::Null,
            Json::Bool(b) => Json::Bool(*b),
            Json::Number(n) => Json::Number(n.clone()),
            Json::Str(s) => Json::Str(s.clone()),
            Json::Array(a) => {
                let mut out: Vec<Json> = Vec::new();
                let mut i: usize = 0;
                while i < a.len()
                    invariant
                        *self == Json::Array(*a),
                        i <= a@.len(),
                        out@.len() == i,
                        forall|k: int| 0 <= k < i ==> #[trigger] out@[k]@ == a@[k]@,
                    decreases a@.len() - i,
                {
                    proof {
                        assert(decreases_to!(*self => (*self)->Array_0));
                        assert(decreases_to!(*a => a[i as int]));
                    }
                    let item = a[i].duplicate();
                    out.push(item);
                    i = i + 1;
                }
                proof {
                    lemma_array_view_eq(out, *a);
                }
                let r = Json::Array(out);
                r
            },
            Json::Object(o) => {
                let mut out: Vec<(String, Json)> = Vec::new();
                let mut i: usize = 0;
                while i < o.len()
                    invariant
                        *self == Json::Object(*o),
                        i <= o@.len(),
                        out@.len() == i,
                        forall|k: int|
                            0 <= k < i ==> #[trigger] out@[k].0@ == o@[k].0@ && out@[k].1@ == o@[k].1@,
                    decreases o@.len() - i,
                {
                    let key = o[i].0.clone();
                    proof {
                        assert(decreases_to!(*self => (*self)->Object_0));
                        assert(decreases_to!(*o => o[i as int]));
                        assert(decreases_to!(o[i as int] => o[i as int].1));
                    }
                    let val = o[i].1.duplicate();
                    out.push((key, val));
                    i = i + 1;
                }
                proof {
                    assert(out@.len() == (*o)@.len());
                    assert forall|k: int| 0 <= k < out@.len() implies (#[trigger] out@[k]).0@
                        == (*o)@[k].0@ && out@[k].1@ == (*o)@[k].1@ by {
                        assert(out@[k].0@ == o@[k].0@ && out@[k].1@ == o@[k].1@);
                    }
                    lemma_object_view_eq(out, *o);
                }
                let r = Json::Object(out);
                r
            },
        }
    }
}

/// The views of the members of an object.
pub open spec fn members_view(o: Seq<(String, Json)>) -> Seq<(Seq<char>, JsonV)> {
    Seq::new(o.len(), |i: int| (o[i].0@, o[i].1@))
}

/// The view of an object is the object of its members' views.
pub proof fn lemma_object_view(o: Vec<(String, Json)>)
    ensures
        Json::Object(o)@ == JsonV::Object(members_view(o@)),
{
    reveal_with_fuel(<Json as View>::view, 2);
    assert(Json::Object(o)@->Object_0 =~= members_view(o@));
}

/// The view of an array is the array of its items' views.
pub proof fn lemma_array_view(a: Vec<Json>)
    ensures
        Json::Array(a)@ == JsonV::Array(a@.map_values(|x: Json| x@)),
{
    assert(Json::Array(a)@->Array_0 =~= a@.map_values(|x: Json| x@));
}

/// A JSON string.
pub fn json_str(s: &str) -> (r: Json)
    ensures
        r@ == JsonV::Str(s@),
{
    Json::Str(String::from_str(s))
}

/// An object member named `key`.
pub fn json_member(key: &str, value: Json) -> (r: (String, Json))
    ensures
        r.0@ == key@,
        r.1@ == value@,
{
    (String::from_str(key), value)
}

/// An object with the given members, in order.
pub fn json_object(members: Vec<(String, Json)>) -> (r: Json)
    ensures
        r@ == JsonV::Object(members_view(members@)),
{
    proof {
        lemma_object_view(members);
    }
    Json::Object(members)
}

/// An array with the given items, in order.
pub fn json_array(items: Vec<Json>) -> (r: Json)
    ensures
        r@ == JsonV::Array(items@.map_values(|x: Json| x@)),
{
    proof {
        lemma_array_view(items);
    }
    Json::Array(items)
}

/// Arrays whose items have equal views have equal views.
proof fn lemma_array_view_eq(x: Vec<Json>, y: Vec<Json>)
    requires
        x@.len() == y@.len(),
        forall|k: int| 0 <= k < x@.len() ==> #[trigger] x@[k]@ == y@[k]@,
    ensures
        Json::Array(x)@ == Json::Array(y)@,
{
    let sx = Json::Array(x)@->Array_0;
    let sy = Json::Array(y)@->Array_0;
    assert(sx.len() == x@.len());
    assert(sy.len() == y@.len());
    assert forall|k: int| 0 <= k < sx.len() implies sx[k] == sy[k] by {
        assert(sx[k] == x@[k]@);
        assert(sy[k] == y@[k]@);
    }
    assert(sx =~= sy);
}

/// Objects whose members have equal keys and equal value views have equal views.
proof fn lemma_object_view_eq(x: Vec<(String, Json)>, y: Vec<(String, Json)>)
    requires
        x@.len() == y@.len(),
        forall|k: int| 0 <= k < x@.len() ==> (#[trigger] x@[k]).0@ == y@[k].0@,
        forall|k: int| 0 <= k < x@.len() ==> (#[trigger] x@[k]).1@ == y@[k].1@,
    ensures
        Json::Object(x)@ == Json::Object(y)@,
{
    reveal_with_fuel(<Json as View>::view, 2);
    let sx = Json::Object(x)@->Object_0;
    let sy = Json::Object(y)@->Object_0;
    assert(sx.len() == x@.len());
    assert(sy.len() == y@.len());
    assert forall|k: int| 0 <= k < sx.len() implies sx[k] == sy[k] by {
        assert(sx[k] == (x@[k].0@, x@[k].1@));
        assert(sy[k] == (y@[k].0@, y@[k].1@));
    }
    assert(sx =~= sy);
}

} // verus!
