//! The JSON value that the engine reads and builds, and its mathematical model.
use vstd::prelude::*;

verus! {

/// The model of a JSON value: strings and numbers as their characters,
/// arrays as sequences, objects as their keys and their values, entry by
/// entry in their order.
pub enum Json {
    Null,
    Bool(bool),
    Number(Seq<char>),
    Str(Seq<char>),
    Array(Seq<Json>),
    Object(Seq<Seq<char>>, Seq<Json>),
}

/// A JSON value. A number is held as its canonical decimal text; an object
/// holds its entries in insertion order.
#[derive(Debug, PartialEq, Eq)]
pub enum JsonValue {
    Null,
    Bool(bool),
    Number(String),
    String(String),
    Array(Vec<JsonValue>),
    Object(Vec<(String, JsonValue)>),
}

impl View for JsonValue {
    type V = Json;

    open spec fn view(&self) -> Json
        decreases self,
    {
        match self {
            JsonValue::Null => Json::Null,
            JsonValue::Bool(b) => Json::Bool(*b),
            JsonValue::Number(n) => Json::Number(n@),
            JsonValue::String(s) => Json::Str(s@),
            JsonValue::Array(v) => Json::Array(
                Seq::new(
                    v.len() as nat,
                    |i: int|
                        if 0 <= i < v.len() {
                            v[i].view()
                        } else {
                            Json::Null
                        },
                ),
            ),
            JsonValue::Object(v) => Json::Object(
                Seq::new(v.len() as nat, |i: int| v[i].0@),
                Seq::new(
                    v.len() as nat,
                    |i: int|
                        if 0 <= i < v.len() {
                            v[i].1.view()
                        } else {
                            Json::Null
                        },
                ),
            ),
        }
    }
}

/// The models of a sequence of values.
pub open spec fn views(v: Seq<JsonValue>) -> Seq<Json> {
    Seq::new(v.len(), |i: int| v[i]@)
}

/// The keys of a sequence of entries.
pub open spec fn key_views(v: Seq<(String, JsonValue)>) -> Seq<Seq<char>> {
    Seq::new(v.len(), |i: int| v[i].0@)
}

/// The models of the values of a sequence of entries.
pub open spec fn value_views(v: Seq<(String, JsonValue)>) -> Seq<Json> {
    Seq::new(v.len(), |i: int| v[i].1@)
}

pub proof fn lemma_array_view(v: Vec<JsonValue>)
    ensures
        JsonValue::Array(v)@ == Json::Array(views(v@)),
{
    let j = JsonValue::Array(v)@;
    assert(views(v@) =~= j->Array_0);
}

pub proof fn lemma_object_view(v: Vec<(String, JsonValue)>)
    ensures
        JsonValue::Object(v)@ == Json::Object(key_views(v@), value_views(v@)),
{
    let j = JsonValue::Object(v)@;
    assert(key_views(v@) =~= j->Object_0);
    assert(value_views(v@) =~= j->Object_1);
}

/// Builds an array value from the values of a vector.
pub fn make_array(v: Vec<JsonValue>) -> (r: JsonValue)
    ensures
        r@ == Json::Array(views(v@)),
{
    proof {
        lemma_array_view(v);
    }
    JsonValue::Array(v)
}

/// Builds an object value from the entries of a vector.
pub fn make_object(v: Vec<(String, JsonValue)>) -> (r: JsonValue)
    ensures
        r@ == Json::Object(key_views(v@), value_views(v@)),
{
    proof {
        lemma_object_view(v);
    }
    JsonValue::Object(v)
}

impl JsonValue {
    /// A copy of the value, equal to it in the model.
    pub fn deep_clone(&self) -> (r: JsonValue)
        ensures
            r@ == self@,
        decreases self,
    {
        match self {
            JsonValue::Null => JsonValue::Null,
            JsonValue::Bool(b) => JsonValue::Bool(*b),
            JsonValue::Number(n) => JsonValue::Number(n.clone()),
            JsonValue::String(s) => JsonValue::String(s.clone()),
            JsonValue::Array(v) => {
                let mut out: Vec<JsonValue> = Vec::new();
                let mut i: usize = 0;
                #[verifier::loop_isolation(false)]
                while i < v.len()
                    invariant
                        *self == JsonValue::Array(*v),
                        i <= v.len(),
                        out@.len() == i,
                        forall|k: int| 0 <= k < i ==> out@[k]@ == v@[k]@,
                    decreases v.len() - i,
                {
                    proof {
                        vstd::std_specs::vec::axiom_vec_index_decreases(*v, i as int);
                    }
                    out.push(v[i].deep_clone());
                    i = i + 1;
                }
                proof {
                    lemma_array_view(*v);
                    assert(views(out@) =~= views(v@));
                }
                make_array(out)
            },
            JsonValue::Object(v) => {
                let mut out: Vec<(String, JsonValue)> = Vec::new();
                let mut i: usize = 0;
                #[verifier::loop_isolation(false)]
                while i < v.len()
                    invariant
                        *self == JsonValue::Object(*v),
                        i <= v.len(),
                        out@.len() == i,
                        forall|k: int|
                            0 <= k < i ==> out@[k].0@ == v@[k].0@ && out@[k].1@ == v@[k].1@,
                    decreases v.len() - i,
                {
                    let key = v[i].0.clone();
                    proof {
                        vstd::std_specs::vec::axiom_vec_index_decreases(*v, i as int);
                    }
                    let value = v[i].1.deep_clone();
                    out.push((key, value));
                    i = i + 1;
                }
                proof {
                    lemma_object_view(*v);
                    assert(key_views(out@) =~= key_views(v@));
                    assert(value_views(out@) =~= value_views(v@));
                }
                make_object(out)
            },
        }
    }

    /// Whether the value is an array.
    pub fn is_array(&self) -> (r: bool)
        ensures
            r == (self@ is Array),
    {
        matches!(self, JsonValue::Array(_))
    }

    /// Whether the value is an object.
    pub fn is_object(&self) -> (r: bool)
        ensures
            r == (self@ is Object),
    {
        matches!(self, JsonValue::Object(_))
    }
}

} // verus!
