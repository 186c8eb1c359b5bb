//! Truncating a value to the shapes of its members.
use vstd::prelude::*;

use crate::json::{
    JsonValue, key_views, lemma_array_view, lemma_object_view, make_array, make_object,
    value_views, views,
};
use crate::semantics::{shape, truncate};

verus! {

/// The shape of a value: an empty array or object, or a copy of the primitive.
fn to_primitive(value: &JsonValue) -> (r: JsonValue)
    ensures
        r@ == shape(value@),
{
    match value {
        JsonValue::Array(_) => {
            let r = make_array(Vec::new());
            assert(views(Seq::<JsonValue>::empty()) =~= Seq::empty());
            r
        },
        JsonValue::Object(_) => {
            let r = make_object(Vec::new());
            assert(key_views(Seq::<(String, JsonValue)>::empty()) =~= Seq::empty());
            assert(value_views(Seq::<(String, JsonValue)>::empty()) =~= Seq::empty());
            r
        },
        _ => value.deep_clone(),
    }
}

/// Replaces each element of an array, or each value of an object, by its
/// shape; any other value is returned unchanged.
pub fn truncate_json(value: JsonValue) -> (r: JsonValue)
    ensures
        r@ == truncate(value@),
{
    match &value {
        JsonValue::Array(v) => {
            proof {
                lemma_array_view(*v);
            }
            let mut out: Vec<JsonValue> = Vec::new();
            let mut i: usize = 0;
            while i < v.len()
                invariant
                    i <= v.len(),
                    out@.len() == i,
                    forall|k: int| 0 <= k < i ==> out@[k]@ == shape(v@[k]@),
                decreases v.len() - i,
            {
                out.push(to_primitive(&v[i]));
                i = i + 1;
            }
            assert(views(out@) =~= views(v@).map_values(|x| shape(x)));
            make_array(out)
        },
        JsonValue::Object(v) => {
            proof {
                lemma_object_view(*v);
            }
            let mut out: Vec<(String, JsonValue)> = Vec::new();
            let mut i: usize = 0;
            while i < v.len()
                invariant
                    i <= v.len(),
                    out@.len() == i,
                    forall|k: int|
                        0 <= k < i ==> out@[k].0@ == v@[k].0@ && out@[k].1@ == shape(v@[k].1@),
                decreases v.len() - i,
            {
                out.push((v[i].0.clone(), to_primitive(&v[i].1)));
                i = i + 1;
            }
            assert(key_views(out@) =~= key_views(v@));
            assert(value_views(out@) =~= value_views(v@).map_values(|x| shape(x)));
            make_object(out)
        },
        _ => value,
    }
}

} // verus!
