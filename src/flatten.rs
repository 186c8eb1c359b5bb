//! Flattening nested arrays.
use vstd::prelude::*;

use crate::json::{JsonValue, lemma_array_view, make_array, views};
use crate::semantics::{flat, flatten, leaves};

verus! {

/// The non-array leaves of the nested arrays in `v`, left to right.
pub fn flatten_array(v: &Vec<JsonValue>) -> (r: Vec<JsonValue>)
    ensures
        views(r@) == flat(views(v@)),
    decreases v,
{
    let mut out: Vec<JsonValue> = Vec::new();
    let mut i: usize = 0;
    #[verifier::loop_isolation(false)]
    while i < v.len()
        invariant
            i <= v.len(),
            views(out@) == flat(views(v@).subrange(0, i as int)),
        decreases v.len() - i,
    {
        let ghost before = out@;
        proof {
            assert(views(v@).subrange(0, i + 1).drop_last() =~= views(v@).subrange(0, i as int));
            vstd::std_specs::vec::axiom_vec_index_decreases(*v, i as int);
            let pre = views(v@).subrange(0, i + 1);
            assert(pre.last() == v@[i as int]@);
            assert(flat(pre) == flat(views(v@).subrange(0, i as int)) + leaves(v@[i as int]@));
        }
        match &v[i] {
            JsonValue::Array(inner) => {
                proof {
                    lemma_array_view(*inner);
                }
                let mut sub = flatten_array(inner);
                let ghost sub_items = sub@;
                out.append(&mut sub);
                assert(views(out@) =~= views(before) + views(sub_items));
            },
            _ => {
                out.push(v[i].deep_clone());
                assert(views(out@) =~= views(before).push(v@[i as int]@));
            },
        }
        i = i + 1;
    }
    assert(views(v@).subrange(0, v.len() as int) =~= views(v@));
    out
}

/// The array with its nested arrays flattened; an error for any other value.
pub fn flatten_json_array(json: &JsonValue) -> (r: Result<JsonValue, String>)
    ensures
        match (r, flatten(json@)) {
            (Ok(v), Ok(w)) => v@ == w,
            (Err(e), Err(m)) => e@ == m,
            _ => false,
        },
{
    match json {
        JsonValue::Array(v) => {
            proof {
                lemma_array_view(*v);
            }
            Ok(make_array(flatten_array(v)))
        },
        _ => Err(String::from_str("Only arrays can be flattened.")),
    }
}

} // verus!
