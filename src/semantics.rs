//! What each selector does to a JSON value, stated over the models.
use vstd::prelude::*;

use crate::display::{
    filter_msg, flatten_msg, index_oob_msg, key_not_found_msg, keys_not_found_msg, not_array_msg,
    not_object_msg, range_oob_msg,
};
use crate::json::Json;
use crate::order::sorted_unique;
use crate::text::decimal;
use crate::tokens::{LensV, LensValueV, TokenV, resolve_end, resolve_start};

verus! {

/// Whether `k` is among the keys.
pub open spec fn has_key(keys: Seq<Seq<char>>, k: Seq<char>) -> bool {
    exists|i: int| 0 <= i < keys.len() && keys[i] == k
}

/// Whether `i` is the first position of `k` among the keys.
pub open spec fn is_first_key(keys: Seq<Seq<char>>, k: Seq<char>, i: int) -> bool {
    &&& 0 <= i < keys.len()
    &&& keys[i] == k
    &&& forall|j: int| 0 <= j < i ==> keys[j] != k
}

/// The first position of `k` among the keys.
pub open spec fn key_index(keys: Seq<Seq<char>>, k: Seq<char>) -> int {
    choose|i: int| is_first_key(keys, k, i)
}

pub proof fn lemma_key_index(keys: Seq<Seq<char>>, k: Seq<char>, i: int)
    requires
        is_first_key(keys, k, i),
    ensures
        key_index(keys, k) == i,
        has_key(keys, k),
{
    let c = key_index(keys, k);
    assert(is_first_key(keys, k, c));
    if c < i {
        assert(keys[c] != k);
    } else if i < c {
        assert(keys[i] != k);
    }
}

/// Whether `m` is the first position of an index that is `len` or more.
pub open spec fn is_first_oob(is: Seq<usize>, len: nat, m: int) -> bool {
    &&& 0 <= m < is.len()
    &&& is[m] >= len
    &&& forall|p: int| 0 <= p < m ==> is[p] < len
}

/// Whether every index is under `len`.
pub open spec fn all_in_bounds(is: Seq<usize>, len: nat) -> bool {
    forall|m: int| 0 <= m < is.len() ==> is[m] < len
}

/// The first index that is `len` or more.
pub open spec fn first_oob(is: Seq<usize>, len: nat) -> usize {
    is[choose|m: int| is_first_oob(is, len, m)]
}

pub proof fn lemma_first_oob(is: Seq<usize>, len: nat, m: int)
    requires
        is_first_oob(is, len, m),
    ensures
        first_oob(is, len) == is[m],
        !all_in_bounds(is, len),
{
    let c = choose|m: int| is_first_oob(is, len, m);
    assert(is_first_oob(is, len, c));
    if c < m {
        assert(is[c] < len);
    } else if m < c {
        assert(is[m] < len);
    }
}

/// The items from `s` to `e`, both included, in reverse order when `s` is
/// after `e`.
pub open spec fn range_items<A>(items: Seq<A>, s: nat, e: nat) -> Seq<A> {
    if s <= e {
        Seq::new((e - s + 1) as nat, |i: int| items[s + i])
    } else {
        Seq::new((s - e + 1) as nat, |i: int| items[s - i])
    }
}

/// A sequence in reverse order.
pub open spec fn reversed<A>(items: Seq<A>) -> Seq<A> {
    Seq::new(items.len(), |i: int| items[items.len() - 1 - i])
}

/// The value of a key of an object.
pub open spec fn select_key(k: Seq<char>, j: Json, prev: Option<TokenV>) -> Result<Json, Seq<char>> {
    match j {
        Json::Object(keys, vals) => if has_key(keys, k) {
            Ok(vals[key_index(keys, k)])
        } else {
            Err(key_not_found_msg(k, prev))
        },
        _ => Err(not_object_msg(prev)),
    }
}

/// The keys of a list that an object lacks, in the order of the list.
pub open spec fn missing_keys(ks: Seq<Seq<char>>, keys: Seq<Seq<char>>) -> Seq<Seq<char>>
    decreases ks.len(),
{
    if ks.len() == 0 {
        Seq::empty()
    } else if has_key(keys, ks.last()) {
        missing_keys(ks.drop_last(), keys)
    } else {
        missing_keys(ks.drop_last(), keys).push(ks.last())
    }
}

/// The items of a list without repeats, each at its first position.
pub open spec fn first_occurrences<A>(s: Seq<A>) -> Seq<A>
    decreases s.len(),
{
    if s.len() == 0 {
        Seq::empty()
    } else if first_occurrences(s.drop_last()).contains(s.last()) {
        first_occurrences(s.drop_last())
    } else {
        first_occurrences(s.drop_last()).push(s.last())
    }
}

/// A new object with the listed keys, in the listed order, a key listed
/// twice kept at its first place; when some are
/// missing, an error that lists them in ascending order.
pub open spec fn select_keys(ks: Seq<Seq<char>>, j: Json, prev: Option<TokenV>) -> Result<Json, Seq<char>> {
    match j {
        Json::Object(keys, vals) => if forall|m: int| 0 <= m < ks.len() ==> has_key(keys, ks[m]) {
            Ok(
                Json::Object(
                    first_occurrences(ks),
                    first_occurrences(ks).map_values(|k: Seq<char>| vals[key_index(keys, k)]),
                ),
            )
        } else {
            Err(keys_not_found_msg(sorted_unique(missing_keys(ks, keys)), prev))
        },
        _ => Err(not_object_msg(prev)),
    }
}

/// The element at one index, or an array of the elements at several.
pub open spec fn select_indexes(is: Seq<usize>, j: Json, prev: Option<TokenV>) -> Result<Json, Seq<char>> {
    match j {
        Json::Array(a) => if all_in_bounds(is, a.len()) {
            if is.len() == 1 {
                Ok(a[is[0] as int])
            } else {
                Ok(Json::Array(is.map_values(|i: usize| a[i as int])))
            }
        } else {
            Err(index_oob_msg(first_oob(is, a.len()), prev, a.len()))
        },
        _ => Err(not_array_msg(prev)),
    }
}

/// The elements of an array over a range.
pub open spec fn select_range(a: Option<usize>, b: Option<usize>, j: Json, prev: Option<TokenV>) -> Result<Json, Seq<char>> {
    match j {
        Json::Array(items) => if items.len() == 0 {
            Ok(Json::Array(Seq::empty()))
        } else {
            let s = resolve_start(a);
            let e = resolve_end(b, items.len());
            if s >= items.len() || e >= items.len() {
                Err(range_oob_msg(s, e, prev, items.len()))
            } else {
                Ok(Json::Array(range_items(items, s, e)))
            }
        },
        _ => Err(not_array_msg(prev)),
    }
}

/// A new object with the entries at the listed positions, in the listed
/// order, a position listed twice kept at its first place.
pub open spec fn select_object_indexes(is: Seq<usize>, j: Json, prev: Option<TokenV>) -> Result<Json, Seq<char>> {
    match j {
        Json::Object(keys, vals) => if all_in_bounds(is, keys.len()) {
            Ok(
                Json::Object(
                    first_occurrences(is).map_values(|i: usize| keys[i as int]),
                    first_occurrences(is).map_values(|i: usize| vals[i as int]),
                ),
            )
        } else {
            Err(index_oob_msg(first_oob(is, keys.len()), prev, keys.len()))
        },
        _ => Err(not_object_msg(prev)),
    }
}

/// The entries of an object over a range.
pub open spec fn select_object_range(a: Option<usize>, b: Option<usize>, j: Json, prev: Option<TokenV>) -> Result<Json, Seq<char>> {
    match j {
        Json::Object(keys, vals) => if keys.len() == 0 {
            Ok(Json::Object(Seq::empty(), Seq::empty()))
        } else {
            let s = resolve_start(a);
            let e = resolve_end(b, keys.len());
            if s >= keys.len() || e >= keys.len() {
                Err(range_oob_msg(s, e, prev, keys.len()))
            } else {
                Ok(Json::Object(range_items(keys, s, e), range_items(vals, s, e)))
            }
        },
        _ => Err(not_object_msg(prev)),
    }
}

/// What one value contributes to a flattened array: its leaves if it is an
/// array, else itself.
pub open spec fn leaves(j: Json) -> Seq<Json>
    decreases j,
{
    match j {
        Json::Array(a) => flat(a),
        _ => seq![j],
    }
}

/// The non-array leaves of nested arrays, left to right, depth first.
pub open spec fn flat(s: Seq<Json>) -> Seq<Json>
    decreases s,
{
    if s.len() == 0 {
        Seq::empty()
    } else {
        flat(s.drop_last()) + leaves(s.last())
    }
}

/// The flattened array.
pub open spec fn flatten(j: Json) -> Result<Json, Seq<char>> {
    match j {
        Json::Array(a) => Ok(Json::Array(flat(a))),
        _ => Err(flatten_msg()),
    }
}

/// What one token does to a value; `prev` is the token applied before it.
/// Operators other than `..`, and lenses, leave the value as it is.
pub open spec fn select(t: TokenV, j: Json, prev: Option<TokenV>) -> Result<Json, Seq<char>> {
    match t {
        TokenV::Key(k) => select_key(k, j, prev),
        TokenV::MultiKey(ks) => select_keys(ks, j, prev),
        TokenV::ArrayIndex(is) => select_indexes(is, j, prev),
        TokenV::ArrayRange(a, b) => select_range(a, b, j, prev),
        TokenV::ObjectIndex(is) => select_object_indexes(is, j, prev),
        TokenV::ObjectRange(a, b) => select_object_range(a, b, j, prev),
        TokenV::Flatten => flatten(j),
        _ => Ok(j),
    }
}

/// The token before position `i`, if any.
pub open spec fn prev_of(ts: Seq<TokenV>, i: int) -> Option<TokenV> {
    if i > 0 {
        Some(ts[i - 1])
    } else {
        None
    }
}

/// The tokens applied left to right, each to the result of the one before.
pub open spec fn select_path(ts: Seq<TokenV>, j: Json) -> Result<Json, Seq<char>>
    decreases ts.len(),
{
    if ts.len() == 0 {
        Ok(j)
    } else {
        match select_path(ts.drop_last(), j) {
            Ok(v) => select(ts.last(), v, prev_of(ts, ts.len() - 1)),
            Err(e) => Err(e),
        }
    }
}

/// The value after each token of a path, each token applied to the value
/// that the one before it gave.
pub open spec fn select_all(ts: Seq<TokenV>, j: Json) -> Result<Seq<Json>, Seq<char>>
    decreases ts.len(),
{
    if ts.len() == 0 {
        Ok(Seq::empty())
    } else {
        match select_all(ts.drop_last(), j) {
            Ok(vs) => match select(
                ts.last(),
                if vs.len() == 0 {
                    j
                } else {
                    vs.last()
                },
                prev_of(ts, ts.len() - 1),
            ) {
                Ok(v) => Ok(vs.push(v)),
                Err(e) => Err(e),
            },
            Err(e) => Err(e),
        }
    }
}

/// Whether an element's value equals a lens value.
pub open spec fn value_matches(lv: LensValueV, v: Json) -> bool {
    match (lv, v) {
        (LensValueV::Bool(b), Json::Bool(c)) => b == c,
        (LensValueV::Null, Json::Null) => true,
        (LensValueV::Number(n), Json::Number(t)) => t == decimal(n as nat),
        (LensValueV::Str(s), Json::Str(t)) => s == t,
        _ => false,
    }
}

/// Whether an entry of an object matches a lens.
pub open spec fn lens_matches(l: LensV, k: Seq<char>, v: Json) -> bool {
    &&& l.path.len() > 0
    &&& l.path[0] == TokenV::Key(k)
    &&& match l.value {
        Some(lv) => value_matches(lv, v),
        None => true,
    }
}

/// Whether an entry of an object matches one of the lenses.
pub open spec fn entry_matches(lenses: Seq<LensV>, k: Seq<char>, v: Json) -> bool {
    exists|q: int| 0 <= q < lenses.len() && lens_matches(lenses[q], k, v)
}

/// Whether an element is kept by the lenses: always when there is none,
/// else when it is an object one of whose entries matches one of them.
pub open spec fn retained(lenses: Seq<LensV>, e: Json) -> bool {
    lenses.len() == 0 || (e is Object && exists|p: int|
        0 <= p < e->Object_0.len() && #[trigger] entry_matches(lenses, e->Object_0[p], e->Object_1[p]))
}

/// The filter applied to each element of an array, left to right.
pub open spec fn filter_items(filters: Seq<TokenV>, lenses: Seq<LensV>, a: Seq<Json>) -> Result<Seq<Json>, Seq<char>>
    decreases a.len(),
{
    if a.len() == 0 {
        Ok(Seq::empty())
    } else {
        match filter_items(filters, lenses, a.drop_last()) {
            Ok(acc) => if retained(lenses, a.last()) {
                match select_path(filters, a.last()) {
                    Ok(v) => Ok(acc.push(v)),
                    Err(e) => Err(e),
                }
            } else {
                Ok(acc)
            },
            Err(e) => Err(e),
        }
    }
}

/// The filter of a group applied to a value.
pub open spec fn filter(filters: Seq<TokenV>, lenses: Seq<LensV>, j: Json) -> Result<Json, Seq<char>> {
    match j {
        Json::Array(a) => match filter_items(filters, lenses, a) {
            Ok(items) => Ok(Json::Array(items)),
            Err(e) => Err(e),
        },
        _ => if filters.len() == 0 && lenses.len() == 0 {
            Ok(j)
        } else {
            Err(filter_msg())
        },
    }
}

/// The shape of a value: an empty array or object, or the primitive itself.
pub open spec fn shape(j: Json) -> Json {
    match j {
        Json::Array(_) => Json::Array(Seq::empty()),
        Json::Object(_, _) => Json::Object(Seq::empty(), Seq::empty()),
        _ => j,
    }
}

/// The value with each element, or each entry's value, replaced by its shape.
pub open spec fn truncate(j: Json) -> Json {
    match j {
        Json::Array(a) => Json::Array(a.map_values(|x: Json| shape(x))),
        Json::Object(keys, vals) => Json::Object(keys, vals.map_values(|x: Json| shape(x))),
        _ => j,
    }
}

} // verus!
