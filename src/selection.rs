//! Applying selectors to a JSON value.
use vstd::prelude::*;

use crate::display::{
    Display, index_oob_msg, key_not_found_msg, keys_not_found_msg, lookup_place, not_array_msg,
    not_object_msg, parent_text, quoted, range_oob_msg, subject_text,
};
use crate::flatten::flatten_json_array;
use crate::json::{
    Json, JsonValue, key_views, lemma_array_view, lemma_object_view, make_array, make_object,
    value_views, views,
};
use crate::order::sort_keys;
use crate::semantics::{
    first_occurrences, select_all,
    has_key, is_first_key, key_index, lemma_first_oob, lemma_key_index,
    missing_keys, prev_of, range_items, select, select_indexes, select_key, select_keys,
    select_object_indexes, select_object_range, select_path, select_range,
};
use crate::text::{join, lemma_join_push, push_decimal, push_str};
use crate::tokens::{Index, Range, Token, TokenV, bound, index_views, string_views, token_views};

verus! {

/// The model of a result.
pub open spec fn result_view(r: Result<JsonValue, String>) -> Result<Json, Seq<char>> {
    match r {
        Ok(v) => Ok(v@),
        Err(e) => Err(e@),
    }
}

/// The model of the token applied before.
pub open spec fn prev_view(prev: Option<&Token>) -> Option<TokenV> {
    match prev {
        Some(t) => Some(t@),
        None => None,
    }
}

fn subject(prev: Option<&Token>) -> (r: String)
    ensures
        r@ == subject_text(prev_view(prev)),
{
    match prev {
        Some(t) => t.as_str(true),
        None => String::from_str("Root element"),
    }
}

fn push_parent(s: &mut String, prev: Option<&Token>)
    ensures
        final(s)@ == old(s)@ + parent_text(prev_view(prev)),
{
    match prev {
        Some(t) => {
            let d = t.as_str(false);
            push_str(s, d.as_str());
        },
        None => push_str(s, "root element"),
    }
}

fn push_place(s: &mut String, prev: Option<&Token>)
    ensures
        final(s)@ == old(s)@ + lookup_place(prev_view(prev)),
{
    match prev {
        Some(t) => {
            push_str(s, "parent ");
            let d = t.as_str(false);
            push_str(s, d.as_str());
            assert(final(s)@ =~= old(s)@ + lookup_place(prev_view(prev)));
        },
        None => push_str(s, "the parent element"),
    }
}

fn not_array_error(prev: Option<&Token>) -> (r: String)
    ensures
        r@ == not_array_msg(prev_view(prev)),
{
    let mut s = subject(prev);
    push_str(&mut s, " is not an array");
    s
}

fn not_object_error(prev: Option<&Token>) -> (r: String)
    ensures
        r@ == not_object_msg(prev_view(prev)),
{
    let mut s = subject(prev);
    push_str(&mut s, " is not an object");
    s
}

fn key_error(k: &String, prev: Option<&Token>) -> (r: String)
    ensures
        r@ == key_not_found_msg(k@, prev_view(prev)),
{
    let mut s = String::from_str("Node \"");
    push_str(&mut s, k.as_str());
    push_str(&mut s, "\" not found on ");
    push_place(&mut s, prev);
    assert(s@ =~= key_not_found_msg(k@, prev_view(prev)));
    s
}

fn keys_error(ks: &Vec<String>, prev: Option<&Token>) -> (r: String)
    ensures
        r@ == keys_not_found_msg(string_views(ks@), prev_view(prev)),
{
    let mut s = String::from_str("Keys ");
    let ghost start = s@;
    let ghost all = string_views(ks@).map_values(|k: Seq<char>| quoted(k));
    let mut i: usize = 0;
    while i < ks.len()
        invariant
            i <= ks.len(),
            all == string_views(ks@).map_values(|k: Seq<char>| quoted(k)),
            s@ == start + join(all.subrange(0, i as int), ","@),
        decreases ks.len() - i,
    {
        proof {
            lemma_join_push(all.subrange(0, i as int), ","@, all[i as int]);
            assert(all.subrange(0, i + 1) =~= all.subrange(0, i as int).push(all[i as int]));
        }
        if i > 0 {
            push_str(&mut s, ",");
        }
        push_str(&mut s, "\"");
        push_str(&mut s, ks[i].as_str());
        push_str(&mut s, "\"");
        assert(s@ =~= start + join(all.subrange(0, i + 1), ","@));
        i = i + 1;
    }
    assert(all.subrange(0, ks.len() as int) =~= all);
    push_str(&mut s, " not found on ");
    push_place(&mut s, prev);
    assert(s@ =~= keys_not_found_msg(string_views(ks@), prev_view(prev)));
    s
}

fn index_error(i: usize, prev: Option<&Token>, len: usize) -> (r: String)
    ensures
        r@ == index_oob_msg(i, prev_view(prev), len as nat),
{
    let mut s = String::from_str("Index [");
    push_decimal(&mut s, i);
    push_str(&mut s, "] is out of bound, ");
    push_parent(&mut s, prev);
    push_str(&mut s, " has a length of ");
    push_decimal(&mut s, len);
    assert(s@ =~= index_oob_msg(i, prev_view(prev), len as nat));
    s
}

fn range_error(a: usize, b: usize, prev: Option<&Token>, len: usize) -> (r: String)
    ensures
        r@ == range_oob_msg(a as nat, b as nat, prev_view(prev), len as nat),
{
    let mut s = String::from_str("Range [");
    push_decimal(&mut s, a);
    push_str(&mut s, ":");
    push_decimal(&mut s, b);
    push_str(&mut s, "] is out of bound, ");
    push_parent(&mut s, prev);
    push_str(&mut s, " has a length of ");
    push_decimal(&mut s, len);
    assert(s@ =~= range_oob_msg(a as nat, b as nat, prev_view(prev), len as nat));
    s
}

/// The position of the first entry with the key.
fn find_key(v: &Vec<(String, JsonValue)>, key: &String) -> (r: Option<usize>)
    ensures
        match r {
            Some(i) => is_first_key(key_views(v@), key@, i as int),
            None => !has_key(key_views(v@), key@),
        },
{
    let mut i: usize = 0;
    while i < v.len()
        invariant
            i <= v.len(),
            forall|j: int| 0 <= j < i ==> key_views(v@)[j] != key@,
        decreases v.len() - i,
    {
        if v[i].0 == *key {
            return Some(i);
        }
        i = i + 1;
    }
    None
}

/// The value of a key of an object.
pub fn get_object_key(key: &String, json: &JsonValue, prev: Option<&Token>) -> (r: Result<JsonValue, String>)
    ensures
        result_view(r) == select_key(key@, json@, prev_view(prev)),
{
    match json {
        JsonValue::Object(v) => {
            proof {
                lemma_object_view(*v);
            }
            match find_key(v, key) {
                Some(i) => {
                    proof {
                        lemma_key_index(key_views(v@), key@, i as int);
                    }
                    Ok(v[i].1.deep_clone())
                },
                None => Err(key_error(key, prev)),
            }
        },
        _ => Err(not_object_error(prev)),
    }
}

/// A new object with the listed keys of an object, in the listed order.
pub fn get_object_multi_key(keys: &Vec<String>, json: &JsonValue, prev: Option<&Token>) -> (r: Result<JsonValue, String>)
    ensures
        result_view(r) == select_keys(string_views(keys@), json@, prev_view(prev)),
{
    match json {
        JsonValue::Object(v) => {
            proof {
                lemma_object_view(*v);
            }
            let ghost kv = key_views(v@);
            let ghost ks = string_views(keys@);
            let mut out: Vec<(String, JsonValue)> = Vec::new();
            let mut missing: Vec<String> = Vec::new();
            let mut m: usize = 0;
            while m < keys.len()
                invariant
                    m <= keys.len(),
                    kv == key_views(v@),
                    ks == string_views(keys@),
                    string_views(missing@) == missing_keys(ks.subrange(0, m as int), kv),
                    (missing@.len() == 0) == (forall|p: int| 0 <= p < m ==> has_key(kv, ks[p])),
                    missing@.len() == 0 ==> key_views(out@) == first_occurrences(ks.subrange(0, m as int)),
                    forall|p: int|
                        0 <= p < out@.len() ==> out@[p].1@ == value_views(v@)[key_index(kv, #[trigger] out@[p].0@)],
                decreases keys.len() - m,
            {
                proof {
                    let pre = ks.subrange(0, m + 1);
                    assert(pre.drop_last() =~= ks.subrange(0, m as int));
                    assert(pre.last() == ks[m as int]);
                }
                match find_key(v, &keys[m]) {
                    Some(i) => {
                        proof {
                            lemma_key_index(kv, ks[m as int], i as int);
                        }
                        let ghost before = key_views(out@);
                        let ghost done = first_occurrences(ks.subrange(0, m as int));
                        if find_key(&out, &keys[m]).is_none() {
                            out.push((keys[m].clone(), v[i].1.deep_clone()));
                            assert(key_views(out@) =~= before.push(ks[m as int]));
                            proof {
                                if missing@.len() == 0 {
                                    assert(!done.contains(ks[m as int]));
                                }
                            }
                        } else {
                            proof {
                                if missing@.len() == 0 {
                                    let q = choose|q: int| 0 <= q < before.len() && before[q] == ks[m as int];
                                    assert(done[q] == ks[m as int]);
                                }
                            }
                        }
                    },
                    None => {
                        let ghost before = missing@;
                        missing.push(keys[m].clone());
                        assert(string_views(missing@) =~= string_views(before).push(ks[m as int]));
                    },
                }
                m = m + 1;
            }
            assert(ks.subrange(0, keys.len() as int) =~= ks);
            if missing.len() > 0 {
                Err(keys_error(&sort_keys(&missing), prev))
            } else {
                assert(value_views(out@) =~= first_occurrences(ks).map_values(
                    |k: Seq<char>| value_views(v@)[key_index(kv, k)],
                ));
                Ok(make_object(out))
            }
        },
        _ => Err(not_object_error(prev)),
    }
}

/// The element at one index of an array, or an array of the elements at
/// several indexes, in the listed order.
pub fn array_walker(indexes: &Vec<Index>, json: &JsonValue, prev: Option<&Token>) -> (r: Result<JsonValue, String>)
    ensures
        result_view(r) == select_indexes(index_views(indexes@), json@, prev_view(prev)),
{
    match json {
        JsonValue::Array(a) => {
            proof {
                lemma_array_view(*a);
            }
            let ghost is = index_views(indexes@);
            let mut out: Vec<JsonValue> = Vec::new();
            let mut m: usize = 0;
            while m < indexes.len()
                invariant
                    m <= indexes.len(),
                    is == index_views(indexes@),
                    json@ == Json::Array(views(a@)),
                    out@.len() == m,
                    forall|p: int| 0 <= p < m ==> is[p] < a.len() && out@[p]@ == a@[is[p] as int]@,
                decreases indexes.len() - m,
            {
                let index = indexes[m].0;
                if index >= a.len() {
                    proof {
                        assert(is[m as int] == index);
                        lemma_first_oob(is, a.len() as nat, m as int);
                    }
                    return Err(index_error(index, prev, a.len()));
                }
                out.push(a[index].deep_clone());
                m = m + 1;
            }
            if indexes.len() == 1 {
                match out.pop() {
                    Some(v) => Ok(v),
                    None => Ok(JsonValue::Null),
                }
            } else {
                assert(views(out@) =~= is.map_values(|i: usize| views(a@)[i as int]));
                Ok(make_array(out))
            }
        },
        _ => Err(not_array_error(prev)),
    }
}

/// The elements of an array from `start` to `end`, both included; in
/// reverse order when `start` is after `end`.
pub fn range_selector(json: &JsonValue, start: Option<usize>, end: Option<usize>, prev: Option<&Token>) -> (r: Result<JsonValue, String>)
    ensures
        result_view(r) == select_range(start, end, json@, prev_view(prev)),
{
    match json {
        JsonValue::Array(a) => {
            proof {
                lemma_array_view(*a);
            }
            let len = a.len();
            if len == 0 {
                let r = make_array(Vec::new());
                assert(views(Seq::<JsonValue>::empty()) =~= Seq::empty());
                return Ok(r);
            }
            let range = Range(
                match start {
                    Some(i) => Some(Index(i)),
                    None => None,
                },
                match end {
                    Some(i) => Some(Index(i)),
                    None => None,
                },
            );
            let (s, e) = range.to_boundaries(len);
            if s >= len || e >= len {
                return Err(range_error(s, e, prev, len));
            }
            let out = copy_range(a, s, e);
            Ok(make_array(out))
        },
        _ => Err(not_array_error(prev)),
    }
}

/// Copies of the items from `s` to `e`, both included, in reverse order
/// when `s` is after `e`.
fn copy_range(a: &Vec<JsonValue>, s: usize, e: usize) -> (r: Vec<JsonValue>)
    requires
        s < a.len(),
        e < a.len(),
    ensures
        views(r@) == range_items(views(a@), s as nat, e as nat),
{
    let mut out: Vec<JsonValue> = Vec::new();
    if s <= e {
        let mut k: usize = s;
        while k <= e
            invariant
                s <= k <= e + 1,
                e < a.len(),
                out@.len() == k - s,
                forall|p: int| 0 <= p < k - s ==> out@[p]@ == a@[s + p]@,
            decreases e + 1 - k,
        {
            out.push(a[k].deep_clone());
            k = k + 1;
        }
    } else {
        let mut k: usize = s + 1;
        while k > e
            invariant
                e <= k <= s + 1,
                s < a.len(),
                out@.len() == s + 1 - k,
                forall|p: int| 0 <= p < s + 1 - k ==> out@[p]@ == a@[s - p]@,
            decreases k,
        {
            k = k - 1;
            out.push(a[k].deep_clone());
        }
    }
    assert(views(out@) =~= range_items(views(a@), s as nat, e as nat));
    out
}

/// Copies of the entries from `s` to `e`, both included, in reverse order
/// when `s` is after `e`.
fn copy_entry_range(a: &Vec<(String, JsonValue)>, s: usize, e: usize) -> (r: Vec<(String, JsonValue)>)
    requires
        s < a.len(),
        e < a.len(),
    ensures
        key_views(r@) == range_items(key_views(a@), s as nat, e as nat),
        value_views(r@) == range_items(value_views(a@), s as nat, e as nat),
{
    let mut out: Vec<(String, JsonValue)> = Vec::new();
    if s <= e {
        let mut k: usize = s;
        while k <= e
            invariant
                s <= k <= e + 1,
                e < a.len(),
                out@.len() == k - s,
                forall|p: int|
                    0 <= p < k - s ==> out@[p].0@ == a@[s + p].0@ && out@[p].1@ == a@[s + p].1@,
            decreases e + 1 - k,
        {
            out.push((a[k].0.clone(), a[k].1.deep_clone()));
            k = k + 1;
        }
    } else {
        let mut k: usize = s + 1;
        while k > e
            invariant
                e <= k <= s + 1,
                s < a.len(),
                out@.len() == s + 1 - k,
                forall|p: int|
                    0 <= p < s + 1 - k ==> out@[p].0@ == a@[s - p].0@ && out@[p].1@ == a@[s - p].1@,
            decreases k,
        {
            k = k - 1;
            out.push((a[k].0.clone(), a[k].1.deep_clone()));
        }
    }
    assert(key_views(out@) =~= range_items(key_views(a@), s as nat, e as nat));
    assert(value_views(out@) =~= range_items(value_views(a@), s as nat, e as nat));
    out
}

/// Whether a list of positions holds `x`.
fn contains_index(v: &Vec<usize>, x: usize) -> (r: bool)
    ensures
        r == v@.contains(x),
{
    let mut i: usize = 0;
    while i < v.len()
        invariant
            i <= v.len(),
            forall|p: int| 0 <= p < i ==> v@[p] != x,
        decreases v.len() - i,
    {
        if v[i] == x {
            assert(v@[i as int] == x);
            return true;
        }
        i = i + 1;
    }
    false
}

/// A new object with the entries of an object at the listed positions, in
/// the listed order, a position listed twice kept at its first place.
pub fn get_object_indexes(indexes: &Vec<Index>, json: &JsonValue, prev: Option<&Token>) -> (r: Result<JsonValue, String>)
    ensures
        result_view(r) == select_object_indexes(index_views(indexes@), json@, prev_view(prev)),
{
    match json {
        JsonValue::Object(a) => {
            proof {
                lemma_object_view(*a);
            }
            let ghost is = index_views(indexes@);
            let ghost kv = key_views(a@);
            let ghost vv = value_views(a@);
            let mut out: Vec<(String, JsonValue)> = Vec::new();
            let mut chosen: Vec<usize> = Vec::new();
            let mut m: usize = 0;
            assert(is.subrange(0, 0) =~= Seq::<usize>::empty());
            while m < indexes.len()
                invariant
                    m <= indexes.len(),
                    is == index_views(indexes@),
                    kv == key_views(a@),
                    vv == value_views(a@),
                    json@ == Json::Object(kv, vv),
                    forall|p: int| 0 <= p < m ==> is[p] < a.len(),
                    chosen@ == first_occurrences(is.subrange(0, m as int)),
                    out@.len() == chosen@.len(),
                    forall|p: int|
                        0 <= p < chosen@.len() ==> chosen@[p] < a.len() && out@[p].0@ == kv[chosen@[p] as int]
                            && out@[p].1@ == vv[chosen@[p] as int],
                decreases indexes.len() - m,
            {
                let index = indexes[m].0;
                if index >= a.len() {
                    proof {
                        assert(is[m as int] == index);
                        lemma_first_oob(is, a.len() as nat, m as int);
                    }
                    return Err(index_error(index, prev, a.len()));
                }
                proof {
                    let pre = is.subrange(0, m + 1);
                    assert(pre.drop_last() =~= is.subrange(0, m as int));
                    assert(pre.last() == index);
                }
                if !contains_index(&chosen, index) {
                    chosen.push(index);
                    out.push((a[index].0.clone(), a[index].1.deep_clone()));
                }
                m = m + 1;
            }
            assert(is.subrange(0, indexes.len() as int) =~= is);
            assert(key_views(out@) =~= first_occurrences(is).map_values(|i: usize| kv[i as int]));
            assert(value_views(out@) =~= first_occurrences(is).map_values(|i: usize| vv[i as int]));
            Ok(make_object(out))
        },
        _ => Err(not_object_error(prev)),
    }
}

/// The entries of an object over a range, in reverse order when the range
/// is reversed.
pub fn get_object_range(range: &Range, json: &JsonValue, prev: Option<&Token>) -> (r: Result<JsonValue, String>)
    ensures
        result_view(r) == select_object_range(bound(range.0), bound(range.1), json@, prev_view(prev)),
{
    match json {
        JsonValue::Object(a) => {
            proof {
                lemma_object_view(*a);
            }
            let len = a.len();
            if len == 0 {
                let r = make_object(Vec::new());
                assert(key_views(Seq::<(String, JsonValue)>::empty()) =~= Seq::empty());
                assert(value_views(Seq::<(String, JsonValue)>::empty()) =~= Seq::empty());
                return Ok(r);
            }
            let (s, e) = range.to_boundaries(len);
            if s >= len || e >= len {
                return Err(range_error(s, e, prev, len));
            }
            let out = copy_entry_range(a, s, e);
            Ok(make_object(out))
        },
        _ => Err(not_object_error(prev)),
    }
}

/// Applies one token to a value; `prev` is the token applied before it.
pub fn get_selection(token: &Token, json: &JsonValue, prev: Option<&Token>) -> (r: Result<JsonValue, String>)
    ensures
        result_view(r) == select(token@, json@, prev_view(prev)),
{
    match token {
        Token::KeySelector(k) => get_object_key(k, json, prev),
        Token::MultiKeySelector(ks) => get_object_multi_key(ks, json, prev),
        Token::ArrayIndexSelector(is) => array_walker(is, json, prev),
        Token::ArrayRangeSelector(r) => {
            let a = match r.0 {
                Some(i) => Some(i.0),
                None => None,
            };
            let b = match r.1 {
                Some(i) => Some(i.0),
                None => None,
            };
            range_selector(json, a, b, prev)
        },
        Token::ObjectIndexSelector(is) => get_object_indexes(is, json, prev),
        Token::ObjectRangeSelector(r) => get_object_range(r, json, prev),
        Token::FlattenOperator => flatten_json_array(json),
        _ => Ok(json.deep_clone()),
    }
}

/// Once a prefix of a path fails, the whole path fails with its error.
pub proof fn lemma_path_error(ts: Seq<TokenV>, n: int, j: Json)
    requires
        0 <= n <= ts.len(),
        select_path(ts.subrange(0, n), j) is Err,
    ensures
        select_path(ts, j) == select_path(ts.subrange(0, n), j),
    decreases ts.len() - n,
{
    if n < ts.len() {
        let p = ts.subrange(0, n + 1);
        assert(p.drop_last() =~= ts.subrange(0, n));
        lemma_path_error(ts, n + 1, j);
    } else {
        assert(ts.subrange(0, n) =~= ts);
    }
}

/// Applies the tokens left to right, each to the result of the one before,
/// and gives the last result.
pub fn apply_path(tokens: &Vec<Token>, json: &JsonValue) -> (r: Result<JsonValue, String>)
    ensures
        result_view(r) == select_path(token_views(tokens@), json@),
{
    let ghost ts = token_views(tokens@);
    let mut current = json.deep_clone();
    let mut i: usize = 0;
    assert(ts.subrange(0, 0) =~= Seq::<TokenV>::empty());
    while i < tokens.len()
        invariant
            i <= tokens.len(),
            ts == token_views(tokens@),
            select_path(ts.subrange(0, i as int), json@) == Ok::<Json, Seq<char>>(current@),
        decreases tokens.len() - i,
    {
        let prev = if i > 0 {
            Some(&tokens[i - 1])
        } else {
            None
        };
        proof {
            let pre = ts.subrange(0, i + 1);
            assert(pre.drop_last() =~= ts.subrange(0, i as int));
            assert(prev_view(prev) == prev_of(pre, pre.len() - 1));
        }
        match get_selection(&tokens[i], &current, prev) {
            Ok(v) => {
                current = v;
            },
            Err(e) => {
                proof {
                    lemma_path_error(ts, i + 1, json@);
                }
                return Err(e);
            },
        }
        i = i + 1;
    }
    assert(ts.subrange(0, tokens.len() as int) =~= ts);
    Ok(current)
}

/// Once a prefix of a path fails, the whole path fails with its error.
pub proof fn lemma_all_error(ts: Seq<TokenV>, n: int, j: Json)
    requires
        0 <= n <= ts.len(),
        select_all(ts.subrange(0, n), j) is Err,
    ensures
        select_all(ts, j) == select_all(ts.subrange(0, n), j),
    decreases ts.len() - n,
{
    if n < ts.len() {
        let p = ts.subrange(0, n + 1);
        assert(p.drop_last() =~= ts.subrange(0, n));
        lemma_all_error(ts, n + 1, j);
    } else {
        assert(ts.subrange(0, n) =~= ts);
    }
}

/// Applies the tokens left to right, each to the result of the one before,
/// and gives every result in order.
pub fn get_selections(tokens: &Vec<Token>, json: &JsonValue) -> (r: Result<Vec<JsonValue>, String>)
    ensures
        match (r, select_all(token_views(tokens@), json@)) {
            (Ok(v), Ok(w)) => views(v@) == w,
            (Err(e), Err(m)) => e@ == m,
            _ => false,
        },
{
    let ghost ts = token_views(tokens@);
    let mut out: Vec<JsonValue> = Vec::new();
    let mut current = json.deep_clone();
    let mut i: usize = 0;
    assert(ts.subrange(0, 0) =~= Seq::<TokenV>::empty());
    assert(views(out@) =~= Seq::<Json>::empty());
    while i < tokens.len()
        invariant
            i <= tokens.len(),
            ts == token_views(tokens@),
            out@.len() == i,
            select_all(ts.subrange(0, i as int), json@) == Ok::<Seq<Json>, Seq<char>>(views(out@)),
            current@ == (if i == 0 {
                json@
            } else {
                views(out@).last()
            }),
        decreases tokens.len() - i,
    {
        let prev = if i > 0 {
            Some(&tokens[i - 1])
        } else {
            None
        };
        proof {
            let pre = ts.subrange(0, i + 1);
            assert(pre.drop_last() =~= ts.subrange(0, i as int));
            assert(prev_view(prev) == prev_of(pre, pre.len() - 1));
        }
        match get_selection(&tokens[i], &current, prev) {
            Ok(v) => {
                let ghost before = views(out@);
                out.push(v.deep_clone());
                assert(views(out@) =~= before.push(v@));
                current = v;
            },
            Err(e) => {
                proof {
                    lemma_all_error(ts, i + 1, json@);
                }
                return Err(e);
            },
        }
        i = i + 1;
    }
    assert(ts.subrange(0, tokens.len() as int) =~= ts);
    Ok(out)
}

} // verus!
