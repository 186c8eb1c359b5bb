//! Filtering the elements of an array: lenses keep some, a path maps each.
use vstd::prelude::*;

use crate::json::{Json, JsonValue, key_views, lemma_array_view, lemma_object_view, make_array, value_views, views};
use crate::selection::{apply_path, result_view};
use crate::semantics::{entry_matches, filter, filter_items, lens_matches, retained, value_matches};
use crate::text::decimal_text;
use crate::tokens::{Lens, LensV, LensValue, Token, TokenV, lens_views, path_token_view, token_views};

verus! {

/// Whether an element's value equals a lens value.
fn match_value(lv: &LensValue, v: &JsonValue) -> (r: bool)
    ensures
        r == value_matches(lv@, v@),
{
    match (lv, v) {
        (LensValue::Bool(b), JsonValue::Bool(c)) => *b == *c,
        (LensValue::Null, JsonValue::Null) => true,
        (LensValue::Number(n), JsonValue::Number(t)) => {
            let text = decimal_text(*n);
            text == *t
        },
        (LensValue::String(s), JsonValue::String(t)) => *s == *t,
        _ => false,
    }
}

/// Whether an entry of an object matches a lens.
fn match_lens(l: &Lens, k: &String, v: &JsonValue) -> (r: bool)
    ensures
        r == lens_matches(l@, k@, v@),
{
    if l.0.len() == 0 {
        return false;
    }
    assert(l@.path[0] == path_token_view(l.0@[0]));
    match &l.0[0] {
        Token::KeySelector(first) => {
            if *first == *k {
                match &l.1 {
                    Some(lv) => match_value(lv, v),
                    None => true,
                }
            } else {
                assert(TokenV::Key(first@) != TokenV::Key(k@));
                false
            }
        },
        _ => false,
    }
}

/// Whether an entry of an object matches one of the lenses.
pub fn match_lenses(lenses: &Vec<Lens>, k: &String, v: &JsonValue) -> (r: bool)
    ensures
        r == entry_matches(lens_views(lenses@), k@, v@),
{
    let ghost ls = lens_views(lenses@);
    let mut q: usize = 0;
    while q < lenses.len()
        invariant
            q <= lenses.len(),
            ls == lens_views(lenses@),
            forall|p: int| 0 <= p < q ==> !lens_matches(ls[p], k@, v@),
        decreases lenses.len() - q,
    {
        if match_lens(&lenses[q], k, v) {
            assert(lens_matches(ls[q as int], k@, v@));
            return true;
        }
        q = q + 1;
    }
    false
}

/// Whether an element is kept by the lenses.
fn is_retained(lenses: &Vec<Lens>, e: &JsonValue) -> (r: bool)
    ensures
        r == retained(lens_views(lenses@), e@),
{
    if lenses.len() == 0 {
        return true;
    }
    match e {
        JsonValue::Object(entries) => {
            proof {
                lemma_object_view(*entries);
            }
            let ghost ls = lens_views(lenses@);
            let mut p: usize = 0;
            while p < entries.len()
                invariant
                    p <= entries.len(),
                    lenses.len() > 0,
                    ls == lens_views(lenses@),
                    e@ == Json::Object(key_views(entries@), value_views(entries@)),
                    forall|i: int|
                        0 <= i < p ==> !entry_matches(ls, key_views(entries@)[i], value_views(entries@)[i]),
                decreases entries.len() - p,
            {
                if match_lenses(lenses, &entries[p].0, &entries[p].1) {
                    assert(entry_matches(ls, key_views(entries@)[p as int], value_views(entries@)[p as int]));
                    assert(e@ is Object);
                    assert(e@->Object_0 == key_views(entries@));
                    assert(e@->Object_1 == value_views(entries@));
                    assert(entry_matches(ls, e@->Object_0[p as int], e@->Object_1[p as int]));
                    assert(retained(ls, e@));
                    return true;
                }
                p = p + 1;
            }
            false
        },
        _ => false,
    }
}

/// Once the filter fails on a prefix of the elements, it fails on all of
/// them with the same error.
pub proof fn lemma_filter_error(fs: Seq<TokenV>, ls: Seq<LensV>, a: Seq<Json>, n: int)
    requires
        0 <= n <= a.len(),
        filter_items(fs, ls, a.subrange(0, n)) is Err,
    ensures
        filter_items(fs, ls, a) == filter_items(fs, ls, a.subrange(0, n)),
    decreases a.len() - n,
{
    if n < a.len() {
        let p = a.subrange(0, n + 1);
        assert(p.drop_last() =~= a.subrange(0, n));
        lemma_filter_error(fs, ls, a, n + 1);
    } else {
        assert(a.subrange(0, n) =~= a);
    }
}

/// Applies the filter of a group to a value: on an array, each element that
/// the lenses keep is mapped through the filter path, in order; any other
/// value passes only when there is nothing to filter with.
pub fn apply_filter(filters: &Vec<Token>, lenses: &Vec<Lens>, json: &JsonValue) -> (r: Result<JsonValue, String>)
    ensures
        result_view(r) == filter(token_views(filters@), lens_views(lenses@), json@),
{
    match json {
        JsonValue::Array(a) => {
            proof {
                lemma_array_view(*a);
            }
            let ghost fs = token_views(filters@);
            let ghost ls = lens_views(lenses@);
            let ghost items = views(a@);
            let mut out: Vec<JsonValue> = Vec::new();
            let mut i: usize = 0;
            assert(items.subrange(0, 0) =~= Seq::<Json>::empty());
            assert(views(out@) =~= Seq::<Json>::empty());
            while i < a.len()
                invariant
                    i <= a.len(),
                    fs == token_views(filters@),
                    ls == lens_views(lenses@),
                    items == views(a@),
                    json@ == Json::Array(items),
                    filter_items(fs, ls, items.subrange(0, i as int)) == Ok::<Seq<Json>, Seq<char>>(views(out@)),
                decreases a.len() - i,
            {
                proof {
                    let pre = items.subrange(0, i + 1);
                    assert(pre.drop_last() =~= items.subrange(0, i as int));
                    assert(pre.last() == a@[i as int]@);
                }
                if is_retained(lenses, &a[i]) {
                    match apply_path(filters, &a[i]) {
                        Ok(v) => {
                            let ghost before = out@;
                            out.push(v);
                            assert(views(out@) =~= views(before).push(v@));
                        },
                        Err(e) => {
                            proof {
                                let pre = items.subrange(0, i + 1);
                                assert(pre.drop_last() =~= items.subrange(0, i as int));
                                assert(filter_items(fs, ls, pre) == Err::<Seq<Json>, Seq<char>>(e@));
                                lemma_filter_error(fs, ls, items, i + 1);
                            }
                            return Err(e);
                        },
                    }
                }
                i = i + 1;
            }
            assert(items.subrange(0, a.len() as int) =~= items);
            Ok(make_array(out))
        },
        _ => {
            if filters.len() == 0 && lenses.len() == 0 {
                Ok(json.deep_clone())
            } else {
                Err(String::from_str("A filter can only be applied to an array"))
            }
        },
    }
}

} // verus!
