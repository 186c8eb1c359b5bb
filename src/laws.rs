//! Properties of the query language, proved over the models.
use vstd::prelude::*;

use crate::display::{descr, not_array_msg, not_object_msg, quoted};
use crate::errors::ParserErrorV;
use crate::group::{GroupV, close, groups_of, misplaced_flatten, parse_groups, run};
use crate::grammar::{is_ws, skip_ws};
use crate::parser::parse_spec;
use crate::json::Json;
use crate::semantics::{
    all_in_bounds, first_occurrences, first_oob, flat, flatten, has_key, leaves, missing_keys, range_items, reversed,
    select, select_all, select_keys, select_object_indexes, select_path, select_range,
};
use crate::order::sorted_unique;
use crate::text::{decimal, join};
use crate::tokens::{TokenV, resolve_end, resolve_start};
use crate::walker::{walk, walk_each, walk_group, walk_groups};

verus! {

/// The result of a selector is a function of the value and the selector
/// alone: equal inputs give equal results.
pub proof fn lemma_walk_deterministic(j1: Json, j2: Json, s1: Seq<char>, s2: Seq<char>)
    requires
        j1 == j2,
        s1 == s2,
    ensures
        walk(j1, s1) == walk(j2, s2),
{
}

/// The value of a path is the last of the values after each of its tokens,
/// and there is one value per token.
pub proof fn lemma_path_is_last_selection(ts: Seq<TokenV>, j: Json)
    ensures
        select_path(ts, j) == match select_all(ts, j) {
            Ok(vs) => Ok(
                if vs.len() == 0 {
                    j
                } else {
                    vs.last()
                },
            ),
            Err(e) => Err(e),
        },
        select_all(ts, j) is Ok ==> select_all(ts, j)->Ok_0.len() == ts.len(),
    decreases ts.len(),
{
    if ts.len() > 0 {
        lemma_path_is_last_selection(ts.drop_last(), j);
    }
}

/// Selecting several keys of an object gives a new object whose keys are
/// the listed ones, in the listed order, each once.
pub proof fn lemma_multi_key_order(ks: Seq<Seq<char>>, keys: Seq<Seq<char>>, vals: Seq<Json>, prev: Option<TokenV>)
    requires
        forall|m: int| 0 <= m < ks.len() ==> has_key(keys, ks[m]),
    ensures
        select_keys(ks, Json::Object(keys, vals), prev) is Ok,
        select_keys(ks, Json::Object(keys, vals), prev)->Ok_0->Object_0 == first_occurrences(ks),
{
}

/// Selecting entries of an object by position gives a new object whose keys
/// are those at the listed positions, in the listed order, each position once.
pub proof fn lemma_object_index_order(is: Seq<usize>, keys: Seq<Seq<char>>, vals: Seq<Json>, prev: Option<TokenV>)
    requires
        all_in_bounds(is, keys.len()),
    ensures
        select_object_indexes(is, Json::Object(keys, vals), prev) is Ok,
        select_object_indexes(is, Json::Object(keys, vals), prev)->Ok_0->Object_0 == first_occurrences(is).map_values(
            |i: usize| keys[i as int],
        ),
{
}

/// For `a <= b` within an array, the range `[b:a]` gives the elements of
/// `[a:b]` in reverse order, so that `[a:b]` followed by `[b:a]` is a
/// palindrome.
pub proof fn lemma_range_inversion(items: Seq<Json>, a: usize, b: usize, prev: Option<TokenV>)
    requires
        a <= b < items.len(),
    ensures
        select_range(Some(a), Some(b), Json::Array(items), prev) == Ok::<Json, Seq<char>>(
            Json::Array(range_items(items, a as nat, b as nat)),
        ),
        select_range(Some(b), Some(a), Json::Array(items), prev) == Ok::<Json, Seq<char>>(
            Json::Array(reversed(range_items(items, a as nat, b as nat))),
        ),
        range_items(items, a as nat, b as nat) + range_items(items, b as nat, a as nat)
            == range_items(items, a as nat, b as nat) + reversed(range_items(items, a as nat, b as nat)),
{
    assert(reversed(range_items(items, a as nat, b as nat)) =~= range_items(items, b as nat, a as nat));
}

/// No element of a flattened array is an array.
pub proof fn lemma_flat_has_no_arrays(s: Seq<Json>)
    ensures
        forall|i: int| 0 <= i < flat(s).len() ==> !(#[trigger] flat(s)[i] is Array),
    decreases s,
{
    if s.len() > 0 {
        lemma_flat_has_no_arrays(s.drop_last());
        match s.last() {
            Json::Array(inner) => {
                lemma_flat_has_no_arrays(inner);
            },
            _ => {},
        }
        let f = flat(s);
        assert(f == flat(s.drop_last()) + leaves(s.last()));
        assert forall|i: int| 0 <= i < f.len() implies !(#[trigger] f[i] is Array) by {
            if i >= flat(s.drop_last()).len() {
                assert(f[i] == leaves(s.last())[i - flat(s.drop_last()).len()]);
            }
        }
    }
}

/// Flattening an array that holds no array changes nothing.
pub proof fn lemma_flat_of_leaves(s: Seq<Json>)
    requires
        forall|i: int| 0 <= i < s.len() ==> !(#[trigger] s[i] is Array),
    ensures
        flat(s) == s,
    decreases s.len(),
{
    if s.len() > 0 {
        assert forall|i: int| 0 <= i < s.drop_last().len() implies !(#[trigger] s.drop_last()[i] is Array) by {
            assert(s.drop_last()[i] == s[i]);
        }
        lemma_flat_of_leaves(s.drop_last());
        assert(!(s[s.len() - 1] is Array));
        assert(leaves(s.last()) == seq![s.last()]);
        assert(flat(s) =~= s.drop_last().push(s.last()));
        assert(s.drop_last().push(s.last()) =~= s);
    }
}

/// Flattening holds no array, and flattening twice is flattening once.
pub proof fn lemma_flatten_idempotent(items: Seq<Json>)
    ensures
        forall|i: int| 0 <= i < flat(items).len() ==> !(#[trigger] flat(items)[i] is Array),
        flatten(Json::Array(items)) == Ok::<Json, Seq<char>>(Json::Array(flat(items))),
        flatten(Json::Array(flat(items))) == flatten(Json::Array(items)),
{
    lemma_flat_has_no_arrays(items);
    lemma_flat_of_leaves(flat(items));
}

/// The groups of a stream followed by a separator and a second stream.
pub open spec fn joined(a: Option<Seq<GroupV>>, b: Option<Seq<GroupV>>) -> Option<Seq<GroupV>> {
    match (a, b) {
        (Some(x), Some(y)) => Some(x + y),
        _ => None,
    }
}

pub proof fn lemma_run_after_separator(ts1: Seq<TokenV>, ts2: Seq<TokenV>)
    ensures
        run(ts1.push(TokenV::GroupSep) + ts2) == (
            joined(close(run(ts1).0, run(ts1).1), run(ts2).0),
            run(ts2).1,
        ),
    decreases ts2.len(),
{
    let x = ts1.push(TokenV::GroupSep);
    if ts2.len() == 0 {
        assert(x + ts2 =~= x);
        assert(x.drop_last() =~= ts1);
        match close(run(ts1).0, run(ts1).1) {
            Some(c) => assert(c + Seq::<GroupV>::empty() =~= c),
            None => {},
        }
    } else {
        lemma_run_after_separator(ts1, ts2.drop_last());
        assert((x + ts2).drop_last() =~= x + ts2.drop_last());
        assert((x + ts2).last() == ts2.last());
        let c = close(run(ts1).0, run(ts1).1);
        let (g2, d2) = run(ts2.drop_last());
        if ts2.last() == TokenV::GroupSep {
            match (c, g2, crate::group::finish(d2)) {
                (Some(p), Some(q), Some(f)) => {
                    assert((p + q).push(f) =~= p + q.push(f));
                },
                _ => {},
            }
        }
    }
}

/// Two token streams joined by a separator give the groups of the first
/// followed by those of the second; nothing when either has an empty group.
pub proof fn lemma_groups_of_joined(ts1: Seq<TokenV>, ts2: Seq<TokenV>)
    ensures
        groups_of(ts1.push(TokenV::GroupSep) + ts2) == joined(groups_of(ts1), groups_of(ts2)),
{
    lemma_run_after_separator(ts1, ts2);
    let c = close(run(ts1).0, run(ts1).1);
    let (g2, d2) = run(ts2);
    match (c, g2, crate::group::finish(d2)) {
        (Some(p), Some(q), Some(f)) => {
            assert((p + q).push(f) =~= p + q.push(f));
        },
        _ => {},
    }
}

/// Two selectors of one group each, joined by a separator: the result is
/// the array of their two results; when either fails, the first failure.
pub proof fn lemma_grouping(ts1: Seq<TokenV>, ts2: Seq<TokenV>, g1: GroupV, g2: GroupV, j: Json)
    requires
        groups_of(ts1) == Some(seq![g1]),
        groups_of(ts2) == Some(seq![g2]),
    ensures
        groups_of(ts1.push(TokenV::GroupSep) + ts2) == Some(seq![g1, g2]),
        walk_groups(seq![g1, g2], j) == match (walk_groups(seq![g1], j), walk_groups(seq![g2], j)) {
            (Ok(a), Ok(b)) => Ok(Json::Array(seq![a, b])),
            (Err(e), _) => Err(e),
            (Ok(_), Err(e)) => Err(e),
        },
{
    lemma_groups_of_joined(ts1, ts2);
    assert(seq![g1] + seq![g2] =~= seq![g1, g2]);
    let gs = seq![g1, g2];
    assert(gs.drop_last() =~= seq![g1]);
    assert(seq![g1].drop_last() =~= Seq::<GroupV>::empty());
    assert(seq![g2].drop_last() =~= Seq::<GroupV>::empty());
    let e1 = walk_each(seq![g1], j);
    let e2 = walk_each(seq![g2], j);
    assert(walk_each(Seq::<GroupV>::empty(), j) == Ok::<Seq<Json>, Seq<char>>(Seq::empty()));
    match walk_group(g1, j) {
        Ok(a) => {
            assert(e1 == Ok::<Seq<Json>, Seq<char>>(seq![a]));
            assert(Seq::<Json>::empty().push(a) =~= seq![a]);
        },
        Err(e) => assert(e1 == Err::<Seq<Json>, Seq<char>>(e)),
    }
    match walk_group(g2, j) {
        Ok(b) => {
            assert(e2 == Ok::<Seq<Json>, Seq<char>>(seq![b]));
            assert(Seq::<Json>::empty().push(b) =~= seq![b]);
        },
        Err(e) => assert(e2 == Err::<Seq<Json>, Seq<char>>(e)),
    }
    match (walk_group(g1, j), walk_group(g2, j)) {
        (Ok(a), Ok(b)) => {
            assert(seq![a].push(b) =~= seq![a, b]);
            assert(walk_each(gs, j) == Ok::<Seq<Json>, Seq<char>>(seq![a, b]));
        },
        _ => {},
    }
}

/// A `..` that stands first in each of two streams stands first in its
/// group when they are joined by a separator.
pub proof fn lemma_flatten_placed_joined(ts1: Seq<TokenV>, ts2: Seq<TokenV>)
    requires
        !misplaced_flatten(ts1),
        !misplaced_flatten(ts2),
    ensures
        !misplaced_flatten(ts1.push(TokenV::GroupSep) + ts2),
{
    let ts = ts1.push(TokenV::GroupSep) + ts2;
    let n = ts1.len() as int;
    assert forall|p: int| 0 < p < ts.len() && #[trigger] ts[p] == TokenV::Flatten implies ts[p - 1] == TokenV::GroupSep by {
        if p < n {
            assert(ts[p] == ts1[p] && ts[p - 1] == ts1[p - 1]);
        } else if p > n + 1 {
            assert(ts[p] == ts2[p - n - 1] && ts[p - 1] == ts2[p - n - 2]);
        }
    }
}

/// Grouping for selectors: when the tokens of a selector are those of a
/// first selector, a separator, and those of a second one, each of one
/// group, its result is the array of the two results, or the first error.
pub proof fn lemma_walk_grouping(
    j: Json,
    s: Seq<char>,
    s1: Seq<char>,
    s2: Seq<char>,
    ts1: Seq<TokenV>,
    ts2: Seq<TokenV>,
    g1: GroupV,
    g2: GroupV,
)
    requires
        parse_spec(s1) == Ok::<Seq<TokenV>, ParserErrorV>(ts1),
        parse_spec(s2) == Ok::<Seq<TokenV>, ParserErrorV>(ts2),
        parse_spec(s) == Ok::<Seq<TokenV>, ParserErrorV>(ts1.push(TokenV::GroupSep) + ts2),
        parse_groups(s1) == Ok::<Seq<GroupV>, ParserErrorV>(seq![g1]),
        parse_groups(s2) == Ok::<Seq<GroupV>, ParserErrorV>(seq![g2]),
    ensures
        walk(j, s) == match (walk(j, s1), walk(j, s2)) {
            (Ok(a), Ok(b)) => Ok(Json::Array(seq![a, b])),
            (Err(e), _) => Err(e),
            (Ok(_), Err(e)) => Err(e),
        },
{
    assert(!misplaced_flatten(ts1) && groups_of(ts1) == Some(seq![g1]));
    assert(!misplaced_flatten(ts2) && groups_of(ts2) == Some(seq![g2]));
    lemma_flatten_placed_joined(ts1, ts2);
    lemma_grouping(ts1, ts2, g1, g2, j);
    assert(parse_groups(s) == Ok::<Seq<GroupV>, ParserErrorV>(seq![g1, g2]));
}

pub proof fn lemma_skip_ws_to_end(s: Seq<char>, i: int)
    requires
        0 <= i <= s.len(),
    ensures
        (skip_ws(s, i) == s.len()) <==> (forall|k: int| i <= k < s.len() ==> is_ws(#[trigger] s[k])),
    decreases s.len() - i,
{
    if i < s.len() && is_ws(s[i]) {
        lemma_skip_ws_to_end(s, i + 1);
    }
}

/// A selector made of whitespace alone, or of nothing, is refused as empty
/// input, and no other is.
pub proof fn lemma_blank_input(s: Seq<char>)
    ensures
        (parse_spec(s) == Err::<Seq<TokenV>, ParserErrorV>(ParserErrorV::EmptyInput)) <==> (forall|k: int|
            0 <= k < s.len() ==> is_ws(#[trigger] s[k])),
{
    lemma_skip_ws_to_end(s, 0);
}

/// An error of a selector that reads keys, indexes or ranges names the
/// selector applied before it, when there is one.
pub proof fn lemma_error_names_parent(t: TokenV, j: Json, p: TokenV)
    requires
        t is Key || t is MultiKey || t is ArrayIndex || t is ArrayRange || t is ObjectIndex
            || t is ObjectRange,
        select(t, j, Some(p)) is Err,
    ensures
        exists|before: Seq<char>, after: Seq<char>, cap: bool|
            select(t, j, Some(p))->Err_0 == before + descr(p, cap) + after,
{
    let m = select(t, j, Some(p))->Err_0;
    let up = descr(p, true);
    let low = descr(p, false);
    if m == not_object_msg(Some(p)) {
        assert(m =~= Seq::<char>::empty() + up + " is not an object"@);
    } else if m == not_array_msg(Some(p)) {
        assert(m =~= Seq::<char>::empty() + up + " is not an array"@);
    } else {
        match t {
            TokenV::Key(k) => {
                assert(m =~= ("Node \""@ + k + "\" not found on "@ + "parent "@) + low + Seq::<char>::empty());
            },
            TokenV::MultiKey(ks) => {
                let keys = j->Object_0;
                let listed = join(sorted_unique(missing_keys(ks, keys)).map_values(|k: Seq<char>| quoted(k)), ","@);
                assert(m =~= ("Keys "@ + listed + " not found on "@ + "parent "@) + low + Seq::<char>::empty());
            },
            TokenV::ArrayIndex(is) => {
                let len = j->Array_0.len();
                assert(m =~= ("Index ["@ + decimal(first_oob(is, len) as nat) + "] is out of bound, "@) + low
                    + (" has a length of "@ + decimal(len)));
            },
            TokenV::ObjectIndex(is) => {
                let len = j->Object_0.len();
                assert(m =~= ("Index ["@ + decimal(first_oob(is, len) as nat) + "] is out of bound, "@) + low
                    + (" has a length of "@ + decimal(len)));
            },
            TokenV::ArrayRange(x, y) => {
                let len = j->Array_0.len();
                let st = resolve_start(x);
                let en = resolve_end(y, len);
                assert(m =~= ("Range ["@ + decimal(st) + ":"@ + decimal(en) + "] is out of bound, "@) + low
                    + (" has a length of "@ + decimal(len)));
            },
            TokenV::ObjectRange(x, y) => {
                let len = j->Object_0.len();
                let st = resolve_start(x);
                let en = resolve_end(y, len);
                assert(m =~= ("Range ["@ + decimal(st) + ":"@ + decimal(en) + "] is out of bound, "@) + low
                    + (" has a length of "@ + decimal(len)));
            },
            _ => {},
        }
    }
}

} // verus!
