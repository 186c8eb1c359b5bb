//! Walking groups over a JSON value.
use vstd::prelude::*;

use crate::errors::error_text;
use crate::filter::apply_filter;
use crate::flatten::flatten_json_array;
use crate::group::{Group, GroupV, group_views, groups_result_ok, parse_groups, selectors_parser};
use crate::json::{Json, JsonValue, make_array, views};
use crate::selection::{apply_path, result_view};
use crate::semantics::{filter, flatten, select_path, truncate};
use crate::truncate::truncate_json;

verus! {

pub open spec fn empty_group_msg() -> Seq<char> {
    "Empty group"@
}

pub open spec fn empty_selection_msg() -> Seq<char> {
    "Empty selection"@
}

/// What one group gives on a value: its main path, then its filter, then
/// flattening and truncation when asked for.
pub open spec fn walk_group(g: GroupV, j: Json) -> Result<Json, Seq<char>> {
    if g.selectors.len() == 0 && !g.root {
        Err(empty_group_msg())
    } else {
        match select_path(g.selectors, j) {
            Err(e) => Err(e),
            Ok(v) => match filter(g.filters, g.filter_lenses, v) {
                Err(e) => Err(e),
                Ok(w) => match (if g.spread {
                    flatten(w)
                } else {
                    Ok(w)
                }) {
                    Err(e) => Err(e),
                    Ok(x) => Ok(
                        if g.truncate {
                            truncate(x)
                        } else {
                            x
                        },
                    ),
                },
            },
        }
    }
}

/// The results of the groups, each on the same value, or the first error.
pub open spec fn walk_each(gs: Seq<GroupV>, j: Json) -> Result<Seq<Json>, Seq<char>>
    decreases gs.len(),
{
    if gs.len() == 0 {
        Ok(Seq::empty())
    } else {
        match walk_each(gs.drop_last(), j) {
            Ok(vs) => match walk_group(gs.last(), j) {
                Ok(v) => Ok(vs.push(v)),
                Err(e) => Err(e),
            },
            Err(e) => Err(e),
        }
    }
}

/// The result of one group alone, or an array of the results of several.
pub open spec fn walk_groups(gs: Seq<GroupV>, j: Json) -> Result<Json, Seq<char>> {
    if gs.len() == 0 {
        Err(empty_selection_msg())
    } else {
        match walk_each(gs, j) {
            Ok(vs) => Ok(
                if gs.len() == 1 {
                    vs[0]
                } else {
                    Json::Array(vs)
                },
            ),
            Err(e) => Err(e),
        }
    }
}

/// What a selector gives on a value.
pub open spec fn walk(j: Json, s: Seq<char>) -> Result<Json, Seq<char>> {
    match parse_groups(s) {
        Err(e) => Err(error_text(e)),
        Ok(gs) => walk_groups(gs, j),
    }
}

/// Walks one group over a value.
pub fn group_walker(group: &Group, json: &JsonValue) -> (r: Result<JsonValue, String>)
    ensures
        result_view(r) == walk_group(group@, json@),
{
    if group.selectors.len() == 0 && !group.root {
        return Err(String::from_str("Empty group"));
    }
    let selected = match apply_path(&group.selectors, json) {
        Ok(v) => v,
        Err(e) => return Err(e),
    };
    let filtered = match apply_filter(&group.filters, &group.filter_lenses, &selected) {
        Ok(v) => v,
        Err(e) => return Err(e),
    };
    let spread = if group.spread {
        match flatten_json_array(&filtered) {
            Ok(v) => v,
            Err(e) => return Err(e),
        }
    } else {
        filtered
    };
    if group.truncate {
        Ok(truncate_json(spread))
    } else {
        Ok(spread)
    }
}

pub proof fn lemma_walk_each_error(gs: Seq<GroupV>, n: int, j: Json)
    requires
        0 <= n <= gs.len(),
        walk_each(gs.subrange(0, n), j) is Err,
    ensures
        walk_each(gs, j) == walk_each(gs.subrange(0, n), j),
    decreases gs.len() - n,
{
    if n < gs.len() {
        let p = gs.subrange(0, n + 1);
        assert(p.drop_last() =~= gs.subrange(0, n));
        lemma_walk_each_error(gs, n + 1, j);
    } else {
        assert(gs.subrange(0, n) =~= gs);
    }
}

/// Walks the groups over a value: the result of one group alone, or an
/// array of the results of several, in order.
pub fn groups_walker(json: &JsonValue, groups: &[Group]) -> (r: Result<JsonValue, String>)
    ensures
        result_view(r) == walk_groups(group_views(groups@), json@),
{
    let ghost gs = group_views(groups@);
    if groups.len() == 0 {
        return Err(String::from_str("Empty selection"));
    }
    let mut out: Vec<JsonValue> = Vec::new();
    let mut i: usize = 0;
    assert(gs.subrange(0, 0) =~= Seq::<GroupV>::empty());
    assert(views(out@) =~= Seq::<Json>::empty());
    while i < groups.len()
        invariant
            i <= groups.len(),
            out@.len() == i,
            gs == group_views(groups@),
            walk_each(gs.subrange(0, i as int), json@) == Ok::<Seq<Json>, Seq<char>>(views(out@)),
        decreases groups.len() - i,
    {
        proof {
            let p = gs.subrange(0, i + 1);
            assert(p.drop_last() =~= gs.subrange(0, i as int));
            assert(p.last() == groups@[i as int]@);
        }
        match group_walker(&groups[i], json) {
            Ok(v) => {
                let ghost before = views(out@);
                let ghost vv = v@;
                out.push(v);
                assert(views(out@) =~= before.push(vv));
            },
            Err(e) => {
                proof {
                    lemma_walk_each_error(gs, i + 1, json@);
                }
                return Err(e);
            },
        }
        i = i + 1;
    }
    assert(gs.subrange(0, groups.len() as int) =~= gs);
    if out.len() == 1 {
        let ghost vs = views(out@);
        match out.pop() {
            Some(v) => {
                assert(v@ == vs[0]);
                Ok(v)
            },
            None => Err(String::from_str("Empty selection")),
        }
    } else {
        Ok(make_array(out))
    }
}

/// Runs a selector over a JSON value.
pub fn walker(json: &JsonValue, selectors: &str) -> (r: Result<JsonValue, String>)
    ensures
        result_view(r) == walk(json@, selectors@),
{
    let groups = selectors_parser(selectors);
    proof {
        assert(groups_result_ok(groups, selectors@));
    }
    match groups {
        Ok(gs) => groups_walker(json, gs.as_slice()),
        Err(e) => Err(e),
    }
}

} // verus!
