//! Groups: the units that the walker runs, assembled from a token stream.
use vstd::prelude::*;

use crate::errors::{KjqlParserError, ParserErrorV, error_text};
use crate::parser::{parse, parse_spec};
use crate::render::{stringify_tokens, tokens_text};
use crate::tokens::{Lens, LensV, Token, TokenV, lens_views, token_views};

verus! {

/// A group of selectors: a main path, a filter path applied to each element
/// of an array, lenses that keep elements, and markers.
#[derive(Debug, PartialEq, Eq)]
pub struct Group {
    /// The filter path.
    pub filters: Vec<Token>,
    /// The filter lenses.
    pub filter_lenses: Vec<Lens>,
    /// Whether the group works on the value as it is.
    pub root: bool,
    /// The main path.
    pub selectors: Vec<Token>,
    /// Whether the result is flattened.
    pub spread: bool,
    /// Whether the result is truncated.
    pub truncate: bool,
}

/// The model of a group.
pub struct GroupV {
    pub filters: Seq<TokenV>,
    pub filter_lenses: Seq<LensV>,
    pub root: bool,
    pub selectors: Seq<TokenV>,
    pub spread: bool,
    pub truncate: bool,
}

impl View for Group {
    type V = GroupV;

    open spec fn view(&self) -> GroupV {
        GroupV {
            filters: token_views(self.filters@),
            filter_lenses: lens_views(self.filter_lenses@),
            root: self.root,
            selectors: token_views(self.selectors@),
            spread: self.spread,
            truncate: self.truncate,
        }
    }
}

pub open spec fn group_views(v: Seq<Group>) -> Seq<GroupV> {
    Seq::new(v.len(), |i: int| v[i]@)
}

pub open spec fn empty_group() -> GroupV {
    GroupV {
        filters: Seq::empty(),
        filter_lenses: Seq::empty(),
        root: false,
        selectors: Seq::empty(),
        spread: false,
        truncate: false,
    }
}

impl Group {
    /// Creates an empty group.
    pub fn new() -> (r: Group)
        ensures
            r@ == empty_group(),
    {
        let g = Group {
            filters: Vec::new(),
            filter_lenses: Vec::new(),
            root: false,
            selectors: Vec::new(),
            spread: false,
            truncate: false,
        };
        assert(g@.filters =~= Seq::empty());
        assert(g@.filter_lenses =~= Seq::empty());
        assert(g@.selectors =~= Seq::empty());
        g
    }
}

/// A group being assembled: the group so far, whether the tokens go to the
/// main path (0), to the filter (1) or nowhere (2), and whether no token
/// has been seen yet.
pub struct Draft {
    pub group: GroupV,
    pub phase: nat,
    pub fresh: bool,
}

pub open spec fn start_draft() -> Draft {
    Draft { group: empty_group(), phase: 0, fresh: true }
}

/// The next token of a group, other than a separator: a leading `..`
/// flattens (one elsewhere is refused before, see `assemble`), `!` truncates, the first `|>` opens the filter and the `<|`
/// after it closes it; lenses go to the filter lenses; any other token
/// extends the path that is open.
pub open spec fn step(d: Draft, t: TokenV) -> Draft {
    let g = d.group;
    let next = match t {
        TokenV::Flatten => if d.fresh {
            Draft { group: GroupV { spread: true, ..g }, ..d }
        } else {
            d
        },
        TokenV::Truncate => Draft { group: GroupV { truncate: true, ..g }, ..d },
        TokenV::PipeIn => if d.phase == 0 {
            Draft { phase: 1, ..d }
        } else {
            add_to_path(d, t)
        },
        TokenV::PipeOut => if d.phase == 1 {
            Draft { phase: 2, ..d }
        } else {
            add_to_path(d, t)
        },
        TokenV::Lens(ls) => if d.phase < 2 {
            Draft { group: GroupV { filter_lenses: g.filter_lenses + ls, ..g }, ..d }
        } else {
            d
        },
        _ => add_to_path(d, t),
    };
    Draft { fresh: false, ..next }
}

/// The token added to the path that is open.
pub open spec fn add_to_path(d: Draft, t: TokenV) -> Draft {
    let g = d.group;
    if d.phase == 0 {
        Draft { group: GroupV { selectors: g.selectors.push(t), ..g }, ..d }
    } else if d.phase == 1 {
        Draft { group: GroupV { filters: g.filters.push(t), ..g }, ..d }
    } else {
        d
    }
}

/// The finished group, or nothing when it has nothing to select. A group
/// without a main path and without `..` works on the value as it is.
pub open spec fn finish(d: Draft) -> Option<GroupV> {
    let g = d.group;
    if g.selectors.len() == 0 && !g.spread && g.filters.len() == 0 && g.filter_lenses.len() == 0 {
        None
    } else {
        Some(GroupV { root: g.selectors.len() == 0 && !g.spread, ..g })
    }
}

/// The groups closed so far (nothing once one is empty) and the open draft.
pub open spec fn run(ts: Seq<TokenV>) -> (Option<Seq<GroupV>>, Draft)
    decreases ts.len(),
{
    if ts.len() == 0 {
        (Some(Seq::empty()), start_draft())
    } else {
        let (gs, d) = run(ts.drop_last());
        if ts.last() == TokenV::GroupSep {
            (close(gs, d), start_draft())
        } else {
            (gs, step(d, ts.last()))
        }
    }
}

pub open spec fn close(gs: Option<Seq<GroupV>>, d: Draft) -> Option<Seq<GroupV>> {
    match (gs, finish(d)) {
        (Some(g), Some(x)) => Some(g.push(x)),
        _ => None,
    }
}

/// The groups of a token stream, split on the separators; nothing when one
/// of them is empty.
pub open spec fn groups_of(ts: Seq<TokenV>) -> Option<Seq<GroupV>> {
    let (gs, d) = run(ts);
    close(gs, d)
}

/// Whether a flatten operator stands elsewhere than first in its group.
pub open spec fn misplaced_flatten(ts: Seq<TokenV>) -> bool {
    exists|p: int| 0 < p < ts.len() && #[trigger] ts[p] == TokenV::Flatten && ts[p - 1] != TokenV::GroupSep
}

/// The groups of a token stream, or why it has none: a `..` elsewhere than
/// at the start of a group, or an empty group.
pub open spec fn assemble(ts: Seq<TokenV>) -> Result<Seq<GroupV>, ParserErrorV> {
    if misplaced_flatten(ts) {
        Err(ParserErrorV::Flatten(tokens_text(ts)))
    } else {
        match groups_of(ts) {
            Some(gs) => Ok(gs),
            None => Err(ParserErrorV::EmptyGroup),
        }
    }
}

/// The groups of a selector, or why it has none.
pub open spec fn parse_groups(s: Seq<char>) -> Result<Seq<GroupV>, ParserErrorV> {
    match parse_spec(s) {
        Err(e) => Err(e),
        Ok(ts) => assemble(ts),
    }
}

/// Once a group is empty, the stream has no groups.
pub proof fn lemma_run_none(ts: Seq<TokenV>, n: int)
    requires
        0 <= n <= ts.len(),
        run(ts.subrange(0, n)).0 is None,
    ensures
        groups_of(ts) is None,
    decreases ts.len() - n,
{
    if n < ts.len() {
        let p = ts.subrange(0, n + 1);
        assert(p.drop_last() =~= ts.subrange(0, n));
        lemma_run_none(ts, n + 1);
    } else {
        assert(ts.subrange(0, n) =~= ts);
    }
}

pub open spec fn draft_of(g: Group, phase: u8, fresh: bool) -> Draft {
    Draft { group: g@, phase: phase as nat, fresh }
}

/// Adds a token to the path that is open.
fn push_to_path(g: &mut Group, phase: u8, t: &Token)
    requires
        phase <= 2,
    ensures
        draft_of(*final(g), phase, false) == add_to_path(draft_of(*old(g), phase, false), t@),
{
    if phase == 0 {
        let ghost before = token_views(g.selectors@);
        g.selectors.push(t.copy());
        assert(token_views(g.selectors@) =~= before.push(t@));
    } else if phase == 1 {
        let ghost before = token_views(g.filters@);
        g.filters.push(t.copy());
        assert(token_views(g.filters@) =~= before.push(t@));
    }
}

/// Closes a group: nothing when it has nothing to select.
fn finish_group(g: Group) -> (r: Option<Group>)
    ensures
        match (r, finish(draft_of(g, 0, false))) {
            (Some(x), Some(y)) => x@ == y,
            (None, None) => true,
            _ => false,
        },
{
    if g.selectors.len() == 0 && !g.spread && g.filters.len() == 0 && g.filter_lenses.len() == 0 {
        None
    } else {
        let root = g.selectors.len() == 0 && !g.spread;
        Some(Group { root, ..g })
    }
}

/// Copies of a list of lenses.
fn copy_lenses(ls: &Vec<Lens>) -> (r: Vec<Lens>)
    ensures
        lens_views(r@) == lens_views(ls@),
{
    let mut out: Vec<Lens> = Vec::new();
    let mut k: usize = 0;
    while k < ls.len()
        invariant
            k <= ls.len(),
            out@.len() == k,
            forall|p: int| 0 <= p < k ==> out@[p]@ == ls@[p]@,
        decreases ls.len() - k,
    {
        out.push(ls[k].copy());
        k = k + 1;
    }
    assert(lens_views(out@) =~= lens_views(ls@));
    out
}

/// Splits a token stream into groups.
fn split_groups(tokens: &Vec<Token>) -> (r: Option<Vec<Group>>)
    ensures
        match (r, groups_of(token_views(tokens@))) {
            (Some(v), Some(w)) => group_views(v@) == w,
            (None, None) => true,
            _ => false,
        },
{
    let ghost ts = token_views(tokens@);
    let mut groups: Vec<Group> = Vec::new();
    let mut current = Group::new();
    let mut phase: u8 = 0;
    let mut fresh = true;
    let mut i: usize = 0;
    assert(group_views(groups@) =~= Seq::<GroupV>::empty());
    assert(ts.subrange(0, 0) =~= Seq::<TokenV>::empty());
    while i < tokens.len()
        invariant
            i <= tokens.len(),
            ts == token_views(tokens@),
            phase <= 2,
            run(ts.subrange(0, i as int)) == (Some(group_views(groups@)), draft_of(current, phase, fresh)),
        decreases tokens.len() - i,
    {
        let ghost d = draft_of(current, phase, fresh);
        proof {
            let p = ts.subrange(0, i + 1);
            assert(p.drop_last() =~= ts.subrange(0, i as int));
            assert(p.last() == tokens@[i as int]@);
        }
        match &tokens[i] {
            Token::GroupSeparator => {
                let done = current;
                current = Group::new();
                assert(draft_of(done, phase, fresh).group == draft_of(done, 0, false).group);
                match finish_group(done) {
                    Some(g) => {
                        let ghost before = group_views(groups@);
                        let ghost gv = g@;
                        groups.push(g);
                        assert(group_views(groups@) =~= before.push(gv));
                    },
                    None => {
                        proof {
                            lemma_run_none(ts, i + 1);
                        }
                        return None;
                    },
                }
                phase = 0;
                fresh = true;
            },
            Token::FlattenOperator => {
                if fresh {
                    current.spread = true;
                }
                fresh = false;
            },
            Token::TruncateOperator => {
                current.truncate = true;
                fresh = false;
            },
            Token::PipeInOperator => {
                if phase == 0 {
                    phase = 1;
                } else {
                    push_to_path(&mut current, phase, &tokens[i]);
                }
                fresh = false;
            },
            Token::PipeOutOperator => {
                if phase == 1 {
                    phase = 2;
                } else {
                    push_to_path(&mut current, phase, &tokens[i]);
                }
                fresh = false;
            },
            Token::LensSelector(ls) => {
                if phase < 2 {
                    let ghost before = lens_views(current.filter_lenses@);
                    let mut extra = copy_lenses(ls);
                    let ghost added = lens_views(extra@);
                    current.filter_lenses.append(&mut extra);
                    assert(lens_views(current.filter_lenses@) =~= before + added);
                }
                fresh = false;
            },
            _ => {
                push_to_path(&mut current, phase, &tokens[i]);
                fresh = false;
            },
        }
        i = i + 1;
    }
    assert(ts.subrange(0, tokens.len() as int) =~= ts);
    match finish_group(current) {
        Some(g) => {
            let ghost before = group_views(groups@);
            let ghost gv = g@;
            groups.push(g);
            assert(group_views(groups@) =~= before.push(gv));
            Some(groups)
        },
        None => None,
    }
}

/// Whether a flatten operator stands elsewhere than first in its group.
fn has_misplaced_flatten(tokens: &Vec<Token>) -> (r: bool)
    ensures
        r == misplaced_flatten(token_views(tokens@)),
{
    let ghost ts = token_views(tokens@);
    let mut p: usize = 1;
    while p < tokens.len()
        invariant
            1 <= p,
            ts == token_views(tokens@),
            forall|q: int| 0 < q < p && q < ts.len() ==> !(#[trigger] ts[q] == TokenV::Flatten && ts[q - 1] != TokenV::GroupSep),
        decreases tokens.len() - p,
    {
        if matches!(tokens[p], Token::FlattenOperator) && !matches!(tokens[p - 1], Token::GroupSeparator) {
            assert(ts[p as int] == TokenV::Flatten && ts[p - 1] != TokenV::GroupSep);
            return true;
        }
        p = p + 1;
    }
    false
}

/// Splits a token stream into groups; refuses a `..` elsewhere than at the
/// start of a group, and an empty group.
pub fn group_tokens(tokens: &Vec<Token>) -> (r: Result<Vec<Group>, KjqlParserError>)
    ensures
        match (r, assemble(token_views(tokens@))) {
            (Ok(v), Ok(w)) => group_views(v@) == w,
            (Err(e), Err(f)) => e@ == f,
            _ => false,
        },
{
    if has_misplaced_flatten(tokens) {
        return Err(KjqlParserError::FlattenError(stringify_tokens(tokens)));
    }
    match split_groups(tokens) {
        Some(groups) => Ok(groups),
        None => Err(KjqlParserError::EmptyGroupError),
    }
}

/// The model of a result of the selector parser.
pub open spec fn groups_result_ok(r: Result<Vec<Group>, String>, s: Seq<char>) -> bool {
    match r {
        Ok(gs) => parse_groups(s) == Ok::<Seq<GroupV>, ParserErrorV>(group_views(gs@)),
        Err(m) => match parse_groups(s) {
            Err(e) => m@ == error_text(e),
            Ok(_) => false,
        },
    }
}

/// Parses a selector and returns its groups, or the message of the error.
pub fn selectors_parser(selectors: &str) -> (r: Result<Vec<Group>, String>)
    ensures
        groups_result_ok(r, selectors@),
{
    match parse(selectors) {
        Ok(tokens) => match group_tokens(&tokens) {
            Ok(groups) => Ok(groups),
            Err(e) => Err(e.message()),
        },
        Err(e) => Err(e.message()),
    }
}

} // verus!
