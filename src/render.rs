//! Tokens written out as text, as error messages show them.
use vstd::prelude::*;

use crate::display::{bound_text, index_list_text};
use crate::text::{decimal, join, lemma_join_push, push_decimal, push_str};
use crate::tokens::{
    Index, Lens, LensV, LensValue, LensValueV, Token, TokenV, bound, index_views, lens_value_view,
    lens_views, path_token_view, path_views, string_views, token_views,
};

verus! {

pub open spec fn lens_value_text(v: Option<LensValueV>) -> Seq<char> {
    match v {
        None => "None"@,
        Some(LensValueV::Bool(true)) => "true"@,
        Some(LensValueV::Bool(false)) => "false"@,
        Some(LensValueV::Null) => "Null"@,
        Some(LensValueV::Number(n)) => decimal(n as nat),
        Some(LensValueV::Str(s)) => s,
    }
}

/// The name of a token's kind.
pub open spec fn token_name(t: TokenV) -> Seq<char> {
    match t {
        TokenV::ArrayIndex(_) => "ArrayIndexSelector"@,
        TokenV::ArrayRange(_, _) => "ArrayRangeSelector"@,
        TokenV::Flatten => "FlattenOperator"@,
        TokenV::GroupSep => "GroupSeparator"@,
        TokenV::Key(_) => "KeySelector"@,
        TokenV::Lens(_) => "LensSelector"@,
        TokenV::MultiKey(_) => "MultiKeySelector"@,
        TokenV::ObjectIndex(_) => "ObjectIndexSelector"@,
        TokenV::ObjectRange(_, _) => "ObjectRangeSelector"@,
        TokenV::PipeIn => "PipeInOperator"@,
        TokenV::PipeOut => "PipeOutOperator"@,
        TokenV::Truncate => "TruncateOperator"@,
    }
}

/// The text of a token, without the contents of a lens: its name, then
/// what it holds.
pub open spec fn simple_text(t: TokenV) -> Seq<char> {
    token_name(t) + match t {
        TokenV::ArrayIndex(is) => " ["@ + index_list_text(is) + "]"@,
        TokenV::ObjectIndex(is) => " ["@ + index_list_text(is) + "]"@,
        TokenV::ArrayRange(a, b) => " Range ["@ + bound_text(a) + ":"@ + bound_text(b) + "]"@,
        TokenV::ObjectRange(a, b) => " Range ["@ + bound_text(a) + ":"@ + bound_text(b) + "]"@,
        TokenV::Key(k) => " \""@ + k + "\""@,
        TokenV::MultiKey(ks) => " "@ + join(ks, ","@),
        TokenV::Lens(_) => " []"@,
        _ => Seq::empty(),
    }
}

impl Token {
    /// The name of the token's kind.
    pub fn get_name(&self) -> (r: &'static str)
        ensures
            r@ == token_name(self@),
    {
        match self {
            Token::ArrayIndexSelector(_) => "ArrayIndexSelector",
            Token::ArrayRangeSelector(_) => "ArrayRangeSelector",
            Token::FlattenOperator => "FlattenOperator",
            Token::GroupSeparator => "GroupSeparator",
            Token::KeySelector(_) => "KeySelector",
            Token::LensSelector(_) => "LensSelector",
            Token::MultiKeySelector(_) => "MultiKeySelector",
            Token::ObjectIndexSelector(_) => "ObjectIndexSelector",
            Token::ObjectRangeSelector(_) => "ObjectRangeSelector",
            Token::PipeInOperator => "PipeInOperator",
            Token::PipeOutOperator => "PipeOutOperator",
            Token::TruncateOperator => "TruncateOperator",
        }
    }
}

/// The text of a lens: its path, then its value or `None`.
pub open spec fn lens_text(l: LensV) -> Seq<char> {
    join(l.path.map_values(|t: TokenV| simple_text(t)), ", "@) + lens_value_text(l.value)
}

/// The text of a token.
pub open spec fn token_text(t: TokenV) -> Seq<char> {
    match t {
        TokenV::Lens(ls) => token_name(t) + " ["@ + join(ls.map_values(|l: LensV| lens_text(l)), ", "@) + "]"@,
        _ => simple_text(t),
    }
}

/// The text of a list of tokens, separated by ", ".
pub open spec fn tokens_text(ts: Seq<TokenV>) -> Seq<char> {
    join(ts.map_values(|t: TokenV| token_text(t)), ", "@)
}

fn push_index_items(s: &mut String, is: &Vec<Index>)
    ensures
        final(s)@ == old(s)@ + index_list_text(index_views(is@)),
{
    let ghost start = s@;
    let ghost all = index_views(is@).map_values(|i: usize| decimal(i as nat));
    let mut i: usize = 0;
    while i < is.len()
        invariant
            i <= is.len(),
            all == index_views(is@).map_values(|i: usize| decimal(i as nat)),
            s@ == start + join(all.subrange(0, i as int), ", "@),
        decreases is.len() - i,
    {
        proof {
            lemma_join_push(all.subrange(0, i as int), ", "@, all[i as int]);
            assert(all.subrange(0, i + 1) =~= all.subrange(0, i as int).push(all[i as int]));
        }
        if i > 0 {
            push_str(s, ", ");
        }
        push_decimal(s, is[i].0);
        i = i + 1;
    }
    assert(all.subrange(0, is.len() as int) =~= all);
}

fn push_bound(s: &mut String, b: Option<Index>)
    ensures
        final(s)@ == old(s)@ + bound_text(bound(b)),
{
    match b {
        Some(i) => push_decimal(s, i.0),
        None => assert(s@ =~= s@ + Seq::<char>::empty()),
    }
}

fn push_keys(s: &mut String, ks: &Vec<String>)
    ensures
        final(s)@ == old(s)@ + join(string_views(ks@), ","@),
{
    let ghost start = s@;
    let ghost all = string_views(ks@);
    let mut i: usize = 0;
    while i < ks.len()
        invariant
            i <= ks.len(),
            all == string_views(ks@),
            s@ == start + join(all.subrange(0, i as int), ","@),
        decreases ks.len() - i,
    {
        proof {
            lemma_join_push(all.subrange(0, i as int), ","@, all[i as int]);
            assert(all.subrange(0, i + 1) =~= all.subrange(0, i as int).push(all[i as int]));
        }
        if i > 0 {
            push_str(s, ",");
        }
        push_str(s, ks[i].as_str());
        i = i + 1;
    }
    assert(all.subrange(0, ks.len() as int) =~= all);
}

/// Appends the text of a token, without the contents of a lens.
fn push_simple(s: &mut String, t: &Token)
    ensures
        final(s)@ == old(s)@ + simple_text(path_token_view(*t)),
{
    let ghost start = s@;
    push_str(s, t.get_name());
    assert(token_name(t@) == token_name(path_token_view(*t)));
    match t {
        Token::ArrayIndexSelector(is) | Token::ObjectIndexSelector(is) => {
            push_str(s, " [");
            push_index_items(s, is);
            push_str(s, "]");
        },
        Token::ArrayRangeSelector(r) | Token::ObjectRangeSelector(r) => {
            push_str(s, " Range [");
            push_bound(s, r.0);
            push_str(s, ":");
            push_bound(s, r.1);
            push_str(s, "]");
        },
        Token::KeySelector(k) => {
            push_str(s, " \"");
            push_str(s, k.as_str());
            push_str(s, "\"");
        },
        Token::MultiKeySelector(ks) => {
            push_str(s, " ");
            push_keys(s, ks);
        },
        Token::LensSelector(_) => push_str(s, " []"),
        _ => {},
    }
    assert(s@ =~= start + simple_text(path_token_view(*t)));
}

fn push_lens_value(s: &mut String, v: &Option<LensValue>)
    ensures
        final(s)@ == old(s)@ + lens_value_text(lens_value_view(*v)),
{
    match v {
        None => push_str(s, "None"),
        Some(LensValue::Bool(true)) => push_str(s, "true"),
        Some(LensValue::Bool(false)) => push_str(s, "false"),
        Some(LensValue::Null) => push_str(s, "Null"),
        Some(LensValue::Number(n)) => push_decimal(s, *n),
        Some(LensValue::String(t)) => push_str(s, t.as_str()),
    }
}

fn push_lens(s: &mut String, l: &Lens)
    ensures
        final(s)@ == old(s)@ + lens_text(l@),
{
    let ghost start = s@;
    let ghost all = path_views(l.0@).map_values(|t: TokenV| simple_text(t));
    let mut i: usize = 0;
    while i < l.0.len()
        invariant
            i <= l.0.len(),
            all == path_views(l.0@).map_values(|t: TokenV| simple_text(t)),
            s@ == start + join(all.subrange(0, i as int), ", "@),
        decreases l.0.len() - i,
    {
        proof {
            lemma_join_push(all.subrange(0, i as int), ", "@, all[i as int]);
            assert(all.subrange(0, i + 1) =~= all.subrange(0, i as int).push(all[i as int]));
        }
        if i > 0 {
            push_str(s, ", ");
        }
        push_simple(s, &l.0[i]);
        i = i + 1;
    }
    assert(all.subrange(0, l.0.len() as int) =~= all);
    push_lens_value(s, &l.1);
    assert(s@ =~= start + lens_text(l@));
}

/// Appends the text of a token.
fn push_token(s: &mut String, t: &Token)
    ensures
        final(s)@ == old(s)@ + token_text(t@),
{
    match t {
        Token::LensSelector(ls) => {
            let ghost start = s@;
            push_str(s, t.get_name());
            push_str(s, " [");
            let ghost mid = s@;
            let ghost all = lens_views(ls@).map_values(|l: LensV| lens_text(l));
            let mut i: usize = 0;
            while i < ls.len()
                invariant
                    i <= ls.len(),
                    all == lens_views(ls@).map_values(|l: LensV| lens_text(l)),
                    s@ == mid + join(all.subrange(0, i as int), ", "@),
                decreases ls.len() - i,
            {
                proof {
                    lemma_join_push(all.subrange(0, i as int), ", "@, all[i as int]);
                    assert(all.subrange(0, i + 1) =~= all.subrange(0, i as int).push(all[i as int]));
                }
                if i > 0 {
                    push_str(s, ", ");
                }
                push_lens(s, &ls[i]);
                i = i + 1;
            }
            assert(all.subrange(0, ls.len() as int) =~= all);
            push_str(s, "]");
            assert(s@ =~= start + token_text(t@));
        },
        _ => push_simple(s, t),
    }
}

/// The text of a list of tokens, separated by ", ".
pub fn stringify_tokens(tokens: &Vec<Token>) -> (r: String)
    ensures
        r@ == tokens_text(token_views(tokens@)),
{
    let mut s = String::new();
    let ghost all = token_views(tokens@).map_values(|t: TokenV| token_text(t));
    let mut i: usize = 0;
    assert(join(all.subrange(0, 0), ", "@) =~= s@);
    while i < tokens.len()
        invariant
            i <= tokens.len(),
            all == token_views(tokens@).map_values(|t: TokenV| token_text(t)),
            s@ == join(all.subrange(0, i as int), ", "@),
        decreases tokens.len() - i,
    {
        proof {
            lemma_join_push(all.subrange(0, i as int), ", "@, all[i as int]);
            assert(all.subrange(0, i + 1) =~= all.subrange(0, i as int).push(all[i as int]));
        }
        if i > 0 {
            push_str(&mut s, ", ");
        }
        push_token(&mut s, &tokens[i]);
        i = i + 1;
    }
    assert(all.subrange(0, tokens.len() as int) =~= all);
    s
}

} // verus!
