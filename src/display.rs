//! How a selector is named in an error message, and the messages themselves.
use vstd::prelude::*;

use crate::text::{decimal, join, lemma_join_push, push_decimal, push_str};
use crate::tokens::{Index, Token, TokenV, index_views};

verus! {

/// An optional bound in decimal, or nothing.
pub open spec fn bound_text(b: Option<usize>) -> Seq<char> {
    match b {
        Some(i) => decimal(i as nat),
        None => Seq::empty(),
    }
}

/// Indexes in decimal, separated by ", ".
pub open spec fn index_list_text(is: Seq<usize>) -> Seq<char> {
    join(is.map_values(|i: usize| decimal(i as nat)), ", "@)
}

pub open spec fn array_descr(cap: bool) -> Seq<char> {
    if cap {
        "Array"@
    } else {
        "array"@
    }
}

pub open spec fn range_descr(a: Option<usize>, b: Option<usize>, cap: bool) -> Seq<char> {
    (if cap {
        "Range ["@
    } else {
        "range ["@
    }) + bound_text(a) + ":"@ + bound_text(b) + "]"@
}

pub open spec fn default_descr(k: Seq<char>, cap: bool) -> Seq<char> {
    (if cap {
        "Node \""@
    } else {
        "node \""@
    }) + k + "\""@
}

pub open spec fn index_descr(is: Seq<usize>, cap: bool) -> Seq<char> {
    (if cap {
        "Index ["@
    } else {
        "index ["@
    }) + index_list_text(is) + "]"@
}

pub open spec fn object_descr(props: Seq<Seq<char>>, cap: bool) -> Seq<char> {
    (if cap {
        "Property {"@
    } else {
        "property {"@
    }) + join(props, ","@) + "}"@
}

pub open spec fn selection_descr(cap: bool) -> Seq<char> {
    if cap {
        "Selection"@
    } else {
        "selection"@
    }
}

/// How a token is named when its result is the parent of the next one.
pub open spec fn descr(t: TokenV, cap: bool) -> Seq<char> {
    match t {
        TokenV::Key(k) => default_descr(k, cap),
        TokenV::ArrayIndex(is) => index_descr(is, cap),
        TokenV::ArrayRange(a, b) => range_descr(a, b, cap),
        TokenV::MultiKey(ks) => object_descr(ks, cap),
        TokenV::ObjectIndex(is) => object_descr(is.map_values(|i: usize| decimal(i as nat)), cap),
        TokenV::ObjectRange(a, b) => object_descr(seq![bound_text(a) + ":"@ + bound_text(b)], cap),
        TokenV::Flatten => array_descr(cap),
        _ => selection_descr(cap),
    }
}

/// The parent of a selection: the previous token, or the root element.
pub open spec fn parent_text(prev: Option<TokenV>) -> Seq<char> {
    match prev {
        Some(t) => descr(t, false),
        None => "root element"@,
    }
}

/// The subject of a sentence on the parent of a selection.
pub open spec fn subject_text(prev: Option<TokenV>) -> Seq<char> {
    match prev {
        Some(t) => descr(t, true),
        None => "Root element"@,
    }
}

/// Where a missing key was looked for.
pub open spec fn lookup_place(prev: Option<TokenV>) -> Seq<char> {
    match prev {
        Some(t) => "parent "@ + descr(t, false),
        None => "the parent element"@,
    }
}

pub open spec fn not_array_msg(prev: Option<TokenV>) -> Seq<char> {
    subject_text(prev) + " is not an array"@
}

pub open spec fn not_object_msg(prev: Option<TokenV>) -> Seq<char> {
    subject_text(prev) + " is not an object"@
}

pub open spec fn key_not_found_msg(k: Seq<char>, prev: Option<TokenV>) -> Seq<char> {
    "Node \""@ + k + "\" not found on "@ + lookup_place(prev)
}

/// A key between double quotes.
pub open spec fn quoted(k: Seq<char>) -> Seq<char> {
    "\""@ + k + "\""@
}

pub open spec fn keys_not_found_msg(ks: Seq<Seq<char>>, prev: Option<TokenV>) -> Seq<char> {
    "Keys "@ + join(ks.map_values(|k: Seq<char>| quoted(k)), ","@) + " not found on "@
        + lookup_place(prev)
}

pub open spec fn index_oob_msg(i: usize, prev: Option<TokenV>, len: nat) -> Seq<char> {
    "Index ["@ + decimal(i as nat) + "] is out of bound, "@ + parent_text(prev)
        + " has a length of "@ + decimal(len)
}

pub open spec fn range_oob_msg(a: nat, b: nat, prev: Option<TokenV>, len: nat) -> Seq<char> {
    "Range ["@ + decimal(a) + ":"@ + decimal(b) + "] is out of bound, "@ + parent_text(prev)
        + " has a length of "@ + decimal(len)
}

pub open spec fn flatten_msg() -> Seq<char> {
    "Only arrays can be flattened."@
}

pub open spec fn filter_msg() -> Seq<char> {
    "A filter can only be applied to an array"@
}

/// Appends indexes in decimal, separated by a separator.
fn push_index_list(s: &mut String, is: &[usize], sep: &str)
    ensures
        final(s)@ == old(s)@ + join(is@.map_values(|i: usize| decimal(i as nat)), sep@),
{
    let ghost start = s@;
    let mut i: usize = 0;
    while i < is.len()
        invariant
            i <= is.len(),
            s@ == start + join(is@.subrange(0, i as int).map_values(|i: usize| decimal(i as nat)), sep@),
        decreases is.len() - i,
    {
        let ghost before = is@.subrange(0, i as int).map_values(|i: usize| decimal(i as nat));
        proof {
            lemma_join_push(before, sep@, decimal(is@[i as int] as nat));
            assert(is@.subrange(0, i + 1).map_values(|i: usize| decimal(i as nat)) =~= before.push(decimal(is@[i as int] as nat)));
        }
        if i > 0 {
            push_str(s, sep);
        }
        push_decimal(s, is[i]);
        i = i + 1;
    }
    assert(is@.subrange(0, is.len() as int) =~= is@);
}

/// Appends strings separated by a separator.
fn push_joined(s: &mut String, items: &[String], sep: &str)
    ensures
        final(s)@ == old(s)@ + join(items@.map_values(|k: String| k@), sep@),
{
    let ghost start = s@;
    let mut i: usize = 0;
    while i < items.len()
        invariant
            i <= items.len(),
            s@ == start + join(items@.subrange(0, i as int).map_values(|k: String| k@), sep@),
        decreases items.len() - i,
    {
        let ghost before = items@.subrange(0, i as int).map_values(|k: String| k@);
        proof {
            lemma_join_push(before, sep@, items@[i as int]@);
            assert(items@.subrange(0, i + 1).map_values(|k: String| k@) =~= before.push(items@[i as int]@));
        }
        if i > 0 {
            push_str(s, sep);
        }
        push_str(s, items[i].as_str());
        i = i + 1;
    }
    assert(items@.subrange(0, items.len() as int) =~= items@);
}

/// Converts an array selector to a readable string.
pub fn display_array_selector(capitalized: bool) -> (r: String)
    ensures
        r@ == array_descr(capitalized),
{
    String::from_str(if capitalized { "Array" } else { "array" })
}

/// Converts a range to a readable string.
pub fn display_range_selector(range: (Option<usize>, Option<usize>), capitalized: bool) -> (r: String)
    ensures
        r@ == range_descr(range.0, range.1, capitalized),
{
    let mut s = String::from_str(if capitalized { "Range [" } else { "range [" });
    if let Some(a) = range.0 {
        push_decimal(&mut s, a);
    }
    push_str(&mut s, ":");
    if let Some(b) = range.1 {
        push_decimal(&mut s, b);
    }
    push_str(&mut s, "]");
    assert(s@ =~= range_descr(range.0, range.1, capitalized));
    s
}

/// Converts a key to a readable string.
pub fn display_default_selector(value: &str, capitalized: bool) -> (r: String)
    ensures
        r@ == default_descr(value@, capitalized),
{
    let mut s = String::from_str(if capitalized { "Node \"" } else { "node \"" });
    push_str(&mut s, value);
    push_str(&mut s, "\"");
    s
}

/// Converts a list of indexes to a readable string.
pub fn display_index_selector(indexes: &[usize], capitalized: bool) -> (r: String)
    ensures
        r@ == index_descr(indexes@, capitalized),
{
    let mut s = String::from_str(if capitalized { "Index [" } else { "index [" });
    push_index_list(&mut s, indexes, ", ");
    push_str(&mut s, "]");
    s
}

/// Converts a list of properties to a readable string.
pub fn display_object_selector(properties: &[String], capitalized: bool) -> (r: String)
    ensures
        r@ == object_descr(properties@.map_values(|k: String| k@), capitalized),
{
    let mut s = String::from_str(if capitalized { "Property {" } else { "property {" });
    push_joined(&mut s, properties, ",");
    push_str(&mut s, "}");
    s
}

/// The numbers of a list of indexes.
fn index_numbers(v: &Vec<Index>) -> (r: Vec<usize>)
    ensures
        r@ == index_views(v@),
{
    let mut out: Vec<usize> = Vec::new();
    let mut i: usize = 0;
    while i < v.len()
        invariant
            i <= v.len(),
            out@ =~= index_views(v@.subrange(0, i as int)),
        decreases v.len() - i,
    {
        out.push(v[i].0);
        i = i + 1;
    }
    assert(v@.subrange(0, v.len() as int) =~= v@);
    out
}

/// Readable names of selectors.
pub trait Display {
    /// The name of the selector, capitalized or not.
    fn as_str(&self, capitalized: bool) -> String;
}

impl Display for Token {
    fn as_str(&self, capitalized: bool) -> (r: String)
        ensures
            r@ == descr(self@, capitalized),
    {
        match self {
            Token::KeySelector(k) => display_default_selector(k.as_str(), capitalized),
            Token::ArrayIndexSelector(is) => {
                let n = index_numbers(is);
                display_index_selector(n.as_slice(), capitalized)
            },
            Token::ArrayRangeSelector(r) => {
                let a = match r.0 {
                    Some(i) => Some(i.0),
                    None => None,
                };
                let b = match r.1 {
                    Some(i) => Some(i.0),
                    None => None,
                };
                display_range_selector((a, b), capitalized)
            },
            Token::MultiKeySelector(ks) => {
                let r = display_object_selector(ks.as_slice(), capitalized);
                assert(ks@.map_values(|k: String| k@) =~= crate::tokens::string_views(ks@));
                r
            },
            Token::ObjectIndexSelector(is) => {
                let mut s = String::from_str(if capitalized { "Property {" } else { "property {" });
                let n = index_numbers(is);
                push_index_list(&mut s, n.as_slice(), ",");
                push_str(&mut s, "}");
                s
            },
            Token::ObjectRangeSelector(r) => {
                let mut s = String::from_str(if capitalized { "Property {" } else { "property {" });
                if let Some(a) = r.0 {
                    push_decimal(&mut s, a.0);
                }
                push_str(&mut s, ":");
                if let Some(b) = r.1 {
                    push_decimal(&mut s, b.0);
                }
                push_str(&mut s, "}");
                proof {
                    let item = bound_text(crate::tokens::bound(r.0)) + ":"@ + bound_text(crate::tokens::bound(r.1));
                    assert(join(seq![item], ","@) == item);
                }
                assert(s@ =~= descr(self@, capitalized));
                s
            },
            Token::FlattenOperator => display_array_selector(capitalized),
            _ => String::from_str(if capitalized { "Selection" } else { "selection" }),
        }
    }
}

} // verus!
