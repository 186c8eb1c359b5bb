//! Reading tokens from the characters of a selector, rule by rule as the
//! grammar states them.
use vstd::prelude::*;

use crate::grammar::{
    digits_end, digits_value, fragment, index_list, indexes, is_ws, key, key_scan, lens,
    lens_value, lenses, lit, more_keys, more_lens_keys, more_lenses, more_numbers, multi_key,
    number, operator, opt_number, range_body, selector, skip_ws, tokens_from, word_at,
};
use crate::text::push_char;
use crate::tokens::{
    Index, Lens, LensValue, Range, Token, TokenV, bound, index_views, lens_views, path_token_view,
    path_views, string_views, token_views,
};

verus! {

pub proof fn lemma_skip_ws(s: Seq<char>, i: int)
    requires
        0 <= i <= s.len(),
    ensures
        i <= skip_ws(s, i) <= s.len(),
        skip_ws(s, i) < s.len() ==> !is_ws(s[skip_ws(s, i)]),
    decreases s.len() - i,
{
    if i < s.len() && is_ws(s[i]) {
        lemma_skip_ws(s, i + 1);
    }
}

pub fn is_space(c: char) -> (r: bool)
    ensures
        r == is_ws(c),
{
    ('\u{9}' <= c && c <= '\u{d}') || c == ' ' || c == '\u{85}' || c == '\u{a0}' || c == '\u{1680}'
        || ('\u{2000}' <= c && c <= '\u{200a}') || c == '\u{2028}' || c == '\u{2029}' || c == '\u{202f}'
        || c == '\u{205f}' || c == '\u{3000}'
}

/// The first position from `i` on that holds no whitespace.
pub fn skip_spaces(s: &Vec<char>, i: usize) -> (r: usize)
    requires
        i <= s.len(),
    ensures
        r == skip_ws(s@, i as int),
        i <= r <= s.len(),
{
    let mut j = i;
    while j < s.len() && is_space(s[j])
        invariant
            i <= j <= s.len(),
            skip_ws(s@, j as int) == skip_ws(s@, i as int),
        decreases s.len() - j,
    {
        j = j + 1;
    }
    j
}

/// The model of an optional position.
pub open spec fn pos(r: Option<usize>) -> Option<int> {
    match r {
        Some(k) => Some(k as int),
        None => None,
    }
}

/// One character, with whitespace around it.
pub fn punct(s: &Vec<char>, i: usize, c: char) -> (r: Option<usize>)
    requires
        i <= s.len(),
    ensures
        pos(r) == lit(s@, i as int, c),
        r matches Some(k) ==> i < k <= s.len(),
{
    let a = skip_spaces(s, i);
    if a < s.len() && s[a] == c {
        proof {
            lemma_skip_ws(s@, a + 1);
        }
        Some(skip_spaces(s, a + 1))
    } else {
        None
    }
}

/// An unsigned integer that fits a `usize`.
pub fn read_number(s: &Vec<char>, i: usize) -> (r: Option<(usize, usize)>)
    requires
        i <= s.len(),
    ensures
        match (r, number(s@, i as int)) {
            (Some((n, k)), Some((m, e))) => n == m && k == e && i < k <= s.len(),
            (None, None) => true,
            _ => false,
        },
{
    let mut j = i;
    let mut value: usize = 0;
    let mut over = false;
    while j < s.len() && '0' <= s[j] && s[j] <= '9'
        invariant
            i <= j <= s.len(),
            digits_end(s@, j as int) == digits_end(s@, i as int),
            !over ==> value as nat == digits_value(s@, i as int, j as int),
            over ==> digits_value(s@, i as int, j as int) > usize::MAX,
        decreases s.len() - j,
    {
        let d = (s[j] as u32 - '0' as u32) as usize;
        assert(d as nat == (s@[j as int] as nat - '0' as nat) as nat);
        assert(digits_value(s@, i as int, j + 1) == digits_value(s@, i as int, j as int) * 10 + d);
        if !over && value <= (usize::MAX - d) / 10 {
            value = value * 10 + d;
        } else {
            proof {
                if !over {
                    assert(value * 10 + d > usize::MAX) by (nonlinear_arith)
                        requires
                            value > (usize::MAX - d) / 10,
                            d < 10,
                    ;
                }
            }
            over = true;
        }
        j = j + 1;
    }
    if j > i && !over {
        Some((value, j))
    } else {
        None
    }
}

/// An optional unsigned integer.
fn read_opt_number(s: &Vec<char>, i: usize) -> (r: (Option<usize>, usize))
    requires
        i <= s.len(),
    ensures
        opt_number(s@, i as int) == (r.0, r.1 as int),
        i <= r.1 <= s.len(),
{
    match read_number(s, i) {
        Some((n, k)) => (Some(n), k),
        None => (None, i),
    }
}

/// A list of numbers separated by commas.
pub fn read_indexes(s: &Vec<char>, i: usize) -> (r: Option<(Vec<Index>, usize)>)
    requires
        i <= s.len(),
    ensures
        match (r, indexes(s@, i as int)) {
            (Some((v, k)), Some((w, e))) => index_views(v@) == w && k == e && i < k <= s.len(),
            (None, None) => true,
            _ => false,
        },
{
    let (n, b) = match read_number(s, i) {
        Some(x) => x,
        None => return None,
    };
    let mut out: Vec<Index> = Vec::new();
    out.push(Index(n));
    let mut c = b;
    assert(index_views(out@) =~= seq![n]);
    while c < s.len()
        invariant
            i < c <= s.len(),
            more_numbers(s@, c as int, index_views(out@)) == more_numbers(s@, b as int, seq![n]),
        ensures
            i < c <= s.len(),
            more_numbers(s@, b as int, seq![n]) == (index_views(out@), c as int),
        decreases s.len() - c,
    {
        let j = match punct(s, c, ',') {
            Some(j) => j,
            None => break,
        };
        match read_number(s, j) {
            Some((m, k)) => {
                let ghost before = index_views(out@);
                out.push(Index(m));
                assert(index_views(out@) =~= before.push(m));
                c = k;
            },
            None => break,
        }
    }
    Some((out, c))
}

/// A list of numbers between brackets.
pub fn read_index_list(s: &Vec<char>, i: usize, open: char, close: char) -> (r: Option<(Vec<Index>, usize)>)
    requires
        i <= s.len(),
    ensures
        match (r, index_list(s@, i as int, open, close)) {
            (Some((v, k)), Some((w, e))) => index_views(v@) == w && k == e && i < k <= s.len(),
            (None, None) => true,
            _ => false,
        },
{
    let a = match punct(s, i, open) {
        Some(a) => a,
        None => return None,
    };
    let (out, c) = match read_indexes(s, a) {
        Some(x) => x,
        None => return None,
    };
    match punct(s, c, close) {
        Some(d) => Some((out, d)),
        None => None,
    }
}

/// A range between brackets.
pub fn read_range(s: &Vec<char>, i: usize, open: char, close: char) -> (r: Option<(Range, usize)>)
    requires
        i <= s.len(),
    ensures
        match (r, range_body(s@, i as int, open, close)) {
            (Some((g, k)), Some((x, y, e))) => bound(g.0) == x && bound(g.1) == y && k == e && i < k <= s.len(),
            (None, None) => true,
            _ => false,
        },
{
    let a = match punct(s, i, open) {
        Some(a) => a,
        None => return None,
    };
    let (x, b) = read_opt_number(s, a);
    let c = match punct(s, b, ':') {
        Some(c) => c,
        None => return None,
    };
    let (y, d) = read_opt_number(s, c);
    let e = match punct(s, d, close) {
        Some(e) => e,
        None => return None,
    };
    let start = match x {
        Some(n) => Some(Index(n)),
        None => None,
    };
    let end = match y {
        Some(n) => Some(Index(n)),
        None => None,
    };
    Some((Range(start, end), e))
}

/// A key between double quotes; `\"` inside stands for a quote.
pub fn read_key(s: &Vec<char>, i: usize) -> (r: Option<(String, usize)>)
    requires
        i <= s.len(),
    ensures
        match (r, key(s@, i as int)) {
            (Some((v, k)), Some((w, e))) => v@ == w && k == e && i < k <= s.len(),
            (None, None) => true,
            _ => false,
        },
{
    let a = skip_spaces(s, i);
    if !(a < s.len() && s[a] == '"') {
        return None;
    }
    let mut out = String::new();
    let mut j = a + 1;
    while j < s.len() && s[j] != '"'
        invariant
            a < j <= s.len(),
            key_scan(s@, j as int, out@) == key_scan(s@, a + 1, Seq::empty()),
        decreases s.len() - j,
    {
        if s[j] == '\\' && j + 1 < s.len() && s[j + 1] == '"' {
            push_char(&mut out, '"');
            j = j + 2;
        } else {
            push_char(&mut out, s[j]);
            j = j + 1;
        }
    }
    if j < s.len() {
        proof {
            lemma_skip_ws(s@, j + 1);
        }
        Some((out, skip_spaces(s, j + 1)))
    } else {
        None
    }
}

/// A list of keys between curly brackets.
pub fn read_multi_key(s: &Vec<char>, i: usize) -> (r: Option<(Vec<String>, usize)>)
    requires
        i <= s.len(),
    ensures
        match (r, multi_key(s@, i as int)) {
            (Some((v, k)), Some((w, e))) => string_views(v@) == w && k == e && i < k <= s.len(),
            (None, None) => true,
            _ => false,
        },
{
    let a = match punct(s, i, '{') {
        Some(a) => a,
        None => return None,
    };
    let (first, b) = match read_key(s, a) {
        Some(x) => x,
        None => return None,
    };
    let ghost k0 = first@;
    let mut out: Vec<String> = Vec::new();
    out.push(first);
    let mut c = b;
    assert(string_views(out@) =~= seq![k0]);
    while c < s.len()
        invariant
            i < c <= s.len(),
            more_keys(s@, c as int, string_views(out@)) == more_keys(s@, b as int, seq![k0]),
        ensures
            i < c <= s.len(),
            more_keys(s@, b as int, seq![k0]) == (string_views(out@), c as int),
        decreases s.len() - c,
    {
        let j = match punct(s, c, ',') {
            Some(j) => j,
            None => break,
        };
        match read_key(s, j) {
            Some((m, k)) => {
                let ghost before = string_views(out@);
                let ghost mv = m@;
                out.push(m);
                assert(string_views(out@) =~= before.push(mv));
                c = k;
            },
            None => break,
        }
    }
    match punct(s, c, '}') {
        Some(d) => Some((out, d)),
        None => None,
    }
}

/// A selector that starts with `[`, `"` or `{` at `a`.
fn read_selector(s: &Vec<char>, a: usize) -> (r: Option<(Token, usize)>)
    requires
        a <= s.len(),
    ensures
        match (r, selector(s@, a as int)) {
            (Some((t, k)), Some((w, e))) => t@ == w && path_token_view(t) == w && k == e && a < k <= s.len(),
            (None, None) => true,
            _ => false,
        },
{
    if a < s.len() && s[a] == '[' {
        match read_index_list(s, a, '[', ']') {
            Some((is, e)) => Some((Token::ArrayIndexSelector(is), e)),
            None => match read_range(s, a, '[', ']') {
                Some((g, e)) => Some((Token::ArrayRangeSelector(g), e)),
                None => None,
            },
        }
    } else if a < s.len() && s[a] == '"' {
        match read_key(s, a) {
            Some((k, e)) => Some((Token::KeySelector(k), e)),
            None => None,
        }
    } else if a < s.len() && s[a] == '{' {
        match read_multi_key(s, a) {
            Some((ks, e)) => Some((Token::MultiKeySelector(ks), e)),
            None => match read_index_list(s, a, '{', '}') {
                Some((is, e)) => Some((Token::ObjectIndexSelector(is), e)),
                None => match read_range(s, a, '{', '}') {
                    Some((g, e)) => Some((Token::ObjectRangeSelector(g), e)),
                    None => None,
                },
            },
        }
    } else {
        None
    }
}

/// Whether the characters of `w` stand at `i`.
fn read_word(s: &Vec<char>, i: usize, w: &[char]) -> (r: bool)
    requires
        i <= s.len(),
    ensures
        r == word_at(s@, i as int, w@),
{
    if w.len() > s.len() - i {
        return false;
    }
    let mut k: usize = 0;
    while k < w.len()
        invariant
            k <= w.len(),
            i + w.len() <= s.len(),
            forall|p: int| 0 <= p < k ==> s@[i + p] == w@[p],
        decreases w.len() - k,
    {
        if s[i + k] != w[k] {
            assert(s@.subrange(i as int, i + w.len())[k as int] != w@[k as int]);
            return false;
        }
        k = k + 1;
    }
    assert(s@.subrange(i as int, i + w.len()) =~= w@);
    true
}

/// The value of a lens.
fn read_lens_value(s: &Vec<char>, i: usize) -> (r: Option<(LensValue, usize)>)
    requires
        i <= s.len(),
    ensures
        match (r, lens_value(s@, i as int)) {
            (Some((v, k)), Some((w, e))) => v@ == w && k == e && i < k <= s.len(),
            (None, None) => true,
            _ => false,
        },
{
    if i >= s.len() {
        return None;
    }
    let c = s[i];
    if c == 'f' {
        let w = ['f', 'a', 'l', 's', 'e'];
        if read_word(s, i, w.as_slice()) {
            assert(w@ =~= seq!['f', 'a', 'l', 's', 'e']);
            Some((LensValue::Bool(false), i + 5))
        } else {
            assert(w@ =~= seq!['f', 'a', 'l', 's', 'e']);
            None
        }
    } else if c == 't' {
        let w = ['t', 'r', 'u', 'e'];
        if read_word(s, i, w.as_slice()) {
            assert(w@ =~= seq!['t', 'r', 'u', 'e']);
            Some((LensValue::Bool(true), i + 4))
        } else {
            assert(w@ =~= seq!['t', 'r', 'u', 'e']);
            None
        }
    } else if c == 'n' {
        let w = ['n', 'u', 'l', 'l'];
        if read_word(s, i, w.as_slice()) {
            assert(w@ =~= seq!['n', 'u', 'l', 'l']);
            Some((LensValue::Null, i + 4))
        } else {
            assert(w@ =~= seq!['n', 'u', 'l', 'l']);
            None
        }
    } else if '0' <= c && c <= '9' {
        match read_number(s, i) {
            Some((n, e)) => Some((LensValue::Number(n), e)),
            None => None,
        }
    } else {
        match read_key(s, i) {
            Some((k, e)) => Some((LensValue::String(k), e)),
            None => None,
        }
    }
}

/// A lens: one or more keys, then an optional `=` and value.
pub fn read_lens(s: &Vec<char>, i: usize) -> (r: Option<(Lens, usize)>)
    requires
        i <= s.len(),
    ensures
        match (r, lens(s@, i as int)) {
            (Some((l, k)), Some((w, e))) => l@ == w && k == e && i < k <= s.len(),
            (None, None) => true,
            _ => false,
        },
{
    let a = skip_spaces(s, i);
    let (first, b) = match read_selector(s, a) {
        Some(x) => x,
        None => return None,
    };
    let ghost t0 = path_token_view(first);
    let mut path: Vec<Token> = Vec::new();
    path.push(first);
    let mut c = b;
    assert(path_views(path@) =~= seq![t0]);
    while c < s.len()
        invariant
            i < c <= s.len(),
            more_lens_keys(s@, c as int, path_views(path@)) == more_lens_keys(s@, b as int, seq![t0]),
        ensures
            i < c <= s.len(),
            more_lens_keys(s@, b as int, seq![t0]) == (path_views(path@), c as int),
        decreases s.len() - c,
    {
        let a2 = skip_spaces(s, c);
        match read_selector(s, a2) {
            Some((t, k)) => {
                let ghost before = path_views(path@);
                let ghost tv = path_token_view(t);
                path.push(t);
                assert(path_views(path@) =~= before.push(tv));
                c = k;
            },
            None => break,
        }
    }
    let (value, d) = match punct(s, c, '=') {
        Some(e) => match read_lens_value(s, e) {
            Some((v, f)) => (Some(v), f),
            None => (None, c),
        },
        None => (None, c),
    };
    proof {
        lemma_skip_ws(s@, d as int);
    }
    let end = skip_spaces(s, d);
    Some((Lens(path, value), end))
}

/// A lens selector: `|={`, lenses separated by commas, `}`.
pub fn read_lenses(s: &Vec<char>, a: usize) -> (r: Option<(Vec<Lens>, usize)>)
    requires
        a <= s.len(),
    ensures
        match (r, lenses(s@, a as int)) {
            (Some((v, k)), Some((w, e))) => lens_views(v@) == w && k == e && a < k <= s.len(),
            (None, None) => true,
            _ => false,
        },
{
    let w = ['|', '=', '{'];
    let found = read_word(s, a, w.as_slice());
    assert(w@ =~= seq!['|', '=', '{']);
    if !found {
        return None;
    }
    let b0 = skip_spaces(s, a + 3);
    let (first, b) = match read_lens(s, b0) {
        Some(x) => x,
        None => return None,
    };
    let ghost l0 = first@;
    let mut out: Vec<Lens> = Vec::new();
    out.push(first);
    let mut c = b;
    assert(lens_views(out@) =~= seq![l0]);
    while c < s.len()
        invariant
            a < c <= s.len(),
            more_lenses(s@, c as int, lens_views(out@)) == more_lenses(s@, b as int, seq![l0]),
        ensures
            a < c <= s.len(),
            more_lenses(s@, b as int, seq![l0]) == (lens_views(out@), c as int),
        decreases s.len() - c,
    {
        let j = match punct(s, c, ',') {
            Some(j) => j,
            None => break,
        };
        match read_lens(s, j) {
            Some((l, k)) => {
                let ghost before = lens_views(out@);
                let ghost lv = l@;
                out.push(l);
                assert(lens_views(out@) =~= before.push(lv));
                c = k;
            },
            None => break,
        }
    }
    match punct(s, c, '}') {
        Some(d) => Some((out, d)),
        None => None,
    }
}

/// An operator of two characters at `a`.
fn read_operator(s: &Vec<char>, a: usize, first: char, second: char, t: Token) -> (r: Option<(Token, usize)>)
    requires
        a <= s.len(),
        !(t is LensSelector),
    ensures
        match (r, operator(s@, a as int, first, second, t@)) {
            (Some((u, k)), Some((w, e))) => u@ == w && k == e && a < k <= s.len(),
            (None, None) => true,
            _ => false,
        },
{
    if a < s.len() && s.len() - a > 1 && s[a] == first && s[a + 1] == second {
        proof {
            lemma_skip_ws(s@, a + 2);
        }
        Some((t, skip_spaces(s, a + 2)))
    } else {
        None
    }
}

/// The token at `i`, with whitespace around it; a single `.` may stand
/// before a selector.
pub fn read_fragment(s: &Vec<char>, i: usize) -> (r: Option<(Token, usize)>)
    requires
        i <= s.len(),
    ensures
        match (r, fragment(s@, i as int)) {
            (Some((t, k)), Some((w, e))) => t@ == w && k == e && i < k <= s.len(),
            (None, None) => true,
            _ => false,
        },
{
    let a = skip_spaces(s, i);
    if a >= s.len() {
        return None;
    }
    let c = s[a];
    if c == '[' || c == '"' || c == '{' {
        read_selector(s, a)
    } else if c == '|' {
        match read_lenses(s, a) {
            Some((ls, e)) => Some((Token::LensSelector(ls), e)),
            None => read_operator(s, a, '|', '>', Token::PipeInOperator),
        }
    } else if c == '.' {
        match read_operator(s, a, '.', '.', Token::FlattenOperator) {
            Some(r) => Some(r),
            None => read_selector(s, a + 1),
        }
    } else if c == '<' {
        read_operator(s, a, '<', '|', Token::PipeOutOperator)
    } else if c == ',' {
        proof {
            lemma_skip_ws(s@, a + 1);
        }
        Some((Token::GroupSeparator, skip_spaces(s, a + 1)))
    } else if c == '!' {
        proof {
            lemma_skip_ws(s@, a + 1);
        }
        Some((Token::TruncateOperator, skip_spaces(s, a + 1)))
    } else {
        None
    }
}

/// The tokens read from the start, as long as one can be read, and the
/// position where reading stopped.
pub fn read_tokens(s: &Vec<char>) -> (r: (Vec<Token>, usize))
    ensures
        tokens_from(s@, 0, Seq::empty()) == (token_views(r.0@), r.1 as int),
        r.1 <= s.len(),
{
    let mut out: Vec<Token> = Vec::new();
    let mut c: usize = 0;
    assert(token_views(out@) =~= Seq::<TokenV>::empty());
    loop
        invariant
            c <= s.len(),
            tokens_from(s@, c as int, token_views(out@)) == tokens_from(s@, 0, Seq::empty()),
        ensures
            c <= s.len(),
            tokens_from(s@, 0, Seq::empty()) == (token_views(out@), c as int),
        decreases s.len() - c,
    {
        match read_fragment(s, c) {
            Some((t, k)) => {
                let ghost before = token_views(out@);
                let ghost tv = t@;
                out.push(t);
                assert(token_views(out@) =~= before.push(tv));
                c = k;
            },
            None => break,
        }
    }
    (out, c)
}

} // verus!
