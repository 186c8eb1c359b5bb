//! The selector grammar, stated over characters. Each rule takes the input
//! and a position and gives what it reads there and the position after it,
//! or nothing when it does not apply. Whitespace is skipped around tokens
//! and around punctuation, never inside a number or a key.
use vstd::prelude::*;

use crate::tokens::{LensV, LensValueV, TokenV};

verus! {

/// A whitespace character of Unicode: the characters that `str::trim`
/// removes.
pub open spec fn is_ws(c: char) -> bool {
    ('\u{9}' <= c && c <= '\u{d}') || c == ' ' || c == '\u{85}' || c == '\u{a0}' || c == '\u{1680}'
        || ('\u{2000}' <= c && c <= '\u{200a}') || c == '\u{2028}' || c == '\u{2029}' || c == '\u{202f}'
        || c == '\u{205f}' || c == '\u{3000}'
}

pub open spec fn is_digit(c: char) -> bool {
    '0' <= c <= '9'
}

/// The first position from `i` on that holds no whitespace.
pub open spec fn skip_ws(s: Seq<char>, i: int) -> int
    decreases s.len() - i,
{
    if 0 <= i < s.len() && is_ws(s[i]) {
        skip_ws(s, i + 1)
    } else {
        i
    }
}

/// One character, with whitespace around it.
pub open spec fn lit(s: Seq<char>, i: int, c: char) -> Option<int> {
    let a = skip_ws(s, i);
    if 0 <= a < s.len() && s[a] == c {
        Some(skip_ws(s, a + 1))
    } else {
        None
    }
}

/// The end of the run of digits that starts at `i`.
pub open spec fn digits_end(s: Seq<char>, i: int) -> int
    decreases s.len() - i,
{
    if 0 <= i < s.len() && is_digit(s[i]) {
        digits_end(s, i + 1)
    } else {
        i
    }
}

/// The number that the digits from `i` to `j` write in decimal.
pub open spec fn digits_value(s: Seq<char>, i: int, j: int) -> nat
    decreases j - i,
{
    if j <= i {
        0
    } else {
        digits_value(s, i, j - 1) * 10 + (s[j - 1] as nat - '0' as nat) as nat
    }
}

/// An unsigned integer that fits a `usize`.
pub open spec fn number(s: Seq<char>, i: int) -> Option<(usize, int)> {
    let j = digits_end(s, i);
    if j > i && digits_value(s, i, j) <= usize::MAX {
        Some((digits_value(s, i, j) as usize, j))
    } else {
        None
    }
}

/// An optional unsigned integer.
pub open spec fn opt_number(s: Seq<char>, i: int) -> (Option<usize>, int) {
    match number(s, i) {
        Some((n, k)) => (Some(n), k),
        None => (None, i),
    }
}

/// Further numbers of a list, each after a comma.
pub open spec fn more_numbers(s: Seq<char>, i: int, acc: Seq<usize>) -> (Seq<usize>, int)
    decreases s.len() - i,
{
    match lit(s, i, ',') {
        Some(j) => match number(s, j) {
            Some((n, k)) => if i < k <= s.len() {
                more_numbers(s, k, acc.push(n))
            } else {
                (acc, i)
            },
            None => (acc, i),
        },
        None => (acc, i),
    }
}

/// A list of numbers separated by commas.
pub open spec fn indexes(s: Seq<char>, i: int) -> Option<(Seq<usize>, int)> {
    match number(s, i) {
        Some((n, b)) => Some(more_numbers(s, b, seq![n])),
        None => None,
    }
}

/// A list of numbers between brackets.
pub open spec fn index_list(s: Seq<char>, i: int, open: char, close: char) -> Option<(Seq<usize>, int)> {
    match lit(s, i, open) {
        Some(a) => match indexes(s, a) {
            Some((is, c)) => match lit(s, c, close) {
                Some(d) => Some((is, d)),
                None => None,
            },
            None => None,
        },
        None => None,
    }
}

/// A range between brackets: optional bounds around a colon.
pub open spec fn range_body(s: Seq<char>, i: int, open: char, close: char) -> Option<(Option<usize>, Option<usize>, int)> {
    match lit(s, i, open) {
        Some(a) => {
            let (x, b) = opt_number(s, a);
            match lit(s, b, ':') {
                Some(c) => {
                    let (y, d) = opt_number(s, c);
                    match lit(s, d, close) {
                        Some(e) => Some((x, y, e)),
                        None => None,
                    }
                },
                None => None,
            }
        },
        None => None,
    }
}

/// The body of a key, up to its closing quote; `\"` stands for a quote.
pub open spec fn key_scan(s: Seq<char>, j: int, acc: Seq<char>) -> Option<(Seq<char>, int)>
    decreases s.len() - j,
{
    if j < 0 || j >= s.len() {
        None
    } else if s[j] == '"' {
        Some((acc, j))
    } else if s[j] == '\\' && j + 1 < s.len() && s[j + 1] == '"' {
        key_scan(s, j + 2, acc.push('"'))
    } else {
        key_scan(s, j + 1, acc.push(s[j]))
    }
}

/// A key between double quotes.
pub open spec fn key(s: Seq<char>, i: int) -> Option<(Seq<char>, int)> {
    let a = skip_ws(s, i);
    if 0 <= a < s.len() && s[a] == '"' {
        match key_scan(s, a + 1, Seq::empty()) {
            Some((k, e)) => Some((k, skip_ws(s, e + 1))),
            None => None,
        }
    } else {
        None
    }
}

/// Further keys of a list, each after a comma.
pub open spec fn more_keys(s: Seq<char>, i: int, acc: Seq<Seq<char>>) -> (Seq<Seq<char>>, int)
    decreases s.len() - i,
{
    match lit(s, i, ',') {
        Some(j) => match key(s, j) {
            Some((k, e)) => if i < e <= s.len() {
                more_keys(s, e, acc.push(k))
            } else {
                (acc, i)
            },
            None => (acc, i),
        },
        None => (acc, i),
    }
}

/// A list of keys between curly brackets.
pub open spec fn multi_key(s: Seq<char>, i: int) -> Option<(Seq<Seq<char>>, int)> {
    match lit(s, i, '{') {
        Some(a) => match key(s, a) {
            Some((k, b)) => {
                let (ks, c) = more_keys(s, b, seq![k]);
                match lit(s, c, '}') {
                    Some(d) => Some((ks, d)),
                    None => None,
                }
            },
            None => None,
        },
        None => None,
    }
}

/// A selector that starts with `[`, `"` or `{`.
pub open spec fn selector(s: Seq<char>, a: int) -> Option<(TokenV, int)> {
    if 0 <= a < s.len() && s[a] == '[' {
        match index_list(s, a, '[', ']') {
            Some((is, e)) => Some((TokenV::ArrayIndex(is), e)),
            None => match range_body(s, a, '[', ']') {
                Some((x, y, e)) => Some((TokenV::ArrayRange(x, y), e)),
                None => None,
            },
        }
    } else if 0 <= a < s.len() && s[a] == '"' {
        match key(s, a) {
            Some((k, e)) => Some((TokenV::Key(k), e)),
            None => None,
        }
    } else if 0 <= a < s.len() && s[a] == '{' {
        match multi_key(s, a) {
            Some((ks, e)) => Some((TokenV::MultiKey(ks), e)),
            None => match index_list(s, a, '{', '}') {
                Some((is, e)) => Some((TokenV::ObjectIndex(is), e)),
                None => match range_body(s, a, '{', '}') {
                    Some((x, y, e)) => Some((TokenV::ObjectRange(x, y), e)),
                    None => None,
                },
            },
        }
    } else {
        None
    }
}

/// Further keys of a lens path.
pub open spec fn more_lens_keys(s: Seq<char>, i: int, acc: Seq<TokenV>) -> (Seq<TokenV>, int)
    decreases s.len() - i,
{
    match selector(s, skip_ws(s, i)) {
        Some((t, e)) => if i < e <= s.len() {
            more_lens_keys(s, e, acc.push(t))
        } else {
            (acc, i)
        },
        None => (acc, i),
    }
}

/// Whether the characters of `w` stand at `i`.
pub open spec fn word_at(s: Seq<char>, i: int, w: Seq<char>) -> bool {
    0 <= i && i + w.len() <= s.len() && s.subrange(i, i + w.len()) == w
}

/// The value of a lens: `false`, `true`, `null`, an unsigned integer or a key.
pub open spec fn lens_value(s: Seq<char>, i: int) -> Option<(LensValueV, int)> {
    if i < 0 || i >= s.len() {
        None
    } else if s[i] == 'f' {
        if word_at(s, i, seq!['f', 'a', 'l', 's', 'e']) {
            Some((LensValueV::Bool(false), i + 5))
        } else {
            None
        }
    } else if s[i] == 't' {
        if word_at(s, i, seq!['t', 'r', 'u', 'e']) {
            Some((LensValueV::Bool(true), i + 4))
        } else {
            None
        }
    } else if s[i] == 'n' {
        if word_at(s, i, seq!['n', 'u', 'l', 'l']) {
            Some((LensValueV::Null, i + 4))
        } else {
            None
        }
    } else if is_digit(s[i]) {
        match number(s, i) {
            Some((n, e)) => Some((LensValueV::Number(n), e)),
            None => None,
        }
    } else {
        match key(s, i) {
            Some((k, e)) => Some((LensValueV::Str(k), e)),
            None => None,
        }
    }
}

/// A lens: one or more keys, then an optional `=` and value.
pub open spec fn lens(s: Seq<char>, i: int) -> Option<(LensV, int)> {
    match selector(s, skip_ws(s, i)) {
        Some((t, b)) => {
            let (path, c) = more_lens_keys(s, b, seq![t]);
            let (value, d) = match lit(s, c, '=') {
                Some(e) => match lens_value(s, e) {
                    Some((v, f)) => (Some(v), f),
                    None => (None, c),
                },
                None => (None, c),
            };
            Some((LensV { path, value }, skip_ws(s, d)))
        },
        None => None,
    }
}

/// Further lenses of a list, each after a comma.
pub open spec fn more_lenses(s: Seq<char>, i: int, acc: Seq<LensV>) -> (Seq<LensV>, int)
    decreases s.len() - i,
{
    match lit(s, i, ',') {
        Some(j) => match lens(s, j) {
            Some((l, e)) => if i < e <= s.len() {
                more_lenses(s, e, acc.push(l))
            } else {
                (acc, i)
            },
            None => (acc, i),
        },
        None => (acc, i),
    }
}

/// A lens selector: `|={`, lenses separated by commas, `}`.
pub open spec fn lenses(s: Seq<char>, a: int) -> Option<(Seq<LensV>, int)> {
    if word_at(s, a, seq!['|', '=', '{']) {
        match lens(s, skip_ws(s, a + 3)) {
            Some((l, b)) => {
                let (ls, c) = more_lenses(s, b, seq![l]);
                match lit(s, c, '}') {
                    Some(d) => Some((ls, d)),
                    None => None,
                }
            },
            None => None,
        }
    } else {
        None
    }
}

/// An operator of two characters at `a`.
pub open spec fn operator(s: Seq<char>, a: int, first: char, second: char, t: TokenV) -> Option<(TokenV, int)> {
    if 0 <= a && a + 1 < s.len() && s[a] == first && s[a + 1] == second {
        Some((t, skip_ws(s, a + 2)))
    } else {
        None
    }
}

/// The token at `i`, with whitespace around it. A single `.` may stand
/// before a selector, between it and the one before.
pub open spec fn fragment(s: Seq<char>, i: int) -> Option<(TokenV, int)> {
    let a = skip_ws(s, i);
    if a < 0 || a >= s.len() {
        None
    } else if s[a] == '[' || s[a] == '"' || s[a] == '{' {
        selector(s, a)
    } else if s[a] == '|' {
        match lenses(s, a) {
            Some((ls, e)) => Some((TokenV::Lens(ls), e)),
            None => operator(s, a, '|', '>', TokenV::PipeIn),
        }
    } else if s[a] == '.' {
        match operator(s, a, '.', '.', TokenV::Flatten) {
            Some(r) => Some(r),
            None => selector(s, a + 1),
        }
    } else if s[a] == '<' {
        operator(s, a, '<', '|', TokenV::PipeOut)
    } else if s[a] == ',' {
        Some((TokenV::GroupSep, skip_ws(s, a + 1)))
    } else if s[a] == '!' {
        Some((TokenV::Truncate, skip_ws(s, a + 1)))
    } else {
        None
    }
}

/// The tokens read from `i` on, as long as one can be read; and the
/// position where reading stopped.
pub open spec fn tokens_from(s: Seq<char>, i: int, acc: Seq<TokenV>) -> (Seq<TokenV>, int)
    decreases s.len() - i,
{
    match fragment(s, i) {
        Some((t, e)) => if i < e <= s.len() {
            tokens_from(s, e, acc.push(t))
        } else {
            (acc, i)
        },
        None => (acc, i),
    }
}

} // verus!
