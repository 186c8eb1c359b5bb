//! From a selector string to its tokens.
use vstd::prelude::*;
use vstd::string::StrSliceExecFns;

use crate::errors::{KjqlParserError, ParserErrorV};
use crate::grammar::{skip_ws, tokens_from};
use crate::lexer::{read_tokens, skip_spaces};
use crate::render::{stringify_tokens, tokens_text};
use crate::tokens::{Token, TokenV, token_views};

verus! {

/// Whether a truncate operator stands anywhere but last.
pub open spec fn misplaced_truncate(ts: Seq<TokenV>) -> bool {
    exists|p: int| 0 <= p < ts.len() - 1 && ts[p] == TokenV::Truncate
}

/// The tokens of a selector, or why it has none.
pub open spec fn parse_spec(s: Seq<char>) -> Result<Seq<TokenV>, ParserErrorV> {
    if skip_ws(s, 0) == s.len() {
        Err(ParserErrorV::EmptyInput)
    } else {
        let (ts, stop) = tokens_from(s, 0, Seq::empty());
        if stop < s.len() {
            Err(ParserErrorV::Parsing(tokens_text(ts), s.subrange(stop, s.len() as int)))
        } else if misplaced_truncate(ts) {
            Err(ParserErrorV::Truncate(tokens_text(ts)))
        } else {
            Ok(ts)
        }
    }
}

/// The model of a parse result.
pub open spec fn parse_view(r: Result<Vec<Token>, KjqlParserError>) -> Result<Seq<TokenV>, ParserErrorV> {
    match r {
        Ok(ts) => Ok(token_views(ts@)),
        Err(e) => Err(e@),
    }
}

/// The characters of a string.
fn chars_of(input: &str) -> (r: Vec<char>)
    ensures
        r@ == input@,
{
    let n = input.unicode_len();
    let mut out: Vec<char> = Vec::new();
    let mut i: usize = 0;
    while i < n
        invariant
            n == input@.len(),
            i <= n,
            out@ == input@.subrange(0, i as int),
        decreases n - i,
    {
        out.push(input.get_char(i));
        i = i + 1;
        assert(out@ =~= input@.subrange(0, i as int));
    }
    assert(input@.subrange(0, n as int) =~= input@);
    out
}

/// Parses a selector into its tokens.
pub fn parse(input: &str) -> (r: Result<Vec<Token>, KjqlParserError>)
    ensures
        parse_view(r) == parse_spec(input@),
{
    let s = chars_of(input);
    if skip_spaces(&s, 0) == s.len() {
        return Err(KjqlParserError::EmptyInputError);
    }
    let (tokens, stop) = read_tokens(&s);
    if stop < s.len() {
        let unparsed = String::from_str(input.substring_char(stop, s.len()));
        return Err(KjqlParserError::ParsingError { tokens: stringify_tokens(&tokens), unparsed });
    }
    let mut p: usize = 0;
    while p < tokens.len() && tokens.len() - p > 1
        invariant
            p <= tokens.len(),
            stop == s.len(),
            s@ == input@,
            skip_ws(s@, 0) != s.len(),
            tokens_from(s@, 0, Seq::empty()) == (token_views(tokens@), stop as int),
            forall|q: int| 0 <= q < p ==> token_views(tokens@)[q] != TokenV::Truncate,
        decreases tokens.len() - p,
    {
        if matches!(tokens[p], Token::TruncateOperator) {
            assert(token_views(tokens@)[p as int] == TokenV::Truncate);
            return Err(KjqlParserError::TruncateError(stringify_tokens(&tokens)));
        }
        p = p + 1;
    }
    Ok(tokens)
}

} // verus!
