//! Errors of the selector parser.
use vstd::prelude::*;

use crate::text::push_str;

verus! {

/// `" after <content>"`, or nothing for an empty content.
pub open spec fn content_text(content: Seq<char>) -> Seq<char> {
    if content.len() == 0 {
        Seq::empty()
    } else {
        " after "@ + content
    }
}

/// Writes what was read before a parsing error, if anything was.
pub fn display_content(content: &str) -> (r: String)
    ensures
        r@ == content_text(content@),
{
    if content.unicode_len() == 0 {
        String::new()
    } else {
        let mut s = String::from_str(" after ");
        push_str(&mut s, content);
        s
    }
}

/// Error type returned by the parser.
#[derive(Debug, PartialEq, Eq)]
pub enum KjqlParserError {
    /// The selector is empty or only whitespace.
    EmptyInputError,
    /// Part of the selector could not be read.
    ParsingError {
        /// Tokens found while parsing.
        tokens: String,
        /// Unparsed content.
        unparsed: String,
    },
    /// A truncate operator stands elsewhere than at the very end, or more than once.
    TruncateError(String),
    /// A flatten operator stands elsewhere than at the start of a group.
    FlattenError(String),
    /// A group holds nothing to select.
    EmptyGroupError,
}

/// The model of a parser error.
pub enum ParserErrorV {
    EmptyInput,
    Parsing(Seq<char>, Seq<char>),
    Truncate(Seq<char>),
    Flatten(Seq<char>),
    EmptyGroup,
}

impl View for KjqlParserError {
    type V = ParserErrorV;

    open spec fn view(&self) -> ParserErrorV {
        match self {
            KjqlParserError::EmptyInputError => ParserErrorV::EmptyInput,
            KjqlParserError::ParsingError { tokens, unparsed } => ParserErrorV::Parsing(tokens@, unparsed@),
            KjqlParserError::TruncateError(t) => ParserErrorV::Truncate(t@),
            KjqlParserError::FlattenError(t) => ParserErrorV::Flatten(t@),
            KjqlParserError::EmptyGroupError => ParserErrorV::EmptyGroup,
        }
    }
}

/// The message of a parser error.
pub open spec fn error_text(e: ParserErrorV) -> Seq<char> {
    match e {
        ParserErrorV::EmptyInput => "Empty input"@,
        ParserErrorV::Parsing(tokens, unparsed) => "Unable to parse input "@ + unparsed + content_text(tokens),
        ParserErrorV::Truncate(tokens) => "Truncate operator found as non last element or multiple times in "@ + tokens,
        ParserErrorV::Flatten(tokens) => "Flatten operator found elsewhere than at the start of a group in "@ + tokens,
        ParserErrorV::EmptyGroup => "Empty group"@,
    }
}

impl KjqlParserError {
    /// The message of the error.
    pub fn message(&self) -> (r: String)
        ensures
            r@ == error_text(self@),
    {
        match self {
            KjqlParserError::EmptyInputError => String::from_str("Empty input"),
            KjqlParserError::ParsingError { tokens, unparsed } => {
                let mut s = String::from_str("Unable to parse input ");
                push_str(&mut s, unparsed.as_str());
                let after = display_content(tokens.as_str());
                push_str(&mut s, after.as_str());
                s
            },
            KjqlParserError::TruncateError(t) => {
                let mut s = String::from_str("Truncate operator found as non last element or multiple times in ");
                push_str(&mut s, t.as_str());
                s
            },
            KjqlParserError::FlattenError(t) => {
                let mut s = String::from_str("Flatten operator found elsewhere than at the start of a group in ");
                push_str(&mut s, t.as_str());
                s
            },
            KjqlParserError::EmptyGroupError => String::from_str("Empty group"),
        }
    }
}

} // verus!
