use kjql::lexer::{read_fragment, read_index_list, read_indexes, read_key, read_lens, read_lenses, read_multi_key, read_number, read_range};
use kjql::{display_content, parse, stringify_tokens, Index, KjqlParserError, Lens, LensValue, Range, Token};

fn chars(s: &str) -> Vec<char> {
    s.chars().collect()
}

fn key(s: &str) -> Token {
    Token::KeySelector(s.to_string())
}

fn idx(v: &[usize]) -> Vec<Index> {
    v.iter().map(|i| Index::new(*i)).collect()
}

fn one(s: &str) -> Result<Token, KjqlParserError> {
    parse(s).map(|mut v| {
        assert_eq!(v.len(), 1);
        v.remove(0)
    })
}

#[test]
fn check_display_content() {
    assert_eq!(display_content("some"), " after some");
    assert_eq!(display_content(""), "");
}

#[test]
fn check_parse_number() {
    assert_eq!(read_number(&chars("123"), 0), Some((123, 3)));
    assert!(read_number(&chars("abc"), 0).is_none());
    assert!(read_number(&chars("abc123"), 0).is_none());
}

#[test]
fn check_parse_key() {
    assert_eq!(read_key(&chars(r#""abc""#), 0), Some(("abc".to_string(), 5)));
    assert!(read_key(&chars("abc"), 0).is_none());
}

#[test]
fn check_parse_multi_key() {
    assert_eq!(read_multi_key(&chars(r#"{"abc"}"#), 0).map(|r| r.0), Some(vec!["abc".to_string()]));
    assert_eq!(
        read_multi_key(&chars(r#"{"abc", "def"}"#), 0).map(|r| r.0),
        Some(vec!["abc".to_string(), "def".to_string()])
    );
    assert!(read_multi_key(&chars("{}"), 0).is_none());
    assert!(read_multi_key(&chars("{123}"), 0).is_none());
}

#[test]
fn check_parse_array_index() {
    assert_eq!(read_index_list(&chars("[1]"), 0, '[', ']').map(|r| r.0), Some(idx(&[1])));
    assert_eq!(read_index_list(&chars("[1,2,3]"), 0, '[', ']').map(|r| r.0), Some(idx(&[1, 2, 3])));
    assert!(read_index_list(&chars("[]"), 0, '[', ']').is_none());
    assert!(read_index_list(&chars(r#"["1"]"#), 0, '[', ']').is_none());
}

#[test]
fn check_parse_array_range() {
    let range = |s: &str| read_range(&chars(s), 0, '[', ']').map(|r| r.0);
    assert_eq!(range("[:]"), Some(Range::new(None, None)));
    assert_eq!(range("[1:]"), Some(Range::new(Some(Index::new(1)), None)));
    assert_eq!(range("[:1]"), Some(Range::new(None, Some(Index::new(1)))));
    assert_eq!(range("[1:3]"), Some(Range::new(Some(Index::new(1)), Some(Index::new(3)))));
    assert!(range("[]").is_none());
}

#[test]
fn check_parse_object_index() {
    assert_eq!(read_index_list(&chars("{1}"), 0, '{', '}').map(|r| r.0), Some(idx(&[1])));
    assert_eq!(read_index_list(&chars("{1,2,3}"), 0, '{', '}').map(|r| r.0), Some(idx(&[1, 2, 3])));
    assert!(read_index_list(&chars("{}"), 0, '{', '}').is_none());
    assert!(read_index_list(&chars("{1,2,3"), 0, '{', '}').is_none());
}

#[test]
fn check_parse_object_range() {
    let range = |s: &str| read_range(&chars(s), 0, '{', '}').map(|r| r.0);
    assert_eq!(range("{:}"), Some(Range::new(None, None)));
    assert_eq!(range("{1:3}"), Some(Range::new(Some(Index::new(1)), Some(Index::new(3)))));
    assert_eq!(range("{1:}"), Some(Range::new(Some(Index::new(1)), None)));
    assert!(range("{}").is_none());
    assert!(range("{1:3").is_none());
}

#[test]
fn check_parse_flatten_operator() {
    assert_eq!(read_fragment(&chars(".."), 0).map(|r| r.0), Some(Token::FlattenOperator));
    assert!(read_fragment(&chars(""), 0).is_none());
}

#[test]
fn check_parse_pipe_in_operator() {
    assert_eq!(read_fragment(&chars("|>"), 0).map(|r| r.0), Some(Token::PipeInOperator));
    assert!(read_fragment(&chars(""), 0).is_none());
}

#[test]
fn check_parse_pipe_out_operator() {
    assert_eq!(read_fragment(&chars("<|"), 0).map(|r| r.0), Some(Token::PipeOutOperator));
    assert!(read_fragment(&chars(""), 0).is_none());
}

#[test]
fn check_parse_truncate_operator() {
    assert_eq!(read_fragment(&chars("!"), 0).map(|r| r.0), Some(Token::TruncateOperator));
    assert!(read_fragment(&chars(""), 0).is_none());
}

#[test]
fn check_parse_group_separator() {
    assert_eq!(read_fragment(&chars(","), 0).map(|r| r.0), Some(Token::GroupSeparator));
    assert!(read_fragment(&chars(""), 0).is_none());
}

#[test]
fn check_parse_lens() {
    let lens = |s: &str| read_lens(&chars(s), 0).map(|r| r.0);
    assert_eq!(lens(r#""abc""#), Some(Lens(vec![key("abc")], None)));
    assert_eq!(lens(r#""abc"=null"#), Some(Lens(vec![key("abc")], Some(LensValue::Null))));
    assert_eq!(lens(r#""abc"=123"#), Some(Lens(vec![key("abc")], Some(LensValue::Number(123)))));
    assert_eq!(
        lens(r#""abc"="def""#),
        Some(Lens(vec![key("abc")], Some(LensValue::String("def".to_string()))))
    );
    assert!(read_lenses(&chars(""), 0).is_none());
}

#[test]
fn check_parse_lenses() {
    assert_eq!(
        read_lenses(&chars(r#"|={"abc", "bcd"=123,"efg"=null,"hij"="test"}"#), 0).map(|r| r.0),
        Some(vec![
            Lens(vec![key("abc")], None),
            Lens(vec![key("bcd")], Some(LensValue::Number(123))),
            Lens(vec![key("efg")], Some(LensValue::Null)),
            Lens(vec![key("hij")], Some(LensValue::String("test".to_string()))),
        ])
    );
}

#[test]
fn check_array_index_selector() {
    assert_eq!(one("[0, 1, 2]"), Ok(Token::ArrayIndexSelector(idx(&[0, 1, 2]))));
    assert_eq!(one("[ 0, 1, 2 ]"), Ok(Token::ArrayIndexSelector(idx(&[0, 1, 2]))));
}

#[test]
fn check_array_range_selector() {
    assert_eq!(one("[0:2]"), Ok(Token::ArrayRangeSelector(Range::new(Some(Index::new(0)), Some(Index::new(2))))));
    assert_eq!(one("[:2]"), Ok(Token::ArrayRangeSelector(Range::new(None, Some(Index::new(2))))));
    assert_eq!(one("[0:]"), Ok(Token::ArrayRangeSelector(Range::new(Some(Index::new(0)), None))));
    assert_eq!(one("[:]"), Ok(Token::ArrayRangeSelector(Range::new(None, None))));
}

#[test]
fn check_key_selector() {
    assert_eq!(one(r#""one""#), Ok(key("one")));
    assert_eq!(one(r#" "one" "#), Ok(key("one")));
}

#[test]
fn check_multi_key_selector() {
    let expected = Token::MultiKeySelector(vec!["one".to_string(), "two".to_string(), "three".to_string()]);
    assert_eq!(one(r#"{"one", "two", "three"}"#), Ok(expected));
    let expected = Token::MultiKeySelector(vec!["one".to_string(), "two".to_string(), "three".to_string()]);
    assert_eq!(one(r#" { "one", "two" , "three" } "#), Ok(expected));
}

#[test]
fn check_object_index_selector() {
    assert_eq!(one("{0,1,2}"), Ok(Token::ObjectIndexSelector(idx(&[0, 1, 2]))));
    assert_eq!(one(" { 0 , 1 , 2 } "), Ok(Token::ObjectIndexSelector(idx(&[0, 1, 2]))));
}

#[test]
fn check_object_range_selector() {
    assert_eq!(one("{0:2}"), Ok(Token::ObjectRangeSelector(Range::new(Some(Index::new(0)), Some(Index::new(2))))));
    assert_eq!(one(" {:2}"), Ok(Token::ObjectRangeSelector(Range::new(None, Some(Index::new(2))))));
    assert_eq!(one("{0:}"), Ok(Token::ObjectRangeSelector(Range::new(Some(Index::new(0)), None))));
    assert_eq!(one("{:}"), Ok(Token::ObjectRangeSelector(Range::new(None, None))));
}

#[test]
fn check_lens_selector() {
    assert_eq!(
        one(r#"|={"abc""c","bcd""d"=123,"efg"=null,"hij"="test"}"#),
        Ok(Token::LensSelector(vec![
            Lens(vec![key("abc"), key("c")], None),
            Lens(vec![key("bcd"), key("d")], Some(LensValue::Number(123))),
            Lens(vec![key("efg")], Some(LensValue::Null)),
            Lens(vec![key("hij")], Some(LensValue::String("test".to_string()))),
        ]))
    );
}

#[test]
fn check_flatten_operator() {
    assert_eq!(one(".."), Ok(Token::FlattenOperator));
    assert_eq!(one(" .. "), Ok(Token::FlattenOperator));
}

#[test]
fn check_pipe_in_operator() {
    assert_eq!(one("|>"), Ok(Token::PipeInOperator));
    assert_eq!(one(" |> "), Ok(Token::PipeInOperator));
}

#[test]
fn check_pipe_out_operator() {
    assert_eq!(one("<|"), Ok(Token::PipeOutOperator));
    assert_eq!(one(" <| "), Ok(Token::PipeOutOperator));
}

#[test]
fn check_truncate_operator() {
    assert_eq!(one("!"), Ok(Token::TruncateOperator));
    assert_eq!(one(" ! "), Ok(Token::TruncateOperator));
}

#[test]
fn check_group_separator() {
    assert_eq!(one(","), Ok(Token::GroupSeparator));
    assert_eq!(one(" , "), Ok(Token::GroupSeparator));
}

fn full_tokens() -> Vec<Token> {
    vec![
        key("this"),
        Token::ArrayIndexSelector(idx(&[9, 0])),
        Token::PipeInOperator,
        key("some"),
        Token::PipeOutOperator,
        key("ok"),
        Token::FlattenOperator,
        Token::TruncateOperator,
    ]
}

#[test]
fn check_full_parser() {
    assert_eq!(parse(r#""this"[9,0]"#), Ok(vec![key("this"), Token::ArrayIndexSelector(idx(&[9, 0]))]));
    assert_eq!(
        parse("[9,0]nope"),
        Err(KjqlParserError::ParsingError {
            tokens: stringify_tokens(&vec![Token::ArrayIndexSelector(idx(&[9, 0]))]),
            unparsed: "nope".to_string(),
        })
    );
    assert_eq!(parse(r#""this"[9,0]|>"some"<|"ok"..!"#), Ok(full_tokens()));
    assert_eq!(
        parse(r#""a"!"b""#),
        Err(KjqlParserError::TruncateError(stringify_tokens(&vec![key("a"), Token::TruncateOperator, key("b")])))
    );
}

#[test]
fn check_parse_integration() {
    assert_eq!(parse(r#""this"[9,0]|>"some"<|"ok"..!"#), Ok(full_tokens()));
}

#[test]
fn stringify_writes_each_token() {
    assert_eq!(
        stringify_tokens(&vec![key("a"), Token::ArrayIndexSelector(idx(&[9, 0])), Token::TruncateOperator]),
        r#"KeySelector "a", ArrayIndexSelector [9, 0], TruncateOperator"#
    );
    assert_eq!(
        stringify_tokens(&vec![Token::ArrayRangeSelector(Range::new(Some(Index::new(1)), None))]),
        "ArrayRangeSelector Range [1:]"
    );
    assert_eq!(stringify_tokens(&vec![]), "");
}

#[test]
fn parse_errors_and_messages() {
    assert_eq!(parse(""), Err(KjqlParserError::EmptyInputError));
    assert_eq!(parse("   "), Err(KjqlParserError::EmptyInputError));
    assert_eq!(parse("   ").unwrap_err().message(), "Empty input");
    let err = parse(r#""a"nope"#).unwrap_err();
    assert_eq!(
        err,
        KjqlParserError::ParsingError { tokens: r#"KeySelector "a""#.to_string(), unparsed: "nope".to_string() }
    );
    assert_eq!(err.message(), r#"Unable to parse input nope after KeySelector "a""#);
    assert_eq!(parse("nope").unwrap_err().message(), "Unable to parse input nope");
    assert_eq!(
        parse(r#""a"!!"#).unwrap_err().message(),
        r#"Truncate operator found as non last element or multiple times in KeySelector "a", TruncateOperator, TruncateOperator"#
    );
}

#[test]
fn parse_escaped_quote_and_lens_values() {
    assert_eq!(parse(r#""a\"b""#), Ok(vec![key("a\"b")]));
    assert_eq!(
        one(r#"|={"x"=true, "y"=false}"#),
        Ok(Token::LensSelector(vec![
            Lens(vec![key("x")], Some(LensValue::Bool(true))),
            Lens(vec![key("y")], Some(LensValue::Bool(false))),
        ]))
    );
    assert!(parse("[99999999999999999999999]").is_err());
}

#[test]
fn check_parse_indexes() {
    assert_eq!(read_indexes(&chars("123"), 0).map(|r| r.0), Some(idx(&[123])));
    assert_eq!(read_indexes(&chars("123,456,789"), 0).map(|r| r.0), Some(idx(&[123, 456, 789])));
    assert!(read_indexes(&chars("abc"), 0).is_none());
}

#[test]
fn blank_input_of_any_whitespace_is_empty() {
    assert_eq!(parse("\u{c}"), Err(KjqlParserError::EmptyInputError));
    assert_eq!(parse(" \u{a0}\u{3000}\t\n"), Err(KjqlParserError::EmptyInputError));
    assert_eq!(parse("\u{a0}\"a\"\u{2003}"), Ok(vec![key("a")]));
}

#[test]
fn token_names() {
    assert_eq!(Token::FlattenOperator.get_name(), "FlattenOperator");
    assert_eq!(key("a").get_name(), "KeySelector");
    assert_eq!(Token::ObjectRangeSelector(Range::new(None, None)).get_name(), "ObjectRangeSelector");
}
