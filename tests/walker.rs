use kjql::{group_tokens, groups_walker, parse, selectors_parser, walker, JsonValue, KjqlParserError, Token};

fn to_json(v: &serde_json::Value) -> JsonValue {
    match v {
        serde_json::Value::Null => JsonValue::Null,
        serde_json::Value::Bool(b) => JsonValue::Bool(*b),
        serde_json::Value::Number(n) => JsonValue::Number(n.to_string()),
        serde_json::Value::String(s) => JsonValue::String(s.clone()),
        serde_json::Value::Array(a) => JsonValue::Array(a.iter().map(to_json).collect()),
        serde_json::Value::Object(o) => {
            JsonValue::Object(o.iter().map(|(k, v)| (k.clone(), to_json(v))).collect())
        }
    }
}

fn j(text: &str) -> JsonValue {
    to_json(&serde_json::from_str(text).unwrap())
}

fn err(s: &str) -> Result<JsonValue, String> {
    Err(s.to_string())
}

const FIXTURE: &str = r#"{
  "array": [1, 2, 3, null],
  "nested": {"a": "one", "b": "two", "c": "three"},
  "range": [1, 2, 3, 4, 5, 6, 7],
  "filter": [{"color": "red"}, {"color": "green"}, {"color": "blue"}],
  "nested-filter": [
     {"laptop": {"brand": "Apple", "options": ["a", "b", "c"]}},
     {"laptop": {"brand": "Asus", "options": ["d", "e", "f"]}}
  ]
}"#;

const DATA: &str = r#"{
  "array": [1, 2, 3, null],
  "nested": {"a": "one", "b": "two", "c": "three"},
  "number": 1337,
  "null": null,
  "text": "some text",
  ".property..": "This is valid JSON!",
  "\"": "This is valid JSON as well",
  " ": "Yup, this too!",
  "": "Yup, again!",
  "mix": [{"first": 1}],
  "range": [1, 2, 3, 4, 5, 6, 7],
  "filter": [{"color": "red"}, {"color": "green"}, {"color": "blue"}],
  "nested-filter": [
     {"laptop": {"brand": "Apple", "options": ["a", "b", "c"]}},
     {"laptop": {"brand": "Asus", "options": ["d", "e", "f"]}}
  ]
}"#;

fn fixture(selector: &str) -> Result<JsonValue, String> {
    walker(&j(FIXTURE), selector)
}

fn data(selector: &str) -> Result<JsonValue, String> {
    walker(&j(DATA), selector)
}

#[test]
fn scenario_array_index() {
    assert_eq!(fixture(r#""array".[0]"#), Ok(j("1")));
}

#[test]
fn scenario_array_index_null_and_out_of_bound() {
    assert_eq!(fixture(r#""array".[3]"#), Ok(j("null")));
    assert_eq!(fixture(r#""array".[4]"#), err(r#"Index [4] is out of bound, node "array" has a length of 4"#));
}

#[test]
fn scenario_reversed_ranges() {
    assert_eq!(fixture(r#""range".[5:2]"#), Ok(j("[6, 5, 4, 3]")));
    assert_eq!(fixture(r#""range".[5:2].[3:0]"#), Ok(j("[3, 4, 5, 6]")));
}

#[test]
fn scenario_multi_key_order() {
    assert_eq!(fixture(r#""nested".{"a","c"}"#), Ok(j(r#"{"a": "one", "c": "three"}"#)));
    assert_eq!(fixture(r#""nested".{"c","a"}"#), Ok(j(r#"{"c": "three", "a": "one"}"#)));
    assert_eq!(fixture(r#""nested".{2, 0}"#), Ok(j(r#"{"c": "three", "a": "one"}"#)));
}

#[test]
fn scenario_filter() {
    assert_eq!(fixture(r#""filter"|>"color""#), Ok(j(r#"["red", "green", "blue"]"#)));
}

#[test]
fn scenario_nested_filter() {
    assert_eq!(fixture(r#""nested-filter"|>"laptop"."brand""#), Ok(j(r#"["Apple", "Asus"]"#)));
}

#[test]
fn scenario_flattened_filter() {
    assert_eq!(
        fixture(r#".."nested-filter"|>"laptop"."options""#),
        Ok(j(r#"["a", "b", "c", "d", "e", "f"]"#))
    );
}

#[test]
fn scenario_lens_filter() {
    assert_eq!(fixture(r#""filter" |={"color"="red"}"#), Ok(j(r#"[{"color": "red"}]"#)));
}

#[test]
fn scenario_groups() {
    assert_eq!(fixture(r#""array","range".[0]"#), Ok(j("[[1, 2, 3, null], 1]")));
}

#[test]
fn scenario_truncate() {
    assert_eq!(fixture(r#""array"!"#), Ok(j("[1, 2, 3, null]")));
    assert_eq!(fixture(r#""nested"!"#), Ok(j(r#"{"a": "one", "b": "two", "c": "three"}"#)));
    assert_eq!(fixture(r#""filter"!"#), Ok(j("[{}, {}, {}]")));
}

#[test]
fn scenario_truncate_error() {
    assert!(matches!(parse(r#""array"!"b""#), Err(KjqlParserError::TruncateError(_))));
    assert_eq!(
        fixture(r#""array"!"b""#),
        err(r#"Truncate operator found as non last element or multiple times in KeySelector "array", TruncateOperator, KeySelector "b""#)
    );
}

#[test]
fn scenario_empty_and_unparsed_input() {
    assert_eq!(parse(""), Err(KjqlParserError::EmptyInputError));
    assert_eq!(fixture(""), err("Empty input"));
    assert_eq!(
        parse(r#""a"nope"#),
        Err(KjqlParserError::ParsingError { tokens: r#"KeySelector "a""#.to_string(), unparsed: "nope".to_string() })
    );
}

#[test]
fn grouping_equals_the_array_of_each_group() {
    let both = fixture(r#""nested"."a", "range".[1:0]"#).unwrap();
    let first = fixture(r#""nested"."a""#).unwrap();
    let second = fixture(r#""range".[1:0]"#).unwrap();
    assert_eq!(both, JsonValue::Array(vec![first, second]));
    assert_eq!(fixture(r#""nested", "nope""#), err(r#"Node "nope" not found on the parent element"#));
    assert_eq!(fixture(r#""nope1", "nope2""#), err(r#"Node "nope1" not found on the parent element"#));
}

#[test]
fn walking_twice_gives_the_same_result() {
    assert_eq!(fixture(r#""filter"|>"color""#), fixture(r#""filter"|>"color""#));
}

#[test]
fn empty_group_is_refused() {
    assert_eq!(fixture(r#""array",,"range""#), err("Empty group"));
    assert_eq!(selectors_parser(","), Err("Empty group".to_string()));
}

#[test]
fn filter_without_selectors_works_on_the_root() {
    assert_eq!(walker(&j(r#"[{"a": 1}, {"a": 2}]"#), r#"|>"a""#), Ok(j("[1, 2]")));
    assert_eq!(walker(&j(r#"[{"a": 1}, {"b": 2}]"#), r#"|={"b"}"#), Ok(j(r#"[{"b": 2}]"#)));
}

#[test]
fn check_raw_integration() {
    assert_eq!(walker(&j(r#"{"a": 1, "b": 2}"#), r#""a","b""#), Ok(j("[1, 2]")));
}

#[test]
fn check_token_integration() {
    let tokens = vec![Token::KeySelector("a".to_string()), Token::GroupSeparator, Token::KeySelector("b".to_string())];
    let groups = group_tokens(&tokens).unwrap();
    assert_eq!(groups_walker(&j(r#"{"a": 1, "b": 2}"#), &groups), Ok(j("[1, 2]")));
}

#[test]
fn integration() {
    assert_eq!(walker(&j("[2, 3, 5, 7, 11]"), "[4]"), Ok(j("11")));
}

#[test]
fn get_test() {
    assert_eq!(data(r#""text""#), Ok(j(r#""some text""#)));
}

#[test]
fn get_number() {
    assert_eq!(data(r#""number""#), Ok(j("1337")));
}

#[test]
fn get_null() {
    assert_eq!(data(r#""null""#), Ok(j("null")));
}

#[test]
fn get_array() {
    assert_eq!(data(r#""array""#), Ok(j("[1, 2, 3, null]")));
}

#[test]
fn get_single_null_value() {
    let mut root = kjql::Group::new();
    root.root = true;
    assert_eq!(groups_walker(&j("null"), &[root]), Ok(j("null")));
    assert_eq!(walker(&j("null"), "|>"), err("Empty group"));
}

#[test]
fn get_array_item() {
    assert_eq!(data(r#""array".[0]"#), Ok(j("1")));
}

#[test]
fn get_out_of_bound_item_in_array() {
    assert_eq!(data(r#""array".[4]"#), err(r#"Index [4] is out of bound, node "array" has a length of 4"#));
}

#[test]
fn get_out_of_bound_item_in_root_array() {
    assert_eq!(walker(&j("[1, 2, 3, null]"), "[4]"), err("Index [4] is out of bound, root element has a length of 4"));
}

#[test]
fn get_index_in_non_array() {
    assert_eq!(data(r#""text".[1]"#), err(r#"Node "text" is not an array"#));
    assert_eq!(data("[1]"), err("Root element is not an array"));
    assert_eq!(data("[0].[1]"), err("Root element is not an array"));
}

#[test]
fn get_null_in_array() {
    assert_eq!(data(r#""array".[3]"#), Ok(j("null")));
}

#[test]
fn get_null_in_root_array() {
    assert_eq!(walker(&j("[1, 2, 3, null]"), "[3]"), Ok(j("null")));
}

#[test]
fn get_non_existing_root_node() {
    assert_eq!(data(r#""foo""#), err(r#"Node "foo" not found on the parent element"#));
}

#[test]
fn get_non_existing_child_node() {
    assert_eq!(data(r#""nested"."d""#), err(r#"Node "d" not found on parent node "nested""#));
}

#[test]
fn get_existing_child_node() {
    assert_eq!(data(r#""nested"."a""#), Ok(j(r#""one""#)));
}

#[test]
fn get_weird_json() {
    assert_eq!(data(r#"".property..""#), Ok(j(r#""This is valid JSON!""#)));
    assert_eq!(data(r#""\"""#), Ok(j(r#""This is valid JSON as well""#)));
    assert_eq!(data(r#"" ""#), Ok(j(r#""Yup, this too!""#)));
    assert_eq!(data(r#""""#), Ok(j(r#""Yup, again!""#)));
}

#[test]
fn get_mix_json() {
    assert_eq!(data(r#""mix".[0]."first""#), Ok(j("1")));
}

#[test]
fn get_range() {
    assert_eq!(data(r#""range".[2:5]"#), Ok(j("[3, 4, 5, 6]")));
}

#[test]
fn get_one_item_range() {
    assert_eq!(data(r#""range".[2:2]"#), Ok(j("[3]")));
}

#[test]
fn get_reversed_range() {
    assert_eq!(data(r#""range".[5:2]"#), Ok(j("[6, 5, 4, 3]")));
}

#[test]
fn get_original_from_reversed_range() {
    assert_eq!(data(r#""range".[5:2].[3:0]"#), Ok(j("[3, 4, 5, 6]")));
}

#[test]
fn get_out_of_bound_range() {
    assert_eq!(data(r#""range".[6:7]"#), err(r#"Range [6:7] is out of bound, node "range" has a length of 7"#));
}

#[test]
fn get_multi_selection() {
    assert_eq!(data(r#""array","number""#), Ok(j("[[1, 2, 3, null], 1337]")));
}

#[test]
fn get_filter() {
    assert_eq!(data(r#""filter"|>"color""#), Ok(j(r#"["red", "green", "blue"]"#)));
}

#[test]
fn get_filter_with_range() {
    assert_eq!(data(r#""filter".[1:2]|>"color""#), Ok(j(r#"["green", "blue"]"#)));
}

#[test]
fn get_filter_with_multi_selection() {
    assert_eq!(
        data(r#""filter".[1:2]|>"color","filter".[2:1]|>"color""#),
        Ok(j(r#"[["green", "blue"], ["blue", "green"]]"#))
    );
}

#[test]
fn get_wrong_filter() {
    assert_eq!(data(r#""filter"|>"colors""#), err(r#"Node "colors" not found on the parent element"#));
}

#[test]
fn get_wrong_filter_with_range() {
    assert_eq!(data(r#""filter".[1:2]|>"colors""#), err(r#"Node "colors" not found on the parent element"#));
}

#[test]
fn get_nested_filter() {
    assert_eq!(data(r#""nested-filter"|>"laptop"."brand""#), Ok(j(r#"["Apple", "Asus"]"#)));
}

#[test]
fn get_nested_filter_with_index() {
    assert_eq!(data(r#""nested-filter"|>"laptop"."options".[0]"#), Ok(j(r#"["a", "d"]"#)));
}

#[test]
fn get_nested_filter_with_range() {
    assert_eq!(data(r#""nested-filter"|>"laptop"."options".[1:2]"#), Ok(j(r#"[["b", "c"], ["e", "f"]]"#)));
}

#[test]
fn get_filter_on_non_array() {
    assert_eq!(data(r#""nested"|>"some""#), err("A filter can only be applied to an array"));
}

#[test]
fn get_range_on_non_array_root() {
    assert_eq!(data("[2:0]"), err("Root element is not an array"));
}

#[test]
fn get_range_on_non_array_node() {
    assert_eq!(data(r#""nested".[0].[1]"#), err(r#"Node "nested" is not an array"#));
}

#[test]
fn flatten_only_at_the_start_of_a_group() {
    assert_eq!(
        selectors_parser(r#""a".."#),
        Err(r#"Flatten operator found elsewhere than at the start of a group in KeySelector "a", FlattenOperator"#.to_string())
    );
    assert!(matches!(
        group_tokens(&vec![Token::KeySelector("a".to_string()), Token::FlattenOperator]),
        Err(KjqlParserError::FlattenError(_))
    ));
    assert_eq!(fixture(r#""array", .."nested-filter"|>"laptop"."options""#).map(|_| ()), Ok(()));
    let groups = selectors_parser(r#"..[0]"#).unwrap();
    assert!(groups[0].spread);
    assert_eq!(groups[0].selectors.len(), 1);
}
