use kjql::{
    apply_filter, apply_path, array_walker, get_object_indexes, get_object_key, get_object_multi_key,
    get_object_range, get_selections, group_walker, range_selector, truncate_json, Group, Index,
    JsonValue, Lens, LensValue, Range, Token,
};

fn to_json(v: &serde_json::Value) -> JsonValue {
    match v {
        serde_json::Value::Null => JsonValue::Null,
        serde_json::Value::Bool(b) => JsonValue::Bool(*b),
        serde_json::Value::Number(n) => JsonValue::Number(n.to_string()),
        serde_json::Value::String(s) => JsonValue::String(s.clone()),
        serde_json::Value::Array(a) => JsonValue::Array(a.iter().map(to_json).collect()),
        serde_json::Value::Object(o) => {
            JsonValue::Object(o.iter().map(|(k, v)| (k.clone(), to_json(v))).collect())
        }
    }
}

fn j(text: &str) -> JsonValue {
    to_json(&serde_json::from_str(text).unwrap())
}

fn key(s: &str) -> Token {
    Token::KeySelector(s.to_string())
}

fn idx(v: &[usize]) -> Vec<Index> {
    v.iter().map(|i| Index::new(*i)).collect()
}

fn err<T>(s: &str) -> Result<T, String> {
    Err(s.to_string())
}

fn range(a: Option<usize>, b: Option<usize>) -> Range {
    Range::new(a.map(Index::new), b.map(Index::new))
}

#[test]
fn check_get_object_key() {
    let value = j(r#"{ "a": 1 }"#);
    assert_eq!(get_object_key(&"a".to_string(), &value, None), Ok(j("1")));
    assert_eq!(get_object_key(&"b".to_string(), &value, None), err(r#"Node "b" not found on the parent element"#));
}

#[test]
fn check_get_object_multi_key() {
    let value = j(r#"{ "a": 1, "b": 2, "c": 3, "d": 4, "e": 5 }"#);
    let keys = |v: &[&str]| v.iter().map(|s| s.to_string()).collect::<Vec<String>>();
    assert_eq!(get_object_multi_key(&keys(&["a", "b", "c"]), &value, None), Ok(j(r#"{ "a": 1, "b": 2, "c": 3 }"#)));
    assert_eq!(get_object_multi_key(&keys(&["c", "a", "b"]), &value, None), Ok(j(r#"{ "c": 3, "a": 1, "b": 2 }"#)));
    assert_eq!(
        get_object_multi_key(&keys(&["w", "a", "t"]), &value, None),
        err(r#"Keys "t","w" not found on the parent element"#)
    );
    assert_eq!(get_object_multi_key(&keys(&["a", "b", "c"]), &j("1"), None), err("Root element is not an object"));
}

#[test]
fn check_get_object_indexes() {
    let value = j(r#"{ "a": 1, "b": 2, "c": 3, "d": 4, "e": 5 }"#);
    assert_eq!(get_object_indexes(&idx(&[4, 2, 0]), &value, None), Ok(j(r#"{"e": 5, "c": 3, "a": 1}"#)));
    assert_eq!(
        get_object_indexes(&idx(&[4, 2, 10]), &value, None),
        err("Index [10] is out of bound, root element has a length of 5")
    );
}

#[test]
fn check_get_object_range() {
    let value = j(r#"{ "a": 1, "b": 2, "c": 3, "d": 4, "e": 5 }"#);
    assert_eq!(get_object_range(&range(Some(0), Some(2)), &j("{}"), None), Ok(j("{}")));
    assert_eq!(get_object_range(&range(Some(0), Some(2)), &value, None), Ok(j(r#"{ "a": 1, "b": 2, "c": 3 }"#)));
    assert_eq!(get_object_range(&range(Some(2), Some(0)), &value, None), Ok(j(r#"{ "c": 3, "b": 2, "a": 1 }"#)));
    assert_eq!(get_object_range(&range(Some(0), Some(0)), &value, None), Ok(j(r#"{ "a": 1 }"#)));
    assert_eq!(get_object_range(&range(None, Some(4)), &value, None), Ok(value_copy()));
    assert_eq!(get_object_range(&range(Some(4), None), &value, None), Ok(j(r#"{ "e": 5 }"#)));
    assert_eq!(
        get_object_range(&range(None, Some(5)), &value, None),
        err("Range [0:5] is out of bound, root element has a length of 5")
    );
    assert_eq!(get_object_range(&range(None, Some(5)), &j("1"), None), err("Root element is not an object"));
}

fn value_copy() -> JsonValue {
    j(r#"{ "a": 1, "b": 2, "c": 3, "d": 4, "e": 5 }"#)
}

#[test]
fn array_apply_filter() {
    let letters = j(r#"["A", "B", "C", "D", "E"]"#);
    assert_eq!(apply_filter(&vec![], &vec![], &letters), Ok(j(r#"["A", "B", "C", "D", "E"]"#)));
    let middle = vec![Token::ArrayRangeSelector(range(Some(1), Some(3)))];
    assert_eq!(apply_filter(&middle, &vec![], &letters), err("Root element is not an array"));
    assert_eq!(apply_filter(&middle, &vec![], &j(r#"[["A", "B", "C", "D", "E"]]"#)), Ok(j(r#"[["B", "C", "D"]]"#)));
    let object = j(r#"[{"A": 10, "B": 20, "C": 30, "D": 40, "E": 50}]"#);
    let ten = vec![Lens(vec![key("A")], Some(LensValue::Number(10)))];
    assert_eq!(apply_filter(&vec![], &ten, &object), Ok(j(r#"[{"A": 10, "B": 20, "C": 30, "D": 40, "E": 50}]"#)));
    let eleven = vec![Lens(vec![key("A")], Some(LensValue::Number(11)))];
    assert_eq!(apply_filter(&vec![], &eleven, &object), Ok(j("[]")));
}

#[test]
fn not_array_apply_filter() {
    assert_eq!(apply_filter(&vec![], &vec![], &j(r#""foo""#)), Ok(j(r#""foo""#)));
    assert_eq!(apply_filter(&vec![key("foo")], &vec![], &j(r#""foo""#)), err("A filter can only be applied to an array"));
}

#[test]
fn lens_values_compare_by_kind() {
    let items = j(r#"[{"a": true}, {"a": null}, {"a": "x"}, {"a": 7}, {"b": 1}, 3]"#);
    let with = |v: Option<LensValue>| apply_filter(&vec![], &vec![Lens(vec![key("a")], v)], &items);
    assert_eq!(with(Some(LensValue::Bool(true))), Ok(j(r#"[{"a": true}]"#)));
    assert_eq!(with(Some(LensValue::Null)), Ok(j(r#"[{"a": null}]"#)));
    assert_eq!(with(Some(LensValue::String("x".to_string()))), Ok(j(r#"[{"a": "x"}]"#)));
    assert_eq!(with(Some(LensValue::Number(7))), Ok(j(r#"[{"a": 7}]"#)));
    assert_eq!(with(None), Ok(j(r#"[{"a": true}, {"a": null}, {"a": "x"}, {"a": 7}]"#)));
}

#[test]
fn valid_array_walker() {
    let foo = key("foo");
    assert_eq!(array_walker(&idx(&[1]), &j(r#"["foo", "bar"]"#), Some(&foo)), Ok(j(r#""bar""#)));
    assert_eq!(array_walker(&idx(&[0, 1]), &j(r#"["foo", "bar"]"#), Some(&foo)), Ok(j(r#"["foo", "bar"]"#)));
}

#[test]
fn invalid_array_walker() {
    let foo = key("foo");
    assert_eq!(array_walker(&idx(&[1]), &j("[]"), None), err("Index [1] is out of bound, root element has a length of 0"));
    assert_eq!(
        array_walker(&idx(&[1]), &j("[]"), Some(&foo)),
        err(r#"Index [1] is out of bound, node "foo" has a length of 0"#)
    );
    assert_eq!(array_walker(&idx(&[1]), &j(r#""foo""#), None), err("Root element is not an array"));
    assert_eq!(array_walker(&idx(&[1]), &j(r#""foo""#), Some(&foo)), err(r#"Node "foo" is not an array"#));
}

#[test]
fn test_object_get_selection() {
    let abc = j(r#"{"A": 10, "B": 20, "C": 30}"#);
    assert_eq!(get_selections(&vec![Token::ObjectIndexSelector(idx(&[0, 2]))], &abc), Ok(vec![j(r#"{"A": 10, "C": 30}"#)]));
    assert_eq!(
        get_selections(&vec![Token::ObjectIndexSelector(idx(&[10]))], &abc),
        err("Index [10] is out of bound, root element has a length of 3")
    );
    assert_eq!(get_selections(&vec![Token::MultiKeySelector(vec!["A".to_string()])], &abc), Ok(vec![j(r#"{"A": 10}"#)]));
    assert_eq!(
        get_selections(&vec![Token::MultiKeySelector(vec!["D".to_string()])], &abc),
        err(r#"Keys "D" not found on the parent element"#)
    );
    assert_eq!(get_selections(&vec![Token::ObjectRangeSelector(range(None, None))], &abc), Ok(vec![j(r#"{"A": 10, "B": 20, "C": 30}"#)]));
    assert_eq!(get_selections(&vec![Token::ObjectRangeSelector(range(Some(0), Some(1)))], &abc), Ok(vec![j(r#"{"A": 10, "B": 20}"#)]));
    assert_eq!(
        get_selections(&vec![Token::ObjectRangeSelector(range(Some(10), Some(20)))], &abc),
        err("Range [10:20] is out of bound, root element has a length of 3")
    );
    assert_eq!(
        get_selections(
            &vec![Token::ObjectRangeSelector(range(Some(2), Some(3))), Token::MultiKeySelector(vec!["D".to_string()])],
            &j(r#"{"A": 10, "B": 20, "C": 30, "D": 40, "E": 50}"#)
        ),
        Ok(vec![j(r#"{"C": 30, "D": 40}"#), j(r#"{"D": 40}"#)])
    );
}

#[test]
fn test_default_get_selection() {
    let abc = j(r#"{"A": 10, "B": 20, "C": 30}"#);
    assert_eq!(get_selections(&vec![key("A")], &abc), Ok(vec![j("10")]));
    assert_eq!(get_selections(&vec![key("D")], &abc), err(r#"Node "D" not found on the parent element"#));
}

#[test]
fn test_range_get_selection() {
    let letters = j(r#"["A", "B", "C", "D", "E"]"#);
    assert_eq!(get_selections(&vec![Token::ArrayRangeSelector(range(Some(1), Some(3)))], &letters), Ok(vec![j(r#"["B", "C", "D"]"#)]));
    assert_eq!(
        get_selections(&vec![Token::ArrayRangeSelector(range(Some(10), Some(20)))], &letters),
        err("Range [10:20] is out of bound, root element has a length of 5")
    );
}

#[test]
fn test_array_get_selection() {
    let letters = j(r#"["A", "B", "C", "D", "E"]"#);
    assert_eq!(get_selections(&vec![Token::ArrayRangeSelector(range(None, None))], &letters), Ok(vec![j(r#"["A", "B", "C", "D", "E"]"#)]));
}

#[test]
fn test_index_get_selection() {
    let letters = j(r#"["A", "B", "C", "D", "E"]"#);
    assert_eq!(get_selections(&vec![Token::ArrayIndexSelector(idx(&[1, 3]))], &letters), Ok(vec![j(r#"["B", "D"]"#)]));
    assert_eq!(
        get_selections(&vec![Token::ArrayIndexSelector(idx(&[10]))], &letters),
        err("Index [10] is out of bound, root element has a length of 5")
    );
}

#[test]
fn test_get_selection() {
    let letters = j(r#"["A", "B", "C", "D", "E"]"#);
    let path = vec![Token::ArrayRangeSelector(range(Some(2), Some(3))), Token::ArrayIndexSelector(idx(&[0]))];
    assert_eq!(get_selections(&path, &letters), Ok(vec![j(r#"["C", "D"]"#), j(r#""C""#)]));
}

#[test]
fn error_names_the_previous_selector() {
    let data = j(r#"{"a": [1, 2], "o": {"k": 1}}"#);
    let path = vec![key("a"), Token::ArrayRangeSelector(range(Some(0), Some(1))), Token::ArrayIndexSelector(idx(&[5]))];
    assert_eq!(apply_path(&path, &data), err("Index [5] is out of bound, range [0:1] has a length of 2"));
    let path = vec![key("o"), Token::ObjectRangeSelector(range(Some(0), None)), key("z")];
    assert_eq!(apply_path(&path, &data), err(r#"Node "z" not found on parent property {0:}"#));
    let path = vec![key("o"), Token::ObjectIndexSelector(idx(&[0])), Token::ArrayIndexSelector(idx(&[0]))];
    assert_eq!(apply_path(&path, &data), err("Property {0} is not an array"));
    let path = vec![key("a"), Token::ArrayIndexSelector(idx(&[0, 1])), key("x")];
    assert_eq!(apply_path(&path, &data), err("Index [0, 1] is not an object"));
}

fn group(selectors: Vec<Token>) -> Group {
    let mut g = Group::new();
    g.selectors = selectors;
    g
}

#[test]
fn empty_group_walker() {
    assert_eq!(group_walker(&Group::new(), &j(r#"{"A": 10, "B": 20, "C": 30}"#)), err("Empty group"));
}

#[test]
fn valid_group_walker() {
    let nested = j(r#"[["A"], ["B", "C"], ["D", "E"]]"#);
    assert_eq!(group_walker(&group(vec![Token::ArrayIndexSelector(idx(&[0, 2]))]), &nested), Ok(j(r#"[["A"], ["D", "E"]]"#)));
    let mut spread = group(vec![Token::ArrayIndexSelector(idx(&[0, 2]))]);
    spread.spread = true;
    assert_eq!(group_walker(&spread, &nested), Ok(j(r#"["A", "D", "E"]"#)));
    let mut filtered = group(vec![Token::ArrayIndexSelector(idx(&[0, 2]))]);
    filtered.filters = vec![Token::ArrayIndexSelector(idx(&[0]))];
    assert_eq!(group_walker(&filtered, &nested), Ok(j(r#"["A", "D"]"#)));
    assert_eq!(
        group_walker(&group(vec![Token::ObjectIndexSelector(idx(&[0, 2]))]), &j(r#"{"A": 10, "B": 20, "C": 30}"#)),
        Ok(j(r#"{"A": 10, "C": 30}"#))
    );
    let mut truncated = group(vec![Token::ArrayIndexSelector(idx(&[0, 2]))]);
    truncated.truncate = true;
    assert_eq!(group_walker(&truncated, &nested), Ok(j("[[], []]")));
}

#[test]
fn invalid_group_walker() {
    let abc = j(r#"{"A": 10, "B": 20, "C": 30}"#);
    assert_eq!(
        group_walker(&group(vec![Token::ObjectIndexSelector(idx(&[10]))]), &abc),
        err("Index [10] is out of bound, root element has a length of 3")
    );
    let mut spread = group(vec![Token::ObjectIndexSelector(idx(&[1]))]);
    spread.spread = true;
    assert_eq!(group_walker(&spread, &abc), err("Only arrays can be flattened."));
}

#[test]
fn empty_array_range_selector() {
    assert_eq!(range_selector(&j("[]"), None, None, Some(&key("foo"))), Ok(j("[]")));
}

#[test]
fn is_default_range_selector() {
    assert_eq!(range_selector(&j(r#"["foo", "bar"]"#), None, None, None), Ok(j(r#"["foo", "bar"]"#)));
}

#[test]
fn reversed_range_selector() {
    assert_eq!(range_selector(&j(r#"["foo", "bar"]"#), Some(1), Some(0), None), Ok(j(r#"["bar", "foo"]"#)));
}

#[test]
fn invalid_range_selector() {
    let pair = j(r#"["foo", "bar"]"#);
    assert_eq!(range_selector(&pair, Some(100), None, None), err("Range [100:1] is out of bound, root element has a length of 2"));
    assert_eq!(range_selector(&pair, None, Some(100), None), err("Range [0:100] is out of bound, root element has a length of 2"));
    assert_eq!(
        range_selector(&pair, Some(100), None, Some(&key("foo"))),
        err(r#"Range [100:1] is out of bound, node "foo" has a length of 2"#)
    );
}

#[test]
fn none_array_range_selector() {
    assert_eq!(range_selector(&j(r#""foo""#), None, None, None), err("Root element is not an array"));
    assert_eq!(range_selector(&j(r#""foo""#), Some(100), None, Some(&key("foo"))), err(r#"Node "foo" is not an array"#));
}

#[test]
fn truncate_keeps_primitives_and_empties_members() {
    assert_eq!(truncate_json(j(r#"[1, "a", null, [1], {"k": 2}]"#)), j(r#"[1, "a", null, [], {}]"#));
    assert_eq!(truncate_json(j(r#"{"x": [1], "y": {"z": 1}, "w": true}"#)), j(r#"{"x": [], "y": {}, "w": true}"#));
    assert_eq!(truncate_json(j("7")), j("7"));
}

#[test]
fn flatten_nested_arrays() {
    assert_eq!(kjql::flatten_json_array(&j("[1, [2, [3, [4]], []], 5]")), Ok(j("[1, 2, 3, 4, 5]")));
    let once = kjql::flatten_json_array(&j("[[[1]], [2, [3]]]")).unwrap();
    assert_eq!(kjql::flatten_json_array(&once), Ok(once.deep_clone()));
    assert_eq!(kjql::flatten_json_array(&j("{}")), err("Only arrays can be flattened."));
}

#[test]
fn repeated_keys_and_positions_are_kept_once() {
    let value = j(r#"{ "a": 1, "b": 2, "c": 3 }"#);
    let keys = vec!["b".to_string(), "a".to_string(), "b".to_string()];
    assert_eq!(get_object_multi_key(&keys, &value, None), Ok(j(r#"{ "b": 2, "a": 1 }"#)));
    assert_eq!(get_object_indexes(&idx(&[2, 0, 2, 0]), &value, None), Ok(j(r#"{ "c": 3, "a": 1 }"#)));
    let missing = vec!["z".to_string(), "a".to_string(), "y".to_string(), "z".to_string()];
    assert_eq!(get_object_multi_key(&missing, &value, None), err(r#"Keys "y","z" not found on the parent element"#));
}

#[test]
fn every_selection_is_returned_in_order() {
    let data = j(r#"{"a": {"b": [10, 20]}}"#);
    let path = vec![key("a"), key("b"), Token::ArrayIndexSelector(idx(&[1]))];
    assert_eq!(
        get_selections(&path, &data),
        Ok(vec![j(r#"{"b": [10, 20]}"#), j("[10, 20]"), j("20")])
    );
    assert_eq!(apply_path(&path, &data), Ok(j("20")));
    assert_eq!(get_selections(&vec![], &data), Ok(vec![]));
    assert_eq!(apply_path(&vec![], &data), Ok(j(r#"{"a": {"b": [10, 20]}}"#)));
}
