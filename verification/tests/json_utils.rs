use pact_models::json_utils::{headers_to_json, is_empty, json_deep_merge, json_to_num, resolve_path, JsonNumber, JsonToNum, JsonValue};
use pact_models::path_exp::DocPath;

fn pos_int(n: u64) -> JsonValue {
  JsonValue::Number(JsonNumber::PosInt(n))
}

fn neg(n: i64) -> JsonValue {
  JsonValue::Number(JsonNumber::NegInt(n))
}

fn float(text: &str, truncated: usize) -> JsonValue {
  JsonValue::Number(JsonNumber::Float(text.to_string(), truncated))
}

fn string(s: &str) -> JsonValue {
  JsonValue::String(s.to_string())
}

/// An object; the entries must be given in ascending order of key.
fn obj(entries: Vec<(&str, JsonValue)>) -> JsonValue {
  JsonValue::Object(entries.into_iter().map(|(k, v)| (k.to_string(), v)).collect())
}

fn entries(entries: Vec<(&str, JsonValue)>) -> Vec<(String, JsonValue)> {
  entries.into_iter().map(|(k, v)| (k.to_string(), v)).collect()
}

#[test]
fn json_to_int_test() {
  assert_eq!(<i32>::json_to_number(&vec![], "any", 1), 1);
  assert_eq!(<i32>::json_to_number(&entries(vec![("min", pos_int(5))]), "any", 1), 1);
  assert_eq!(<i32>::json_to_number(&entries(vec![("min", string("5"))]), "min", 1), 1);
  assert_eq!(<i32>::json_to_number(&entries(vec![("min", pos_int(5))]), "min", 1), 5);
  assert_eq!(<i32>::json_to_number(&entries(vec![("min", neg(-5))]), "min", 1), -5);
  assert_eq!(<i32>::json_to_number(&entries(vec![("min", float("5.0", 5))]), "min", 1), 1);

  assert_eq!(<u16>::json_to_number(&vec![], "any", 1), 1);
  assert_eq!(<u16>::json_to_number(&entries(vec![("min", pos_int(5))]), "any", 1), 1);
  assert_eq!(<u16>::json_to_number(&entries(vec![("min", string("5"))]), "min", 1), 1);
  assert_eq!(<u16>::json_to_number(&entries(vec![("min", pos_int(5))]), "min", 1), 5);
  assert_eq!(<u16>::json_to_number(&entries(vec![("min", neg(-5))]), "min", 1), 1);
  assert_eq!(<u16>::json_to_number(&entries(vec![("min", float("5.0", 5))]), "min", 1), 1);
}

#[test]
fn json_to_num_test() {
  assert_eq!(json_to_num(Some(string("test string"))), None);
  assert_eq!(json_to_num(Some(JsonValue::Null)), None);
  assert_eq!(json_to_num(Some(obj(vec![]))), None);
  assert_eq!(json_to_num(Some(JsonValue::Array(vec![]))), None);
  assert_eq!(json_to_num(Some(JsonValue::Bool(true))), None);
  assert_eq!(json_to_num(Some(JsonValue::Bool(false))), None);
  assert_eq!(json_to_num(Some(pos_int(100))), Some(100));
  assert_eq!(json_to_num(Some(neg(-100))), None);
  assert_eq!(json_to_num(Some(float("100.1", 100))), Some(100));
}

#[test]
fn json_to_num_reads_digit_strings_and_zero() {
  assert_eq!(json_to_num(Some(string("42"))), Some(42));
  assert_eq!(json_to_num(Some(string("-42"))), None);
  assert_eq!(json_to_num(Some(pos_int(0))), Some(0));
  assert_eq!(json_to_num(None), None);
}

#[test]
fn deep_merge_with_primitives() {
  let value = JsonValue::Bool(true);
  assert_eq!(json_deep_merge(&value, &JsonValue::Null), JsonValue::Null);
  assert_eq!(json_deep_merge(&value, &string("test")), string("test"));
}

#[test]
fn deep_merge_with_empty_collections() {
  let value = JsonValue::Array(vec![]);
  assert_eq!(json_deep_merge(&value, &JsonValue::Array(vec![])), JsonValue::Array(vec![]));

  let value = obj(vec![]);
  assert_eq!(json_deep_merge(&value, &obj(vec![])), obj(vec![]));
}

#[test]
fn deep_merge_with_simple_objects() {
  let value = obj(vec![("a", JsonValue::Null)]);
  assert_eq!(json_deep_merge(&value, &obj(vec![("b", JsonValue::Bool(true))])),
    obj(vec![("a", JsonValue::Null), ("b", JsonValue::Bool(true))]));
  assert_eq!(json_deep_merge(&value, &obj(vec![("a", JsonValue::Bool(false)), ("b", JsonValue::Bool(true))])),
    obj(vec![("a", JsonValue::Bool(false)), ("b", JsonValue::Bool(true))]));
}

#[test]
fn deep_merge_with_simple_arrays() {
  let value = JsonValue::Array(vec![pos_int(1), pos_int(2), pos_int(3)]);
  assert_eq!(json_deep_merge(&value, &JsonValue::Array(vec![pos_int(4), pos_int(5)])),
    JsonValue::Array(vec![pos_int(1), pos_int(2), pos_int(3), pos_int(4), pos_int(5)]));
}

fn a_and_b(a: JsonValue, b: JsonValue) -> JsonValue {
  obj(vec![("a", a), ("b", b)])
}

#[test]
fn deep_merge_with_collections_with_different_types() {
  let value = a_and_b(obj(vec![("b", JsonValue::Bool(true))]), JsonValue::Array(vec![JsonValue::Bool(true)]));
  assert_eq!(json_deep_merge(&value, &obj(vec![("a", JsonValue::Bool(true))])),
    a_and_b(JsonValue::Bool(true), JsonValue::Array(vec![JsonValue::Bool(true)])));
  assert_eq!(json_deep_merge(&value, &obj(vec![("b", JsonValue::Bool(true))])),
    a_and_b(obj(vec![("b", JsonValue::Bool(true))]), JsonValue::Bool(true)));
}

#[test]
fn deep_merge_with_collections_recursively_merges_the_collections() {
  let value = a_and_b(obj(vec![("b", JsonValue::Bool(true))]), JsonValue::Array(vec![JsonValue::Bool(true)]));
  let value2 = a_and_b(obj(vec![("b", JsonValue::Bool(false))]), JsonValue::Array(vec![JsonValue::Bool(false)]));
  assert_eq!(json_deep_merge(&value, &value2),
    a_and_b(obj(vec![("b", JsonValue::Bool(false))]), JsonValue::Array(vec![JsonValue::Bool(true), JsonValue::Bool(false)])));
  assert_eq!(json_deep_merge(&value, &value),
    a_and_b(obj(vec![("b", JsonValue::Bool(true))]), JsonValue::Array(vec![JsonValue::Bool(true), JsonValue::Bool(true)])));
}

#[test]
fn deep_merge_keeps_keys_in_order() {
  let value = obj(vec![("b", pos_int(1)), ("d", pos_int(2))]);
  let other = obj(vec![("a", pos_int(3)), ("c", pos_int(4)), ("d", pos_int(5))]);
  assert_eq!(json_deep_merge(&value, &other),
    obj(vec![("a", pos_int(3)), ("b", pos_int(1)), ("c", pos_int(4)), ("d", pos_int(5))]));
}

#[test]
fn is_empty_test() {
  assert!(is_empty(&JsonValue::Null));
  assert!(!is_empty(&JsonValue::Bool(false)));
  assert!(!is_empty(&pos_int(0)));
  assert!(is_empty(&string("")));
  assert!(!is_empty(&string("x")));
  assert!(is_empty(&JsonValue::Array(vec![])));
  assert!(!is_empty(&JsonValue::Array(vec![JsonValue::Null])));
  assert!(is_empty(&obj(vec![])));
  assert!(!is_empty(&obj(vec![("a", JsonValue::Null)])));
}

fn resolve(value: &JsonValue, path: &str) -> Vec<String> {
  resolve_path(value, &DocPath::new_unwrap(path))
}

#[test]
fn resolve_path_with_root() {
  assert_eq!(resolve_path(&JsonValue::Null, &DocPath::root()), Vec::<String>::new());
  assert_eq!(resolve_path(&JsonValue::Bool(true), &DocPath::root()), Vec::<String>::new());
  assert_eq!(resolve_path(&JsonValue::Array(vec![pos_int(1), pos_int(2), pos_int(3)]), &DocPath::root()), Vec::<String>::new());
  assert_eq!(resolve_path(&obj(vec![("a", pos_int(1))]), &DocPath::root()), Vec::<String>::new());
}

#[test]
fn resolve_path_with_field() {
  assert_eq!(resolve(&JsonValue::Null, "$.a"), Vec::<String>::new());
  assert_eq!(resolve(&JsonValue::Bool(true), "$.a"), Vec::<String>::new());
  let json = obj(vec![("a", pos_int(100)), ("b", pos_int(200))]);
  assert_eq!(resolve(&json, "$.a"), vec!["/a"]);
  let json = JsonValue::Array(vec![obj(vec![("a", pos_int(100)), ("b", pos_int(200))])]);
  assert_eq!(resolve(&json, "$.a"), Vec::<String>::new());
}

#[test]
fn resolve_path_with_index() {
  assert_eq!(resolve(&JsonValue::Null, "$[0]"), Vec::<String>::new());
  assert_eq!(resolve(&JsonValue::Bool(true), "$[0]"), Vec::<String>::new());
  let json = obj(vec![("a", pos_int(100)), ("b", pos_int(200))]);
  assert_eq!(resolve(&json, "$[0]"), Vec::<String>::new());
  let json = JsonValue::Array(vec![obj(vec![("a", pos_int(100)), ("b", pos_int(200))])]);
  assert_eq!(resolve(&json, "$[0]"), vec!["/0"]);
  assert_eq!(resolve(&json, "$[0].b"), vec!["/0/b"]);
}

#[test]
fn resolve_path_with_star() {
  assert_eq!(resolve(&JsonValue::Null, "$.*"), Vec::<String>::new());
  assert_eq!(resolve(&JsonValue::Bool(true), "$.*"), Vec::<String>::new());
  let json = obj(vec![("a", pos_int(100)), ("b", pos_int(200))]);
  assert_eq!(resolve(&json, "$.*"), vec!["/a", "/b"]);
  let json = JsonValue::Array(vec![
    obj(vec![("a", pos_int(100)), ("b", pos_int(200))]),
    obj(vec![("a", pos_int(200)), ("b", pos_int(300))])
  ]);
  assert_eq!(resolve(&json, "$.*"), Vec::<String>::new());
  assert_eq!(resolve(&json, "$[*]"), vec!["/0", "/1"]);
  assert_eq!(resolve(&json, "$[*].b"), vec!["/0/b", "/1/b"]);
}

#[test]
fn resolve_path_past_the_end_of_an_array_matches_nothing() {
  let json = JsonValue::Array(vec![obj(vec![("b", pos_int(1))])]);
  assert_eq!(resolve(&json, "$[3]"), Vec::<String>::new());
  assert_eq!(resolve(&json, "$[3].b"), Vec::<String>::new());
}

#[test]
fn headers_to_json_joins_values_in_order_of_name() {
  let headers = vec![
    ("b".to_string(), vec!["1".to_string(), "2".to_string()]),
    ("A".to_string(), vec!["x".to_string()]),
    ("a".to_string(), vec![])
  ];
  assert_eq!(headers_to_json(&headers), JsonValue::Object(entries(vec![
    ("A", string("x")),
    ("a", string("")),
    ("b", string("1, 2"))
  ])));
}
