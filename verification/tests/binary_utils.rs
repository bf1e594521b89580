use pact_models::binary_utils::{convert_data, display_bytes, match_octet_stream, BodyMismatch, RootMatchers, RuleLogic};
use pact_models::json_utils::{JsonNumber, JsonValue};

fn messages(ms: &[BodyMismatch]) -> Vec<String> {
  ms.iter().map(|m| m.mismatch.clone()).collect()
}

#[test]
fn display_bytes_gives_two_hex_digits_per_byte() {
  assert_eq!(display_bytes(&vec![0x00, 0xab, 0x10, 0x7f], 32), "00ab107f");
  assert_eq!(display_bytes(&vec![], 32), "");
}

#[test]
fn display_bytes_stops_after_the_maximum() {
  let bytes = vec![0xffu8; 40];
  assert_eq!(display_bytes(&bytes, 32), "ff".repeat(32));
  assert_eq!(display_bytes(&vec![1, 2, 3], 2), "0102");
}

#[test]
fn equal_bodies_without_rules_match() {
  let body = vec![1u8, 2, 3];
  assert!(match_octet_stream(&body, "application/octet-stream", &body.clone(), "application/octet-stream", &None).is_ok());
}

#[test]
fn different_bodies_without_rules_give_one_mismatch() {
  let expected = vec![1u8, 2];
  let actual = vec![1u8, 2, 3];
  let result = match_octet_stream(&expected, "application/octet-stream", &actual, "image/png", &None);
  let mismatches = result.unwrap_err();
  assert_eq!(mismatches.len(), 1);
  assert_eq!(mismatches[0].path, "$");
  assert_eq!(mismatches[0].expected, Some(expected.clone()));
  assert_eq!(mismatches[0].actual, Some(actual.clone()));
  assert_eq!(mismatches[0].mismatch,
    "Actual body [image/png, 3 bytes, starting with 010203] is not equal to the expected body [application/octet-stream, 2 bytes, starting with 0102]");
}

#[test]
fn an_empty_rule_list_gives_a_mismatch() {
  let body = vec![1u8];
  let matchers = Some(RootMatchers { rule_logic: RuleLogic::And, outcomes: vec![] });
  let mismatches = match_octet_stream(&body, "", &body, "", &matchers).unwrap_err();
  assert_eq!(messages(&mismatches), vec!["No matcher found for category 'body' and path '$'"]);
}

#[test]
fn with_and_every_failed_rule_is_reported() {
  let expected = vec![1u8];
  let actual = vec![2u8];
  let matchers = Some(RootMatchers {
    rule_logic: RuleLogic::And,
    outcomes: vec![Ok(()), Err("first".to_string()), Err("second".to_string())]
  });
  let mismatches = match_octet_stream(&expected, "", &actual, "", &matchers).unwrap_err();
  assert_eq!(messages(&mismatches), vec!["first", "second"]);
  assert_eq!(mismatches[1].expected, Some(expected));
  assert_eq!(mismatches[1].actual, Some(actual));
}

#[test]
fn with_and_all_rules_passing_matches() {
  let matchers = Some(RootMatchers { rule_logic: RuleLogic::And, outcomes: vec![Ok(()), Ok(())] });
  assert!(match_octet_stream(&vec![1], "", &vec![2], "", &matchers).is_ok());
}

#[test]
fn with_or_one_passing_rule_is_enough() {
  let matchers = Some(RootMatchers {
    rule_logic: RuleLogic::Or,
    outcomes: vec![Err("first".to_string()), Ok(())]
  });
  assert!(match_octet_stream(&vec![1], "", &vec![2], "", &matchers).is_ok());
}

#[test]
fn with_or_all_failures_are_reported_when_every_rule_failed() {
  let matchers = Some(RootMatchers {
    rule_logic: RuleLogic::Or,
    outcomes: vec![Err("first".to_string()), Err("second".to_string())]
  });
  let mismatches = match_octet_stream(&vec![1], "", &vec![2], "", &matchers).unwrap_err();
  assert_eq!(messages(&mismatches), vec!["first", "second"]);
}

#[test]
fn string_data_is_decoded_from_base64_where_it_can_be() {
  assert_eq!(convert_data(&JsonValue::String("aGVsbG8=".to_string()), ""), b"hello".to_vec());
  assert_eq!(convert_data(&JsonValue::String("not base64!".to_string()), ""), b"not base64!".to_vec());
}

#[test]
fn other_data_is_taken_as_its_json_text() {
  assert_eq!(convert_data(&JsonValue::Number(JsonNumber::PosInt(12)), "12"), b"12".to_vec());
  assert_eq!(convert_data(&JsonValue::Array(vec![JsonValue::Bool(true)]), "[true]"), b"[true]".to_vec());
}
