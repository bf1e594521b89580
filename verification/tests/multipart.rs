use pact_models::binary_utils::BodyMismatch;
use pact_models::multipart::{
  decode_part_data, find_actual_part, match_field, match_file_part, PartMismatch, match_multipart_parts, match_part_headers, part_kind_mismatch, part_name,
  part_path, prefix_part_mismatches, rebase_rule_path, MimePartKey, PartHeader
};
use pact_models::path_exp::DocPath;

fn key(index: usize, name: &str) -> MimePartKey {
  MimePartKey { index, name: name.to_string(), is_file: false }
}

fn root_mismatch(message: &str) -> BodyMismatch {
  BodyMismatch { path: "$".to_string(), expected: Some(vec![1]), actual: Some(vec![2]), mismatch: message.to_string() }
}

#[test]
fn parts_are_paired_by_name() {
  let actual = vec![key(0, "b"), key(1, "a"), key(2, "a")];
  assert_eq!(find_actual_part(&key(5, "a"), &actual), Some(1));
  assert_eq!(find_actual_part(&key(0, "c"), &actual), None);
}

#[test]
fn parts_without_a_name_are_paired_by_position() {
  let actual = vec![key(0, ""), key(1, "")];
  assert_eq!(find_actual_part(&key(1, "x"), &actual), Some(1));
  assert_eq!(find_actual_part(&key(3, ""), &actual), None);
}

#[test]
fn parse_failures_are_reported_for_each_body() {
  let r = match_multipart_parts(&Some(vec![1]), &None, &Err("bad expected".to_string()),
    &Err("bad actual".to_string()), &vec![]);
  assert_eq!(r.len(), 2);
  assert_eq!(r[0].mismatch, "Failed to parse the expected body as a MIME multipart body: 'bad expected'");
  assert_eq!(r[1].mismatch, "Failed to parse the actual body as a MIME multipart body: 'bad actual'");
  assert_eq!(r[0].path, "$");
  assert_eq!(r[0].expected, Some(vec![1]));
  assert_eq!(r[0].actual, None);

  let r = match_multipart_parts(&None, &None, &Ok(vec![key(0, "a")]), &Err("bad".to_string()), &vec![]);
  assert_eq!(r.len(), 1);
  assert_eq!(r[0].mismatch, "Failed to parse the actual body as a MIME multipart body: 'bad'");
}

#[test]
fn missing_parts_and_part_results_are_reported_in_order() {
  let expected = vec![key(0, "a"), key(1, "gone"), key(2, "b")];
  let actual = vec![key(0, "b"), key(1, "a")];
  let results = vec![vec![root_mismatch("in a")], vec![root_mismatch("never read")], vec![]];
  let r = match_multipart_parts(&None, &None, &Ok(expected), &Ok(actual), &results);
  assert_eq!(r.len(), 2);
  assert_eq!(r[0].mismatch, "in a");
  assert_eq!(r[1].mismatch, "Expected a MIME part 'gone' but was missing");
  assert_eq!(r[1].path, "$");
  assert_eq!(r[1].expected, Some(b"gone".to_vec()));
  assert_eq!(r[1].actual, None);
}

#[test]
fn parts_of_different_kinds_give_a_mismatch() {
  assert!(part_kind_mismatch("a", false, false).is_none());
  assert!(part_kind_mismatch("a", true, true).is_none());
  let m = part_kind_mismatch("a", false, true).unwrap();
  assert_eq!(m.mismatch, "Expected a MIME field 'a' but was file");
  assert_eq!(m.expected, Some(b"a".to_vec()));
  assert_eq!(m.actual, None);
  let m = part_kind_mismatch("a", true, false).unwrap();
  assert_eq!(m.mismatch, "Expected a MIME file 'a' but was field");
}

#[test]
fn parts_are_named_by_key_or_position() {
  assert_eq!(part_name("file", 3), "file");
  assert_eq!(part_name("", 3), "3");
  assert_eq!(part_path("file", 3).to_string(), "$.file");
  assert_eq!(part_path("", 1).to_string(), "$[1]");
}

#[test]
fn rule_paths_below_a_part_are_moved_to_the_root() {
  let path = DocPath::new_unwrap("$.file");
  let child = rebase_rule_path(&path, &DocPath::new_unwrap("$.file.a.b")).unwrap();
  assert_eq!(child.to_string(), "$.a.b");
  let same = rebase_rule_path(&path, &DocPath::new_unwrap("$.file")).unwrap();
  assert_eq!(same.to_string(), "$");
  assert!(rebase_rule_path(&path, &DocPath::new_unwrap("$.other.a")).is_none());
  assert!(rebase_rule_path(&path, &DocPath::new_unwrap("$")).is_none());
}

#[test]
fn part_mismatches_are_prefixed_with_the_part_name() {
  let r = prefix_part_mismatches("file", &vec![root_mismatch("bad"), root_mismatch("worse")]);
  assert_eq!(r.len(), 2);
  assert_eq!(r[0].mismatch, "MIME part 'file': bad");
  assert_eq!(r[1].mismatch, "MIME part 'file': worse");
  assert_eq!(r[1].expected, Some(vec![1]));
}

fn header(key: &str, expected: &str, actual: Option<&str>, matcher: Option<Result<(), Vec<String>>>,
          equality_failure: Option<&str>) -> PartHeader {
  PartHeader {
    key: key.to_string(),
    expected_value: expected.to_string(),
    actual_value: actual.map(|a| a.to_string()),
    matcher_outcome: matcher,
    equality_failure: equality_failure.map(|e| e.to_string())
  }
}

#[test]
fn part_headers_are_compared() {
  let path = DocPath::new_unwrap("$.file");
  let headers = vec![
    header("x-a", "1", Some("2"), None, Some("Expected '1' to be equal to '2'")),
    header("content-disposition", "one", Some("two"), None, Some("differs")),
    header("content-type", "text/plain", None, None, None),
    header("x-b", "v", None, None, None),
    header("x-c", "1", Some("2"), Some(Err(vec!["m1".to_string(), "m2".to_string()])), Some("ignored")),
    header("x-d", "1", Some("1"), Some(Ok(())), None)
  ];
  let r = match_part_headers(&path, &headers);
  let msgs: Vec<String> = r.iter().map(|m| m.mismatch.clone()).collect();
  assert_eq!(msgs, vec![
    "MIME part 'file': header 'x-a': Expected '1' to be equal to '2'",
    "MIME part 'file': Expected multipart header 'x-b' with value 'v' but was missing",
    "MIME part 'file': m1",
    "MIME part 'file': m2"
  ]);
  assert_eq!(r[0].path, "$.file['x-a']");
  assert_eq!(r[0].expected, Some(b"1".to_vec()));
  assert_eq!(r[0].actual, Some(b"2".to_vec()));
  assert_eq!(r[1].actual, None);
}

#[test]
fn headers_of_a_path_without_a_field_name_an_unknown_part() {
  let path = DocPath::new_unwrap("$[0]");
  let r = match_part_headers(&path, &vec![header("x-b", "v", None, None, None)]);
  assert_eq!(r[0].mismatch, "MIME part 'unknown part': Expected multipart header 'x-b' with value 'v' but was missing");
  assert_eq!(r[0].path, "$[0]['x-b']");
}

#[test]
fn base64_part_data_is_decoded() {
  assert_eq!(decode_part_data(Some("base64"), &b"aGVsbG8=".to_vec()), Ok(b"hello".to_vec()));
  assert_eq!(decode_part_data(Some("BASE64"), &b"aGVsbG8=".to_vec()), Ok(b"hello".to_vec()));
}

#[test]
fn part_data_in_other_encodings_is_kept() {
  assert_eq!(decode_part_data(Some("7bit"), &b"aGVsbG8=".to_vec()), Ok(b"aGVsbG8=".to_vec()));
  assert_eq!(decode_part_data(None, &b"aGVsbG8=".to_vec()), Ok(b"aGVsbG8=".to_vec()));
}

#[test]
fn invalid_base64_part_data_gives_the_decode_error() {
  assert_eq!(decode_part_data(Some("base64"), &b"!!".to_vec()), Err("Invalid symbol 33, offset 0.".to_string()));
}

#[test]
fn fields_are_compared_by_rules_or_for_equality() {
  let expected = b"Baxter".to_vec();
  let actual = b"Mary".to_vec();
  let r = match_field("name", 0, &expected, &actual, &vec![], &None, &Some("Expected 'Baxter' to be equal to 'Mary'".to_string()));
  let ms = r.unwrap_err();
  assert_eq!(ms.len(), 1);
  assert_eq!(ms[0].path, "$.name");
  assert_eq!(ms[0].mismatch, "MIME part 'name': Expected 'Baxter' to be equal to 'Mary'");
  assert_eq!(ms[0].expected, Some(expected.clone()));
  assert_eq!(ms[0].actual, Some(actual.clone()));

  let r = match_field("", 2, &expected, &actual, &vec![], &Some(Err(vec!["rule failed".to_string()])), &Some("ignored".to_string()));
  let ms = r.unwrap_err();
  assert_eq!(ms[0].path, "$[2]");
  assert_eq!(ms[0].mismatch, "rule failed");

  assert!(match_field("name", 0, &expected, &expected, &vec![], &None, &None).is_ok());
  assert!(match_field("name", 0, &expected, &actual, &vec![], &Some(Ok(())), &Some("ignored".to_string())).is_ok());
}

#[test]
fn field_header_mismatches_come_first() {
  let headers = vec![header("x-b", "v", None, None, None)];
  let r = match_field("name", 0, &b"a".to_vec(), &b"b".to_vec(), &headers, &None, &Some("differs".to_string()));
  let msgs: Vec<String> = r.unwrap_err().iter().map(|m| m.mismatch.clone()).collect();
  assert_eq!(msgs, vec![
    "MIME part 'name': Expected multipart header 'x-b' with value 'v' but was missing",
    "MIME part 'name': differs"
  ]);
}

// Headers as a part holds them: names in lower case, with the outcome of the
// rules at each header's path and the failure of comparing the values for
// equality given as they are found.

#[test]
fn match_headers_test() {
  let path = DocPath::new_unwrap("$.one");
  let headers = vec![
    header("x-one", "example.com", Some("example.com"), None, None),
    header("x-two", "123", Some("123"), None, None)
  ];
  assert!(match_part_headers(&path, &headers).is_empty());
}

#[test]
fn match_headers_missing_header() {
  let path = DocPath::new_unwrap("$.one");
  let headers = vec![
    header("x-one", "example.com", Some("example.com"), None, None),
    header("x-two", "123", None, None, None)
  ];
  let r = match_part_headers(&path, &headers);
  let msgs: Vec<String> = r.iter().map(|m| m.mismatch.clone()).collect();
  assert_eq!(msgs, vec!["MIME part 'one': Expected multipart header 'x-two' with value '123' but was missing"]);
}

#[test]
fn match_headers_ignores_missing_content_type_header() {
  let path = DocPath::new_unwrap("$.one");
  let headers = vec![
    header("x-one", "example.com", Some("example.com"), None, None),
    header("content-type", "text/plain", None, None, None)
  ];
  assert!(match_part_headers(&path, &headers).is_empty());
}

#[test]
fn match_headers_different_value() {
  let path = DocPath::new_unwrap("$.one");
  let headers = vec![
    header("x-one", "example.com", Some("example.com"), None, None),
    header("x-two", "123", Some("456"), None, Some("Expected '456' to be equal to '123'"))
  ];
  let r = match_part_headers(&path, &headers);
  let msgs: Vec<String> = r.iter().map(|m| m.mismatch.clone()).collect();
  assert_eq!(msgs, vec!["MIME part 'one': header 'x-two': Expected '456' to be equal to '123'"]);
}

#[test]
fn match_headers_with_a_matcher() {
  let path = DocPath::new_unwrap("$.one");
  let headers = vec![
    header("x-one", "example.com", Some("example.com"), None, None),
    header("x-two", "123", Some("456"), Some(Ok(())), Some("Expected '456' to be equal to '123'"))
  ];
  assert!(match_part_headers(&path, &headers).is_empty());
}

#[test]
fn match_headers_ignores_content_disposition() {
  let path = DocPath::new_unwrap("$.one");
  let headers = vec![
    header("x-one", "example.com", Some("example.com"), None, None),
    header("content-disposition", "form-data; name=\"file\"; filename=\"009.csv\"",
      Some("form-data; name=\"file\"; filename=\"008.csv\""), None,
      Some("Expected 'form-data; name=\"file\"; filename=\"008.csv\"' to be equal to 'form-data; name=\"file\"; filename=\"009.csv\"'"))
  ];
  assert!(match_part_headers(&path, &headers).is_empty());
}

#[test]
fn each_missing_part_is_reported_once_in_order() {
  let expected = vec![key(0, "name"), key(1, "age"), key(2, "file")];
  let actual = vec![key(0, "name"), key(1, "other")];
  let r = match_multipart_parts(&None, &None, &Ok(expected), &Ok(actual), &vec![vec![], vec![], vec![]]);
  let msgs: Vec<String> = r.iter().map(|m| m.mismatch.clone()).collect();
  assert_eq!(msgs, vec![
    "Expected a MIME part 'age' but was missing",
    "Expected a MIME part 'file' but was missing"
  ]);
}

#[test]
fn file_parts_of_incompatible_content_types_give_a_body_type_mismatch() {
  let r = match_file_part("file", 0, &b"a".to_vec(), &b"b".to_vec(), "application/jpeg", "text/plain", false,
    &vec![], &vec![root_mismatch("never read")]);
  let ms = r.unwrap_err();
  assert_eq!(ms.len(), 1);
  match &ms[0] {
    PartMismatch::BodyType(t) => {
      assert_eq!(t.mismatch, "MIME part 'file': Expected a body of 'application/jpeg' but the actual content type was 'text/plain'");
      assert_eq!(t.expected_type, "application/jpeg");
      assert_eq!(t.actual_type, "text/plain");
      assert_eq!(t.expected, Some(b"a".to_vec()));
      assert_eq!(t.actual, Some(b"b".to_vec()));
    }
    PartMismatch::Body(_) => panic!("expected a body type mismatch")
  }
}

#[test]
fn file_parts_of_compatible_content_types_report_content_mismatches_under_the_part_name() {
  let headers = vec![header("x-b", "v", None, None, None)];
  let r = match_file_part("", 1, &b"a".to_vec(), &b"b".to_vec(), "text/plain", "text/plain", true,
    &headers, &vec![root_mismatch("differs")]);
  let msgs: Vec<String> = r.unwrap_err().iter().map(|m| match m {
    PartMismatch::Body(b) => b.mismatch.clone(),
    PartMismatch::BodyType(t) => t.mismatch.clone()
  }).collect();
  assert_eq!(msgs, vec![
    "MIME part 'unknown part': Expected multipart header 'x-b' with value 'v' but was missing",
    "MIME part '1': differs"
  ]);
  assert!(match_file_part("f", 0, &b"a".to_vec(), &b"a".to_vec(), "", "", true, &vec![], &vec![]).is_ok());
}
