use pact_models::path_exp::{matches_token, obj_key_for_path, parse_path_exp, DocPath, PathToken};

fn field(s: &str) -> PathToken {
  PathToken::Field(s.to_string())
}

#[test]
fn matches_token_test_with_root() {
  assert_eq!(matches_token("$", &PathToken::Root), 2);
  assert_eq!(matches_token("path", &PathToken::Root), 0);
  assert_eq!(matches_token("*", &PathToken::Root), 0);
}

#[test]
fn matches_token_test_with_field() {
  assert_eq!(matches_token("$", &field("path")), 0);
  assert_eq!(matches_token("path", &field("path")), 2);
}

#[test]
fn matches_token_test_with_index() {
  assert_eq!(matches_token("$", &PathToken::Index(2)), 0);
  assert_eq!(matches_token("path", &PathToken::Index(2)), 0);
  assert_eq!(matches_token("*", &PathToken::Index(2)), 0);
  assert_eq!(matches_token("1", &PathToken::Index(2)), 0);
  assert_eq!(matches_token("2", &PathToken::Index(2)), 2);
}

#[test]
fn matches_token_test_with_index_wildcard() {
  assert_eq!(matches_token("$", &PathToken::StarIndex), 0);
  assert_eq!(matches_token("path", &PathToken::StarIndex), 0);
  assert_eq!(matches_token("*", &PathToken::StarIndex), 0);
  assert_eq!(matches_token("1", &PathToken::StarIndex), 1);
}

#[test]
fn matches_token_test_with_wildcard() {
  assert_eq!(matches_token("$", &PathToken::Star), 1);
  assert_eq!(matches_token("path", &PathToken::Star), 1);
  assert_eq!(matches_token("*", &PathToken::Star), 1);
  assert_eq!(matches_token("1", &PathToken::Star), 1);
}

#[test]
fn docpath_empty() {
  assert_eq!(DocPath::empty().tokens(), DocPath::new_unwrap("").tokens());
}

#[test]
fn docpath_root() {
  assert_eq!(DocPath::root().tokens(), DocPath::new_unwrap("$").tokens());
}

#[test]
fn docpath_wildcard() {
  assert_eq!(DocPath::new_unwrap("").is_wildcard(), false);
  assert_eq!(DocPath::new_unwrap("$.path").is_wildcard(), false);
  assert_eq!(DocPath::new_unwrap("$.*").is_wildcard(), true);
  assert_eq!(DocPath::new_unwrap("$.path.*").is_wildcard(), true);
}

#[test]
fn matches_path_matches_root_path_element() {
  assert!(DocPath::new_unwrap("$").path_weight(&vec!["$"]).0 > 0);
  assert!(!(DocPath::new_unwrap("$").path_weight(&vec![]).0 > 0));
}

#[test]
fn matches_path_matches_field_name() {
  assert!(DocPath::new_unwrap("$.name").path_weight(&vec!["$", "name"]).0 > 0);
  assert!(DocPath::new_unwrap("$['name']").path_weight(&vec!["$", "name"]).0 > 0);
  assert!(DocPath::new_unwrap("$.name.other").path_weight(&vec!["$", "name", "other"]).0 > 0);
  assert!(DocPath::new_unwrap("$['name'].other").path_weight(&vec!["$", "name", "other"]).0 > 0);
  assert!(!(DocPath::new_unwrap("$.name").path_weight(&vec!["$", "other"]).0 > 0));
  assert!(DocPath::new_unwrap("$.name").path_weight(&vec!["$", "name", "other"]).0 > 0);
  assert!(!(DocPath::new_unwrap("$.other").path_weight(&vec!["$", "name", "other"]).0 > 0));
  assert!(!(DocPath::new_unwrap("$.name.other").path_weight(&vec!["$", "name"]).0 > 0));
}

#[test]
fn matches_path_matches_array_indices() {
  assert!(DocPath::new_unwrap("$[0]").path_weight(&vec!["$", "0"]).0 > 0);
  assert!(DocPath::new_unwrap("$.name[1]").path_weight(&vec!["$", "name", "1"]).0 > 0);
  assert!(!(DocPath::new_unwrap("$.name").path_weight(&vec!["$", "0"]).0 > 0));
  assert!(!(DocPath::new_unwrap("$.name[1]").path_weight(&vec!["$", "name", "0"]).0 > 0));
  assert!(!(DocPath::new_unwrap("$[1].name").path_weight(&vec!["$", "name", "1"]).0 > 0));
}

#[test]
fn matches_path_matches_with_wildcard() {
  assert!(DocPath::new_unwrap("$[*]").path_weight(&vec!["$", "0"]).0 > 0);
  assert!(DocPath::new_unwrap("$.*").path_weight(&vec!["$", "name"]).0 > 0);
  assert!(DocPath::new_unwrap("$.*.name").path_weight(&vec!["$", "some", "name"]).0 > 0);
  assert!(DocPath::new_unwrap("$.name[*]").path_weight(&vec!["$", "name", "0"]).0 > 0);
  assert!(DocPath::new_unwrap("$.name[*].name").path_weight(&vec!["$", "name", "1", "name"]).0 > 0);
  assert!(!(DocPath::new_unwrap("$[*]").path_weight(&vec!["$", "name"]).0 > 0));
}

#[test]
fn parse_path_exp_handles_empty_string() {
  assert_eq!(parse_path_exp(""), Ok(vec![]));
}

#[test]
fn parse_path_exp_handles_root() {
  assert_eq!(parse_path_exp("$"), Ok(vec![PathToken::Root]));
}

#[test]
fn parse_path_exp_handles_missing_root() {
  assert_eq!(parse_path_exp("adsjhaskjdh"), Ok(vec![PathToken::Root, field("adsjhaskjdh")]));
}

#[test]
fn parse_path_exp_handles_missing_path() {
  assert_eq!(parse_path_exp("$adsjhaskjdh"),
    Err("Expected a \".\" or \"[\" instead of \"a\" in path expression \"$adsjhaskjdh\" at index 1".to_string()));
}

#[test]
fn parse_path_exp_handles_missing_path_name() {
  assert_eq!(parse_path_exp("$."),
    Err("Expected a path after \".\" in path expression \"$.\" at index 1".to_string()));
  assert_eq!(parse_path_exp("$.a.b.c."),
    Err("Expected a path after \".\" in path expression \"$.a.b.c.\" at index 7".to_string()));
}

#[test]
fn parse_path_exp_handles_invalid_identifiers() {
  assert_eq!(parse_path_exp("$.abc!"),
    Err("\"!\" is not allowed in an identifier in path expression \"$.abc!\" at index 5".to_string()));
  assert_eq!(parse_path_exp("$.a.b.c.}"),
    Err("Expected either a \"*\" or path identifier in path expression \"$.a.b.c.}\" at index 8".to_string()));
}

#[test]
fn parse_path_exp_with_simple_identifiers() {
  assert_eq!(parse_path_exp("$.a"), Ok(vec![PathToken::Root, field("a")]));
  assert_eq!(parse_path_exp("$.a.b.c"), Ok(vec![PathToken::Root, field("a"), field("b"), field("c")]));
  assert_eq!(parse_path_exp("a.b.c"), Ok(vec![PathToken::Root, field("a"), field("b"), field("c")]));
}

#[test]
fn parse_path_exp_handles_underscores_and_dashes() {
  assert_eq!(parse_path_exp("$.user_id.user-id"), Ok(vec![PathToken::Root, field("user_id"), field("user-id")]));
  assert_eq!(parse_path_exp("$._id"), Ok(vec![PathToken::Root, field("_id")]));
  assert_eq!(parse_path_exp("$.id:test"), Ok(vec![PathToken::Root, field("id:test")]));
}

#[test]
fn parse_path_exp_handles_xml_names() {
  assert_eq!(parse_path_exp("$.foo.@val"), Ok(vec![PathToken::Root, field("foo"), field("@val")]));
  assert_eq!(parse_path_exp("$.foo.#text"), Ok(vec![PathToken::Root, field("foo"), field("#text")]));
  assert_eq!(parse_path_exp("$.urn:ns:foo.urn:ns:something.#text"),
    Ok(vec![PathToken::Root, field("urn:ns:foo"), field("urn:ns:something"), field("#text")]));
}

#[test]
fn parse_path_exp_with_star_instead_of_identifiers() {
  assert_eq!(parse_path_exp("$.*"), Ok(vec![PathToken::Root, PathToken::Star]));
  assert_eq!(parse_path_exp("$.a.*.c"), Ok(vec![PathToken::Root, field("a"), PathToken::Star, field("c")]));
}

#[test]
fn parse_path_exp_with_bracket_notation() {
  assert_eq!(parse_path_exp("$['val1']"), Ok(vec![PathToken::Root, field("val1")]));
  assert_eq!(parse_path_exp("$.a['val@1.'].c"), Ok(vec![PathToken::Root, field("a"), field("val@1."), field("c")]));
  assert_eq!(parse_path_exp("$.a[1].c"), Ok(vec![PathToken::Root, field("a"), PathToken::Index(1), field("c")]));
  assert_eq!(parse_path_exp("$.a[*].c"), Ok(vec![PathToken::Root, field("a"), PathToken::StarIndex, field("c")]));
}

#[test]
fn parse_path_exp_with_invalid_bracket_notation() {
  assert_eq!(parse_path_exp("$["),
    Err("Expected a \"'\" (single qoute) or a digit in path expression \"$[\" after index 1".to_string()));
  assert_eq!(parse_path_exp("$['"),
    Err("Unterminated string in path expression \"$['\" at index 2".to_string()));
  assert_eq!(parse_path_exp("$['Unterminated string"),
    Err("Unterminated string in path expression \"$['Unterminated string\" at index 21".to_string()));
  assert_eq!(parse_path_exp("$['']"),
    Err("Empty strings are not allowed in path expression \"$['']\" at index 3".to_string()));
  assert_eq!(parse_path_exp("$['test'.b.c"),
    Err("Unterminated brackets, found \".\" instead of \"]\" in path expression \"$['test'.b.c\" at index 8".to_string()));
  assert_eq!(parse_path_exp("$['test'"),
    Err("Unterminated brackets in path expression \"$['test'\" at index 7".to_string()));
  assert_eq!(parse_path_exp("$['test']b.c"),
    Err("Expected a \".\" or \"[\" instead of \"b\" in path expression \"$['test']b.c\" at index 9".to_string()));
}

#[test]
fn parse_path_exp_with_invalid_bracket_index_notation() {
  assert_eq!(parse_path_exp("$[dhghh]"),
    Err("Indexes can only consist of numbers or a \"*\", found \"d\" instead in path expression \"$[dhghh]\" at index 2".to_string()));
  assert_eq!(parse_path_exp("$[12abc]"),
    Err("Indexes can only consist of numbers or a \"*\", found \"a\" instead in path expression \"$[12abc]\" at index 4".to_string()));
  assert_eq!(parse_path_exp("$[]"),
    Err("Empty bracket expressions are not allowed in path expression \"$[]\" at index 2".to_string()));
  assert_eq!(parse_path_exp("$[-1]"),
    Err("Indexes can only consist of numbers or a \"*\", found \"-\" instead in path expression \"$[-1]\" at index 2".to_string()));
}

#[test]
fn obj_key_for_path_quotes_keys_when_necessary() {
  assert_eq!(obj_key_for_path("foo"), ".foo");
  assert_eq!(obj_key_for_path("_foo"), "._foo");
  assert_eq!(obj_key_for_path("["), "['[']");
  assert_eq!(obj_key_for_path(r#"''"#), r#"['\'\'']"#);
  assert_eq!(obj_key_for_path(r#"a'"#), r#"['a\'']"#);
  assert_eq!(obj_key_for_path(r#"\"#), r#"['\\']"#);
}

#[test]
fn path_join() {
  let something = DocPath::root().join("something");
  assert_eq!(something.to_string(), "$.something");
  assert_eq!(DocPath::root().join("something else").to_string(), "$['something else']");
  assert_eq!(something.join("else").to_string(), "$.something.else");
  assert_eq!(something.join("*").to_string(), "$.something.*");
  assert_eq!(something.join("101").to_string(), "$.something[101]");
}

#[test]
fn path_push() {
  let mut root = DocPath::root();
  let something = root.push(field("something"));
  assert_eq!(something.to_string(), "$.something");
  assert_eq!(DocPath::root().push(field("something else")).to_string(), "$['something else']");
  assert_eq!(something.push(field("else")).to_string(), "$.something.else");
  assert_eq!(something.push(PathToken::Star).to_string(), "$.something.else.*");
  assert_eq!(something.push(PathToken::Index(101)).to_string(), "$.something.else.*[101]");
}

#[test]
fn push_path() {
  let mut empty = DocPath::empty();
  let a = empty.push_field("a");
  let mut root = DocPath::root();
  let b = root.push_field("a").push_field("b");
  let mut root = DocPath::root();
  let c = root.push_field("a").push_field("b").push_field("se-token");
  assert_eq!(DocPath::root().push_path(a).to_string(), "$.a");
  assert_eq!(DocPath::root().push_path(b).to_string(), "$.a.b");
  assert_eq!(DocPath::root().push_path(c).to_string(), "$.a.b['se-token']");
}

#[test]
fn build_expr() {
  let mut root = DocPath::root();
  assert_eq!(root.build_expr(), "$");
  let something = root.push(field("something"));
  assert_eq!(something.build_expr(), "$.something");
  assert_eq!(DocPath::root().push(field("something else")).build_expr(), "$['something else']");
  assert_eq!(something.push(field("else")).build_expr(), "$.something.else");
  assert_eq!(something.push(PathToken::Star).build_expr(), "$.something.else.*");
  assert_eq!(something.push(PathToken::Index(101)).build_expr(), "$.something.else.*[101]");
}

#[test]
fn path_parent() {
  let something = DocPath::root().join("something");
  let something_else = something.join("else");
  let something_star = something.join("*");
  let something_escaped = something.join("e l s e");
  let something_escaped2 = something_escaped.join("two");
  let something_star_child = something_star.join("child");

  assert_eq!(something.parent(), Some(DocPath::root()));
  assert_eq!(something_else.parent(), Some(something.duplicate()));
  assert_eq!(something_star.parent(), Some(something.duplicate()));
  assert_eq!(something_escaped.parent(), Some(something.duplicate()));
  assert_eq!(something_escaped2.parent(), Some(something_escaped.duplicate()));
  assert_eq!(something_star_child.parent(), Some(something_star.duplicate()));

  assert_eq!(DocPath::root().parent(), None);
  assert_eq!(DocPath::empty().parent(), None);
}

#[test]
fn as_json_pointer() {
  let root = DocPath::root();
  assert_eq!(root.as_json_pointer().unwrap(), "");

  let mut something = root.join("something");
  assert_eq!(something.as_json_pointer().unwrap(), "/something");

  let with_slash = something.join("a/b");
  assert_eq!(with_slash.as_json_pointer().unwrap(), "/something/a~1b");
  let with_tilde = something.join("m~n");
  assert_eq!(with_tilde.as_json_pointer().unwrap(), "/something/m~0n");

  let encoded = something.join("c%25d");
  assert_eq!(encoded.as_json_pointer().unwrap(), "/something/c%25d");

  assert_eq!(DocPath::root().push(field("something else")).as_json_pointer().unwrap(), "/something else");
  assert!(something.join("*").as_json_pointer().is_err());
  assert_eq!(something.push(PathToken::Index(101)).as_json_pointer().unwrap(), "/something/101");
}

#[test]
fn join_index_test() {
  let cases = [
    ("", "[0]"),
    ("$", "$[0]"),
    ("$.a", "$.a[0]"),
    ("$.a[1]", "$.a[1][0]"),
    ("$.a.*", "$.a[0]"),
    ("$.a[*]", "$.a[0]"),
  ];
  for (base, result) in cases {
    let base_path = DocPath::new_unwrap(base);
    let result_path = base_path.join_index(0);
    assert_eq!(result_path.to_string(), result);
  }
}

#[test]
fn parsed_tokens_written_back_parse_to_the_same_tokens() {
  for expr in ["$.a['b c'][1].*[*]", "a.b", "$['x.y']", "$"] {
    let tokens = parse_path_exp(expr).unwrap();
    let written = DocPath::from_tokens(tokens.iter().map(|t| t.duplicate()).collect()).to_string();
    assert_eq!(parse_path_exp(&written).unwrap(), tokens, "{} written as {}", expr, written);
  }
  assert_eq!(parse_path_exp("").unwrap(), vec![]);
}

#[test]
fn a_path_matches_its_own_texts_exactly() {
  for expr in ["$.a[2].*", "$['x y'][*]", "$"] {
    let path = DocPath::new_unwrap(expr);
    let texts = path.to_vec();
    let frags: Vec<&str> = texts.iter().map(|s| s.as_str()).collect();
    assert!(path.matches_path_exactly(&frags), "{}", expr);
  }
  assert!(DocPath::empty().matches_path_exactly(&[]));
}

#[test]
fn appending_fragments_keeps_the_match_and_weight() {
  let path = DocPath::new_unwrap("$.a.*");
  let weight = path.path_weight(&["$", "a", "b"]);
  assert!(weight.0 > 0);
  assert_eq!(path.path_weight(&["$", "a", "b", "c", "d"]), weight);
  assert!(path.matches_path(&["$", "a", "b", "c"]));
}
