use pact_models::headers::parse_header;

#[test]
fn parse_simple_header_value() {
  let parsed = parse_header("X", "Y");
  assert_eq!(parsed, vec!["Y"]);
}

#[test]
fn parse_multi_value_header_value() {
  let parsed = parse_header("Access-Control-Allow-Methods", "POST, GET, OPTIONS");
  assert_eq!(parsed, vec!["POST", "GET", "OPTIONS"]);
}

#[test]
fn parse_multi_value_header_value_with_parameters() {
  let parsed = parse_header("accept", "text/html,application/xhtml+xml, application/xml;q=0.9,*/*; q=0.8");
  assert_eq!(parsed, vec!["text/html", "application/xhtml+xml", "application/xml;q=0.9", "*/*; q=0.8"]);
}

#[test]
fn parse_known_single_value_header_value() {
  let parsed = parse_header("Last-Modified", "Mon, 01 Dec 2008 01:15:39 GMT");
  assert_eq!(parsed, vec!["Mon, 01 Dec 2008 01:15:39 GMT"]);
}

#[test]
fn parse_user_agent_as_single_value() {
  let parsed = parse_header("User-Agent", "Mozilla/5.0 (X11; Linux x86_64) AppleWebKit/537.36 (KHTML, like Gecko) QtWebEngine/6.6.3 Chrome/112.0.5615.213 Safari/537.36");
  assert_eq!(parsed, vec!["Mozilla/5.0 (X11; Linux x86_64) AppleWebKit/537.36 (KHTML, like Gecko) QtWebEngine/6.6.3 Chrome/112.0.5615.213 Safari/537.36"]);
}

#[test]
fn parse_header_keeps_empty_parts_and_trims_unicode_space() {
  assert_eq!(parse_header("X", ",a,"), vec!["", "a", ""]);
  assert_eq!(parse_header("X", "\u{00A0}a\u{2003}, b "), vec!["a", "b"]);
  assert_eq!(parse_header("DATE", " x, y "), vec!["x, y"]);
}

#[test]
fn single_value_headers_are_recognised_in_any_case() {
  assert_eq!(parse_header("Last-Modified", "Wed, 21 Oct 2015 07:28:00 GMT"), vec!["Wed, 21 Oct 2015 07:28:00 GMT"]);
  assert_eq!(parse_header("X", "a, b"), vec!["a", "b"]);
}
