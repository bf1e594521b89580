use pact_models::mock_server::{
  failure_report, indent_lines, overwrite_pact_file, pact_output_dir, pact_write_outcome, server_description,
  shutdown_action, ShutdownAction,
  short_description, text_lines, MockServerMismatch
};

#[test]
fn short_description_upper_cases_the_method() {
  assert_eq!(short_description("get", "/path/1"), "GET /path/1");
  assert_eq!(short_description("Post", "/"), "POST /");
}

#[test]
fn server_description_names_consumer_and_provider() {
  assert_eq!(server_description("Consumer", "Provider"), "Consumer/Provider");
}

#[test]
fn output_dir_prefers_the_configured_directory() {
  assert_eq!(pact_output_dir(Some("out"), Some("env")), "out");
  assert_eq!(pact_output_dir(Some(""), Some("env")), "env");
  assert_eq!(pact_output_dir(None, Some("env")), "env");
  assert_eq!(pact_output_dir(None, None), "target/pacts");
  assert_eq!(pact_output_dir(Some(""), None), "target/pacts");
}

#[test]
fn overwrite_follows_the_environment_where_set() {
  assert!(overwrite_pact_file(Some("true"), false));
  assert!(!overwrite_pact_file(Some("yes"), true));
  assert!(!overwrite_pact_file(Some("TRUE"), false));
  assert!(overwrite_pact_file(None, true));
  assert!(!overwrite_pact_file(None, false));
}

#[test]
fn text_lines_splits_like_str_lines() {
  for text in ["", "\n", "a", "a\nb", "a\r\nb\n", "a\n\nb\r\n", "\r", "x\r\r\n"] {
    let expected: Vec<String> = text.lines().map(|l| l.to_string()).collect();
    assert_eq!(text_lines(text), expected, "lines of {:?}", text);
  }
}

#[test]
fn indent_lines_indents_every_line() {
  assert_eq!(indent_lines("a\nb\n"), "      a\n      b");
  assert_eq!(indent_lines(""), "");
  assert_eq!(indent_lines("one"), "      one");
}

#[test]
fn failure_report_lists_every_recorded_request() {
  let mismatches = vec![
    MockServerMismatch::RequestMatch,
    MockServerMismatch::RequestMismatch {
      request: "GET /a".to_string(),
      mismatches: vec!["m1".to_string(), "m2".to_string()]
    },
    MockServerMismatch::RequestNotFound {
      method: "post".to_string(),
      path: "/b".to_string(),
      details: "L1\nL2".to_string()
    },
    MockServerMismatch::MissingRequest {
      method: "put".to_string(),
      path: "/c".to_string(),
      details: "X\n".to_string()
    }
  ];
  let report = failure_report(Some(12), "c/p", &mismatches);
  assert_eq!(report,
    " ---------- \nMock server c/p failed verification:\n\
     \n  - request GET /a:\n\n    - m1\n    - m2\n\
     \n  - received unexpected request POST /b:\n\n      L1\n      L2\n\
     \n  - request PUT /c expected, but never occurred:\n\n      X\n \
     ---------- \n");
}

#[test]
fn failure_report_uses_a_width_of_120_when_unknown() {
  let report = failure_report(None, "d", &vec![]);
  let rule = format!(" {} ", "-".repeat(118));
  assert_eq!(report, format!("{}\nMock server d failed verification:\n{}\n", rule, rule));
}

#[test]
fn shutdown_writes_the_pact_when_nothing_mismatched() {
  match shutdown_action(&vec![], Some(""), None, None, true, Some(10), "c/p") {
    ShutdownAction::WritePact { output_dir, overwrite } => {
      assert_eq!(output_dir, "target/pacts");
      assert!(overwrite);
    }
    ShutdownAction::Fail(_) => panic!("expected the pact to be written")
  }
  match shutdown_action(&vec![], None, Some("env"), Some("false"), true, None, "c/p") {
    ShutdownAction::WritePact { output_dir, overwrite } => {
      assert_eq!(output_dir, "env");
      assert!(!overwrite);
    }
    ShutdownAction::Fail(_) => panic!("expected the pact to be written")
  }
}

#[test]
fn shutdown_fails_with_the_report_when_something_mismatched() {
  let mismatches = vec![MockServerMismatch::MissingRequest {
    method: "get".to_string(), path: "/a".to_string(), details: "X".to_string()
  }];
  match shutdown_action(&mismatches, None, None, None, false, Some(4), "c/p") {
    ShutdownAction::Fail(report) => {
      assert_eq!(report, failure_report(Some(4), "c/p", &mismatches));
      assert!(report.contains("Mock server c/p failed verification:"));
    }
    ShutdownAction::WritePact { .. } => panic!("expected a failure")
  }
}

#[test]
fn a_pact_write_error_is_reported() {
  assert_eq!(pact_write_outcome(Ok(())), Ok(()));
  assert_eq!(pact_write_outcome(Err("disk full".to_string())), Err("error writing pact: disk full".to_string()));
}
