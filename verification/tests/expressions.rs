use pact_models::definition_lexer::MatcherDefinitionToken;
use pact_models::definition_parser::{
  is_matcher_def, matching_definition, matching_definition_exp, parse_each_key, parse_each_value,
  parse_matcher_def, parse_matching_rule, parse_string, process_raw_string,
};
use pact_models::expressions::{
  DataType, Either, Generator, MatchingReference, MatchingRule, MatchingRuleDefinition, ValueType,
};

/// Removes the margin (leading blanks and one `marker`) from each line, and a
/// blank first and last line.
fn margin_with(s: &str, marker: char) -> String {
  let mut raw: Vec<&str> = s.split('\n').collect();
  if raw.first().map(|l| l.trim().is_empty()).unwrap_or(false) {
    raw.remove(0);
  }
  if raw.last().map(|l| l.trim().is_empty()).unwrap_or(false) {
    raw.pop();
  }
  let lines: Vec<String> = raw
    .iter()
    .map(|line| {
      let trimmed = line.trim_start();
      match trimmed.strip_prefix(marker) {
        Some(rest) => rest.to_string(),
        None => trimmed.to_string(),
      }
    })
    .collect();
  lines.join("\n")
}

fn margin(s: &str) -> String {
  margin_with(s, '|')
}

fn def(value: &str, value_type: ValueType, rule: MatchingRule, generator: Option<Generator>) -> MatchingRuleDefinition {
  MatchingRuleDefinition::new(value.to_string(), value_type, rule, generator)
}

#[test]
fn does_not_start_with_matching() {
  assert!(parse_matcher_def("").is_err());
  assert!(parse_matcher_def("a, b, c").is_err());
  assert!(parse_matcher_def("matching some other text").is_err());
}

#[test]
fn parse_type_matcher() {
  assert_eq!(parse_matcher_def("matching(type,'Name')").unwrap(),
    def("Name", ValueType::String, MatchingRule::Type, None));
  assert_eq!(parse_matcher_def("matching( type, 'Name' )").unwrap(),
    def("Name", ValueType::String, MatchingRule::Type, None));
  assert_eq!(parse_matcher_def("matching(type,123.4)").unwrap(),
    def("123.4", ValueType::Decimal, MatchingRule::Type, None));
  assert_eq!(parse_matcher_def("matching(type, fromProviderState('exp', 3))").unwrap(),
    def("3", ValueType::Integer, MatchingRule::Type,
      Some(Generator::ProviderStateGenerator("exp".to_string(), Some(DataType::INTEGER)))));
}

#[test]
fn parse_number_matcher() {
  assert_eq!(parse_matcher_def("matching(number,100)").unwrap(),
    def("100", ValueType::Number, MatchingRule::Number, None));
  assert_eq!(parse_matcher_def("matching(number,200.22)").unwrap(),
    def("200.22", ValueType::Number, MatchingRule::Number, None));
  assert_eq!(parse_matcher_def("matching(integer,-100)").unwrap(),
    def("-100", ValueType::Integer, MatchingRule::Integer, None));
  assert_eq!(parse_matcher_def("matching(decimal,100)").unwrap(),
    def("100", ValueType::Decimal, MatchingRule::Decimal, None));
  assert_eq!(parse_matcher_def("matching(decimal,100.22)").unwrap(),
    def("100.22", ValueType::Decimal, MatchingRule::Decimal, None));
  assert_eq!(parse_matcher_def("matching(number, fromProviderState('exp', 3))").unwrap(),
    def("3", ValueType::Integer, MatchingRule::Number,
      Some(Generator::ProviderStateGenerator("exp".to_string(), Some(DataType::INTEGER)))));
}

#[test]
fn parse_datetime_matcher() {
  assert_eq!(parse_matcher_def("matching(datetime, 'yyyy-MM-dd','2000-01-01')").unwrap(),
    def("2000-01-01", ValueType::String, MatchingRule::Timestamp("yyyy-MM-dd".to_string()),
      Some(Generator::DateTime(Some("yyyy-MM-dd".to_string()), None))));
  assert_eq!(parse_matcher_def("matching(date, 'yyyy-MM-dd','2000-01-01')").unwrap(),
    def("2000-01-01", ValueType::String, MatchingRule::Date("yyyy-MM-dd".to_string()),
      Some(Generator::Date(Some("yyyy-MM-dd".to_string()), None))));
  assert_eq!(parse_matcher_def("matching(time, 'HH:mm:ss','12:00:00')").unwrap(),
    def("12:00:00", ValueType::String, MatchingRule::Time("HH:mm:ss".to_string()),
      Some(Generator::Time(Some("HH:mm:ss".to_string()), None))));
  assert_eq!(parse_matcher_def("matching(datetime, 'yyyy-MM-dd', fromProviderState('exp', '2000-01-01'))").unwrap(),
    def("2000-01-01", ValueType::String, MatchingRule::Timestamp("yyyy-MM-dd".to_string()),
      Some(Generator::ProviderStateGenerator("exp".to_string(), Some(DataType::STRING)))));
}

#[test]
fn parse_regex_matcher() {
  assert_eq!(parse_matcher_def("matching(regex,'\\w+', 'Fred')").unwrap(),
    def("Fred", ValueType::String, MatchingRule::Regex("\\w+".to_string()), None));
}

#[test]
fn parse_boolean_matcher() {
  assert_eq!(parse_matcher_def("matching(boolean,true)").unwrap(),
    def("true", ValueType::Boolean, MatchingRule::Boolean, None));
}

#[test]
fn parse_include_matcher() {
  assert_eq!(parse_matcher_def("matching(include,'Name')").unwrap(),
    def("Name", ValueType::String, MatchingRule::Include("Name".to_string()), None));
}

#[test]
fn parse_equals_matcher() {
  assert_eq!(parse_matcher_def("matching(equalTo,'Name')").unwrap(),
    def("Name", ValueType::String, MatchingRule::Equality, None));
  assert_eq!(parse_matcher_def("matching(equalTo,123.4)").unwrap(),
    def("123.4", ValueType::Decimal, MatchingRule::Equality, None));
  assert_eq!(parse_matcher_def("matching(equalTo, fromProviderState('exp', 3))").unwrap(),
    def("3", ValueType::Integer, MatchingRule::Equality,
      Some(Generator::ProviderStateGenerator("exp".to_string(), Some(DataType::INTEGER)))));
}

#[test]
fn parse_content_type_matcher() {
  assert_eq!(parse_matcher_def("matching(contentType,'Name', 'Value')").unwrap(),
    def("Value", ValueType::Unknown, MatchingRule::ContentType("Name".to_string()), None));
}

#[test]
fn parse_not_empty() {
  assert_eq!(parse_matcher_def("notEmpty('Value')").unwrap(),
    def("Value", ValueType::String, MatchingRule::NotEmpty, None));
  assert_eq!(parse_matcher_def("notEmpty(100)").unwrap(),
    def("100", ValueType::Integer, MatchingRule::NotEmpty, None));
  assert_eq!(parse_matcher_def("notEmpty(fromProviderState('exp', 3))").unwrap(),
    def("3", ValueType::Integer, MatchingRule::NotEmpty,
      Some(Generator::ProviderStateGenerator("exp".to_string(), Some(DataType::INTEGER)))));
}

#[test]
fn parse_comma() {
  assert!(pact_models::definition_parser::parse_comma(
    &mut MatcherDefinitionToken::lexer(", notEmpty('Value')"), ", notEmpty('Value')").is_ok());

  let mut lex = MatcherDefinitionToken::lexer("100 notEmpty(100)");
  lex.next();
  assert_eq!(pact_models::definition_parser::parse_comma(&mut lex, "100 notEmpty(100)").unwrap_err(),
    margin_with(
      "|Error: Expected a comma, got 'notEmpty'
            |   ╭─[expression:1:5]
            |   │
            | 1 │ 100 notEmpty(100)
            |   │     ────┬─── \u{0020}
            |   │         ╰───── Expected a comma before this
            |───╯
            |
            ", '|'));

  let mut lex2 = MatcherDefinitionToken::lexer("100");
  lex2.next();
  assert_eq!(pact_models::definition_parser::parse_comma(&mut lex2, "100").unwrap_err(),
    margin_with(
      "|Error: Expected a comma, got the end of the expression
            |   ╭─[expression:1:4]
            |   │
            | 1 │ 100
            |   │    │\u{0020}
            |   │    ╰─ Expected a comma here
            |───╯
            |
            ", '|'));
}

#[test]
fn merging_types() {
  assert_eq!(ValueType::String.merge(ValueType::Unknown), ValueType::String);
  assert_eq!(ValueType::Unknown.merge(ValueType::String), ValueType::String);
  assert_eq!(ValueType::Unknown.merge(ValueType::Number), ValueType::Number);
  assert_eq!(ValueType::Number.merge(ValueType::Unknown), ValueType::Number);
  assert_eq!(ValueType::Unknown.merge(ValueType::Integer), ValueType::Integer);
  assert_eq!(ValueType::Integer.merge(ValueType::Unknown), ValueType::Integer);
  assert_eq!(ValueType::Unknown.merge(ValueType::Decimal), ValueType::Decimal);
  assert_eq!(ValueType::Decimal.merge(ValueType::Unknown), ValueType::Decimal);
  assert_eq!(ValueType::Unknown.merge(ValueType::Boolean), ValueType::Boolean);
  assert_eq!(ValueType::Boolean.merge(ValueType::Unknown), ValueType::Boolean);
  assert_eq!(ValueType::Unknown.merge(ValueType::Unknown), ValueType::Unknown);
  assert_eq!(ValueType::String.merge(ValueType::String), ValueType::String);
  assert_eq!(ValueType::Number.merge(ValueType::Number), ValueType::Number);
  assert_eq!(ValueType::Integer.merge(ValueType::Integer), ValueType::Integer);
  assert_eq!(ValueType::Decimal.merge(ValueType::Decimal), ValueType::Decimal);
  assert_eq!(ValueType::Boolean.merge(ValueType::Boolean), ValueType::Boolean);
  assert_eq!(ValueType::Number.merge(ValueType::String), ValueType::String);
  assert_eq!(ValueType::Integer.merge(ValueType::String), ValueType::String);
  assert_eq!(ValueType::Decimal.merge(ValueType::String), ValueType::String);
  assert_eq!(ValueType::Boolean.merge(ValueType::String), ValueType::String);
  assert_eq!(ValueType::String.merge(ValueType::Number), ValueType::String);
  assert_eq!(ValueType::String.merge(ValueType::Integer), ValueType::String);
  assert_eq!(ValueType::String.merge(ValueType::Decimal), ValueType::String);
  assert_eq!(ValueType::String.merge(ValueType::Boolean), ValueType::String);
  assert_eq!(ValueType::Number.merge(ValueType::Integer), ValueType::Integer);
  assert_eq!(ValueType::Number.merge(ValueType::Decimal), ValueType::Decimal);
  assert_eq!(ValueType::Number.merge(ValueType::Boolean), ValueType::Number);
  assert_eq!(ValueType::Integer.merge(ValueType::Number), ValueType::Integer);
  assert_eq!(ValueType::Integer.merge(ValueType::Decimal), ValueType::Decimal);
  assert_eq!(ValueType::Integer.merge(ValueType::Boolean), ValueType::Integer);
  assert_eq!(ValueType::Decimal.merge(ValueType::Number), ValueType::Decimal);
  assert_eq!(ValueType::Decimal.merge(ValueType::Integer), ValueType::Decimal);
  assert_eq!(ValueType::Decimal.merge(ValueType::Boolean), ValueType::Decimal);
  assert_eq!(ValueType::Boolean.merge(ValueType::Number), ValueType::Number);
  assert_eq!(ValueType::Boolean.merge(ValueType::Integer), ValueType::Integer);
  assert_eq!(ValueType::Boolean.merge(ValueType::Decimal), ValueType::Decimal);
}

#[test]
fn parse_semver_matcher() {
  assert_eq!(parse_matcher_def("matching(semver, '1.0.0')").unwrap(),
    def("1.0.0", ValueType::String, MatchingRule::Semver, None));

  assert_eq!(parse_matcher_def("matching(semver, '100')").unwrap_err(),
    margin(
      "|Error: Expected a semver compatible string, got '100' - unexpected end of input while parsing major version number
            |   ╭─[expression:1:18]
            |   │
            | 1 │ matching(semver, '100')
            |   │                  ──┬── \u{0020}
            |   │                    ╰──── This is not a valid semver value
            |───╯
            |
            "));

  assert_eq!(parse_matcher_def("matching(semver, 100)").unwrap_err(),
    margin(
      "|Error: Expected a string value, got 100
            |   ╭─[expression:1:18]
            |   │
            | 1 │ matching(semver, 100)
            |   │                  ─┬─ \u{0020}
            |   │                   ╰─── Expected this to be a string
            |   │\u{0020}
            |   │ Note: Surround the value in quotes: matching(semver, '100')
            |───╯
            |
            "));
}

#[test]
fn parse_matching_rule_test() {
  let mut lex = MatcherDefinitionToken::lexer("type, '1.0.0')");
  assert_eq!(parse_matching_rule(&mut lex, "matching(type, '1.0.0')").unwrap(),
    ("1.0.0".to_string(), ValueType::String, Some(MatchingRule::Type), None, None));

  let mut lex = MatcherDefinitionToken::lexer("match(");
  lex.next();
  lex.next();
  assert_eq!(parse_matching_rule(&mut lex, "matching(").unwrap_err(),
    margin(
      "|Error: Expected a matcher (equalTo, regex, etc.), got the end of the expression
            |   ╭─[expression:1:10]
            |   │
            | 1 │ matching(
            |   │          │\u{0020}
            |   │          ╰─ Expected a matcher (equalTo, regex, etc.) here
            |───╯
            |
            "));

  let mut lex = MatcherDefinitionToken::lexer("match(100, '100')");
  lex.next();
  lex.next();
  assert_eq!(parse_matching_rule(&mut lex, "match(100, '100')").unwrap_err(),
    margin(
      "|Error: Expected the type of matcher, got '100'
            |   ╭─[expression:1:7]
            |   │
            | 1 │ match(100, '100')
            |   │       ─┬─ \u{0020}
            |   │        ╰─── Expected a matcher (equalTo, regex, etc.) here
            |───╯
            |
            "));

  let mut lex = MatcherDefinitionToken::lexer("match(testABBC, '100')");
  lex.next();
  lex.next();
  assert_eq!(parse_matching_rule(&mut lex, "match(testABBC, '100')").unwrap_err(),
    margin(
      "|Error: Expected the type of matcher, got 'testABBC'
            |   ╭─[expression:1:7]
            |   │
            | 1 │ match(testABBC, '100')
            |   │       ────┬─── \u{0020}
            |   │           ╰───── This is not a valid matcher type
            |   │\u{0020}
            |   │ Note: Valid matchers are: equalTo, regex, type, datetime, date, time, include, number, integer, decimal, boolean, contentType, semver
            |───╯
            |
            "));
}

#[test]
fn parse_matching_rule_with_reference_test() {
  let mut lex = MatcherDefinitionToken::lexer("$'bob'");
  assert_eq!(parse_matching_rule(&mut lex, "matching($'bob')").unwrap(),
    ("bob".to_string(), ValueType::Unknown, None, None, Some(MatchingReference { name: "bob".to_string() })));

  let mut lex = MatcherDefinitionToken::lexer("match($");
  lex.next();
  lex.next();
  assert_eq!(parse_matching_rule(&mut lex, "matching($").unwrap_err(),
    margin(
      "|Error: Expected a string, got the end of the expression
            |   ╭─[expression:1:11]
            |   │
            | 1 │ matching($
            |   │           │\u{0020}
            |   │           ╰─ Expected a string here
            |───╯
            |
            "));

  let mut lex = MatcherDefinitionToken::lexer("match($100)");
  lex.next();
  lex.next();
  assert_eq!(parse_matching_rule(&mut lex, "match($100)").unwrap_err(),
    margin(
      "|Error: Expected a string value, got 100
            |   ╭─[expression:1:8]
            |   │
            | 1 │ match($100)
            |   │        ─┬─ \u{0020}
            |   │         ╰─── Expected this to be a string
            |   │\u{0020}
            |   │ Note: Surround the value in quotes: match($'100')
            |───╯
            |
            "));
}

#[test]
fn matching_definition_exp_test() {
  let mut lex = MatcherDefinitionToken::lexer("notEmpty('test')");
  assert_eq!(matching_definition_exp(&mut lex, "notEmpty('test')").unwrap(),
    MatchingRuleDefinition {
      value: "test".to_string(),
      value_type: ValueType::String,
      rules: vec![Either::Left(MatchingRule::NotEmpty)],
      generator: None
    });

  let mut lex = MatcherDefinitionToken::lexer("matching(regex, '.*', 'aaabbb')");
  assert_eq!(matching_definition_exp(&mut lex, "matching(regex, '.*', 'aaabbb')").unwrap(),
    MatchingRuleDefinition {
      value: "aaabbb".to_string(),
      value_type: ValueType::String,
      rules: vec![Either::Left(MatchingRule::Regex(".*".to_string()))],
      generator: None
    });

  let mut lex = MatcherDefinitionToken::lexer("matching($'test')");
  assert_eq!(matching_definition_exp(&mut lex, "matching($'test')").unwrap(),
    MatchingRuleDefinition {
      value: "test".to_string(),
      value_type: ValueType::Unknown,
      rules: vec![Either::Right(MatchingReference { name: "test".to_string() })],
      generator: None
    });

  let mut lex = MatcherDefinitionToken::lexer("eachKey(matching(regex, '.*', 'aaabbb'))");
  assert_eq!(matching_definition_exp(&mut lex, "eachKey(matching(regex, '.*', 'aaabbb'))").unwrap(),
    MatchingRuleDefinition {
      value: "".to_string(),
      value_type: ValueType::Unknown,
      rules: vec![Either::Left(MatchingRule::EachKey(MatchingRuleDefinition {
        value: "aaabbb".to_string(),
        value_type: ValueType::String,
        rules: vec![Either::Left(MatchingRule::Regex(".*".to_string()))],
        generator: None
      }))],
      generator: None
    });

  let mut lex = MatcherDefinitionToken::lexer("eachValue(matching(regex, '.*', 'aaabbb'))");
  assert_eq!(matching_definition_exp(&mut lex, "eachValue(matching(regex, '.*', 'aaabbb'))").unwrap(),
    MatchingRuleDefinition {
      value: "".to_string(),
      value_type: ValueType::Unknown,
      rules: vec![Either::Left(MatchingRule::EachValue(MatchingRuleDefinition {
        value: "aaabbb".to_string(),
        value_type: ValueType::String,
        rules: vec![Either::Left(MatchingRule::Regex(".*".to_string()))],
        generator: None
      }))],
      generator: None
    });

  let mut lex = MatcherDefinitionToken::lexer("100");
  lex.next();
  assert_eq!(matching_definition_exp(&mut lex, "100").unwrap_err(),
    margin(
      "|Error: Expected a type of matching rule definition but got the end of the expression
            |   ╭─[expression:1:4]
            |   │
            | 1 │ 100
            |   │    │\u{0020}
            |   │    ╰─ Expected a matching rule definition here
            |   │\u{0020}
            |   │ Note: valid matching rule definitions are: matching, notEmpty, eachKey, eachValue, atLeast, atMost
            |───╯
            |
            "));

  let mut lex = MatcherDefinitionToken::lexer("somethingElse('to test')");
  assert_eq!(matching_definition_exp(&mut lex, "somethingElse('to test')").unwrap_err(),
    margin(
      "|Error: Expected a type of matching rule definition, but got 'somethingElse'
            |   ╭─[expression:1:1]
            |   │
            | 1 │ somethingElse('to test')
            |   │ ──────┬────── \u{0020}
            |   │       ╰──────── Expected a matching rule definition here
            |   │\u{0020}
            |   │ Note: valid matching rule definitions are: matching, notEmpty, eachKey, eachValue, atLeast, atMost
            |───╯
            |
            "));
}

fn each_bob(rule: fn(MatchingRuleDefinition) -> MatchingRule) -> MatchingRuleDefinition {
  MatchingRuleDefinition {
    value: "".to_string(),
    value_type: ValueType::Unknown,
    rules: vec![Either::Left(rule(MatchingRuleDefinition {
      value: "bob".to_string(),
      value_type: ValueType::Unknown,
      rules: vec![Either::Right(MatchingReference { name: "bob".to_string() })],
      generator: None
    }))],
    generator: None
  }
}

#[test]
fn parse_each_key_test() {
  let mut lex = MatcherDefinitionToken::lexer("(matching($'bob'))");
  assert_eq!(parse_each_key(&mut lex, "(matching($'bob'))").unwrap(), each_bob(MatchingRule::EachKey));

  let mut lex = MatcherDefinitionToken::lexer("eachKey");
  lex.next();
  assert_eq!(parse_each_key(&mut lex, "eachKey").unwrap_err(),
    margin(
      "|Error: Expected an opening bracket, got the end of the expression
            |   ╭─[expression:1:8]
            |   │
            | 1 │ eachKey
            |   │        │\u{0020}
            |   │        ╰─ Expected an opening bracket here
            |───╯
            |
            "));

  let mut lex = MatcherDefinitionToken::lexer("eachKey matching");
  lex.next();
  assert_eq!(parse_each_key(&mut lex, "eachKey matching").unwrap_err(),
    margin(
      "|Error: Expected an opening bracket, got 'matching'
            |   ╭─[expression:1:9]
            |   │
            | 1 │ eachKey matching
            |   │         ────┬─── \u{0020}
            |   │             ╰───── Expected an opening bracket before this
            |───╯
            |
            "));

  let mut lex = MatcherDefinitionToken::lexer("eachKey(matching(type, 'test') stuff");
  lex.next();
  assert_eq!(parse_each_key(&mut lex, "eachKey(matching(type, 'test') stuff").unwrap_err(),
    margin(
      "|Error: Expected a closing bracket, got 'stuff'
            |   ╭─[expression:1:32]
            |   │
            | 1 │ eachKey(matching(type, 'test') stuff
            |   │                                ──┬── \u{0020}
            |   │                                  ╰──── Expected a closing bracket before this
            |───╯
            |
            "));

  let mut lex = MatcherDefinitionToken::lexer("eachKey(matching(type, 'test')");
  lex.next();
  assert_eq!(parse_each_key(&mut lex, "eachKey(matching(type, 'test')").unwrap_err(),
    margin(
      "|Error: Expected a closing bracket, got the end of the expression
            |   ╭─[expression:1:31]
            |   │
            | 1 │ eachKey(matching(type, 'test')
            |   │                               │\u{0020}
            |   │                               ╰─ Expected a closing bracket here
            |───╯
            |
            "));
}

#[test]
fn parse_each_value_test() {
  let mut lex = MatcherDefinitionToken::lexer("(matching($'bob'))");
  assert_eq!(parse_each_value(&mut lex, "(matching($'bob'))").unwrap(), each_bob(MatchingRule::EachValue));

  let mut lex = MatcherDefinitionToken::lexer("eachKey");
  lex.next();
  assert_eq!(parse_each_value(&mut lex, "eachKey").unwrap_err(),
    margin(
      "|Error: Expected an opening bracket, got the end of the expression
            |   ╭─[expression:1:8]
            |   │
            | 1 │ eachKey
            |   │        │\u{0020}
            |   │        ╰─ Expected an opening bracket here
            |───╯
            |
            "));

  let mut lex = MatcherDefinitionToken::lexer("eachKey matching");
  lex.next();
  assert_eq!(parse_each_value(&mut lex, "eachKey matching").unwrap_err(),
    margin(
      "|Error: Expected an opening bracket, got 'matching'
            |   ╭─[expression:1:9]
            |   │
            | 1 │ eachKey matching
            |   │         ────┬─── \u{0020}
            |   │             ╰───── Expected an opening bracket before this
            |───╯
            |
            "));

  let mut lex = MatcherDefinitionToken::lexer("eachKey(matching(type, 'test') stuff");
  lex.next();
  assert_eq!(parse_each_value(&mut lex, "eachKey(matching(type, 'test') stuff").unwrap_err(),
    margin(
      "|Error: Expected a closing bracket, got 'stuff'
            |   ╭─[expression:1:32]
            |   │
            | 1 │ eachKey(matching(type, 'test') stuff
            |   │                                ──┬── \u{0020}
            |   │                                  ╰──── Expected a closing bracket before this
            |───╯
            |
            "));

  let mut lex = MatcherDefinitionToken::lexer("eachKey(matching(type, 'test')");
  lex.next();
  assert_eq!(parse_each_value(&mut lex, "eachKey(matching(type, 'test')").unwrap_err(),
    margin(
      "|Error: Expected a closing bracket, got the end of the expression
            |   ╭─[expression:1:31]
            |   │
            | 1 │ eachKey(matching(type, 'test')
            |   │                               │\u{0020}
            |   │                               ╰─ Expected a closing bracket here
            |───╯
            |
            "));
}

#[test]
fn parse_multiple_matcher_definitions() {
  assert_eq!(parse_matcher_def("eachKey(matching(regex, '\\$(\\.\\w+)+', '$.test.one')), eachValue(matching(type, null))").unwrap(),
    MatchingRuleDefinition {
      value: "".to_string(),
      value_type: ValueType::Unknown,
      rules: vec![
        Either::Left(MatchingRule::EachKey(MatchingRuleDefinition { value: "$.test.one".to_string(), value_type: ValueType::String, rules: vec![Either::Left(MatchingRule::Regex("\\$(\\.\\w+)+".to_string()))], generator: None })),
        Either::Left(MatchingRule::EachValue(MatchingRuleDefinition { value: "".to_string(), value_type: ValueType::Unknown, rules: vec![Either::Left(MatchingRule::Type)], generator: None }))
      ],
      generator: None
    });
}

#[test]
fn merge_definitions() {
  let basic = MatchingRuleDefinition {
    value: "".to_string(),
    value_type: ValueType::Unknown,
    rules: vec![],
    generator: None
  };
  let with_value = MatchingRuleDefinition {
    value: "value".to_string(),
    value_type: ValueType::Unknown,
    rules: vec![],
    generator: None
  };
  let with_type = MatchingRuleDefinition {
    value: "value".to_string(),
    value_type: ValueType::String,
    rules: vec![],
    generator: None
  };
  let with_generator = MatchingRuleDefinition {
    value: "".to_string(),
    value_type: ValueType::String,
    rules: vec![],
    generator: Some(Generator::Date(None, None))
  };
  let with_matching_rule = MatchingRuleDefinition {
    value: "".to_string(),
    value_type: ValueType::String,
    rules: vec![Either::Left(MatchingRule::Type)],
    generator: None
  };
  assert_eq!(basic.merge(&basic), basic.duplicate());
  assert_eq!(basic.merge(&with_value), with_value.duplicate());
  assert_eq!(basic.merge(&with_type), with_type.duplicate());
  assert_eq!(basic.merge(&with_generator), with_generator.duplicate());
  assert_eq!(basic.merge(&with_matching_rule), with_matching_rule.duplicate());
  assert_eq!(with_matching_rule.merge(&with_matching_rule), MatchingRuleDefinition {
    value: "".to_string(),
    value_type: ValueType::String,
    rules: vec![Either::Left(MatchingRule::Type), Either::Left(MatchingRule::Type)],
    generator: None
  });

  let each_key = MatchingRuleDefinition {
    value: "".to_string(),
    value_type: ValueType::Unknown,
    rules: vec![
      Either::Left(MatchingRule::EachKey(MatchingRuleDefinition {
        value: "$.test.one".to_string(),
        value_type: ValueType::String,
        rules: vec![Either::Left(MatchingRule::Regex("\\$(\\.\\w+)+".to_string()))],
        generator: None
      }))
    ],
    generator: None
  };
  let each_value = MatchingRuleDefinition {
    value: "".to_string(),
    value_type: ValueType::Unknown,
    rules: vec![
      Either::Left(MatchingRule::EachValue(MatchingRuleDefinition {
        value: "".to_string(),
        value_type: ValueType::String,
        rules: vec![Either::Left(MatchingRule::Type)],
        generator: None
      }))
    ],
    generator: None
  };
  assert_eq!(each_key.merge(&each_value), MatchingRuleDefinition {
    value: "".to_string(),
    value_type: ValueType::Unknown,
    rules: vec![
      Either::Left(MatchingRule::EachKey(MatchingRuleDefinition {
        value: "$.test.one".to_string(),
        value_type: ValueType::String,
        rules: vec![Either::Left(MatchingRule::Regex("\\$(\\.\\w+)+".to_string()))],
        generator: None
      })),
      Either::Left(MatchingRule::EachValue(MatchingRuleDefinition {
        value: "".to_string(),
        value_type: ValueType::String,
        rules: vec![Either::Left(MatchingRule::Type)],
        generator: None
      }))
    ],
    generator: None
  });
}

fn check_parse_string(expression: &str, expected: &str) {
  let mut lex = MatcherDefinitionToken::lexer(expression);
  assert_eq!(parse_string(&mut lex, expression), Ok(expected.to_string()));
}

#[test]
fn parse_string_test() {
  check_parse_string("''", "");
  check_parse_string("'Example value'", "Example value");
  check_parse_string("'yyyy-MM-dd HH:mm:ssZZZZZ'", "yyyy-MM-dd HH:mm:ssZZZZZ");
  check_parse_string("'2020-05-21 16:44:32+10:00'", "2020-05-21 16:44:32+10:00");
  check_parse_string("'\\w{3}\\d+'", "\\w{3}\\d+");
  check_parse_string("'<?xml?><test/>'", "<?xml?><test/>");
  check_parse_string(r"'\$(\.\w+)+'", r"\$(\.\w+)+");
  check_parse_string(r"'we don\'t currently support parallelograms'", r"we don\'t currently support parallelograms");
  check_parse_string(r"'\b backspace'", "\x08 backspace");
  check_parse_string(r"'\f formfeed'", "\x0C formfeed");
  check_parse_string(r"'\n linefeed'", "\n linefeed");
  check_parse_string(r"'\r carriage return'", "\r carriage return");
  check_parse_string(r"'\t tab'", "\t tab");
  check_parse_string(r"'\u0109 unicode hex code'", "\u{0109} unicode hex code");
  check_parse_string(r"'\u{1DF0B} unicode hex code'", "\u{1DF0B} unicode hex code");
}

fn check_raw_string(expression: &str, expected: &str) {
  assert_eq!(process_raw_string(expression, 0, expression.len(), expression), Ok(expected.to_string()));
}

#[test]
fn process_raw_string_test() {
  check_raw_string("", "");
  check_raw_string("Example value", "Example value");
  check_raw_string(r"not escaped \$(\.\w+)+", r"not escaped \$(\.\w+)+");
  check_raw_string(r"escaped \\", r"escaped \");
  check_raw_string(r"slash at end \", r"slash at end \");
}

#[test]
fn process_raw_string_error_test() {
  assert_eq!(
    margin_with(
    ">Error: Invalid unicode character escape sequence
       >   ╭─[expression:1:2]
       >   │
       > 1 │ 'invalid escape \\u in string'
       >   │  ─────────────┬──────────── \u{0020}
       >   │               ╰────────────── This string contains an invalid escape sequence
       >   │\u{0020}
       >   │ Note: Unicode escape sequences must be in the form \\uXXXX (4 digits) or \\u{X..} (enclosed in braces)
       >───╯
       >", '>'),
    process_raw_string(r"\u", 1, 27, r"'invalid escape \u in string'").unwrap_err());

  assert!(process_raw_string(r"\u0", 0, 2, r"\u0").is_err());
  assert!(process_raw_string(r"\u00", 0, 3, r"\u00").is_err());
  assert!(process_raw_string(r"\u000", 0, 4, r"\u000").is_err());
  assert!(process_raw_string(r"\u{000", 0, 4, r"\u{000").is_err());
}

#[test]
fn parse_at_least_test() {
  let mut lex = MatcherDefinitionToken::lexer("atLeast(1)");
  assert_eq!(matching_definition_exp(&mut lex, "atLeast(1)").unwrap(),
    MatchingRuleDefinition {
      value: "".to_string(),
      value_type: ValueType::Unknown,
      rules: vec![Either::Left(MatchingRule::MinType(1))],
      generator: None
    });

  let mut lex = MatcherDefinitionToken::lexer("atLeast");
  assert_eq!(matching_definition(&mut lex, "atLeast").unwrap_err(),
    margin(
      "|Error: Expected an opening bracket, got the end of the expression
        |   ╭─[expression:1:8]
        |   │
        | 1 │ atLeast
        |   │        │\u{0020}
        |   │        ╰─ Expected an opening bracket here
        |───╯
        |
        "));

  let mut lex = MatcherDefinitionToken::lexer("atLeast(-10)");
  assert_eq!(matching_definition_exp(&mut lex, "atLeast(-10)").unwrap_err(),
    margin(
      "|Error: Expected an unsigned number, got '-10'
        |   ╭─[expression:1:9]
        |   │
        | 1 │ atLeast(-10)
        |   │         ─┬─ \u{0020}
        |   │          ╰─── Expected an unsigned number here
        |───╯
        |
        "));

  let mut lex = MatcherDefinitionToken::lexer("atLeast('10')");
  assert_eq!(matching_definition_exp(&mut lex, "atLeast('10')").unwrap_err(),
    margin(
      "|Error: Expected an unsigned number, got ''10''
        |   ╭─[expression:1:9]
        |   │
        | 1 │ atLeast('10')
        |   │         ──┬─ \u{0020}
        |   │           ╰─── Expected an unsigned number here
        |───╯
        |
        "));

  let mut lex = MatcherDefinitionToken::lexer("atLeast(10");
  assert_eq!(matching_definition_exp(&mut lex, "atLeast(10").unwrap_err(),
    margin(
      "|Error: Expected ')', got the end of the expression
        |   ╭─[expression:1:11]
        |   │
        | 1 │ atLeast(10
        |   │           │\u{0020}
        |   │           ╰─ Expected ')' here
        |───╯
        |
        "));
}

#[test]
fn parse_at_most_test() {
  let mut lex = MatcherDefinitionToken::lexer("atMost(100)");
  assert_eq!(matching_definition_exp(&mut lex, "atMost(100)").unwrap(),
    MatchingRuleDefinition {
      value: "".to_string(),
      value_type: ValueType::Unknown,
      rules: vec![Either::Left(MatchingRule::MaxType(100))],
      generator: None
    });

  let mut lex = MatcherDefinitionToken::lexer("atMost");
  assert_eq!(matching_definition(&mut lex, "atMost").unwrap_err(),
    margin(
      "|Error: Expected an opening bracket, got the end of the expression
        |   ╭─[expression:1:7]
        |   │
        | 1 │ atMost
        |   │       │\u{0020}
        |   │       ╰─ Expected an opening bracket here
        |───╯
        |
        "));

  let mut lex = MatcherDefinitionToken::lexer("atMost(-10)");
  assert_eq!(matching_definition_exp(&mut lex, "atMost(-10)").unwrap_err(),
    margin(
      "|Error: Expected an unsigned number, got '-10'
        |   ╭─[expression:1:8]
        |   │
        | 1 │ atMost(-10)
        |   │        ─┬─ \u{0020}
        |   │         ╰─── Expected an unsigned number here
        |───╯
        |
        "));

  let mut lex = MatcherDefinitionToken::lexer("atMost('10')");
  assert_eq!(matching_definition_exp(&mut lex, "atMost('10')").unwrap_err(),
    margin(
      "|Error: Expected an unsigned number, got ''10''
        |   ╭─[expression:1:8]
        |   │
        | 1 │ atMost('10')
        |   │        ──┬─ \u{0020}
        |   │          ╰─── Expected an unsigned number here
        |───╯
        |
        "));

  let mut lex = MatcherDefinitionToken::lexer("atMost(10");
  assert_eq!(matching_definition_exp(&mut lex, "atMost(10").unwrap_err(),
    margin(
      "|Error: Expected ')', got the end of the expression
        |   ╭─[expression:1:10]
        |   │
        | 1 │ atMost(10
        |   │          │\u{0020}
        |   │          ╰─ Expected ')' here
        |───╯
        |
        "));
}

#[test]
fn is_matcher_def_recognises_definitions() {
  assert!(is_matcher_def("matching(type, 'x')"));
  assert!(is_matcher_def("  notEmpty('x')"));
  assert!(is_matcher_def("eachKey(matching(type, 'x'))"));
  assert!(is_matcher_def("eachValue"));
  assert!(!is_matcher_def(""));
  assert!(is_matcher_def("atLeast(1)"));
  assert!(is_matcher_def("atLeast(2)"));
  assert!(is_matcher_def("atMost(10)"));
  assert!(!is_matcher_def("matchingX"));
  assert!(!is_matcher_def("'matching'"));
}
