//! What parsing a matching rule definition expression yields, stated over
//! the lexer's states: each function here gives the lexer state after a
//! grammar rule has been read and the rule's result or error report.
use vstd::prelude::*;
use crate::definition_lexer::{
    byte_span, followed_by_dot, has_prefix, lex_next, lex_remainder, lex_slice, LexState,
    MatcherDefinitionToken,
};
use crate::definition_report::{end_report, error_report, report, semver_parse_error};
use crate::expressions::{
    data_type_of, merged_definition, DefinitionView, EntryView, GeneratorView, RuleView, ValueType,
};
use crate::text::{char_index_at_byte, char_or_replacement, hex_parse_error, hex_u32_value, trim_start_of};

verus! {

/// The parts a matching rule yields: the example value, its type, the rule,
/// a generator, and the name of a reference.
pub type MatchView = (Seq<char>, ValueType, Option<RuleView>, Option<GeneratorView>, Option<Seq<char>>);

/// The parts a primitive value yields: the value, its type, and a generator.
pub type PrimitiveView = (Seq<char>, ValueType, Option<GeneratorView>);

pub open spec fn trim_leading_quotes(s: Seq<char>) -> Seq<char>
    decreases s.len(),
{
    if s.len() > 0 && s[0] == '\'' {
        trim_leading_quotes(s.drop_first())
    } else {
        s
    }
}

pub open spec fn trim_trailing_quotes(s: Seq<char>) -> Seq<char>
    decreases s.len(),
{
    if s.len() > 0 && s.last() == '\'' {
        trim_trailing_quotes(s.drop_last())
    } else {
        s
    }
}

/// The text without the quotes at its start and end, as
/// `str::trim_matches('\'')` gives it.
pub open spec fn trim_quotes(s: Seq<char>) -> Seq<char> {
    trim_trailing_quotes(trim_leading_quotes(s))
}

pub open spec fn unicode_escape_note() -> Seq<char> {
    "Unicode escape sequences must be in the form \\uXXXX (4 digits) or \\u{X..} (enclosed in braces)"@
}

/// The report on a string whose unicode escape is cut short.
pub open spec fn escape_report(span: (int, int), v: Seq<char>) -> Seq<char> {
    report(
        "Invalid unicode character escape sequence"@,
        span.0,
        span.0,
        span.1,
        "This string contains an invalid escape sequence"@,
        Some(unicode_escape_note()),
        v,
    )
}

/// The report on a string whose unicode escape is not a hexadecimal number.
pub open spec fn hex_report(error: Seq<char>, span: (int, int), v: Seq<char>) -> Seq<char> {
    report(
        "Invalid unicode character escape sequence: "@ + error,
        span.0,
        span.0,
        span.1,
        "This string contains an invalid escape sequence"@,
        Some(unicode_escape_note()),
        v,
    )
}

/// The position of the first `}` in `raw` from `k` on.
pub open spec fn brace_close(raw: Seq<char>, k: int) -> Option<int>
    decreases raw.len() - k,
{
    if k < 0 || k >= raw.len() {
        None
    } else if raw[k] == '}' {
        Some(k)
    } else {
        brace_close(raw, k + 1)
    }
}

/// The hexadecimal digits of the unicode escape `\u` at position `i` of
/// `raw` and the position after it: four characters, or the characters
/// between braces; none when the escape is cut short.
pub open spec fn unicode_escape(raw: Seq<char>, i: int) -> Option<(Seq<char>, int)> {
    if i + 2 < raw.len() && raw[i + 2] == '{' {
        match brace_close(raw, i + 3) {
            Some(j) => Some((raw.subrange(i + 3, j), j + 1)),
            None => None,
        }
    } else if i + 5 < raw.len() {
        Some((raw.subrange(i + 2, i + 6), i + 6))
    } else {
        None
    }
}

proof fn lemma_brace_close_bounds(raw: Seq<char>, k: int)
    requires
        0 <= k,
    ensures
        brace_close(raw, k) matches Some(j) ==> k <= j < raw.len(),
    decreases raw.len() - k,
{
    if k < raw.len() && raw[k] != '}' {
        lemma_brace_close_bounds(raw, k + 1);
    }
}

/// A unicode escape ends after the position where it starts.
pub proof fn lemma_unicode_escape_advances(raw: Seq<char>, i: int)
    requires
        0 <= i,
    ensures
        unicode_escape(raw, i) matches Some((d, next)) ==> i + 2 <= next <= raw.len() && d.len() <= raw.len(),
{
    lemma_brace_close_bounds(raw, i + 3);
}

/// The character a simple escape `\c` stands for, if `c` makes one.
pub open spec fn simple_escape(c: char) -> Option<char> {
    if c == '\\' {
        Some('\\')
    } else if c == 'b' {
        Some('\x08')
    } else if c == 'f' {
        Some('\x0C')
    } else if c == 'n' {
        Some('\n')
    } else if c == 'r' {
        Some('\r')
    } else if c == 't' {
        Some('\t')
    } else {
        None
    }
}

/// The escapes of the raw text of a string processed from position `i` on,
/// after `acc` has been produced for the text before it.
pub open spec fn raw_from(raw: Seq<char>, i: int, acc: Seq<char>, span: (int, int), v: Seq<char>) -> Result<
    Seq<char>,
    Seq<char>,
>
    decreases raw.len() - i,
{
    if i < 0 || i >= raw.len() {
        Ok(acc)
    } else if raw[i] != '\\' {
        raw_from(raw, i + 1, acc.push(raw[i]), span, v)
    } else if i + 1 >= raw.len() {
        Ok(acc.push('\\'))
    } else if raw[i + 1] == 'u' {
        proof {
            lemma_unicode_escape_advances(raw, i);
        }
        match unicode_escape(raw, i) {
            None => Err(escape_report(span, v)),
            Some((digits, next)) => match hex_u32_value(digits) {
                Some(n) => raw_from(raw, next, acc.push(char_or_replacement(n)), span, v),
                None => Err(hex_report(hex_parse_error(digits), span, v)),
            },
        }
    } else {
        match simple_escape(raw[i + 1]) {
            Some(c) => raw_from(raw, i + 2, acc.push(c), span, v),
            None => raw_from(raw, i + 2, acc.push('\\').push(raw[i + 1]), span, v),
        }
    }
}

/// The text of a string with its escapes processed, or the report on a
/// malformed unicode escape, labelled at `span` of the expression `v`.
pub open spec fn raw_string(raw: Seq<char>, span: (int, int), v: Seq<char>) -> Result<Seq<char>, Seq<char>> {
    raw_from(raw, 0, Seq::empty(), span, v)
}

/// A quoted string.
pub open spec fn p_string(st: LexState, v: Seq<char>) -> (LexState, Result<Seq<char>, Seq<char>>) {
    let (st1, t) = lex_next(st);
    let (s, e) = byte_span(st1);
    match t {
        None => (st1, Err(end_report(v, "a string"@))),
        Some(Ok(MatcherDefinitionToken::String)) => (st1, raw_string(trim_quotes(lex_slice(st1)), (s, e), v)),
        _ => {
            let before = v.subrange(0, char_index_at_byte(v, s)->0);
            let after = v.subrange(char_index_at_byte(v, e)->0, v.len() as int);
            (
                st1,
                Err(
                    report(
                        "Expected a string value, got "@ + lex_slice(st1),
                        s,
                        s,
                        e,
                        "Expected this to be a string"@,
                        Some(
                            "Surround the value in quotes: "@ + before + "'"@ + lex_slice(st1) + "'"@ + after,
                        ),
                        v,
                    ),
                ),
            )
        },
    }
}

/// A comma.
pub open spec fn p_comma(st: LexState, v: Seq<char>) -> (LexState, Result<(), Seq<char>>) {
    let (st1, t) = lex_next(st);
    match t {
        None => (st1, Err(end_report(v, "a comma"@))),
        Some(Ok(MatcherDefinitionToken::Comma)) => (st1, Ok(())),
        _ => (st1, Err(error_report(st1, v, "Expected a comma"@, "Expected a comma before this"@))),
    }
}

/// The text of a number whose integer part is the current token: when a dot
/// follows, the next token is its fraction. Also says whether there was one.
pub open spec fn number_text(st: LexState, v: Seq<char>) -> (LexState, Result<(Seq<char>, bool), Seq<char>>) {
    if followed_by_dot(st) {
        let (st1, t) = lex_next(st);
        match t {
            None => (st1, Err(end_report(v, "expected a number"@))),
            Some(_) => (st1, Ok((lex_slice(st) + lex_slice(st1), true))),
        }
    } else {
        (st, Ok((lex_slice(st), false)))
    }
}

pub open spec fn is_number_token(t: MatcherDefinitionToken) -> bool {
    t is Int || t is Num
}

/// Whether the current token is the word `fromProviderState`.
pub open spec fn at_provider_state(st: LexState) -> bool {
    lex_slice(st) == "fromProviderState"@
}

/// A primitive value: a string, a number, a boolean, `null` (an empty value of
/// unknown type), or (unless `already_called`) a value from the provider state.
pub open spec fn p_primitive(st: LexState, v: Seq<char>, already_called: bool) -> (LexState, Result<
    PrimitiveView,
    Seq<char>,
>)
    decreases st.src.len() - st.end, 0nat,
    when 0 <= st.end
{
    let (st1, t) = lex_next(st);
    proof {
        crate::definition_lexer::lemma_lex_next_advances(st);
    }
    match t {
        None => (st1, Err(end_report(v, "expected a primitive value"@))),
        Some(Ok(tok)) => {
            if tok is String {
                (st1, Ok((trim_quotes(lex_slice(st1)), ValueType::String, None)))
            } else if tok is Null {
                (st1, Ok((Seq::empty(), ValueType::Unknown, None)))
            } else if is_number_token(tok) {
                let (st2, r) = number_text(st1, v);
                match r {
                    Ok((text, fraction)) => (
                        st2,
                        Ok(
                            (
                                text,
                                if fraction {
                                    ValueType::Decimal
                                } else {
                                    ValueType::Integer
                                },
                                None,
                            ),
                        ),
                    ),
                    Err(e) => (st2, Err(e)),
                }
            } else if tok is Decimal {
                (st1, Ok((lex_slice(st1), ValueType::Decimal, None)))
            } else if tok is Boolean {
                (st1, Ok((lex_slice(st1), ValueType::Boolean, None)))
            } else if tok is Id && at_provider_state(st1) && !already_called {
                p_from_provider_state(st1, v)
            } else {
                (st1, Err(error_report(st1, v, "Expected a primitive value"@, "Expected a primitive value here"@)))
            }
        },
        Some(Err(_)) => (st1, Err(error_report(st1, v, "Expected a primitive value"@, "Expected a primitive value here"@))),
    }
}

/// The arguments of `fromProviderState`: an expression and an example value.
pub open spec fn p_from_provider_state(st: LexState, v: Seq<char>) -> (LexState, Result<PrimitiveView, Seq<char>>)
    decreases st.src.len() - st.end, 1nat,
    when 0 <= st.end
{
    let (st1, t) = lex_next(st);
    proof {
        crate::definition_lexer::lemma_lex_next_advances(st);
    }
    match t {
        None => (st1, Err(end_report(v, "'('"@))),
        Some(Ok(MatcherDefinitionToken::LeftBracket)) => {
            let (st2, r2) = p_string(st1, v);
            match r2 {
                Err(e) => (st2, Err(e)),
                Ok(expression) => {
                    let (st3, r3) = p_comma(st2, v);
                    proof {
                        crate::definition_lexer::lemma_lex_next_advances(st1);
                        crate::definition_lexer::lemma_lex_next_advances(st2);
                    }
                    match r3 {
                        Err(e) => (st3, Err(e)),
                        Ok(_) => {
                            let (st4, r4) = p_primitive(st3, v, true);
                            match r4 {
                                Err(e) => (st4, Err(e)),
                                Ok((value, value_type, _)) => {
                                    let (st5, t5) = lex_next(st4);
                                    match t5 {
                                        None => (st5, Err(end_report(v, "')'"@))),
                                        Some(Ok(MatcherDefinitionToken::RightBracket)) => (
                                            st5,
                                            Ok(
                                                (
                                                    value,
                                                    value_type,
                                                    Some(
                                                        GeneratorView::ProviderState(
                                                            expression,
                                                            Some(data_type_of(value_type)),
                                                        ),
                                                    ),
                                                ),
                                            ),
                                        ),
                                        _ => (
                                            st5,
                                            Err(
                                                error_report(
                                                    st5,
                                                    v,
                                                    "Expected a closing bracket"@,
                                                    "Expected a closing bracket before this"@,
                                                ),
                                            ),
                                        ),
                                    }
                                },
                            }
                        },
                    }
                },
            }
        },
        _ => (st1, Err(error_report(st1, v, "Expected an opening bracket"@, "Expected an opening bracket before this"@))),
    }
}


/// A matcher whose example value follows a comma: `equalTo` or `type`.
pub open spec fn p_primitive_matcher(st: LexState, v: Seq<char>, rule: RuleView) -> (LexState, Result<MatchView, Seq<char>>) {
    let (st1, r1) = p_comma(st, v);
    match r1 {
        Err(e) => (st1, Err(e)),
        Ok(_) => {
            let (st2, r2) = p_primitive(st1, v, false);
            match r2 {
                Err(e) => (st2, Err(e)),
                Ok((value, value_type, generator)) => (st2, Ok((value, value_type, Some(rule), generator, None))),
            }
        },
    }
}

/// `regex`: a comma, the regular expression, a comma and the example.
pub open spec fn p_regex(st: LexState, v: Seq<char>) -> (LexState, Result<MatchView, Seq<char>>) {
    let (st1, r1) = p_comma(st, v);
    match r1 {
        Err(e) => (st1, Err(e)),
        Ok(_) => {
            let (st2, r2) = p_string(st1, v);
            match r2 {
                Err(e) => (st2, Err(e)),
                Ok(regex) => {
                    let (st3, r3) = p_comma(st2, v);
                    match r3 {
                        Err(e) => (st3, Err(e)),
                        Ok(_) => {
                            let (st4, r4) = p_string(st3, v);
                            match r4 {
                                Err(e) => (st4, Err(e)),
                                Ok(value) => (st4, Ok((value, ValueType::String, Some(RuleView::Regex(regex)), None, None))),
                            }
                        },
                    }
                },
            }
        },
    }
}

/// The three date and time matchers.
pub enum TimeMatcher {
    DateTime,
    Date,
    Time,
}

pub open spec fn time_rule(kind: TimeMatcher, format: Seq<char>) -> RuleView {
    match kind {
        TimeMatcher::DateTime => RuleView::Timestamp(format),
        TimeMatcher::Date => RuleView::Date(format),
        TimeMatcher::Time => RuleView::Time(format),
    }
}

pub open spec fn time_generator(kind: TimeMatcher, format: Seq<char>) -> GeneratorView {
    match kind {
        TimeMatcher::DateTime => GeneratorView::DateTime(Some(format), None),
        TimeMatcher::Date => GeneratorView::Date(Some(format), None),
        TimeMatcher::Time => GeneratorView::Time(Some(format), None),
    }
}

/// Whether the text after the current token, past leading whitespace, starts
/// with `fromProviderState`.
pub open spec fn provider_state_follows(st: LexState) -> bool {
    has_prefix(trim_start_of(lex_remainder(st)), "fromProviderState"@)
}

/// `datetime`, `date` or `time`: a comma, the format, a comma and the example,
/// which may come from the provider state.
pub open spec fn p_time_matcher(st: LexState, v: Seq<char>, kind: TimeMatcher) -> (LexState, Result<MatchView, Seq<char>>) {
    let (st1, r1) = p_comma(st, v);
    match r1 {
        Err(e) => (st1, Err(e)),
        Ok(_) => {
            let (st2, r2) = p_string(st1, v);
            match r2 {
                Err(e) => (st2, Err(e)),
                Ok(format) => {
                    let (st3, r3) = p_comma(st2, v);
                    match r3 {
                        Err(e) => (st3, Err(e)),
                        Ok(_) => if provider_state_follows(st3) {
                            let (st5, r5) = p_from_provider_state(lex_next(st3).0, v);
                            match r5 {
                                Err(e) => (st5, Err(e)),
                                Ok((value, value_type, generator)) => (
                                    st5,
                                    Ok((value, value_type, Some(time_rule(kind, format)), generator, None)),
                                ),
                            }
                        } else {
                            let (st4, r4) = p_string(st3, v);
                            match r4 {
                                Err(e) => (st4, Err(e)),
                                Ok(value) => (
                                    st4,
                                    Ok(
                                        (
                                            value,
                                            ValueType::String,
                                            Some(time_rule(kind, format)),
                                            Some(time_generator(kind, format)),
                                            None,
                                        ),
                                    ),
                                ),
                            }
                        },
                    }
                },
            }
        },
    }
}

/// `include`: a comma and the example, which is also the included text.
pub open spec fn p_include(st: LexState, v: Seq<char>) -> (LexState, Result<MatchView, Seq<char>>) {
    let (st1, r1) = p_comma(st, v);
    match r1 {
        Err(e) => (st1, Err(e)),
        Ok(_) => {
            let (st2, r2) = p_string(st1, v);
            match r2 {
                Err(e) => (st2, Err(e)),
                Ok(value) => (st2, Ok((value, ValueType::String, Some(RuleView::Include(value)), None, None))),
            }
        },
    }
}

/// `contentType`: a comma, the content type, a comma and the example.
pub open spec fn p_content_type(st: LexState, v: Seq<char>) -> (LexState, Result<MatchView, Seq<char>>) {
    let (st1, r1) = p_comma(st, v);
    match r1 {
        Err(e) => (st1, Err(e)),
        Ok(_) => {
            let (st2, r2) = p_string(st1, v);
            match r2 {
                Err(e) => (st2, Err(e)),
                Ok(content_type) => {
                    let (st3, r3) = p_comma(st2, v);
                    match r3 {
                        Err(e) => (st3, Err(e)),
                        Ok(_) => {
                            let (st4, r4) = p_string(st3, v);
                            match r4 {
                                Err(e) => (st4, Err(e)),
                                Ok(value) => (
                                    st4,
                                    Ok((value, ValueType::Unknown, Some(RuleView::ContentType(content_type)), None, None)),
                                ),
                            }
                        },
                    }
                },
            }
        },
    }
}

/// The three numeric matchers.
pub enum NumberMatcher {
    Number,
    Integer,
    Decimal,
}

pub open spec fn number_rule(kind: NumberMatcher) -> RuleView {
    match kind {
        NumberMatcher::Number => RuleView::Number,
        NumberMatcher::Integer => RuleView::Integer,
        NumberMatcher::Decimal => RuleView::Decimal,
    }
}

pub open spec fn number_type(kind: NumberMatcher) -> ValueType {
    match kind {
        NumberMatcher::Number => ValueType::Number,
        NumberMatcher::Integer => ValueType::Integer,
        NumberMatcher::Decimal => ValueType::Decimal,
    }
}

/// What each numeric matcher expects, as its errors word it: the error, its
/// label, and the text of the report at the end of the expression.
pub open spec fn number_expected(kind: NumberMatcher) -> (Seq<char>, Seq<char>, Seq<char>) {
    match kind {
        NumberMatcher::Number => ("Expected a number"@, "Expected a number here"@, "expected a number"@),
        NumberMatcher::Integer => ("Expected an integer"@, "Expected an integer here"@, "expected an integer"@),
        NumberMatcher::Decimal => (
            "Expected a decimal number"@,
            "Expected a decimal number here"@,
            "expected a decimal number"@,
        ),
    }
}

/// The rule a value from the provider state gets under a numeric matcher:
/// `decimal` gives the plain number rule there.
pub open spec fn provider_state_number_rule(kind: NumberMatcher) -> RuleView {
    match kind {
        NumberMatcher::Number => RuleView::Number,
        NumberMatcher::Integer => RuleView::Integer,
        NumberMatcher::Decimal => RuleView::Number,
    }
}

/// `number`, `integer` or `decimal`: a comma and the example, a number (for
/// `integer`, without a fraction) or a value from the provider state.
pub open spec fn p_number_matcher(st: LexState, v: Seq<char>, kind: NumberMatcher) -> (LexState, Result<MatchView, Seq<char>>) {
    let (st1, r1) = p_comma(st, v);
    match r1 {
        Err(e) => (st1, Err(e)),
        Ok(_) => {
            let (st2, t) = lex_next(st1);
            let failure = error_report(st2, v, number_expected(kind).0, number_expected(kind).1);
            match t {
                None => (st2, Err(end_report(v, number_expected(kind).2))),
                Some(Ok(tok)) => {
                    if is_number_token(tok) {
                        if kind is Integer {
                            (st2, Ok((lex_slice(st2), ValueType::Integer, Some(RuleView::Integer), None, None)))
                        } else {
                            let (st3, r3) = number_text(st2, v);
                            match r3 {
                                Err(e) => (st3, Err(e)),
                                Ok((text, _)) => (st3, Ok((text, number_type(kind), Some(number_rule(kind)), None, None))),
                            }
                        }
                    } else if tok is Decimal && !(kind is Integer) {
                        (st2, Ok((lex_slice(st2), number_type(kind), Some(number_rule(kind)), None, None)))
                    } else if tok is Id && at_provider_state(st2) {
                        let (st3, r3) = p_from_provider_state(st2, v);
                        match r3 {
                            Err(e) => (st3, Err(e)),
                            Ok((value, value_type, generator)) => (
                                st3,
                                Ok((value, value_type, Some(provider_state_number_rule(kind)), generator, None)),
                            ),
                        }
                    } else {
                        (st2, Err(failure))
                    }
                },
                Some(Err(_)) => (st2, Err(failure)),
            }
        },
    }
}

/// `boolean`: a comma and a boolean.
pub open spec fn p_boolean(st: LexState, v: Seq<char>) -> (LexState, Result<MatchView, Seq<char>>) {
    let (st1, r1) = p_comma(st, v);
    match r1 {
        Err(e) => (st1, Err(e)),
        Ok(_) => {
            let (st2, t) = lex_next(st1);
            match t {
                None => (st2, Err(end_report(v, "expected a boolean"@))),
                Some(Ok(MatcherDefinitionToken::Boolean)) => (
                    st2,
                    Ok((lex_slice(st2), ValueType::Boolean, Some(RuleView::Boolean), None, None)),
                ),
                _ => (st2, Err(error_report(st2, v, "Expected a boolean"@, "Expected a boolean here"@))),
            }
        },
    }
}

/// `semver`: a comma and a string that `semver` accepts as a version.
pub open spec fn p_semver(st: LexState, v: Seq<char>) -> (LexState, Result<MatchView, Seq<char>>) {
    let (st1, r1) = p_comma(st, v);
    match r1 {
        Err(e) => (st1, Err(e)),
        Ok(_) => {
            let (st2, r2) = p_string(st1, v);
            match r2 {
                Err(e) => (st2, Err(e)),
                Ok(value) => (st2, semver_outcome(value, semver_parse_error(value), st2, v)),
            }
        },
    }
}

/// The result of a `semver` matcher on the example `value`, given what
/// `semver` said of it; the report is labelled at the current token.
pub open spec fn semver_outcome(value: Seq<char>, error: Option<Seq<char>>, st: LexState, v: Seq<char>) -> Result<MatchView, Seq<char>> {
    let (s, e) = byte_span(st);
    match error {
        None => Ok((value, ValueType::String, Some(RuleView::Semver), None, None)),
        Some(err) => Err(
            report(
                "Expected a semver compatible string, got "@ + lex_slice(st) + " - "@ + err,
                s,
                s,
                e,
                "This is not a valid semver value"@,
                None,
                v,
            ),
        ),
    }
}

/// A reference: `$` followed by the quoted name of another attribute.
pub open spec fn p_reference(st: LexState, v: Seq<char>) -> (LexState, Result<MatchView, Seq<char>>) {
    let (st1, r1) = p_string(st, v);
    match r1 {
        Err(e) => (st1, Err(e)),
        Ok(name) => (st1, Ok((name, ValueType::Unknown, None, None, Some(name)))),
    }
}

pub open spec fn matcher_names_note() -> Seq<char> {
    "Valid matchers are: equalTo, regex, type, datetime, date, time, include, number, integer, decimal, boolean, contentType, semver"@
}

/// The matcher named by the current identifier token.
pub open spec fn p_named_matcher(st: LexState, v: Seq<char>) -> (LexState, Result<MatchView, Seq<char>>) {
    let w = lex_slice(st);
    let (s, e) = byte_span(st);
    if w == "equalTo"@ {
        p_primitive_matcher(st, v, RuleView::Equality)
    } else if w == "regex"@ {
        p_regex(st, v)
    } else if w == "type"@ {
        p_primitive_matcher(st, v, RuleView::Type)
    } else if w == "datetime"@ {
        p_time_matcher(st, v, TimeMatcher::DateTime)
    } else if w == "date"@ {
        p_time_matcher(st, v, TimeMatcher::Date)
    } else if w == "time"@ {
        p_time_matcher(st, v, TimeMatcher::Time)
    } else if w == "include"@ {
        p_include(st, v)
    } else if w == "number"@ {
        p_number_matcher(st, v, NumberMatcher::Number)
    } else if w == "integer"@ {
        p_number_matcher(st, v, NumberMatcher::Integer)
    } else if w == "decimal"@ {
        p_number_matcher(st, v, NumberMatcher::Decimal)
    } else if w == "boolean"@ {
        p_boolean(st, v)
    } else if w == "contentType"@ {
        p_content_type(st, v)
    } else if w == "semver"@ {
        p_semver(st, v)
    } else {
        (
            st,
            Err(
                report(
                    "Expected the type of matcher, got '"@ + w + "'"@,
                    s,
                    s,
                    e,
                    "This is not a valid matcher type"@,
                    Some(matcher_names_note()),
                    v,
                ),
            ),
        )
    }
}

/// The inside of `matching(..)`: a matcher with its arguments, or a reference.
pub open spec fn p_matching_rule(st: LexState, v: Seq<char>) -> (LexState, Result<MatchView, Seq<char>>) {
    let (st1, t) = lex_next(st);
    match t {
        None => (st1, Err(end_report(v, "a matcher (equalTo, regex, etc.)"@))),
        Some(Ok(MatcherDefinitionToken::Id)) => p_named_matcher(st1, v),
        Some(Ok(MatcherDefinitionToken::Dollar)) => p_reference(st1, v),
        _ => (
            st1,
            Err(error_report(st1, v, "Expected the type of matcher"@, "Expected a matcher (equalTo, regex, etc.) here"@)),
        ),
    }
}

/// `(` matching rule `)`.
pub open spec fn p_matching(st: LexState, v: Seq<char>) -> (LexState, Result<MatchView, Seq<char>>) {
    let (st1, t) = lex_next(st);
    match t {
        None => (st1, Err(end_report(v, "'('"@))),
        Some(Ok(MatcherDefinitionToken::LeftBracket)) => {
            let (st2, r2) = p_matching_rule(st1, v);
            match r2 {
                Err(e) => (st2, Err(e)),
                Ok(m) => {
                    let (st3, t3) = lex_next(st2);
                    match t3 {
                        None => (st3, Err(end_report(v, "')'"@))),
                        Some(Ok(MatcherDefinitionToken::RightBracket)) => (st3, Ok(m)),
                        _ => (
                            st3,
                            Err(error_report(st3, v, "Expected a closing bracket"@, "Expected a closing bracket before this"@)),
                        ),
                    }
                },
            }
        },
        _ => (st1, Err(error_report(st1, v, "Expected an opening bracket"@, "Expected an opening bracket before this"@))),
    }
}

/// `(` primitive value `)`, the argument of `notEmpty`.
pub open spec fn p_not_empty(st: LexState, v: Seq<char>) -> (LexState, Result<PrimitiveView, Seq<char>>) {
    let (st1, t) = lex_next(st);
    match t {
        None => (st1, Err(end_report(v, "'('"@))),
        Some(Ok(MatcherDefinitionToken::LeftBracket)) => {
            let (st2, r2) = p_primitive(st1, v, false);
            match r2 {
                Err(e) => (st2, Err(e)),
                Ok(p) => {
                    let (st3, t3) = lex_next(st2);
                    match t3 {
                        None => (st3, Err(end_report(v, "')'"@))),
                        Some(Ok(MatcherDefinitionToken::RightBracket)) => (st3, Ok(p)),
                        _ => (st3, Err("expected closing bracket, got '"@ + lex_slice(st3) + "'"@)),
                    }
                },
            }
        },
        _ => (st1, Err("expected '(', got '"@ + lex_remainder(st1) + "'"@)),
    }
}

/// `(` unsigned number `)`, the argument of `atLeast` and `atMost`.
pub open spec fn p_length(st: LexState, v: Seq<char>) -> (LexState, Result<usize, Seq<char>>) {
    let (st1, t) = lex_next(st);
    match t {
        None => (st1, Err(end_report(v, "an opening bracket"@))),
        Some(Ok(MatcherDefinitionToken::LeftBracket)) => {
            let (st2, t2) = lex_next(st1);
            match t2 {
                None => (st2, Err(end_report(v, "an unsized integer"@))),
                Some(Ok(MatcherDefinitionToken::Num(length))) => {
                    let (st3, t3) = lex_next(st2);
                    match t3 {
                        None => (st3, Err(end_report(v, "')'"@))),
                        Some(Ok(MatcherDefinitionToken::RightBracket)) => (st3, Ok(length)),
                        _ => (
                            st3,
                            Err(error_report(st3, v, "Expected a closing bracket"@, "Expected a closing bracket before this"@)),
                        ),
                    }
                },
                _ => (st2, Err(error_report(st2, v, "Expected an unsigned number"@, "Expected an unsigned number here"@))),
            }
        },
        _ => (st1, Err(error_report(st1, v, "Expected an opening bracket"@, "Expected an opening bracket here"@))),
    }
}

/// A definition holding one rule and nothing else.
pub open spec fn rule_definition(rule: RuleView) -> DefinitionView {
    DefinitionView {
        value: Seq::empty(),
        value_type: ValueType::Unknown,
        rules: seq![EntryView::Rule(rule)],
        generator: None,
    }
}

/// The definition `matching(..)` yields from the parts of its rule.
pub open spec fn matching_definition_of(m: MatchView) -> DefinitionView {
    match m.4 {
        Some(name) => DefinitionView {
            value: m.0,
            value_type: ValueType::Unknown,
            rules: seq![EntryView::Reference(name)],
            generator: m.3,
        },
        None => DefinitionView {
            value: m.0,
            value_type: m.1,
            rules: seq![EntryView::Rule(m.2->0)],
            generator: m.3,
        },
    }
}

pub open spec fn definition_names_note() -> Seq<char> {
    "valid matching rule definitions are: matching, notEmpty, eachKey, eachValue, atLeast, atMost"@
}

/// One matching rule definition: `matching(..)`, `notEmpty(..)`,
/// `eachKey(..)`, `eachValue(..)`, `atLeast(..)` or `atMost(..)`.
pub open spec fn p_definition_exp(st: LexState, v: Seq<char>) -> (LexState, Result<DefinitionView, Seq<char>>)
    decreases st.src.len() - st.end, 1nat,
    when 0 <= st.end
{
    let (st1, t) = lex_next(st);
    let (s, e) = byte_span(st1);
    proof {
        crate::definition_lexer::lemma_lex_next_advances(st);
    }
    match t {
        Some(Ok(tok)) => match tok {
            MatcherDefinitionToken::Matching => {
                let (st2, r) = p_matching(st1, v);
                match r {
                    Err(e) => (st2, Err(e)),
                    Ok(m) => (st2, Ok(matching_definition_of(m))),
                }
            },
            MatcherDefinitionToken::NotEmpty => {
                let (st2, r) = p_not_empty(st1, v);
                match r {
                    Err(e) => (st2, Err(e)),
                    Ok((value, value_type, generator)) => (
                        st2,
                        Ok(
                            DefinitionView {
                                value,
                                value_type,
                                rules: seq![EntryView::Rule(RuleView::NotEmpty)],
                                generator,
                            },
                        ),
                    ),
                }
            },
            MatcherDefinitionToken::EachKey => p_each(st1, v, true),
            MatcherDefinitionToken::EachValue => p_each(st1, v, false),
            MatcherDefinitionToken::AtLeast => {
                let (st2, r) = p_length(st1, v);
                match r {
                    Err(e) => (st2, Err(e)),
                    Ok(length) => (st2, Ok(rule_definition(RuleView::MinType(length)))),
                }
            },
            MatcherDefinitionToken::AtMost => {
                let (st2, r) = p_length(st1, v);
                match r {
                    Err(e) => (st2, Err(e)),
                    Ok(length) => (st2, Ok(rule_definition(RuleView::MaxType(length)))),
                }
            },
            _ => (
                st1,
                Err(
                    report(
                        "Expected a type of matching rule definition, but got '"@ + lex_slice(st1) + "'"@,
                        s,
                        s,
                        e,
                        "Expected a matching rule definition here"@,
                        Some(definition_names_note()),
                        v,
                    ),
                ),
            ),
        },
        _ => (
            st1,
            Err(
                report(
                    "Expected a type of matching rule definition but got the end of the expression"@,
                    s,
                    s,
                    e,
                    "Expected a matching rule definition here"@,
                    Some(definition_names_note()),
                    v,
                ),
            ),
        ),
    }
}

/// `(` definition `)`, the argument of `eachKey` (when `key`) or `eachValue`.
pub open spec fn p_each(st: LexState, v: Seq<char>, key: bool) -> (LexState, Result<DefinitionView, Seq<char>>)
    decreases st.src.len() - st.end, 0nat,
    when 0 <= st.end
{
    let (st1, t) = lex_next(st);
    proof {
        crate::definition_lexer::lemma_lex_next_advances(st);
    }
    match t {
        None => (st1, Err(end_report(v, "an opening bracket"@))),
        Some(Ok(MatcherDefinitionToken::LeftBracket)) => {
            let (st2, r2) = p_definition_exp(st1, v);
            match r2 {
                Err(e) => (st2, Err(e)),
                Ok(d) => {
                    let (st3, t3) = lex_next(st2);
                    match t3 {
                        None => (st3, Err(end_report(v, "a closing bracket"@))),
                        Some(Ok(MatcherDefinitionToken::RightBracket)) => (
                            st3,
                            Ok(
                                rule_definition(
                                    if key {
                                        RuleView::EachKey(d)
                                    } else {
                                        RuleView::EachValue(d)
                                    },
                                ),
                            ),
                        ),
                        _ => (
                            st3,
                            Err(error_report(st3, v, "Expected a closing bracket"@, "Expected a closing bracket before this"@)),
                        ),
                    }
                },
            }
        },
        _ => (st1, Err(error_report(st1, v, "Expected an opening bracket"@, "Expected an opening bracket before this"@))),
    }
}

/// The definitions that follow the first one, each after a comma, merged into
/// `acc` in turn; the expression must end after the last one. The lexer moves
/// forward over every definition read.
pub open spec fn p_definition_rest(st: LexState, v: Seq<char>, acc: DefinitionView) -> (LexState, Result<
    DefinitionView,
    Seq<char>,
>)
    decreases st.src.len() - st.end,
    when 0 <= st.end
{
    let (st1, t) = lex_next(st);
    proof {
        crate::definition_lexer::lemma_lex_next_advances(st);
    }
    match t {
        Some(Ok(tok)) => if tok is Comma {
            let (st2, r2) = p_definition_exp(st1, v);
            match r2 {
                Err(e) => (st2, Err(e)),
                Ok(d) => if st1.end <= st2.end <= st.src.len() && st2.src == st.src {
                    p_definition_rest(st2, v, merged_definition(acc, d))
                } else {
                    (st2, Ok(acc))
                },
            }
        } else {
            (st1, Err("expected comma, got '"@ + lex_slice(st1) + "'"@))
        },
        _ => {
            let rest = lex_remainder(st1);
            if rest.len() > 0 {
                (st1, Err("expected not more tokens, got '"@ + lex_slice(st1) + "' with '"@ + rest + "' remaining"@))
            } else {
                (st1, Ok(acc))
            }
        },
    }
}

/// Matching rule definitions separated by commas, merged, up to the end of the
/// expression.
pub open spec fn p_definition(st: LexState, v: Seq<char>) -> (LexState, Result<DefinitionView, Seq<char>>) {
    let (st1, r1) = p_definition_exp(st, v);
    match r1 {
        Err(e) => (st1, Err(e)),
        Ok(d) => p_definition_rest(st1, v, d),
    }
}

/// The lexer at the start of an expression.
pub open spec fn start_state(v: Seq<char>) -> LexState {
    LexState { src: v, start: 0, end: 0 }
}

/// What parsing a matcher definition yields: the merged definition, or the
/// error text.
pub open spec fn parse_definition(v: Seq<char>) -> Result<DefinitionView, Seq<char>> {
    if v.len() == 0 {
        Err("Expected a matching rule definition, but got an empty string"@)
    } else {
        p_definition(start_state(v), v).1
    }
}

/// Whether an expression starts with a definition keyword: `matching`,
/// `notEmpty`, `eachKey`, `eachValue`, `atLeast` or `atMost`.
pub open spec fn starts_matcher_definition(v: Seq<char>) -> bool {
    v.len() > 0 && match lex_next(start_state(v)).1 {
        Some(Ok(t)) => t is Matching || t is NotEmpty || t is EachKey || t is EachValue || t is AtLeast
            || t is AtMost,
        _ => false,
    }
}

} // verus!
