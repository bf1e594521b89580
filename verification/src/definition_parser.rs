//! The parser of matching rule definition expressions, such as
//! `matching(type,'Name')`, `notEmpty('x')`, `eachKey(...)` or `atLeast(2)`.
//!
//! Each function reads one rule of the grammar from the lexer and is proved to
//! give what the function of the same rule in `definition_spec` states.
use vstd::prelude::*;
use crate::definition_lexer::{lex_state_wf, DefinitionLexer, LexState, MatcherDefinitionToken};
use crate::definition_report::{
    end_of_expression, error_message, render_report, render_report_with_note, semver_error,
    source_fits,
};
use crate::definition_spec::{
    brace_close, is_number_token, lemma_unicode_escape_advances, number_expected, number_rule,
    number_text, number_type, p_boolean, p_comma, p_content_type, p_from_provider_state, p_include,
    p_number_matcher, p_primitive, p_primitive_matcher, p_reference, p_regex, p_semver, p_string,
    p_time_matcher, provider_state_number_rule, raw_from, raw_string, semver_outcome, time_generator,
    time_rule, NumberMatcher, TimeMatcher, p_matching_rule, p_matching, p_not_empty, p_length,
    rule_definition, p_definition_exp, p_each, p_definition, p_definition_rest, parse_definition,
    starts_matcher_definition,
    simple_escape, trim_leading_quotes, trim_quotes, trim_trailing_quotes, unicode_escape,
    MatchView, PrimitiveView,
};
use crate::expressions::{
    definition_view, opt_generator_view, rule_view, DataType, DefinitionView, Either, Generator,
    MatchingReference, MatchingRule, MatchingRuleDefinition, RuleView, ValueType,
};
use crate::text::{
    char_index_for_byte, chars_of, code_to_char, lemma_bytes_before_monotone,
    lemma_char_index_of_own_offset, parse_hex_u32, push_char, push_chars,
    push_str,
};

verus! {

/// The lexer may read on: it is well formed and its source fits the expression
/// that reports are rendered on.
pub open spec fn ready(st: LexState, v: Seq<char>) -> bool {
    lex_state_wf(st) && source_fits(st.src, v)
}

/// The lexer has moved forward over the same source.
pub open spec fn advanced(before: LexState, after: LexState) -> bool {
    lex_state_wf(after) && after.src == before.src && before.end <= after.end
}

pub open spec fn unit_result(r: Result<(), String>) -> Result<(), Seq<char>> {
    match r {
        Ok(_) => Ok(()),
        Err(e) => Err(e@),
    }
}

pub open spec fn string_result(r: Result<String, String>) -> Result<Seq<char>, Seq<char>> {
    match r {
        Ok(s) => Ok(s@),
        Err(e) => Err(e@),
    }
}

pub open spec fn number_result(r: Result<(String, bool), String>) -> Result<(Seq<char>, bool), Seq<char>> {
    match r {
        Ok((s, b)) => Ok((s@, b)),
        Err(e) => Err(e@),
    }
}

pub open spec fn usize_result(r: Result<usize, String>) -> Result<usize, Seq<char>> {
    match r {
        Ok(n) => Ok(n),
        Err(e) => Err(e@),
    }
}

pub open spec fn primitive_view(p: (String, ValueType, Option<Generator>)) -> PrimitiveView {
    (p.0@, p.1, opt_generator_view(p.2))
}

pub open spec fn primitive_result(r: Result<(String, ValueType, Option<Generator>), String>) -> Result<
    PrimitiveView,
    Seq<char>,
> {
    match r {
        Ok(p) => Ok(primitive_view(p)),
        Err(e) => Err(e@),
    }
}

pub open spec fn opt_rule_view(r: Option<MatchingRule>) -> Option<RuleView> {
    match r {
        Some(r) => Some(rule_view(r)),
        None => None,
    }
}

pub open spec fn opt_reference_view(r: Option<MatchingReference>) -> Option<Seq<char>> {
    match r {
        Some(r) => Some(r.name@),
        None => None,
    }
}

/// The parts a matching rule yields.
pub type MatchParts = (String, ValueType, Option<MatchingRule>, Option<Generator>, Option<MatchingReference>);

pub open spec fn match_view(m: MatchParts) -> MatchView {
    (m.0@, m.1, opt_rule_view(m.2), opt_generator_view(m.3), opt_reference_view(m.4))
}

pub open spec fn match_result(r: Result<MatchParts, String>) -> Result<MatchView, Seq<char>> {
    match r {
        Ok(m) => Ok(match_view(m)),
        Err(e) => Err(e@),
    }
}

pub open spec fn definition_result(r: Result<MatchingRuleDefinition, String>) -> Result<DefinitionView, Seq<char>> {
    match r {
        Ok(d) => Ok(definition_view(d)),
        Err(e) => Err(e@),
    }
}

/// The text without the quotes at its start and end.
fn trim_quote_chars(s: &String) -> (r: String)
    ensures
        r@ == trim_quotes(s@),
{
    let chars = chars_of(s.as_str());
    let n = chars.len();
    let mut lo: usize = 0;
    proof {
        assert(chars@.subrange(0, n as int) =~= chars@);
    }
    while lo < n && chars[lo] == '\''
        invariant
            lo <= n == chars.len(),
            trim_leading_quotes(chars@) == trim_leading_quotes(chars@.subrange(lo as int, n as int)),
        decreases n - lo,
    {
        assert(chars@.subrange(lo as int, n as int).drop_first() =~= chars@.subrange(lo + 1, n as int));
        lo = lo + 1;
    }
    let mut hi: usize = n;
    while hi > lo && chars[hi - 1] == '\''
        invariant
            lo <= hi <= n == chars.len(),
            trim_quotes(chars@) == trim_trailing_quotes(chars@.subrange(lo as int, hi as int)),
        decreases hi - lo,
    {
        assert(chars@.subrange(lo as int, hi as int).drop_last() =~= chars@.subrange(lo as int, hi - 1));
        hi = hi - 1;
    }
    let mut r = String::new();
    push_chars(&mut r, &chars, lo, hi);
    assert(r@ =~= chars@.subrange(lo as int, hi as int));
    r
}

fn simple_escape_of(c: char) -> (r: Option<char>)
    ensures
        r == simple_escape(c),
{
    if c == '\\' {
        Some('\\')
    } else if c == 'b' {
        Some('\x08')
    } else if c == 'f' {
        Some('\x0C')
    } else if c == 'n' {
        Some('\n')
    } else if c == 'r' {
        Some('\r')
    } else if c == 't' {
        Some('\t')
    } else {
        None
    }
}

/// The digits of the unicode escape starting at position `i` and the position
/// after it.
fn unicode_escape_at(raw: &Vec<char>, i: usize) -> (r: Option<(String, usize)>)
    requires
        i < raw.len(),
    ensures
        match r {
            Some((d, next)) => unicode_escape(raw@, i as int) == Some((d@, next as int)),
            None => unicode_escape(raw@, i as int) is None,
        },
{
    let n = raw.len();
    if n - i > 2 && raw[i + 2] == '{' {
        let mut j = i + 3;
        while j < n && raw[j] != '}'
            invariant
                i + 3 <= j <= n == raw.len(),
                brace_close(raw@, i + 3) == brace_close(raw@, j as int),
            decreases n - j,
        {
            j = j + 1;
        }
        if j < n {
            let mut d = String::new();
            push_chars(&mut d, raw, i + 3, j);
            Some((d, j + 1))
        } else {
            None
        }
    } else if n - i > 5 {
        let mut d = String::new();
        push_chars(&mut d, raw, i + 2, i + 6);
        Some((d, i + 6))
    } else {
        None
    }
}

/// Processes the escapes of the raw text of a string: `\\`, `\b`, `\f`, `\n`,
/// `\r`, `\t`, `\uXXXX` and `\u{X..}`; other escapes are kept as they are.
/// A malformed unicode escape gives a report labelled at the span (byte
/// offsets) of the string in the expression `v`.
pub fn process_raw_string(raw_str: &str, span_start: usize, span_end: usize, v: &str) -> (r: Result<String, String>)
    requires
        span_start <= span_end,
    ensures
        string_result(r) == raw_string(raw_str@, (span_start as int, span_end as int), v@),
{
    let raw = chars_of(raw_str);
    let ghost span = (span_start as int, span_end as int);
    let n = raw.len();
    let mut buffer = String::new();
    let mut i: usize = 0;
    while i < n
        invariant
            n == raw.len(),
            raw@ == raw_str@,
            span == (span_start as int, span_end as int),
            span_start <= span_end,
            i <= n,
            raw_string(raw@, span, v@) == raw_from(raw@, i as int, buffer@, span, v@),
        decreases n - i,
    {
        let ch = raw[i];
        if ch != '\\' {
            push_char(&mut buffer, ch);
            i = i + 1;
        } else if i + 1 >= n {
            push_char(&mut buffer, ch);
            i = n;
        } else {
            let c2 = raw[i + 1];
            if c2 == 'u' {
                proof {
                    lemma_unicode_escape_advances(raw@, i as int);
                }
                match unicode_escape_at(&raw, i) {
                    None => {
                        return Err(
                            render_report_with_note(
                                "Invalid unicode character escape sequence",
                                span_start,
                                span_start,
                                span_end,
                                "This string contains an invalid escape sequence",
                                "Unicode escape sequences must be in the form \\uXXXX (4 digits) or \\u{X..} (enclosed in braces)",
                                v,
                            ),
                        );
                    },
                    Some((digits, next)) => {
                        match parse_hex_u32(digits.as_str()) {
                            Ok(code) => {
                                push_char(&mut buffer, code_to_char(code));
                                i = next;
                            },
                            Err(err) => {
                                let mut message = String::new();
                                push_str(&mut message, "Invalid unicode character escape sequence: ");
                                push_str(&mut message, err.as_str());
                                return Err(
                                    render_report_with_note(
                                        message.as_str(),
                                        span_start,
                                        span_start,
                                        span_end,
                                        "This string contains an invalid escape sequence",
                                        "Unicode escape sequences must be in the form \\uXXXX (4 digits) or \\u{X..} (enclosed in braces)",
                                        v,
                                    ),
                                );
                            },
                        }
                    },
                }
            } else {
                match simple_escape_of(c2) {
                    Some(c) => push_char(&mut buffer, c),
                    None => {
                        push_char(&mut buffer, ch);
                        push_char(&mut buffer, c2);
                    },
                }
                i = i + 2;
            }
        }
    }
    Ok(buffer)
}

/// The span of the current token, which lies within the source.
fn token_span(lex: &DefinitionLexer, v: &str) -> (r: (usize, usize))
    requires
        ready(lex@, v@),
    ensures
        r.0 <= r.1,
        r.0 == crate::definition_lexer::byte_span(lex@).0,
        r.1 == crate::definition_lexer::byte_span(lex@).1,
{
    proof {
        lemma_bytes_before_monotone(lex@.src, lex@.start, lex@.end);
    }
    lex.span()
}

/// A quoted string, with its escapes processed.
pub fn parse_string(lex: &mut DefinitionLexer, v: &str) -> (r: Result<String, String>)
    requires
        ready(old(lex)@, v@),
    ensures
        advanced(old(lex)@, final(lex)@),
        (final(lex)@, string_result(r)) == p_string(old(lex)@, v@),
{
    let next = lex.next();
    match next {
        None => Err(end_of_expression(v, "a string")),
        Some(Ok(MatcherDefinitionToken::String)) => {
            let (s, e) = token_span(lex, v);
            let slice = lex.slice();
            let raw = trim_quote_chars(&slice);
            process_raw_string(raw.as_str(), s, e, v)
        },
        _ => {
            let (s, e) = token_span(lex, v);
            let vchars = chars_of(v);
            let ghost src = lex@.src;
            assert(crate::text::bytes_before(src, lex@.start) == s);
            assert(crate::text::bytes_before(src, lex@.end) == e);
            let before = char_index_for_byte(&vchars, s);
            let after = char_index_for_byte(&vchars, e);
            match (before, after) {
                (Some(b), Some(a)) => {
                    let slice = lex.slice();
                    let mut message = String::new();
                    push_str(&mut message, "Expected a string value, got ");
                    push_str(&mut message, slice.as_str());
                    let mut note = String::new();
                    push_str(&mut note, "Surround the value in quotes: ");
                    push_chars(&mut note, &vchars, 0, b);
                    push_str(&mut note, "'");
                    push_str(&mut note, slice.as_str());
                    push_str(&mut note, "'");
                    push_chars(&mut note, &vchars, a, vchars.len());
                    Err(
                        render_report_with_note(
                            message.as_str(),
                            s,
                            s,
                            e,
                            "Expected this to be a string",
                            note.as_str(),
                            v,
                        ),
                    )
                },
                _ => {
                    assert(false);
                    Err(String::new())
                },
            }
        },
    }
}

/// A comma.
pub fn parse_comma(lex: &mut DefinitionLexer, v: &str) -> (r: Result<(), String>)
    requires
        ready(old(lex)@, v@),
    ensures
        advanced(old(lex)@, final(lex)@),
        (final(lex)@, unit_result(r)) == p_comma(old(lex)@, v@),
{
    let next = lex.next();
    match next {
        None => Err(end_of_expression(v, "a comma")),
        Some(Ok(MatcherDefinitionToken::Comma)) => Ok(()),
        _ => Err(error_message(lex, v, "Expected a comma", "Expected a comma before this")),
    }
}


/// The text of a number whose integer part is the current token: when a dot
/// follows, the next token is its fraction. Also says whether there was one.
fn read_number(lex: &mut DefinitionLexer, v: &str) -> (r: Result<(String, bool), String>)
    requires
        ready(old(lex)@, v@),
    ensures
        advanced(old(lex)@, final(lex)@),
        (final(lex)@, number_result(r)) == number_text(old(lex)@, v@),
{
    if lex.next_is_dot() {
        let int_part = lex.slice();
        let next = lex.next();
        match next {
            None => Err(end_of_expression(v, "expected a number")),
            Some(_) => {
                let mut text = int_part;
                let fraction = lex.slice();
                push_str(&mut text, fraction.as_str());
                Ok((text, true))
            },
        }
    } else {
        Ok((lex.slice(), false))
    }
}

fn is_number(t: &MatcherDefinitionToken) -> (r: bool)
    ensures
        r == is_number_token(*t),
{
    match t {
        MatcherDefinitionToken::Int(_) => true,
        MatcherDefinitionToken::Num(_) => true,
        _ => false,
    }
}

/// A primitive value: a string, a number, a boolean, `null` (an empty value of
/// unknown type), or (unless `already_called`) a value from the provider state.
fn parse_primitive_value(lex: &mut DefinitionLexer, v: &str, already_called: bool) -> (r: Result<
    (String, ValueType, Option<Generator>),
    String,
>)
    requires
        ready(old(lex)@, v@),
    ensures
        advanced(old(lex)@, final(lex)@),
        (final(lex)@, primitive_result(r)) == p_primitive(old(lex)@, v@, already_called),
    decreases old(lex)@.src.len() - old(lex)@.end, 0nat,
{
    let next = lex.next();
    match next {
        None => Err(end_of_expression(v, "expected a primitive value")),
        Some(Ok(tok)) => {
            if tok == MatcherDefinitionToken::String {
                let slice = lex.slice();
                Ok((trim_quote_chars(&slice), ValueType::String, None))
            } else if tok == MatcherDefinitionToken::Null {
                Ok((String::new(), ValueType::Unknown, None))
            } else if is_number(&tok) {
                match read_number(lex, v) {
                    Ok((text, fraction)) => Ok(
                        (
                            text,
                            if fraction {
                                ValueType::Decimal
                            } else {
                                ValueType::Integer
                            },
                            None,
                        ),
                    ),
                    Err(e) => Err(e),
                }
            } else if tok == MatcherDefinitionToken::Decimal {
                Ok((lex.slice(), ValueType::Decimal, None))
            } else if tok == MatcherDefinitionToken::Boolean {
                Ok((lex.slice(), ValueType::Boolean, None))
            } else if tok == MatcherDefinitionToken::Id && lex.slice_is("fromProviderState") && !already_called {
                from_provider_state(lex, v)
            } else {
                Err(error_message(lex, v, "Expected a primitive value", "Expected a primitive value here"))
            }
        },
        Some(Err(_)) => Err(error_message(lex, v, "Expected a primitive value", "Expected a primitive value here")),
    }
}

/// The arguments of `fromProviderState`: an expression and an example value.
fn from_provider_state(lex: &mut DefinitionLexer, v: &str) -> (r: Result<(String, ValueType, Option<Generator>), String>)
    requires
        ready(old(lex)@, v@),
    ensures
        advanced(old(lex)@, final(lex)@),
        (final(lex)@, primitive_result(r)) == p_from_provider_state(old(lex)@, v@),
    decreases old(lex)@.src.len() - old(lex)@.end, 1nat,
{
    let next = lex.next();
    match next {
        None => Err(end_of_expression(v, "'('")),
        Some(Ok(MatcherDefinitionToken::LeftBracket)) => {
            let expression = match parse_string(lex, v) {
                Ok(e) => e,
                Err(e) => return Err(e),
            };
            match parse_comma(lex, v) {
                Ok(_) => {},
                Err(e) => return Err(e),
            }
            let (value, value_type, _) = match parse_primitive_value(lex, v, true) {
                Ok(p) => p,
                Err(e) => return Err(e),
            };
            let next = lex.next();
            match next {
                None => Err(end_of_expression(v, "')'")),
                Some(Ok(MatcherDefinitionToken::RightBracket)) => {
                    let data_type = DataType::from(value_type);
                    Ok(
                        (
                            value,
                            value_type,
                            Some(Generator::ProviderStateGenerator(expression, Some(data_type))),
                        ),
                    )
                },
                _ => Err(error_message(lex, v, "Expected a closing bracket", "Expected a closing bracket before this")),
            }
        },
        _ => Err(error_message(lex, v, "Expected an opening bracket", "Expected an opening bracket before this")),
    }
}


/// `equalTo`: a comma and the example value.
fn parse_equality(lex: &mut DefinitionLexer, v: &str) -> (r: Result<MatchParts, String>)
    requires
        ready(old(lex)@, v@),
    ensures
        advanced(old(lex)@, final(lex)@),
        (final(lex)@, match_result(r)) == p_primitive_matcher(old(lex)@, v@, RuleView::Equality),
{
    match parse_comma(lex, v) {
        Ok(_) => {},
        Err(e) => return Err(e),
    }
    match parse_primitive_value(lex, v, false) {
        Ok((value, value_type, generator)) => Ok((value, value_type, Some(MatchingRule::Equality), generator, None)),
        Err(e) => Err(e),
    }
}

/// `type`: a comma and the example value.
fn parse_type(lex: &mut DefinitionLexer, v: &str) -> (r: Result<MatchParts, String>)
    requires
        ready(old(lex)@, v@),
    ensures
        advanced(old(lex)@, final(lex)@),
        (final(lex)@, match_result(r)) == p_primitive_matcher(old(lex)@, v@, RuleView::Type),
{
    match parse_comma(lex, v) {
        Ok(_) => {},
        Err(e) => return Err(e),
    }
    match parse_primitive_value(lex, v, false) {
        Ok((value, value_type, generator)) => Ok((value, value_type, Some(MatchingRule::Type), generator, None)),
        Err(e) => Err(e),
    }
}

/// `regex`: a comma, the regular expression, a comma and the example.
fn parse_regex(lex: &mut DefinitionLexer, v: &str) -> (r: Result<MatchParts, String>)
    requires
        ready(old(lex)@, v@),
    ensures
        advanced(old(lex)@, final(lex)@),
        (final(lex)@, match_result(r)) == p_regex(old(lex)@, v@),
{
    match parse_comma(lex, v) {
        Ok(_) => {},
        Err(e) => return Err(e),
    }
    let regex = match parse_string(lex, v) {
        Ok(s) => s,
        Err(e) => return Err(e),
    };
    match parse_comma(lex, v) {
        Ok(_) => {},
        Err(e) => return Err(e),
    }
    match parse_string(lex, v) {
        Ok(value) => Ok((value, ValueType::String, Some(MatchingRule::Regex(regex)), None, None)),
        Err(e) => Err(e),
    }
}

fn time_rule_of(kind: &TimeMatcher, format: &String) -> (r: MatchingRule)
    ensures
        rule_view(r) == time_rule(*kind, format@),
{
    match kind {
        TimeMatcher::DateTime => MatchingRule::Timestamp(format.clone()),
        TimeMatcher::Date => MatchingRule::Date(format.clone()),
        TimeMatcher::Time => MatchingRule::Time(format.clone()),
    }
}

fn time_generator_of(kind: &TimeMatcher, format: &String) -> (r: Generator)
    ensures
        crate::expressions::generator_view(r) == time_generator(*kind, format@),
{
    match kind {
        TimeMatcher::DateTime => Generator::DateTime(Some(format.clone()), None),
        TimeMatcher::Date => Generator::Date(Some(format.clone()), None),
        TimeMatcher::Time => Generator::Time(Some(format.clone()), None),
    }
}

/// `datetime`, `date` or `time`: a comma, the format, a comma and the example,
/// which may come from the provider state.
fn parse_time_matcher(lex: &mut DefinitionLexer, v: &str, kind: TimeMatcher) -> (r: Result<MatchParts, String>)
    requires
        ready(old(lex)@, v@),
    ensures
        advanced(old(lex)@, final(lex)@),
        (final(lex)@, match_result(r)) == p_time_matcher(old(lex)@, v@, kind),
{
    match parse_comma(lex, v) {
        Ok(_) => {},
        Err(e) => return Err(e),
    }
    let format = match parse_string(lex, v) {
        Ok(s) => s,
        Err(e) => return Err(e),
    };
    match parse_comma(lex, v) {
        Ok(_) => {},
        Err(e) => return Err(e),
    }
    if lex.remainder_starts_with("fromProviderState") {
        let _ = lex.next();
        match from_provider_state(lex, v) {
            Ok((value, value_type, generator)) => Ok(
                (value, value_type, Some(time_rule_of(&kind, &format)), generator, None),
            ),
            Err(e) => Err(e),
        }
    } else {
        match parse_string(lex, v) {
            Ok(value) => Ok(
                (
                    value,
                    ValueType::String,
                    Some(time_rule_of(&kind, &format)),
                    Some(time_generator_of(&kind, &format)),
                    None,
                ),
            ),
            Err(e) => Err(e),
        }
    }
}

/// `datetime`: a comma, the format, a comma and the example.
fn parse_datetime(lex: &mut DefinitionLexer, v: &str) -> (r: Result<MatchParts, String>)
    requires
        ready(old(lex)@, v@),
    ensures
        advanced(old(lex)@, final(lex)@),
        (final(lex)@, match_result(r)) == p_time_matcher(old(lex)@, v@, TimeMatcher::DateTime),
{
    parse_time_matcher(lex, v, TimeMatcher::DateTime)
}

/// `date`: a comma, the format, a comma and the example.
fn parse_date(lex: &mut DefinitionLexer, v: &str) -> (r: Result<MatchParts, String>)
    requires
        ready(old(lex)@, v@),
    ensures
        advanced(old(lex)@, final(lex)@),
        (final(lex)@, match_result(r)) == p_time_matcher(old(lex)@, v@, TimeMatcher::Date),
{
    parse_time_matcher(lex, v, TimeMatcher::Date)
}

/// `time`: a comma, the format, a comma and the example.
fn parse_time(lex: &mut DefinitionLexer, v: &str) -> (r: Result<MatchParts, String>)
    requires
        ready(old(lex)@, v@),
    ensures
        advanced(old(lex)@, final(lex)@),
        (final(lex)@, match_result(r)) == p_time_matcher(old(lex)@, v@, TimeMatcher::Time),
{
    parse_time_matcher(lex, v, TimeMatcher::Time)
}

/// `include`: a comma and the example, which is also the included text.
fn parse_include(lex: &mut DefinitionLexer, v: &str) -> (r: Result<MatchParts, String>)
    requires
        ready(old(lex)@, v@),
    ensures
        advanced(old(lex)@, final(lex)@),
        (final(lex)@, match_result(r)) == p_include(old(lex)@, v@),
{
    match parse_comma(lex, v) {
        Ok(_) => {},
        Err(e) => return Err(e),
    }
    match parse_string(lex, v) {
        Ok(value) => {
            let included = value.clone();
            Ok((value, ValueType::String, Some(MatchingRule::Include(included)), None, None))
        },
        Err(e) => Err(e),
    }
}

/// `contentType`: a comma, the content type, a comma and the example.
fn parse_content_type(lex: &mut DefinitionLexer, v: &str) -> (r: Result<MatchParts, String>)
    requires
        ready(old(lex)@, v@),
    ensures
        advanced(old(lex)@, final(lex)@),
        (final(lex)@, match_result(r)) == p_content_type(old(lex)@, v@),
{
    match parse_comma(lex, v) {
        Ok(_) => {},
        Err(e) => return Err(e),
    }
    let content_type = match parse_string(lex, v) {
        Ok(s) => s,
        Err(e) => return Err(e),
    };
    match parse_comma(lex, v) {
        Ok(_) => {},
        Err(e) => return Err(e),
    }
    match parse_string(lex, v) {
        Ok(value) => Ok((value, ValueType::Unknown, Some(MatchingRule::ContentType(content_type)), None, None)),
        Err(e) => Err(e),
    }
}

fn number_rule_of(kind: &NumberMatcher) -> (r: MatchingRule)
    ensures
        rule_view(r) == number_rule(*kind),
{
    match kind {
        NumberMatcher::Number => MatchingRule::Number,
        NumberMatcher::Integer => MatchingRule::Integer,
        NumberMatcher::Decimal => MatchingRule::Decimal,
    }
}

fn number_type_of(kind: &NumberMatcher) -> (r: ValueType)
    ensures
        r == number_type(*kind),
{
    match kind {
        NumberMatcher::Number => ValueType::Number,
        NumberMatcher::Integer => ValueType::Integer,
        NumberMatcher::Decimal => ValueType::Decimal,
    }
}

fn provider_state_rule_of(kind: &NumberMatcher) -> (r: MatchingRule)
    ensures
        rule_view(r) == provider_state_number_rule(*kind),
{
    match kind {
        NumberMatcher::Number => MatchingRule::Number,
        NumberMatcher::Integer => MatchingRule::Integer,
        NumberMatcher::Decimal => MatchingRule::Number,
    }
}

/// The report that the current token is not what a numeric matcher expects.
fn number_failure(lex: &DefinitionLexer, v: &str, kind: &NumberMatcher) -> (r: String)
    requires
        ready(lex@, v@),
    ensures
        r@ == crate::definition_report::error_report(lex@, v@, number_expected(*kind).0, number_expected(*kind).1),
{
    match kind {
        NumberMatcher::Number => error_message(lex, v, "Expected a number", "Expected a number here"),
        NumberMatcher::Integer => error_message(lex, v, "Expected an integer", "Expected an integer here"),
        NumberMatcher::Decimal => error_message(lex, v, "Expected a decimal number", "Expected a decimal number here"),
    }
}

/// The report that the expression ended where a numeric matcher expected its number.
fn number_missing(v: &str, kind: &NumberMatcher) -> (r: String)
    requires
        crate::text::byte_len(v@) <= usize::MAX,
    ensures
        r@ == crate::definition_report::end_report(v@, number_expected(*kind).2),
{
    match kind {
        NumberMatcher::Number => end_of_expression(v, "expected a number"),
        NumberMatcher::Integer => end_of_expression(v, "expected an integer"),
        NumberMatcher::Decimal => end_of_expression(v, "expected a decimal number"),
    }
}

/// `number`, `integer` or `decimal`: a comma and the example, a number (for
/// `integer`, without a fraction) or a value from the provider state.
fn parse_number_matcher(lex: &mut DefinitionLexer, v: &str, kind: NumberMatcher) -> (r: Result<MatchParts, String>)
    requires
        ready(old(lex)@, v@),
    ensures
        advanced(old(lex)@, final(lex)@),
        (final(lex)@, match_result(r)) == p_number_matcher(old(lex)@, v@, kind),
{
    match parse_comma(lex, v) {
        Ok(_) => {},
        Err(e) => return Err(e),
    }
    let next = lex.next();
    let is_integer = match kind {
        NumberMatcher::Integer => true,
        _ => false,
    };
    match next {
        None => Err(number_missing(v, &kind)),
        Some(Ok(tok)) => {
            if is_number(&tok) {
                if is_integer {
                    Ok((lex.slice(), ValueType::Integer, Some(MatchingRule::Integer), None, None))
                } else {
                    match read_number(lex, v) {
                        Ok((text, _)) => Ok((text, number_type_of(&kind), Some(number_rule_of(&kind)), None, None)),
                        Err(e) => Err(e),
                    }
                }
            } else if tok == MatcherDefinitionToken::Decimal && !is_integer {
                Ok((lex.slice(), number_type_of(&kind), Some(number_rule_of(&kind)), None, None))
            } else if tok == MatcherDefinitionToken::Id && lex.slice_is("fromProviderState") {
                match from_provider_state(lex, v) {
                    Ok((value, value_type, generator)) => Ok(
                        (value, value_type, Some(provider_state_rule_of(&kind)), generator, None),
                    ),
                    Err(e) => Err(e),
                }
            } else {
                Err(number_failure(lex, v, &kind))
            }
        },
        Some(Err(_)) => Err(number_failure(lex, v, &kind)),
    }
}

/// `number`: a comma and a number or a value from the provider state.
fn parse_number(lex: &mut DefinitionLexer, v: &str) -> (r: Result<MatchParts, String>)
    requires
        ready(old(lex)@, v@),
    ensures
        advanced(old(lex)@, final(lex)@),
        (final(lex)@, match_result(r)) == p_number_matcher(old(lex)@, v@, NumberMatcher::Number),
{
    parse_number_matcher(lex, v, NumberMatcher::Number)
}

/// `integer`: a comma and an integer or a value from the provider state.
fn parse_integer(lex: &mut DefinitionLexer, v: &str) -> (r: Result<MatchParts, String>)
    requires
        ready(old(lex)@, v@),
    ensures
        advanced(old(lex)@, final(lex)@),
        (final(lex)@, match_result(r)) == p_number_matcher(old(lex)@, v@, NumberMatcher::Integer),
{
    parse_number_matcher(lex, v, NumberMatcher::Integer)
}

/// `decimal`: a comma and a decimal number or a value from the provider state.
fn parse_decimal(lex: &mut DefinitionLexer, v: &str) -> (r: Result<MatchParts, String>)
    requires
        ready(old(lex)@, v@),
    ensures
        advanced(old(lex)@, final(lex)@),
        (final(lex)@, match_result(r)) == p_number_matcher(old(lex)@, v@, NumberMatcher::Decimal),
{
    parse_number_matcher(lex, v, NumberMatcher::Decimal)
}

/// `boolean`: a comma and a boolean.
fn parse_boolean(lex: &mut DefinitionLexer, v: &str) -> (r: Result<MatchParts, String>)
    requires
        ready(old(lex)@, v@),
    ensures
        advanced(old(lex)@, final(lex)@),
        (final(lex)@, match_result(r)) == p_boolean(old(lex)@, v@),
{
    match parse_comma(lex, v) {
        Ok(_) => {},
        Err(e) => return Err(e),
    }
    let next = lex.next();
    match next {
        None => Err(end_of_expression(v, "expected a boolean")),
        Some(Ok(MatcherDefinitionToken::Boolean)) => Ok(
            (lex.slice(), ValueType::Boolean, Some(MatchingRule::Boolean), None, None),
        ),
        _ => Err(error_message(lex, v, "Expected a boolean", "Expected a boolean here")),
    }
}

pub open spec fn opt_string_view(o: Option<String>) -> Option<Seq<char>> {
    match o {
        Some(s) => Some(s@),
        None => None,
    }
}

/// The result of a `semver` matcher on the example `value`, given what
/// `semver` said of it (`None` when it accepted the value): the matcher's
/// parts, or the report labelled at the current token of `lex`.
pub fn semver_matcher_result(value: String, error: Option<String>, lex: &DefinitionLexer, v: &str) -> (r: Result<
    MatchParts,
    String,
>)
    requires
        ready(lex@, v@),
    ensures
        match_result(r) == semver_outcome(value@, opt_string_view(error), lex@, v@),
{
    match error {
        None => Ok((value, ValueType::String, Some(MatchingRule::Semver), None, None)),
        Some(err) => {
            let (s, e) = token_span(lex, v);
            let mut message = String::new();
            push_str(&mut message, "Expected a semver compatible string, got ");
            let slice = lex.slice();
            push_str(&mut message, slice.as_str());
            push_str(&mut message, " - ");
            push_str(&mut message, err.as_str());
            Err(render_report(message.as_str(), s, s, e, "This is not a valid semver value", v))
        },
    }
}

/// `semver`: a comma and a string that `semver` accepts as a version.
fn parse_semver(lex: &mut DefinitionLexer, v: &str) -> (r: Result<MatchParts, String>)
    requires
        ready(old(lex)@, v@),
    ensures
        advanced(old(lex)@, final(lex)@),
        (final(lex)@, match_result(r)) == p_semver(old(lex)@, v@),
{
    match parse_comma(lex, v) {
        Ok(_) => {},
        Err(e) => return Err(e),
    }
    let value = match parse_string(lex, v) {
        Ok(s) => s,
        Err(e) => return Err(e),
    };
    let error = semver_error(value.as_str());
    semver_matcher_result(value, error, lex, v)
}

/// A reference: the quoted name of another attribute (after `$`).
fn parse_reference(lex: &mut DefinitionLexer, v: &str) -> (r: Result<MatchParts, String>)
    requires
        ready(old(lex)@, v@),
    ensures
        advanced(old(lex)@, final(lex)@),
        (final(lex)@, match_result(r)) == p_reference(old(lex)@, v@),
{
    match parse_string(lex, v) {
        Ok(name) => {
            let value = name.clone();
            Ok((value, ValueType::Unknown, None, None, Some(MatchingReference { name })))
        },
        Err(e) => Err(e),
    }
}


/// The inside of `matching(..)`: a matcher with its arguments, or a
/// reference. Every matcher yields a rule; a reference yields none.
pub fn parse_matching_rule(lex: &mut DefinitionLexer, v: &str) -> (r: Result<MatchParts, String>)
    requires
        ready(old(lex)@, v@),
    ensures
        advanced(old(lex)@, final(lex)@),
        (final(lex)@, match_result(r)) == p_matching_rule(old(lex)@, v@),
        r matches Ok(m) ==> (m.4 is None <==> m.2 is Some),
{
    let next = lex.next();
    match next {
        None => Err(end_of_expression(v, "a matcher (equalTo, regex, etc.)")),
        Some(Ok(MatcherDefinitionToken::Id)) => {
            if lex.slice_is("equalTo") {
                parse_equality(lex, v)
            } else if lex.slice_is("regex") {
                parse_regex(lex, v)
            } else if lex.slice_is("type") {
                parse_type(lex, v)
            } else if lex.slice_is("datetime") {
                parse_datetime(lex, v)
            } else if lex.slice_is("date") {
                parse_date(lex, v)
            } else if lex.slice_is("time") {
                parse_time(lex, v)
            } else if lex.slice_is("include") {
                parse_include(lex, v)
            } else if lex.slice_is("number") {
                parse_number(lex, v)
            } else if lex.slice_is("integer") {
                parse_integer(lex, v)
            } else if lex.slice_is("decimal") {
                parse_decimal(lex, v)
            } else if lex.slice_is("boolean") {
                parse_boolean(lex, v)
            } else if lex.slice_is("contentType") {
                parse_content_type(lex, v)
            } else if lex.slice_is("semver") {
                parse_semver(lex, v)
            } else {
                let (s, e) = token_span(lex, v);
                let mut message = String::new();
                push_str(&mut message, "Expected the type of matcher, got '");
                let slice = lex.slice();
                push_str(&mut message, slice.as_str());
                push_str(&mut message, "'");
                Err(
                    render_report_with_note(
                        message.as_str(),
                        s,
                        s,
                        e,
                        "This is not a valid matcher type",
                        "Valid matchers are: equalTo, regex, type, datetime, date, time, include, number, integer, decimal, boolean, contentType, semver",
                        v,
                    ),
                )
            }
        },
        Some(Ok(MatcherDefinitionToken::Dollar)) => parse_reference(lex, v),
        _ => Err(error_message(lex, v, "Expected the type of matcher", "Expected a matcher (equalTo, regex, etc.) here")),
    }
}

/// `(` matching rule `)`.
fn parse_matching(lex: &mut DefinitionLexer, v: &str) -> (r: Result<MatchParts, String>)
    requires
        ready(old(lex)@, v@),
    ensures
        advanced(old(lex)@, final(lex)@),
        (final(lex)@, match_result(r)) == p_matching(old(lex)@, v@),
        r matches Ok(m) ==> (m.4 is None <==> m.2 is Some),
{
    let next = lex.next();
    match next {
        None => Err(end_of_expression(v, "'('")),
        Some(Ok(MatcherDefinitionToken::LeftBracket)) => {
            let result = match parse_matching_rule(lex, v) {
                Ok(m) => m,
                Err(e) => return Err(e),
            };
            let next = lex.next();
            match next {
                None => Err(end_of_expression(v, "')'")),
                Some(Ok(MatcherDefinitionToken::RightBracket)) => Ok(result),
                _ => Err(error_message(lex, v, "Expected a closing bracket", "Expected a closing bracket before this")),
            }
        },
        _ => Err(error_message(lex, v, "Expected an opening bracket", "Expected an opening bracket before this")),
    }
}

/// `(` primitive value `)`, the argument of `notEmpty`.
fn parse_not_empty(lex: &mut DefinitionLexer, v: &str) -> (r: Result<(String, ValueType, Option<Generator>), String>)
    requires
        ready(old(lex)@, v@),
    ensures
        advanced(old(lex)@, final(lex)@),
        (final(lex)@, primitive_result(r)) == p_not_empty(old(lex)@, v@),
{
    let next = lex.next();
    match next {
        None => Err(end_of_expression(v, "'('")),
        Some(Ok(MatcherDefinitionToken::LeftBracket)) => {
            let result = match parse_primitive_value(lex, v, false) {
                Ok(p) => p,
                Err(e) => return Err(e),
            };
            let next = lex.next();
            match next {
                None => Err(end_of_expression(v, "')'")),
                Some(Ok(MatcherDefinitionToken::RightBracket)) => Ok(result),
                _ => {
                    let mut message = String::new();
                    push_str(&mut message, "expected closing bracket, got '");
                    let slice = lex.slice();
                    push_str(&mut message, slice.as_str());
                    push_str(&mut message, "'");
                    Err(message)
                },
            }
        },
        _ => {
            let mut message = String::new();
            push_str(&mut message, "expected '(', got '");
            let rest = lex.remainder();
            push_str(&mut message, rest.as_str());
            push_str(&mut message, "'");
            Err(message)
        },
    }
}

/// `(` unsigned number `)`, the argument of `atLeast` and `atMost`.
fn parse_length_param(lex: &mut DefinitionLexer, v: &str) -> (r: Result<usize, String>)
    requires
        ready(old(lex)@, v@),
    ensures
        advanced(old(lex)@, final(lex)@),
        (final(lex)@, usize_result(r)) == p_length(old(lex)@, v@),
{
    let next = lex.next();
    match next {
        None => Err(end_of_expression(v, "an opening bracket")),
        Some(Ok(MatcherDefinitionToken::LeftBracket)) => {
            let next = lex.next();
            match next {
                None => Err(end_of_expression(v, "an unsized integer")),
                Some(Ok(MatcherDefinitionToken::Num(length))) => {
                    let next = lex.next();
                    match next {
                        None => Err(end_of_expression(v, "')'")),
                        Some(Ok(MatcherDefinitionToken::RightBracket)) => Ok(length),
                        _ => Err(
                            error_message(lex, v, "Expected a closing bracket", "Expected a closing bracket before this"),
                        ),
                    }
                },
                _ => Err(error_message(lex, v, "Expected an unsigned number", "Expected an unsigned number here")),
            }
        },
        _ => Err(error_message(lex, v, "Expected an opening bracket", "Expected an opening bracket here")),
    }
}

/// A definition holding one rule and nothing else.
fn rule_only(rule: MatchingRule) -> (r: MatchingRuleDefinition)
    ensures
        definition_view(r) == rule_definition(rule_view(rule)),
{
    let d = MatchingRuleDefinition {
        value: String::new(),
        value_type: ValueType::Unknown,
        rules: vec![Either::Left(rule)],
        generator: None,
    };
    proof {
        crate::expressions::lemma_single_entry(Either::Left(rule));
    }
    d
}

/// One matching rule definition: `matching(..)`, `notEmpty(..)`,
/// `eachKey(..)`, `eachValue(..)`, `atLeast(..)` or `atMost(..)`.
pub fn matching_definition_exp(lex: &mut DefinitionLexer, v: &str) -> (r: Result<MatchingRuleDefinition, String>)
    requires
        ready(old(lex)@, v@),
    ensures
        advanced(old(lex)@, final(lex)@),
        (final(lex)@, definition_result(r)) == p_definition_exp(old(lex)@, v@),
    decreases old(lex)@.src.len() - old(lex)@.end, 1nat,
{
    let next = lex.next();
    match next {
        Some(Ok(tok)) => {
            if tok == MatcherDefinitionToken::Matching {
                match parse_matching(lex, v) {
                    Ok((value, value_type, matching_rule, generator, reference)) => match reference {
                        Some(reference) => {
                            let entry: Either<MatchingRule, MatchingReference> = Either::Right(reference);
                            proof {
                                crate::expressions::lemma_single_entry(entry);
                            }
                            Ok(MatchingRuleDefinition { value, value_type: ValueType::Unknown, rules: vec![entry], generator })
                        },
                        None => {
                            let entry: Either<MatchingRule, MatchingReference> = Either::Left(matching_rule.unwrap());
                            proof {
                                crate::expressions::lemma_single_entry(entry);
                            }
                            Ok(MatchingRuleDefinition { value, value_type, rules: vec![entry], generator })
                        },
                    },
                    Err(e) => Err(e),
                }
            } else if tok == MatcherDefinitionToken::NotEmpty {
                match parse_not_empty(lex, v) {
                    Ok((value, value_type, generator)) => {
                        let entry: Either<MatchingRule, MatchingReference> = Either::Left(MatchingRule::NotEmpty);
                        proof {
                            crate::expressions::lemma_single_entry(entry);
                        }
                        Ok(MatchingRuleDefinition { value, value_type, rules: vec![entry], generator })
                    },
                    Err(e) => Err(e),
                }
            } else if tok == MatcherDefinitionToken::EachKey {
                parse_each(lex, v, true)
            } else if tok == MatcherDefinitionToken::EachValue {
                parse_each(lex, v, false)
            } else if tok == MatcherDefinitionToken::AtLeast {
                match parse_length_param(lex, v) {
                    Ok(length) => Ok(rule_only(MatchingRule::MinType(length))),
                    Err(e) => Err(e),
                }
            } else if tok == MatcherDefinitionToken::AtMost {
                match parse_length_param(lex, v) {
                    Ok(length) => Ok(rule_only(MatchingRule::MaxType(length))),
                    Err(e) => Err(e),
                }
            } else {
                let (s, e) = token_span(lex, v);
                let mut message = String::new();
                push_str(&mut message, "Expected a type of matching rule definition, but got '");
                let slice = lex.slice();
                push_str(&mut message, slice.as_str());
                push_str(&mut message, "'");
                Err(
                    render_report_with_note(
                        message.as_str(),
                        s,
                        s,
                        e,
                        "Expected a matching rule definition here",
                        "valid matching rule definitions are: matching, notEmpty, eachKey, eachValue, atLeast, atMost",
                        v,
                    ),
                )
            }
        },
        _ => {
            let (s, e) = token_span(lex, v);
            Err(
                render_report_with_note(
                    "Expected a type of matching rule definition but got the end of the expression",
                    s,
                    s,
                    e,
                    "Expected a matching rule definition here",
                    "valid matching rule definitions are: matching, notEmpty, eachKey, eachValue, atLeast, atMost",
                    v,
                ),
            )
        },
    }
}

/// `(` definition `)`, the argument of `eachKey` (when `key`) or `eachValue`.
fn parse_each(lex: &mut DefinitionLexer, v: &str, key: bool) -> (r: Result<MatchingRuleDefinition, String>)
    requires
        ready(old(lex)@, v@),
    ensures
        advanced(old(lex)@, final(lex)@),
        (final(lex)@, definition_result(r)) == p_each(old(lex)@, v@, key),
    decreases old(lex)@.src.len() - old(lex)@.end, 0nat,
{
    let next = lex.next();
    match next {
        None => Err(end_of_expression(v, "an opening bracket")),
        Some(Ok(MatcherDefinitionToken::LeftBracket)) => {
            let result = match matching_definition_exp(lex, v) {
                Ok(d) => d,
                Err(e) => return Err(e),
            };
            let next = lex.next();
            match next {
                None => Err(end_of_expression(v, "a closing bracket")),
                Some(Ok(MatcherDefinitionToken::RightBracket)) => Ok(
                    rule_only(
                        if key {
                            MatchingRule::EachKey(result)
                        } else {
                            MatchingRule::EachValue(result)
                        },
                    ),
                ),
                _ => Err(error_message(lex, v, "Expected a closing bracket", "Expected a closing bracket before this")),
            }
        },
        _ => Err(error_message(lex, v, "Expected an opening bracket", "Expected an opening bracket before this")),
    }
}

/// `(` definition `)`, the argument of `eachKey`: a rule applied to each key of a map.
pub fn parse_each_key(lex: &mut DefinitionLexer, v: &str) -> (r: Result<MatchingRuleDefinition, String>)
    requires
        ready(old(lex)@, v@),
    ensures
        advanced(old(lex)@, final(lex)@),
        (final(lex)@, definition_result(r)) == p_each(old(lex)@, v@, true),
{
    parse_each(lex, v, true)
}

/// `(` definition `)`, the argument of `eachValue`: a rule applied to each value
/// of a map or list.
pub fn parse_each_value(lex: &mut DefinitionLexer, v: &str) -> (r: Result<MatchingRuleDefinition, String>)
    requires
        ready(old(lex)@, v@),
    ensures
        advanced(old(lex)@, final(lex)@),
        (final(lex)@, definition_result(r)) == p_each(old(lex)@, v@, false),
{
    parse_each(lex, v, false)
}

/// Matching rule definitions separated by commas, merged, up to the end of the
/// expression.
pub fn matching_definition(lex: &mut DefinitionLexer, v: &str) -> (r: Result<MatchingRuleDefinition, String>)
    requires
        ready(old(lex)@, v@),
    ensures
        advanced(old(lex)@, final(lex)@),
        (final(lex)@, definition_result(r)) == p_definition(old(lex)@, v@),
{
    let mut value = match matching_definition_exp(lex, v) {
        Ok(d) => d,
        Err(e) => return Err(e),
    };
    loop
        invariant
            ready(lex@, v@),
            advanced(old(lex)@, lex@),
            p_definition(old(lex)@, v@) == p_definition_rest(lex@, v@, definition_view(value)),
        decreases lex@.src.len() - lex@.end,
    {
        let next = lex.next();
        match next {
            Some(Ok(tok)) => {
                if tok == MatcherDefinitionToken::Comma {
                    let d = match matching_definition_exp(lex, v) {
                        Ok(d) => d,
                        Err(e) => return Err(e),
                    };
                    value = value.merge(&d);
                } else {
                    let mut message = String::new();
                    push_str(&mut message, "expected comma, got '");
                    let slice = lex.slice();
                    push_str(&mut message, slice.as_str());
                    push_str(&mut message, "'");
                    return Err(message);
                }
            },
            _ => {
                let rest = lex.remainder();
                if !rest.as_str().is_empty() {
                    let mut message = String::new();
                    push_str(&mut message, "expected not more tokens, got '");
                    let slice = lex.slice();
                    push_str(&mut message, slice.as_str());
                    push_str(&mut message, "' with '");
                    push_str(&mut message, rest.as_str());
                    push_str(&mut message, "' remaining");
                    return Err(message);
                } else {
                    return Ok(value);
                }
            },
        }
    }
}

/// Parse a matcher definition into a MatchingRuleDefinition containing the example value, matching rules and any
/// generator.
/// The following are examples of matching rule definitions:
/// * `matching(type,'Name')` - type matcher
/// * `matching(number,100)` - number matcher
/// * `matching(datetime, 'yyyy-MM-dd','2000-01-01')` - datetime matcher with format string
pub fn parse_matcher_def(v: &str) -> (r: Result<MatchingRuleDefinition, String>)
    requires
        crate::text::byte_len(v@) <= usize::MAX,
    ensures
        definition_result(r) == parse_definition(v@),
{
    if v.is_empty() {
        let mut message = String::new();
        push_str(&mut message, "Expected a matching rule definition, but got an empty string");
        Err(message)
    } else {
        let mut lex = MatcherDefinitionToken::lexer(v);
        proof {
            assert forall|k: int| 0 <= k <= v@.len() implies (crate::text::char_index_at_byte(
                v@,
                #[trigger] crate::text::bytes_before(v@, k) as int,
            ) is Some) by {
                lemma_char_index_of_own_offset(v@, k);
            }
        }
        matching_definition(&mut lex, v)
    }
}

/// Determines if a string starts with a valid matching rule definition. This is used in the case
/// where a value can be a matching rule definition or a plain string value
pub fn is_matcher_def(v: &str) -> (r: bool)
    ensures
        r == starts_matcher_definition(v@),
{
    if v.is_empty() {
        false
    } else {
        let mut lex = MatcherDefinitionToken::lexer(v);
        let next = lex.next();
        match next {
            Some(Ok(token)) => token == MatcherDefinitionToken::Matching || token == MatcherDefinitionToken::NotEmpty
                || token == MatcherDefinitionToken::EachKey || token == MatcherDefinitionToken::EachValue
                || token == MatcherDefinitionToken::AtLeast || token == MatcherDefinitionToken::AtMost,
            _ => false,
        }
    }
}

} // verus!
