//! Error reports for matching rule definition expressions, rendered by the
//! `ariadne` crate, and the `semver` check of `semver` matchers.
use vstd::prelude::*;
use ariadne::{Config, Label, Report, ReportKind, Source};
use semver::Version;
use crate::definition_lexer::{byte_span, lex_slice, lex_state_wf, DefinitionLexer, LexState};
use crate::text::{byte_len, bytes_before, char_index_at_byte, push_str};

verus! {

/// The text that `ariadne` renders, without colours, for an error report on a
/// source named `expression` with the given text: the report's message, its
/// location at byte `offset`, one label over `label_start..label_end` with its
/// message, and the note, if there is one.
pub uninterp spec fn rendered_report(
    message: Seq<char>,
    offset: usize,
    label_start: usize,
    label_end: usize,
    label: Seq<char>,
    note: Option<Seq<char>>,
    source: Seq<char>,
) -> Seq<char>;

/// The error text of `semver::Version::parse` for a string it rejects; none
/// for a string it accepts.
pub uninterp spec fn semver_parse_error(text: Seq<char>) -> Option<Seq<char>>;

/// Renders an error report with `ariadne` (`Report::build`, `with_config`
/// without colours, `with_message`, `with_label`, `finish`, `write`). The
/// contract names the rendered text and claims nothing else of it; writing to
/// an in-memory buffer does not fail.
#[verifier::external_body]
pub(crate) fn render_report(
    message: &str,
    offset: usize,
    label_start: usize,
    label_end: usize,
    label: &str,
    source: &str,
) -> (r: String)
    requires
        label_start <= label_end,
    ensures
        r@ == rendered_report(message@, offset, label_start, label_end, label@, None, source@),
{
    let report = Report::build(ReportKind::Error, "expression", offset)
        .with_config(Config::default().with_color(false))
        .with_message(message)
        .with_label(Label::new(("expression", label_start..label_end)).with_message(label))
        .finish();
    let mut buffer: Vec<u8> = Vec::new();
    let _ = report.write(("expression", Source::from(source)), &mut buffer);
    String::from_utf8_lossy(&buffer).into_owned()
}

/// Renders an error report with a note with `ariadne`, as `render_report`
/// does, adding `with_note`. The contract names the rendered text and claims
/// nothing else of it.
#[verifier::external_body]
pub(crate) fn render_report_with_note(
    message: &str,
    offset: usize,
    label_start: usize,
    label_end: usize,
    label: &str,
    note: &str,
    source: &str,
) -> (r: String)
    requires
        label_start <= label_end,
    ensures
        r@ == rendered_report(message@, offset, label_start, label_end, label@, Some(note@), source@),
{
    let report = Report::build(ReportKind::Error, "expression", offset)
        .with_config(Config::default().with_color(false))
        .with_message(message)
        .with_label(Label::new(("expression", label_start..label_end)).with_message(label))
        .with_note(note)
        .finish();
    let mut buffer: Vec<u8> = Vec::new();
    let _ = report.write(("expression", Source::from(source)), &mut buffer);
    String::from_utf8_lossy(&buffer).into_owned()
}

/// `semver::Version::parse`: none when the text is a semantic version, its
/// error text otherwise. The grammar is left to the name; the one fact stated
/// is that an empty text is rejected.
#[verifier::external_body]
pub(crate) fn semver_error(text: &str) -> (r: Option<String>)
    ensures
        match r {
            Some(e) => semver_parse_error(text@) == Some(e@),
            None => semver_parse_error(text@) is None,
        },
        text@.len() == 0 ==> r is Some,
{
    match Version::parse(text) {
        Ok(_) => None,
        Err(err) => Some(err.to_string()),
    }
}

/// A report on the expression `v`, as the parser renders it.
pub open spec fn report(
    message: Seq<char>,
    offset: int,
    label_start: int,
    label_end: int,
    label: Seq<char>,
    note: Option<Seq<char>>,
    v: Seq<char>,
) -> Seq<char> {
    rendered_report(message, offset as usize, label_start as usize, label_end as usize, label, note, v)
}

/// The report "`error`, got '`token`'" labelled at the current token.
pub open spec fn error_report(st: LexState, v: Seq<char>, error: Seq<char>, additional: Seq<char>) -> Seq<char> {
    let (s, e) = byte_span(st);
    report(error + ", got '"@ + lex_slice(st) + "'"@, s, s, e, additional, None, v)
}

/// The report that `expected` was missing at the end of the expression.
pub open spec fn end_report(v: Seq<char>, expected: Seq<char>) -> Seq<char> {
    let n = byte_len(v) as int;
    report(
        "Expected "@ + expected + ", got the end of the expression"@,
        n,
        n,
        n,
        "Expected "@ + expected + " here"@,
        None,
        v,
    )
}

/// The lexer's source fits the expression `v` that reports are rendered on:
/// the byte offset of every position of the source is a character boundary of
/// `v`, and both are shorter than `usize::MAX` bytes.
pub open spec fn source_fits(src: Seq<char>, v: Seq<char>) -> bool {
    &&& byte_len(src) <= usize::MAX
    &&& byte_len(v) <= usize::MAX
    &&& forall|k: int|
        0 <= k <= src.len() ==> (char_index_at_byte(v, #[trigger] bytes_before(src, k) as int) is Some)
}

/// The report "`error`, got '`token`'" labelled at the current token.
pub fn error_message(lex: &DefinitionLexer, v: &str, error: &str, additional: &str) -> (r: String)
    requires
        lex_state_wf(lex@),
        byte_len(lex@.src) <= usize::MAX,
    ensures
        r@ == error_report(lex@, v@, error@, additional@),
{
    let (s, e) = lex.span();
    proof {
        crate::text::lemma_bytes_before_monotone(lex@.src, lex@.start, lex@.end);
    }
    let mut message = String::new();
    push_str(&mut message, error);
    push_str(&mut message, ", got '");
    let slice = lex.slice();
    push_str(&mut message, slice.as_str());
    push_str(&mut message, "'");
    render_report(message.as_str(), s, s, e, additional, v)
}

/// The report that `expected` was missing at the end of the expression.
pub fn end_of_expression(v: &str, expected: &str) -> (r: String)
    requires
        byte_len(v@) <= usize::MAX,
    ensures
        r@ == end_report(v@, expected@),
{
    let n = v.len();
    let mut message = String::new();
    push_str(&mut message, "Expected ");
    push_str(&mut message, expected);
    push_str(&mut message, ", got the end of the expression");
    let mut label = String::new();
    push_str(&mut label, "Expected ");
    push_str(&mut label, expected);
    push_str(&mut label, " here");
    render_report(message.as_str(), n, n, n, label.as_str(), v)
}

} // verus!
