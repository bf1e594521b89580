//! The decisions a validating mock server makes when it shuts down: where the
//! pact file goes, whether it overwrites an existing one, and the report that
//! is given when the server saw requests that did not match.
use vstd::prelude::*;

use crate::text::{
    all_ascii, ascii_upper, chars_of, push_char, push_chars, push_str, split_of, str_equal, str_to_uppercase, unicode_uppercase,
};

verus! {

/// What the mock server recorded about one expected or received request.
pub enum MockServerMismatch {
    /// A request that matched.
    RequestMatch,
    /// A request that matched an interaction only partly: the request as
    /// displayed, and the description of each mismatch.
    RequestMismatch { request: String, mismatches: Vec<String> },
    /// A request that matched no interaction: its method and path, and its
    /// detailed (multi-line) description.
    RequestNotFound { method: String, path: String, details: String },
    /// An expected request that was never received.
    MissingRequest { method: String, path: String, details: String },
}

/// The short description of a request: its method in upper case, then its path.
pub open spec fn short_description_of(method: Seq<char>, path: Seq<char>) -> Seq<char> {
    unicode_uppercase(method) + " "@ + path
}

/// A short description of a request: its method in upper case, a space, its path.
pub fn short_description(method: &str, path: &str) -> (r: String)
    ensures
        r@ == short_description_of(method@, path@),
        all_ascii(method@) ==> r@ == method@.map_values(|c: char| ascii_upper(c)) + " "@ + path@,
{
    let mut r = str_to_uppercase(method);
    push_str(&mut r, " ");
    push_str(&mut r, path);
    r
}

/// The description of a mock server: the consumer and provider names.
pub fn server_description(consumer: &str, provider: &str) -> (r: String)
    ensures
        r@ == consumer@ + "/"@ + provider@,
{
    let mut r = String::new();
    push_str(&mut r, consumer);
    push_str(&mut r, "/");
    push_str(&mut r, provider);
    r
}

/// The directory the pact file is written to: the configured one where it is
/// set and not empty, else the value of the output directory variable of the
/// environment where it is set, else `target/pacts`.
pub open spec fn output_dir_of(configured: Option<Seq<char>>, env_value: Option<Seq<char>>) -> Seq<char> {
    match configured {
        Some(dir) if dir.len() > 0 => dir,
        _ => match env_value {
            Some(v) => v,
            None => "target/pacts"@,
        },
    }
}

pub open spec fn opt_str_view(o: Option<&str>) -> Option<Seq<char>> {
    match o {
        Some(s) => Some(s@),
        None => None,
    }
}

/// The directory the pact file is written to (see `output_dir_of`).
pub fn pact_output_dir(configured: Option<&str>, env_value: Option<&str>) -> (r: String)
    ensures
        r@ == output_dir_of(opt_str_view(configured), opt_str_view(env_value)),
{
    let mut r = String::new();
    match configured {
        Some(dir) if dir.unicode_len() > 0 => {
            push_str(&mut r, dir);
        },
        _ => match env_value {
            Some(v) => {
                push_str(&mut r, v);
            },
            None => {
                push_str(&mut r, "target/pacts");
            },
        },
    }
    r
}

/// Whether an existing pact file is overwritten: where the overwrite variable
/// of the environment is set, exactly when its value is `true`; else the
/// configured choice.
pub fn overwrite_pact_file(env_value: Option<&str>, configured: bool) -> (r: bool)
    ensures
        r == match opt_str_view(env_value) {
            Some(v) => v == "true"@,
            None => configured,
        },
{
    match env_value {
        Some(v) => str_equal(v, "true"),
        None => configured,
    }
}

/// A line without its trailing carriage return.
pub open spec fn without_cr(l: Seq<char>) -> Seq<char> {
    if l.len() > 0 && l.last() == '\r' {
        l.drop_last()
    } else {
        l
    }
}

/// The lines of a text as `str::lines` gives them: split at line feeds, with
/// a carriage return before a line feed dropped, and no line after a final
/// line feed.
pub open spec fn lines_of(s: Seq<char>) -> Seq<Seq<char>> {
    let parts = split_of(s, '\n');
    let terminated = parts.drop_last().map_values(|l: Seq<char>| without_cr(l));
    if s.len() == 0 || s.last() == '\n' {
        terminated
    } else {
        terminated.push(parts.last())
    }
}

/// The lines, each indented by six spaces, joined by line feeds.
pub open spec fn indented_lines(ls: Seq<Seq<char>>) -> Seq<char>
    decreases ls.len(),
{
    if ls.len() == 0 {
        Seq::empty()
    } else if ls.len() == 1 {
        "      "@ + ls[0]
    } else {
        indented_lines(ls.drop_last()) + "\n"@ + "      "@ + ls.last()
    }
}

/// The lines of a text, each without its line break.
pub fn text_lines(text: &str) -> (r: Vec<String>)
    ensures
        r@.len() == lines_of(text@).len(),
        forall|i: int| 0 <= i < r@.len() ==> #[trigger] r@[i]@ == lines_of(text@)[i],
{
    let v = chars_of(text);
    let mut r: Vec<String> = Vec::new();
    let mut start: usize = 0;
    let mut i: usize = 0;
    while i < v.len()
        invariant
            v@ == text@,
            start <= i <= v.len(),
            start > 0 ==> v@[start - 1] == '\n',
            forall|k: int| start <= k < i ==> v@[k] != '\n',
            split_of(v@.subrange(0, i as int), '\n').len() == r@.len() + 1,
            split_of(v@.subrange(0, i as int), '\n').last() == v@.subrange(start as int, i as int),
            forall|j: int|
                0 <= j < r@.len() ==> #[trigger] r@[j]@ == without_cr(
                    split_of(v@.subrange(0, i as int), '\n')[j],
                ),
        decreases v.len() - i,
    {
        let ghost before = split_of(v@.subrange(0, i as int), '\n');
        let ghost after = split_of(v@.subrange(0, i + 1), '\n');
        assert(v@.subrange(0, i + 1).drop_last() =~= v@.subrange(0, i as int));
        assert(v@.subrange(0, i + 1).last() == v@[i as int]);
        if v[i] == '\n' {
            r.push(line_between(&v, start, i));
            start = i + 1;
            assert(after == before.push(Seq::empty()));
            assert(v@.subrange(start as int, i + 1) =~= Seq::<char>::empty());
        } else {
            assert(after == before.update(before.len() - 1, before.last().push(v@[i as int])));
            assert(v@.subrange(start as int, i + 1) =~= v@.subrange(start as int, i as int).push(
                v@[i as int],
            ));
        }
        i = i + 1;
    }
    let ghost parts = split_of(v@.subrange(0, i as int), '\n');
    assert(v@.subrange(0, i as int) =~= text@);
    if start < v.len() {
        assert(text@.last() != '\n');
        let mut last = String::new();
        push_chars(&mut last, &v, start, v.len());
        r.push(last);
        assert forall|j: int| 0 <= j < r@.len() implies #[trigger] r@[j]@ == lines_of(text@)[j] by {
            if j < r@.len() - 1 {
                assert(r@[j]@ == without_cr(parts[j]));
            }
        }
    } else {
        assert(text@.len() == 0 || text@.last() == '\n');
        assert forall|j: int| 0 <= j < r@.len() implies #[trigger] r@[j]@ == lines_of(text@)[j] by {
            assert(r@[j]@ == without_cr(parts[j]));
        }
    }
    r
}

/// The characters `v[from..to]` without a final carriage return.
fn line_between(v: &Vec<char>, from: usize, to: usize) -> (r: String)
    requires
        from <= to <= v.len(),
    ensures
        r@ == without_cr(v@.subrange(from as int, to as int)),
{
    let end = if to > from && v[to - 1] == '\r' { to - 1 } else { to };
    let mut r = String::new();
    push_chars(&mut r, v, from, end);
    assert(r@ =~= without_cr(v@.subrange(from as int, to as int)));
    r
}

/// A text with each of its lines indented by six spaces.
pub fn indent_lines(text: &str) -> (r: String)
    ensures
        r@ == indented_lines(lines_of(text@)),
{
    let lines = text_lines(text);
    let ghost ls = lines_of(text@);
    let mut r = String::new();
    let mut i: usize = 0;
    assert(ls.take(0) =~= Seq::<Seq<char>>::empty());
    while i < lines.len()
        invariant
            ls == lines_of(text@),
            lines@.len() == ls.len(),
            forall|j: int| 0 <= j < lines@.len() ==> #[trigger] lines@[j]@ == ls[j],
            i <= lines.len(),
            r@ == indented_lines(ls.take(i as int)),
        decreases lines.len() - i,
    {
        assert(ls.take(i + 1).drop_last() =~= ls.take(i as int));
        assert(ls.take(i + 1).last() == lines@[i as int]@);
        if i > 0 {
            push_str(&mut r, "\n");
        }
        push_str(&mut r, "      ");
        push_str(&mut r, lines[i].as_str());
        i = i + 1;
        assert(r@ =~= indented_lines(ls.take(i as int)));
    }
    assert(ls.take(ls.len() as int) =~= ls);
    r
}

/// Each mismatch description on a line of its own.
pub open spec fn described_mismatches(ds: Seq<Seq<char>>) -> Seq<char>
    decreases ds.len(),
{
    if ds.len() == 0 {
        Seq::empty()
    } else {
        described_mismatches(ds.drop_last()) + "    - "@ + ds.last() + "\n"@
    }
}

pub open spec fn strings_view(v: Seq<String>) -> Seq<Seq<char>> {
    v.map_values(|s: String| s@)
}

/// What the report says of one recorded request.
pub open spec fn report_entry(m: MockServerMismatch) -> Seq<char> {
    match m {
        MockServerMismatch::RequestMatch => Seq::empty(),
        MockServerMismatch::RequestMismatch { request, mismatches } => "\n  - request "@ + request@
            + ":\n\n"@ + described_mismatches(strings_view(mismatches@)),
        MockServerMismatch::RequestNotFound { method, path, details } =>
            "\n  - received unexpected request "@ + short_description_of(method@, path@)
            + ":\n\n"@ + indented_lines(lines_of(details@)) + "\n"@,
        MockServerMismatch::MissingRequest { method, path, details } => "\n  - request "@
            + short_description_of(method@, path@) + " expected, but never occurred:\n\n"@
            + indented_lines(lines_of(details@)) + "\n"@,
    }
}

pub open spec fn report_entries(ms: Seq<MockServerMismatch>) -> Seq<char>
    decreases ms.len(),
{
    if ms.len() == 0 {
        Seq::empty()
    } else {
        report_entries(ms.drop_last()) + report_entry(ms.last())
    }
}

/// The width of the rule lines: two less than the terminal's width, or than
/// 120 where the width is not known.
pub open spec fn rule_width(cols: Option<u16>) -> nat {
    match cols {
        Some(c) => (c - 2) as nat,
        None => 118,
    }
}

pub open spec fn rule_line(cols: Option<u16>) -> Seq<char> {
    " "@ + Seq::new(rule_width(cols), |i: int| '-') + " "@
}

/// The report given when the mock server saw requests that did not match.
pub open spec fn failure_report_of(
    cols: Option<u16>,
    description: Seq<char>,
    ms: Seq<MockServerMismatch>,
) -> Seq<char> {
    rule_line(cols) + "\nMock server "@ + description + " failed verification:\n"@
        + report_entries(ms) + rule_line(cols) + "\n"@
}

fn push_rule_line(out: &mut String, cols: Option<u16>)
    requires
        match cols {
            Some(c) => c >= 2,
            None => true,
        },
    ensures
        final(out)@ == old(out)@ + rule_line(cols),
{
    let width: u16 = match cols {
        Some(c) => c - 2,
        None => 118,
    };
    push_str(out, " ");
    let ghost start = out@;
    let mut i: u16 = 0;
    while i < width
        invariant
            i <= width,
            width == rule_width(cols),
            out@ == start + Seq::new(i as nat, |k: int| '-'),
        decreases width - i,
    {
        push_char(out, '-');
        i = i + 1;
        assert(out@ =~= start + Seq::new(i as nat, |k: int| '-'));
    }
    push_str(out, " ");
    assert(out@ =~= old(out)@ + rule_line(cols));
}

fn push_report_entry(out: &mut String, m: &MockServerMismatch)
    ensures
        final(out)@ == old(out)@ + report_entry(*m),
{
    match m {
        MockServerMismatch::RequestMatch => {
            assert(out@ =~= old(out)@ + report_entry(*m));
        },
        MockServerMismatch::RequestMismatch { request, mismatches } => {
            push_str(out, "\n  - request ");
            push_str(out, request.as_str());
            push_str(out, ":\n\n");
            let ghost start = out@;
            let ghost ds = strings_view(mismatches@);
            let mut i: usize = 0;
            assert(ds.take(0) =~= Seq::<Seq<char>>::empty());
            assert(out@ =~= start + described_mismatches(ds.take(0)));
            while i < mismatches.len()
                invariant
                    i <= mismatches.len(),
                    ds == strings_view(mismatches@),
                    out@ == start + described_mismatches(ds.take(i as int)),
                decreases mismatches.len() - i,
            {
                assert(ds.take(i + 1).drop_last() =~= ds.take(i as int));
                assert(ds.take(i + 1).last() == mismatches@[i as int]@);
                push_str(out, "    - ");
                push_str(out, mismatches[i].as_str());
                push_str(out, "\n");
                i = i + 1;
                assert(out@ =~= start + described_mismatches(ds.take(i as int)));
            }
            assert(ds.take(ds.len() as int) =~= ds);
            assert(out@ =~= old(out)@ + report_entry(*m));
        },
        MockServerMismatch::RequestNotFound { method, path, details } => {
            push_str(out, "\n  - received unexpected request ");
            push_str(out, short_description(method.as_str(), path.as_str()).as_str());
            push_str(out, ":\n\n");
            push_str(out, indent_lines(details.as_str()).as_str());
            push_str(out, "\n");
            assert(out@ =~= old(out)@ + report_entry(*m));
        },
        MockServerMismatch::MissingRequest { method, path, details } => {
            push_str(out, "\n  - request ");
            push_str(out, short_description(method.as_str(), path.as_str()).as_str());
            push_str(out, " expected, but never occurred:\n\n");
            push_str(out, indent_lines(details.as_str()).as_str());
            push_str(out, "\n");
            assert(out@ =~= old(out)@ + report_entry(*m));
        },
    }
}

/// The report given when the mock server described by `description` saw
/// requests that did not match: a rule line as wide as the terminal (of `cols`
/// columns, where known) less two, the heading, what was recorded of each
/// request, and the rule line again.
pub fn failure_report(cols: Option<u16>, description: &str, mismatches: &Vec<MockServerMismatch>) -> (r: String)
    requires
        match cols {
            Some(c) => c >= 2,
            None => true,
        },
    ensures
        r@ == failure_report_of(cols, description@, mismatches@),
{
    let mut r = String::new();
    push_rule_line(&mut r, cols);
    push_str(&mut r, "\nMock server ");
    push_str(&mut r, description);
    push_str(&mut r, " failed verification:\n");
    let ghost start = r@;
    let ghost ms = mismatches@;
    let mut i: usize = 0;
    assert(ms.take(0) =~= Seq::<MockServerMismatch>::empty());
    assert(r@ =~= start + report_entries(ms.take(0)));
    while i < mismatches.len()
        invariant
            i <= mismatches.len(),
            ms == mismatches@,
            r@ == start + report_entries(ms.take(i as int)),
        decreases mismatches.len() - i,
    {
        assert(ms.take(i + 1).drop_last() =~= ms.take(i as int));
        push_report_entry(&mut r, &mismatches[i]);
        i = i + 1;
        assert(r@ =~= start + report_entries(ms.take(i as int)));
    }
    assert(ms.take(ms.len() as int) =~= ms);
    push_rule_line(&mut r, cols);
    push_str(&mut r, "\n");
    assert(r@ =~= failure_report_of(cols, description@, mismatches@));
    r
}


/// What a mock server does when it shuts down.
pub enum ShutdownAction {
    /// Write the pact file to the directory, overwriting an existing file or
    /// merging into it.
    WritePact { output_dir: String, overwrite: bool },
    /// Fail with the report of the requests that did not match.
    Fail(String),
}

/// Decides what a mock server does when it shuts down: where it recorded no
/// mismatch, it writes the pact file to the directory `pact_output_dir`
/// picks, overwriting as `overwrite_pact_file` decides; otherwise it fails
/// with the report of what it recorded.
pub fn shutdown_action(
    mismatches: &Vec<MockServerMismatch>,
    configured_dir: Option<&str>,
    env_output_dir: Option<&str>,
    env_overwrite: Option<&str>,
    overwrite: bool,
    cols: Option<u16>,
    description: &str,
) -> (r: ShutdownAction)
    requires
        match cols {
            Some(c) => c >= 2,
            None => true,
        },
    ensures
        match r {
            ShutdownAction::WritePact { output_dir, overwrite: o } => mismatches@.len() == 0
                && output_dir@ == output_dir_of(opt_str_view(configured_dir), opt_str_view(env_output_dir))
                && o == match opt_str_view(env_overwrite) {
                    Some(v) => v == "true"@,
                    None => overwrite,
                },
            ShutdownAction::Fail(report) => mismatches@.len() > 0 && report@ == failure_report_of(
                cols,
                description@,
                mismatches@,
            ),
        },
{
    if mismatches.len() == 0 {
        ShutdownAction::WritePact {
            output_dir: pact_output_dir(configured_dir, env_output_dir),
            overwrite: overwrite_pact_file(env_overwrite, overwrite),
        }
    } else {
        ShutdownAction::Fail(failure_report(cols, description, mismatches))
    }
}

/// The outcome of shutting down once the pact file was written: success, or
/// the write error as `error writing pact: <error>`.
pub fn pact_write_outcome(written: Result<(), String>) -> (r: Result<(), String>)
    ensures
        match written {
            Ok(_) => r is Ok,
            Err(e) => r matches Err(m) && m@ == "error writing pact: "@ + e@,
        },
{
    match written {
        Ok(_) => Ok(()),
        Err(e) => {
            let mut m = String::new();
            push_str(&mut m, "error writing pact: ");
            push_str(&mut m, e.as_str());
            Err(m)
        },
    }
}

} // verus!
