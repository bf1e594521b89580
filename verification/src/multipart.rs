//! The decisions made when two MIME multipart bodies are matched: which actual
//! part an expected part is compared with, what is reported for parts and
//! headers that are missing or of the wrong kind, and how matching rules and
//! mismatches are moved to and from the path of a part.
//!
//! Parsing the bodies and comparing the contents of two parts are done by the
//! caller, which hands the outcomes in.
use vstd::prelude::*;

use crate::binary_utils::{copy_bytes, BodyMismatch, BodyMismatchView, bytes_view, mismatches_view};
use crate::path_exp::{
    build_expr_of, join_token, last_field_of, token_expr, token_text, weight_fits, frags_view,
    path_weight_of, DocPath, TokenView, tokens_view,
};
use crate::text::{all_ascii, ascii_lower, decimal, push_str, str_equal, str_to_lowercase, unicode_lowercase, usize_to_decimal};

use base64::Engine;

verus! {

/// What is read of a parsed part to pair it with another: its position in its
/// body, its name (empty where it has none), and whether it is a file.
pub struct MimePartKey {
    pub index: usize,
    pub name: String,
    pub is_file: bool,
}

/// Whether an actual part is the one an expected part is compared with: by
/// name, or, where the actual part has no name, by position.
pub open spec fn corresponds(expected: MimePartKey, actual: MimePartKey) -> bool {
    if actual.name@.len() == 0 {
        actual.index == expected.index
    } else {
        actual.name@ == expected.name@
    }
}

/// The position of the first actual part that corresponds to the expected one.
pub open spec fn corresponding_part(expected: MimePartKey, actual: Seq<MimePartKey>) -> Option<int>
    decreases actual.len(),
{
    if actual.len() == 0 {
        None
    } else {
        match corresponding_part(expected, actual.drop_last()) {
            Some(i) => Some(i),
            None => if corresponds(expected, actual.last()) {
                Some(actual.len() - 1)
            } else {
                None
            },
        }
    }
}

/// The actual part an expected part is compared with: the first whose name is
/// the expected part's name, or, for an actual part without a name, whose
/// position is the expected part's position.
pub fn find_actual_part(expected: &MimePartKey, actual: &Vec<MimePartKey>) -> (r: Option<usize>)
    ensures
        match corresponding_part(*expected, actual@) {
            Some(i) => r == Some(i as usize),
            None => r is None,
        },
{
    let mut i: usize = 0;
    assert(actual@.take(0) =~= Seq::<MimePartKey>::empty());
    while i < actual.len()
        invariant
            i <= actual.len(),
            corresponding_part(*expected, actual@.take(i as int)) is None,
        decreases actual.len() - i,
    {
        assert(actual@.take(i + 1).drop_last() =~= actual@.take(i as int));
        let part = &actual[i];
        let found = if part.name.unicode_len() == 0 {
            part.index == expected.index
        } else {
            str_equal(part.name.as_str(), expected.name.as_str())
        };
        if found {
            proof {
                lemma_corresponding_prefix(*expected, actual@, i as int + 1);
            }
            return Some(i);
        }
        i = i + 1;
    }
    assert(actual@.take(actual.len() as int) =~= actual@);
    None
}

/// Once a prefix has a corresponding part, so has every longer prefix, at the
/// same position.
proof fn lemma_corresponding_prefix(expected: MimePartKey, actual: Seq<MimePartKey>, k: int)
    requires
        0 <= k <= actual.len(),
        corresponding_part(expected, actual.take(k)) is Some,
    ensures
        corresponding_part(expected, actual) == corresponding_part(expected, actual.take(k)),
    decreases actual.len() - k,
{
    if k < actual.len() {
        assert(actual.take(k + 1).drop_last() =~= actual.take(k));
        lemma_corresponding_prefix(expected, actual, k + 1);
    } else {
        assert(actual.take(k) =~= actual);
    }
}

/// A mismatch at the root of the body.
pub open spec fn root_body_mismatch(
    expected: Option<Seq<u8>>,
    actual: Option<Seq<u8>>,
    message: Seq<char>,
) -> BodyMismatchView {
    BodyMismatchView { path: "$"@, expected, actual, mismatch: message }
}

/// The mismatch for an expected part with no corresponding actual part.
pub open spec fn missing_part(name: Seq<char>) -> BodyMismatchView {
    root_body_mismatch(
        Some(vstd::utf8::encode_utf8(name)),
        None,
        "Expected a MIME part '"@ + name + "' but was missing"@,
    )
}

/// The mismatches for the parts of two multipart bodies that both parsed: for
/// each expected part in order, the mismatches of comparing it with its
/// corresponding actual part (`results`, by the expected part's position), or
/// one mismatch where it has none.
pub open spec fn parts_mismatches(
    expected: Seq<MimePartKey>,
    actual: Seq<MimePartKey>,
    results: Seq<Seq<BodyMismatchView>>,
) -> Seq<BodyMismatchView>
    decreases expected.len(),
{
    if expected.len() == 0 {
        Seq::empty()
    } else {
        parts_mismatches(expected.drop_last(), actual, results) + match corresponding_part(
            expected.last(),
            actual,
        ) {
            Some(_) => results[expected.len() - 1],
            None => seq![missing_part(expected.last().name@)],
        }
    }
}

/// The names of the expected parts that no actual part answers, in order.
pub open spec fn unanswered_parts(expected: Seq<MimePartKey>, actual: Seq<MimePartKey>) -> Seq<Seq<char>>
    decreases expected.len(),
{
    if expected.len() == 0 {
        Seq::empty()
    } else {
        let rest = unanswered_parts(expected.drop_last(), actual);
        if corresponding_part(expected.last(), actual) is None {
            rest.push(expected.last().name@)
        } else {
            rest
        }
    }
}

/// Where the parts that are answered match, the mismatches of two multipart
/// bodies are exactly one `Expected a MIME part '<name>' but was missing` for
/// each expected part that no actual part answers (by name, or by position
/// for an actual part without a name), in the order of the expected parts;
/// actual parts that answer no expected part add nothing.
pub proof fn law_missing_parts_are_reported_in_order(
    expected: Seq<MimePartKey>,
    actual: Seq<MimePartKey>,
    results: Seq<Seq<BodyMismatchView>>,
)
    requires
        results.len() == expected.len(),
        forall|i: int|
            0 <= i < expected.len() && (#[trigger] corresponding_part(expected[i], actual)) is Some
                ==> results[i].len() == 0,
    ensures
        parts_mismatches(expected, actual, results) == unanswered_parts(expected, actual).map_values(
            |n: Seq<char>| missing_part(n),
        ),
{
    law_missing_parts_are_reported_in_order_upto(expected, actual, results);
}

/// The law, over the first `expected.len()` results of a longer list.
proof fn law_missing_parts_are_reported_in_order_upto(
    expected: Seq<MimePartKey>,
    actual: Seq<MimePartKey>,
    results: Seq<Seq<BodyMismatchView>>,
)
    requires
        results.len() >= expected.len(),
        forall|i: int|
            0 <= i < expected.len() && (#[trigger] corresponding_part(expected[i], actual)) is Some
                ==> results[i].len() == 0,
    ensures
        parts_mismatches(expected, actual, results) == unanswered_parts(expected, actual).map_values(
            |n: Seq<char>| missing_part(n),
        ),
    decreases expected.len(),
{
    if expected.len() > 0 {
        let prefix = expected.drop_last();
        assert forall|i: int|
            0 <= i < prefix.len() && (#[trigger] corresponding_part(prefix[i], actual)) is Some implies results[i].len()
            == 0 by {
            assert(prefix[i] == expected[i]);
        }
        law_missing_parts_are_reported_in_order_upto(prefix, actual, results);
        let last = expected.last();
        assert(last == expected[expected.len() - 1]);
        let before = unanswered_parts(prefix, actual);
        if corresponding_part(last, actual) is None {
            assert(before.push(last.name@).map_values(|n: Seq<char>| missing_part(n)) =~= before.map_values(
                |n: Seq<char>| missing_part(n),
            ) + seq![missing_part(last.name@)]);
        } else {
            assert(results[expected.len() - 1].len() == 0);
            assert(results[expected.len() - 1] =~= Seq::<BodyMismatchView>::empty());
            assert(before.map_values(|n: Seq<char>| missing_part(n)) + Seq::<BodyMismatchView>::empty() =~= before.map_values(
                |n: Seq<char>| missing_part(n),
            ));
        }
    }
}

pub open spec fn parsed_view(p: Result<Vec<MimePartKey>, String>) -> Result<Seq<MimePartKey>, Seq<char>> {
    match p {
        Ok(v) => Ok(v@),
        Err(e) => Err(e@),
    }
}

/// The mismatches for two multipart bodies: where either failed to parse, one
/// mismatch for each that failed; else those of their parts.
pub open spec fn multipart_mismatches_of(
    expected_body: Option<Seq<u8>>,
    actual_body: Option<Seq<u8>>,
    expected_parts: Result<Seq<MimePartKey>, Seq<char>>,
    actual_parts: Result<Seq<MimePartKey>, Seq<char>>,
    results: Seq<Seq<BodyMismatchView>>,
) -> Seq<BodyMismatchView> {
    match (expected_parts, actual_parts) {
        (Ok(e), Ok(a)) => parts_mismatches(e, a, results),
        _ => (match expected_parts {
            Err(m) => seq![
                root_body_mismatch(
                    expected_body,
                    actual_body,
                    "Failed to parse the expected body as a MIME multipart body: '"@ + m + "'"@,
                ),
            ],
            Ok(_) => Seq::empty(),
        }) + (match actual_parts {
            Err(m) => seq![
                root_body_mismatch(
                    expected_body,
                    actual_body,
                    "Failed to parse the actual body as a MIME multipart body: '"@ + m + "'"@,
                ),
            ],
            Ok(_) => Seq::empty(),
        }),
    }
}

pub open spec fn results_view(r: Seq<Vec<BodyMismatch>>) -> Seq<Seq<BodyMismatchView>> {
    r.map_values(|v: Vec<BodyMismatch>| mismatches_view(v@))
}

fn copy_opt_bytes(v: &Option<Vec<u8>>) -> (r: Option<Vec<u8>>)
    ensures
        bytes_view(r) == bytes_view(*v),
{
    match v {
        Some(b) => Some(copy_bytes(b)),
        None => None,
    }
}

/// A copy of a mismatch.
pub fn copy_mismatch(m: &BodyMismatch) -> (r: BodyMismatch)
    ensures
        r@ == m@,
{
    BodyMismatch {
        path: m.path.clone(),
        expected: copy_opt_bytes(&m.expected),
        actual: copy_opt_bytes(&m.actual),
        mismatch: m.mismatch.clone(),
    }
}

fn append_mismatches(out: &mut Vec<BodyMismatch>, ms: &Vec<BodyMismatch>)
    ensures
        mismatches_view(final(out)@) == mismatches_view(old(out)@) + mismatches_view(ms@),
{
    let mut i: usize = 0;
    while i < ms.len()
        invariant
            i <= ms.len(),
            mismatches_view(out@) == mismatches_view(old(out)@) + mismatches_view(ms@.take(i as int)),
        decreases ms.len() - i,
    {
        let ghost prev = out@;
        let m = copy_mismatch(&ms[i]);
        out.push(m);
        assert(mismatches_view(out@) =~= mismatches_view(prev).push(ms@[i as int]@));
        assert(ms@.take(i + 1) =~= ms@.take(i as int).push(ms@[i as int]));
        assert(mismatches_view(ms@.take(i + 1)) =~= mismatches_view(ms@.take(i as int)).push(ms@[i as int]@));
        i = i + 1;
        assert(mismatches_view(out@) =~= mismatches_view(old(out)@) + mismatches_view(ms@.take(i as int)));
    }
    assert(ms@.take(ms.len() as int) =~= ms@);
}

fn root_mismatch_of(expected: Option<Vec<u8>>, actual: Option<Vec<u8>>, message: String) -> (m: BodyMismatch)
    ensures
        m@ == root_body_mismatch(bytes_view(expected), bytes_view(actual), message@),
{
    BodyMismatch { path: "$".to_owned(), expected, actual, mismatch: message }
}

/// The mismatches for two MIME multipart bodies. `expected_parts` and
/// `actual_parts` are what parsing the bodies gave (the parts, or the parse
/// error); where both parsed, `part_results[i]` holds the mismatches of
/// comparing the `i`-th expected part with the actual part that
/// `find_actual_part` gives for it (and is not read where there is none).
pub fn match_multipart_parts(
    expected_body: &Option<Vec<u8>>,
    actual_body: &Option<Vec<u8>>,
    expected_parts: &Result<Vec<MimePartKey>, String>,
    actual_parts: &Result<Vec<MimePartKey>, String>,
    part_results: &Vec<Vec<BodyMismatch>>,
) -> (r: Vec<BodyMismatch>)
    requires
        expected_parts is Ok && actual_parts is Ok ==> part_results@.len()
            == expected_parts->Ok_0@.len(),
    ensures
        mismatches_view(r@) == multipart_mismatches_of(
            bytes_view(*expected_body),
            bytes_view(*actual_body),
            parsed_view(*expected_parts),
            parsed_view(*actual_parts),
            results_view(part_results@),
        ),
{
    let ghost results = results_view(part_results@);
    let mut r: Vec<BodyMismatch> = Vec::new();
    match (expected_parts, actual_parts) {
        (Ok(expected), Ok(actual)) => {
            let mut i: usize = 0;
            assert(expected@.take(0) =~= Seq::<MimePartKey>::empty());
            while i < expected.len()
                invariant
                    i <= expected.len(),
                    part_results@.len() == expected@.len(),
                    results == results_view(part_results@),
                    mismatches_view(r@) == parts_mismatches(expected@.take(i as int), actual@, results),
                decreases expected.len() - i,
            {
                assert(expected@.take(i + 1).drop_last() =~= expected@.take(i as int));
                assert(expected@.take(i + 1).last() == expected@[i as int]);
                let ghost before = r@;
                match find_actual_part(&expected[i], actual) {
                    Some(_) => {
                        append_mismatches(&mut r, &part_results[i]);
                        assert(results[i as int] == mismatches_view(part_results@[i as int]@));
                    },
                    None => {
                        let mut msg = String::new();
                        push_str(&mut msg, "Expected a MIME part '");
                        push_str(&mut msg, expected[i].name.as_str());
                        push_str(&mut msg, "' but was missing");
                        let name_bytes = expected[i].name.as_str().as_bytes_vec();
                        r.push(root_mismatch_of(Some(name_bytes), None, msg));
                        assert(mismatches_view(r@) =~= mismatches_view(before).push(
                            missing_part(expected@[i as int].name@),
                        ));
                    },
                }
                i = i + 1;
                assert(mismatches_view(r@) =~= parts_mismatches(expected@.take(i as int), actual@, results));
            }
            assert(expected@.take(expected.len() as int) =~= expected@);
        },
        _ => {
            if let Err(e) = expected_parts {
                let mut msg = String::new();
                push_str(&mut msg, "Failed to parse the expected body as a MIME multipart body: '");
                push_str(&mut msg, e.as_str());
                push_str(&mut msg, "'");
                r.push(root_mismatch_of(copy_opt_bytes(expected_body), copy_opt_bytes(actual_body), msg));
            }
            let ghost before = r@;
            if let Err(e) = actual_parts {
                let mut msg = String::new();
                push_str(&mut msg, "Failed to parse the actual body as a MIME multipart body: '");
                push_str(&mut msg, e.as_str());
                push_str(&mut msg, "'");
                r.push(root_mismatch_of(copy_opt_bytes(expected_body), copy_opt_bytes(actual_body), msg));
            }
            assert(mismatches_view(r@) =~= multipart_mismatches_of(
                bytes_view(*expected_body),
                bytes_view(*actual_body),
                parsed_view(*expected_parts),
                parsed_view(*actual_parts),
                results,
            ));
        },
    }
    r
}

/// The mismatch for an expected part compared with an actual part of the other
/// kind (field or file), or `None` where both are of the same kind.
pub open spec fn part_kind_mismatch_of(key: Seq<char>, expected_is_file: bool, actual_is_file: bool) -> Option<BodyMismatchView> {
    if expected_is_file == actual_is_file {
        None
    } else if actual_is_file {
        Some(root_body_mismatch(
            Some(vstd::utf8::encode_utf8(key)),
            None,
            "Expected a MIME field '"@ + key + "' but was file"@,
        ))
    } else {
        Some(root_body_mismatch(
            Some(vstd::utf8::encode_utf8(key)),
            None,
            "Expected a MIME file '"@ + key + "' but was field"@,
        ))
    }
}

/// What comparing two parts gives when they are of different kinds: a field
/// compared with a file, or a file compared with a field.
pub fn part_kind_mismatch(key: &str, expected_is_file: bool, actual_is_file: bool) -> (r: Option<BodyMismatch>)
    ensures
        match part_kind_mismatch_of(key@, expected_is_file, actual_is_file) {
            Some(m) => r matches Some(x) && x@ == m,
            None => r is None,
        },
{
    if expected_is_file == actual_is_file {
        None
    } else {
        let mut msg = String::new();
        if actual_is_file {
            push_str(&mut msg, "Expected a MIME field '");
            push_str(&mut msg, key);
            push_str(&mut msg, "' but was file");
        } else {
            push_str(&mut msg, "Expected a MIME file '");
            push_str(&mut msg, key);
            push_str(&mut msg, "' but was field");
        }
        Some(root_mismatch_of(Some(key.as_bytes_vec()), None, msg))
    }
}

/// The name a part is reported under: its key, or its position where the key
/// is empty.
pub open spec fn part_name_of(key: Seq<char>, index: usize) -> Seq<char> {
    if key.len() == 0 {
        decimal(index as nat)
    } else {
        key
    }
}

/// The name a part is reported under: its key, or its position where the key
/// is empty.
pub fn part_name(key: &str, index: usize) -> (r: String)
    ensures
        r@ == part_name_of(key@, index),
{
    if key.unicode_len() == 0 {
        usize_to_decimal(index)
    } else {
        key.to_owned()
    }
}

/// The path of a part in its body: the root joined with the part's name.
pub fn part_path(key: &str, index: usize) -> (r: DocPath)
    ensures
        r@.tokens == seq![TokenView::Root, join_token(part_name_of(key@, index))],
        r@.expr == seq!['$'] + token_expr(join_token(part_name_of(key@, index))),
{
    let name = part_name(key, index);
    let r = DocPath::root().join(name.as_str());
    assert(r@.tokens =~= seq![TokenView::Root, join_token(part_name_of(key@, index))]);
    r
}

/// The texts of the tokens of a path.
pub open spec fn token_texts(ts: Seq<TokenView>) -> Seq<Seq<char>> {
    ts.map_values(|t: TokenView| token_text(t))
}

/// A rule path moved below a part's path: where the rule path matches the
/// part's path, the path from the root made of the rule path's tokens after
/// the part's path; else `None`.
pub fn rebase_rule_path(path: &DocPath, rule_path: &DocPath) -> (r: Option<DocPath>)
    requires
        weight_fits(path@.tokens, token_texts(rule_path@.tokens)),
    ensures
        match r {
            Some(child) => path_weight_of(path@.tokens, token_texts(rule_path@.tokens)).0 > 0
                && child@.tokens == seq![TokenView::Root] + rule_path@.tokens.skip(path@.tokens.len() as int)
                && child@.expr == build_expr_of(child@.tokens),
            None => path_weight_of(path@.tokens, token_texts(rule_path@.tokens)).0 == 0,
        },
{
    let texts = rule_path.to_vec();
    let mut fragments: Vec<&str> = Vec::new();
    let mut i: usize = 0;
    while i < texts.len()
        invariant
            i <= texts.len(),
            texts@.len() == rule_path@.tokens.len(),
            forall|j: int| 0 <= j < texts@.len() ==> #[trigger] texts@[j]@ == token_text(rule_path@.tokens[j]),
            fragments@.len() == i,
            forall|j: int| 0 <= j < i ==> #[trigger] fragments@[j]@ == token_text(rule_path@.tokens[j]),
        decreases texts.len() - i,
    {
        fragments.push(texts[i].as_str());
        i = i + 1;
    }
    assert(frags_view(fragments@) =~= token_texts(rule_path@.tokens));
    if path.matches_path(fragments.as_slice()) {
        let n = path.len();
        let tokens = rule_path.tokens();
        let mut child = DocPath::root();
        assert(child@.expr == build_expr_of(child@.tokens)) by {
            let ts = seq![TokenView::Root];
            assert(ts.drop_last() =~= Seq::<TokenView>::empty());
            assert(ts.last() == TokenView::Root);
            assert(build_expr_of(Seq::<TokenView>::empty()) =~= Seq::<char>::empty());
            assert(build_expr_of(ts) =~= seq!['$']);
        }
        let mut k: usize = n;
        assert(rule_path@.tokens.len() >= n);
        assert(rule_path@.tokens.subrange(n as int, n as int) =~= Seq::<TokenView>::empty());
        while k < tokens.len()
            invariant
                n <= k <= tokens.len(),
                tokens_view(tokens@) == rule_path@.tokens,
                child@.tokens == seq![TokenView::Root] + rule_path@.tokens.subrange(n as int, k as int),
                child@.expr == build_expr_of(child@.tokens),
            decreases tokens.len() - k,
        {
            let ghost before = child@;
            let t = tokens[k].duplicate();
            child.push(t);
            proof {
                crate::path_exp::lemma_build_expr_push(before.tokens, tokens@[k as int]@);
            }
            k = k + 1;
            assert(child@.tokens =~= seq![TokenView::Root] + rule_path@.tokens.subrange(n as int, k as int));
        }
        assert(rule_path@.tokens.subrange(n as int, tokens.len() as int) =~= rule_path@.tokens.skip(n as int));
        Some(child)
    } else {
        None
    }
}

/// The mismatches of a part reported under its name: each message prefixed
/// with the part's name.
pub open spec fn prefixed_mismatches(part: Seq<char>, ms: Seq<BodyMismatchView>) -> Seq<BodyMismatchView> {
    ms.map_values(
        |m: BodyMismatchView|
            BodyMismatchView { mismatch: "MIME part '"@ + part + "': "@ + m.mismatch, ..m },
    )
}

/// The mismatches of comparing the contents of a part, reported under the
/// part's name: each message prefixed with `MIME part '<name>': `.
pub fn prefix_part_mismatches(part_name: &str, mismatches: &Vec<BodyMismatch>) -> (r: Vec<BodyMismatch>)
    ensures
        mismatches_view(r@) == prefixed_mismatches(part_name@, mismatches_view(mismatches@)),
{
    let mut r: Vec<BodyMismatch> = Vec::new();
    let mut i: usize = 0;
    while i < mismatches.len()
        invariant
            i <= mismatches.len(),
            mismatches_view(r@) == prefixed_mismatches(part_name@, mismatches_view(mismatches@.take(i as int))),
        decreases mismatches.len() - i,
    {
        let m = &mismatches[i];
        let mut msg = String::new();
        push_str(&mut msg, "MIME part '");
        push_str(&mut msg, part_name);
        push_str(&mut msg, "': ");
        push_str(&mut msg, m.mismatch.as_str());
        let ghost prev = r@;
        let x = BodyMismatch {
            path: m.path.clone(),
            expected: copy_opt_bytes(&m.expected),
            actual: copy_opt_bytes(&m.actual),
            mismatch: msg,
        };
        let ghost xv = x@;
        r.push(x);
        assert(mismatches_view(r@) =~= mismatches_view(prev).push(xv));
        assert(mismatches@.take(i + 1) =~= mismatches@.take(i as int).push(mismatches@[i as int]));
        assert(mismatches_view(mismatches@.take(i + 1)) =~= mismatches_view(mismatches@.take(i as int)).push(
            mismatches@[i as int]@,
        ));
        i = i + 1;
        assert(mismatches_view(r@) =~= prefixed_mismatches(
            part_name@,
            mismatches_view(mismatches@.take(i as int)),
        ));
    }
    assert(mismatches@.take(mismatches.len() as int) =~= mismatches@);
    r
}

/// A header of an expected part (by its name in lower case, as a header map
/// holds it), with what is known of it in the actual part: its value there
/// (if present), the outcome of the matching rules defined
/// directly at the header's path (where there are any: the failure messages,
/// or none), and the failure message of comparing the two values for equality
/// (where they differ).
pub struct PartHeader {
    pub key: String,
    pub expected_value: String,
    pub actual_value: Option<String>,
    pub matcher_outcome: Option<Result<(), Vec<String>>>,
    pub equality_failure: Option<String>,
}

pub open spec fn strings_view(v: Seq<String>) -> Seq<Seq<char>> {
    v.map_values(|s: String| s@)
}

/// The failure messages of comparing a header that is present in both parts.
pub open spec fn header_failures(h: PartHeader) -> Seq<Seq<char>> {
    match h.matcher_outcome {
        Some(Ok(_)) => Seq::empty(),
        Some(Err(ms)) => strings_view(ms@),
        None => if h.key@ == "content-disposition"@ {
            Seq::empty()
        } else {
            match h.equality_failure {
                Some(e) => seq!["header '"@ + h.key@ + "': "@ + e@],
                None => Seq::empty(),
            }
        },
    }
}

/// Headers whose absence from the actual part is not reported.
pub open spec fn optional_header(key: Seq<char>) -> bool {
    key == "content-type"@ || key == "content-disposition"@ || key == "content-transfer-encoding"@
}

/// The name a part at `path` is reported under in header mismatches: the last
/// field of the path, or `unknown part`.
pub open spec fn header_part_name(path: Seq<TokenView>) -> Seq<char> {
    match last_field_of(path) {
        Some(f) => f,
        None => "unknown part"@,
    }
}

/// The mismatch for a failure of a header present in both parts.
pub open spec fn header_failure_mismatch(
    path: Seq<TokenView>,
    h: PartHeader,
    actual: Seq<char>,
    failure: Seq<char>,
) -> BodyMismatchView {
    BodyMismatchView {
        path: build_expr_of(path.push(join_token(h.key@))),
        expected: Some(vstd::utf8::encode_utf8(h.expected_value@)),
        actual: Some(vstd::utf8::encode_utf8(actual)),
        mismatch: "MIME part '"@ + header_part_name(path) + "': "@ + failure,
    }
}

/// The mismatches for one header of a part at `path`.
pub open spec fn header_mismatches_of(path: Seq<TokenView>, h: PartHeader) -> Seq<BodyMismatchView> {
    match h.actual_value {
        Some(a) => header_failures(h).map_values(
            |m: Seq<char>| header_failure_mismatch(path, h, a@, m),
        ),
        None => if optional_header(h.key@) {
            Seq::empty()
        } else {
            seq![
                BodyMismatchView {
                    path: build_expr_of(path.push(join_token(h.key@))),
                    expected: Some(vstd::utf8::encode_utf8(h.expected_value@)),
                    actual: None,
                    mismatch: "MIME part '"@ + header_part_name(path) + "': Expected multipart header '"@ + h.key@
                        + "' with value '"@ + h.expected_value@ + "' but was missing"@,
                },
            ]
        },
    }
}

/// A header expected on a part but missing from the actual part: a missing
/// `content-type`, `content-disposition` or `content-transfer-encoding`
/// header gives no mismatch; any other gives exactly one, at the header's
/// path below the part, holding the expected value and no actual one, that
/// says the header was expected with its value but was missing.
pub proof fn law_missing_part_headers(path: Seq<TokenView>, h: PartHeader)
    requires
        h.actual_value is None,
    ensures
        (h.key@ == "content-type"@ || h.key@ == "content-disposition"@ || h.key@ == "content-transfer-encoding"@)
            ==> header_mismatches_of(path, h).len() == 0,
        !(h.key@ == "content-type"@ || h.key@ == "content-disposition"@ || h.key@
            == "content-transfer-encoding"@) ==> header_mismatches_of(path, h) == seq![
            BodyMismatchView {
                path: build_expr_of(path.push(join_token(h.key@))),
                expected: Some(vstd::utf8::encode_utf8(h.expected_value@)),
                actual: None,
                mismatch: "MIME part '"@ + match last_field_of(path) {
                    Some(f) => f,
                    None => "unknown part"@,
                } + "': Expected multipart header '"@ + h.key@ + "' with value '"@ + h.expected_value@
                    + "' but was missing"@,
            },
        ],
{
}

/// A header present in both parts gives no mismatch for `content-disposition`
/// unless matching rules are defined at its path, and otherwise one mismatch
/// per failure, each naming the part.
pub proof fn law_present_part_headers(path: Seq<TokenView>, h: PartHeader)
    requires
        h.actual_value is Some,
    ensures
        h.key@ == "content-disposition"@ && h.matcher_outcome is None ==> header_mismatches_of(path, h).len() == 0,
        h.matcher_outcome == Some(Ok::<(), Vec<String>>(())) ==> header_mismatches_of(path, h).len() == 0,
        h.key@ != "content-disposition"@ && h.matcher_outcome is None ==> header_mismatches_of(path, h).len() == (
        if h.equality_failure is Some {
            1int
        } else {
            0int
        }),
{
}

/// The mismatches for the headers of a part, in the order of the headers.
pub open spec fn headers_mismatches_of(path: Seq<TokenView>, hs: Seq<PartHeader>) -> Seq<BodyMismatchView>
    decreases hs.len(),
{
    if hs.len() == 0 {
        Seq::empty()
    } else {
        headers_mismatches_of(path, hs.drop_last()) + header_mismatches_of(path, hs.last())
    }
}

fn header_mismatches(path: &DocPath, h: &PartHeader) -> (r: Vec<BodyMismatch>)
    requires
        path@.expr == build_expr_of(path@.tokens),
    ensures
        mismatches_view(r@) == header_mismatches_of(path@.tokens, *h),
{
    let key_path = path.join(h.key.as_str());
    proof {
        crate::path_exp::lemma_build_expr_push(path@.tokens, join_token(h.key@));
    }
    let part: &str = match path.last_field() {
        Some(f) => f,
        None => "unknown part",
    };
    let ghost part_view = header_part_name(path@.tokens);
    assert(part@ == part_view);
    let mut r: Vec<BodyMismatch> = Vec::new();
    match &h.actual_value {
        Some(actual) => {
            let mut failures: Vec<String> = Vec::new();
            match &h.matcher_outcome {
                Some(Ok(_)) => {},
                Some(Err(ms)) => {
                    let mut j: usize = 0;
                    while j < ms.len()
                        invariant
                            j <= ms.len(),
                            strings_view(failures@) == strings_view(ms@.take(j as int)),
                        decreases ms.len() - j,
                    {
                        let ghost prev = failures@;
                        let x = ms[j].clone();
                        failures.push(x);
                        assert(strings_view(failures@) =~= strings_view(prev).push(ms@[j as int]@));
                        assert(ms@.take(j + 1) =~= ms@.take(j as int).push(ms@[j as int]));
                        assert(strings_view(ms@.take(j + 1)) =~= strings_view(ms@.take(j as int)).push(
                            ms@[j as int]@,
                        ));
                        j = j + 1;
                        assert(strings_view(failures@) =~= strings_view(ms@.take(j as int)));
                    }
                    assert(ms@.take(ms.len() as int) =~= ms@);
                },
                None => {
                    if !str_equal(h.key.as_str(), "content-disposition") {
                        if let Some(e) = &h.equality_failure {
                            let mut msg = String::new();
                            push_str(&mut msg, "header '");
                            push_str(&mut msg, h.key.as_str());
                            push_str(&mut msg, "': ");
                            push_str(&mut msg, e.as_str());
                            failures.push(msg);
                        }
                    }
                },
            }
            assert(strings_view(failures@) =~= header_failures(*h));
            let mut j: usize = 0;
            while j < failures.len()
                invariant
                    j <= failures.len(),
                    strings_view(failures@) == header_failures(*h),
                    h.actual_value == Some(*actual),
                    part@ == part_view,
                    part_view == header_part_name(path@.tokens),
                    key_path@.expr == build_expr_of(path@.tokens.push(join_token(h.key@))),
                    mismatches_view(r@) == header_mismatches_of(path@.tokens, *h).take(j as int),
                decreases failures.len() - j,
            {
                let mut msg = String::new();
                push_str(&mut msg, "MIME part '");
                push_str(&mut msg, part);
                push_str(&mut msg, "': ");
                push_str(&mut msg, failures[j].as_str());
                let ghost prev = r@;
                let x = BodyMismatch {
                    path: key_path.to_string(),
                    expected: Some(h.expected_value.as_str().as_bytes_vec()),
                    actual: Some(actual.as_str().as_bytes_vec()),
                    mismatch: msg,
                };
                let ghost xv = x@;
                r.push(x);
                let ghost whole = header_mismatches_of(path@.tokens, *h);
                assert(strings_view(failures@)[j as int] == failures@[j as int]@);
                assert(whole[j as int] == header_failure_mismatch(path@.tokens, *h, actual@, header_failures(*h)[j as int]));
                assert(whole[j as int] == xv);
                assert(mismatches_view(r@) =~= mismatches_view(prev).push(xv));
                assert(whole.take(j + 1) =~= whole.take(j as int).push(whole[j as int]));
                j = j + 1;
                assert(mismatches_view(r@) =~= header_mismatches_of(path@.tokens, *h).take(j as int));
            }
            assert(header_mismatches_of(path@.tokens, *h).take(j as int) =~= header_mismatches_of(
                path@.tokens,
                *h,
            ));
        },
        None => {
            let optional = str_equal(h.key.as_str(), "content-type") || str_equal(
                h.key.as_str(),
                "content-disposition",
            ) || str_equal(h.key.as_str(), "content-transfer-encoding");
            if !optional {
                let mut msg = String::new();
                push_str(&mut msg, "MIME part '");
                push_str(&mut msg, part);
                push_str(&mut msg, "': Expected multipart header '");
                push_str(&mut msg, h.key.as_str());
                push_str(&mut msg, "' with value '");
                push_str(&mut msg, h.expected_value.as_str());
                push_str(&mut msg, "' but was missing");
                r.push(BodyMismatch {
                    path: key_path.to_string(),
                    expected: Some(h.expected_value.as_str().as_bytes_vec()),
                    actual: None,
                    mismatch: msg,
                });
            }
            assert(mismatches_view(r@) =~= header_mismatches_of(path@.tokens, *h));
        },
    }
    r
}

/// The mismatches for the headers of a part at `path`: for each expected
/// header in order, where it is present in the actual part, the failures of
/// the rules defined at its path, or, without such rules, of comparing the
/// values for equality (the `content-disposition` header is not compared);
/// where it is missing, one mismatch unless it is `content-type`,
/// `content-disposition` or `content-transfer-encoding`.
pub fn match_part_headers(path: &DocPath, headers: &Vec<PartHeader>) -> (r: Vec<BodyMismatch>)
    requires
        path@.expr == build_expr_of(path@.tokens),
    ensures
        mismatches_view(r@) == headers_mismatches_of(path@.tokens, headers@),
{
    let mut r: Vec<BodyMismatch> = Vec::new();
    let mut i: usize = 0;
    assert(headers@.take(0) =~= Seq::<PartHeader>::empty());
    while i < headers.len()
        invariant
            i <= headers.len(),
            path@.expr == build_expr_of(path@.tokens),
            mismatches_view(r@) == headers_mismatches_of(path@.tokens, headers@.take(i as int)),
        decreases headers.len() - i,
    {
        assert(headers@.take(i + 1).drop_last() =~= headers@.take(i as int));
        let ms = header_mismatches(path, &headers[i]);
        let ghost before = r@;
        append_mismatches(&mut r, &ms);
        i = i + 1;
    }
    assert(headers@.take(headers.len() as int) =~= headers@);
    r
}

/// The failure messages of comparing the contents of two fields: those of the
/// rules defined at the field's path where there are any, else that of
/// comparing the two values for equality (where they differ).
pub open spec fn field_failures(
    key: Seq<char>,
    matcher_outcome: Option<Result<(), Seq<Seq<char>>>>,
    equality_failure: Option<Seq<char>>,
) -> Seq<Seq<char>> {
    match matcher_outcome {
        Some(Ok(_)) => Seq::empty(),
        Some(Err(ms)) => ms,
        None => match equality_failure {
            Some(e) => seq!["MIME part '"@ + key + "': "@ + e],
            None => Seq::empty(),
        },
    }
}

pub open spec fn outcome_strings_view(o: Option<Result<(), Vec<String>>>) -> Option<Result<(), Seq<Seq<char>>>> {
    match o {
        Some(Ok(_)) => Some(Ok(())),
        Some(Err(ms)) => Some(Err(strings_view(ms@))),
        None => None,
    }
}

/// The mismatches of comparing two fields of a multipart body: those of their
/// headers, then one for each failure of comparing their contents, at the
/// field's path.
pub open spec fn field_mismatches_of(
    key: Seq<char>,
    index: usize,
    expected: Seq<u8>,
    actual: Seq<u8>,
    headers: Seq<PartHeader>,
    matcher_outcome: Option<Result<(), Seq<Seq<char>>>>,
    equality_failure: Option<Seq<char>>,
) -> Seq<BodyMismatchView> {
    let tokens = seq![TokenView::Root, join_token(part_name_of(key, index))];
    headers_mismatches_of(tokens, headers) + field_failures(key, matcher_outcome, equality_failure).map_values(
        |m: Seq<char>|
            BodyMismatchView {
                path: build_expr_of(tokens),
                expected: Some(expected),
                actual: Some(actual),
                mismatch: m,
            },
    )
}

/// Compares two fields of a multipart body, the field named `key` (or at
/// position `index` where the key is empty): their headers, and their
/// contents, by the outcome of the rules defined at the field's path (where
/// there are any) or else by the failure of comparing the two decoded values
/// for equality (where they differ).
pub fn match_field(
    key: &str,
    index: usize,
    expected: &Vec<u8>,
    actual: &Vec<u8>,
    headers: &Vec<PartHeader>,
    matcher_outcome: &Option<Result<(), Vec<String>>>,
    equality_failure: &Option<String>,
) -> (r: Result<(), Vec<BodyMismatch>>)
    ensures
        ({
            let m = field_mismatches_of(
                key@,
                index,
                expected@,
                actual@,
                headers@,
                outcome_strings_view(*matcher_outcome),
                opt_string_view(*equality_failure),
            );
            match r {
                Ok(_) => m.len() == 0,
                Err(v) => m.len() > 0 && mismatches_view(v@) == m,
            }
        }),
{
    let path = part_path(key, index);
    let ghost tokens = seq![TokenView::Root, join_token(part_name_of(key@, index))];
    proof {
        crate::path_exp::lemma_build_expr_push(seq![TokenView::Root], join_token(part_name_of(key@, index)));
        let root = seq![TokenView::Root];
        assert(root.drop_last() =~= Seq::<TokenView>::empty());
        assert(build_expr_of(Seq::<TokenView>::empty()) =~= Seq::<char>::empty());
        assert(build_expr_of(root) =~= seq!['$']);
        assert(root.push(join_token(part_name_of(key@, index))) =~= tokens);
        assert(path@.tokens =~= tokens);
    }
    let mut results = match_part_headers(&path, headers);
    let mut failures: Vec<String> = Vec::new();
    match matcher_outcome {
        Some(Ok(_)) => {},
        Some(Err(ms)) => {
            let mut j: usize = 0;
            while j < ms.len()
                invariant
                    j <= ms.len(),
                    strings_view(failures@) == strings_view(ms@.take(j as int)),
                decreases ms.len() - j,
            {
                let ghost prev = failures@;
                let x = ms[j].clone();
                failures.push(x);
                assert(strings_view(failures@) =~= strings_view(prev).push(ms@[j as int]@));
                assert(ms@.take(j + 1) =~= ms@.take(j as int).push(ms@[j as int]));
                assert(strings_view(ms@.take(j + 1)) =~= strings_view(ms@.take(j as int)).push(ms@[j as int]@));
                j = j + 1;
            }
            assert(ms@.take(ms.len() as int) =~= ms@);
        },
        None => {
            if let Some(e) = equality_failure {
                let mut msg = String::new();
                push_str(&mut msg, "MIME part '");
                push_str(&mut msg, key);
                push_str(&mut msg, "': ");
                push_str(&mut msg, e.as_str());
                failures.push(msg);
            }
        },
    }
    let ghost fs = field_failures(key@, outcome_strings_view(*matcher_outcome), opt_string_view(*equality_failure));
    assert(strings_view(failures@) =~= fs);
    let ghost start = mismatches_view(results@);
    let ghost whole = field_mismatches_of(
        key@,
        index,
        expected@,
        actual@,
        headers@,
        outcome_strings_view(*matcher_outcome),
        opt_string_view(*equality_failure),
    );
    let mut j: usize = 0;
    assert(whole.take(start.len() as int) =~= start);
    while j < failures.len()
        invariant
            j <= failures.len(),
            strings_view(failures@) == fs,
            fs == field_failures(key@, outcome_strings_view(*matcher_outcome), opt_string_view(*equality_failure)),
            path@.expr == build_expr_of(tokens),
            tokens == seq![TokenView::Root, join_token(part_name_of(key@, index))],
            start == headers_mismatches_of(tokens, headers@),
            whole == field_mismatches_of(
                key@,
                index,
                expected@,
                actual@,
                headers@,
                outcome_strings_view(*matcher_outcome),
                opt_string_view(*equality_failure),
            ),
            whole.len() == start.len() + fs.len(),
            mismatches_view(results@) == whole.take(start.len() + j),
        decreases failures.len() - j,
    {
        let ghost prev = results@;
        let x = BodyMismatch {
            path: path.to_string(),
            expected: Some(copy_bytes(expected)),
            actual: Some(copy_bytes(actual)),
            mismatch: failures[j].clone(),
        };
        let ghost xv = x@;
        results.push(x);
        assert(strings_view(failures@)[j as int] == failures@[j as int]@);
        assert(whole[start.len() + j] == xv);
        assert(mismatches_view(results@) =~= mismatches_view(prev).push(xv));
        assert(whole.take(start.len() + j + 1) =~= whole.take(start.len() + j).push(whole[start.len() + j]));
        j = j + 1;
    }
    assert(whole.take(start.len() + j) =~= whole);
    if results.len() == 0 {
        Ok(())
    } else {
        Err(results)
    }
}

/// A mismatch between the content types of two parts.
pub struct BodyTypeMismatch {
    pub expected_type: String,
    pub actual_type: String,
    pub mismatch: String,
    pub expected: Option<Vec<u8>>,
    pub actual: Option<Vec<u8>>,
}

/// A mismatch found in comparing two parts: of their contents (or headers),
/// or of their content types.
pub enum PartMismatch {
    Body(BodyMismatch),
    BodyType(BodyTypeMismatch),
}

/// The contents of a `PartMismatch`; a content-type mismatch is given by its
/// expected and actual types, message, and expected and actual data.
pub enum PartMismatchView {
    Body(BodyMismatchView),
    BodyType(Seq<char>, Seq<char>, Seq<char>, Option<Seq<u8>>, Option<Seq<u8>>),
}

pub open spec fn part_mismatch_view(m: PartMismatch) -> PartMismatchView {
    match m {
        PartMismatch::Body(b) => PartMismatchView::Body(b@),
        PartMismatch::BodyType(t) => PartMismatchView::BodyType(
            t.expected_type@,
            t.actual_type@,
            t.mismatch@,
            bytes_view(t.expected),
            bytes_view(t.actual),
        ),
    }
}

pub open spec fn part_mismatches_view(v: Seq<PartMismatch>) -> Seq<PartMismatchView> {
    v.map_values(|m: PartMismatch| part_mismatch_view(m))
}

pub open spec fn as_part_mismatches(v: Seq<BodyMismatchView>) -> Seq<PartMismatchView> {
    v.map_values(|m: BodyMismatchView| PartMismatchView::Body(m))
}

/// The mismatches of comparing two file parts: those of their headers; then,
/// where their content types are compatible, those of comparing their
/// contents, reported under the part's name; otherwise one content-type
/// mismatch.
pub open spec fn file_part_mismatches_of(
    key: Seq<char>,
    index: usize,
    expected: Seq<u8>,
    actual: Seq<u8>,
    expected_type: Seq<char>,
    actual_type: Seq<char>,
    compatible: bool,
    headers: Seq<PartHeader>,
    contents: Seq<BodyMismatchView>,
) -> Seq<PartMismatchView> {
    let tokens = seq![TokenView::Root, join_token(part_name_of(key, index))];
    let name = part_name_of(key, index);
    as_part_mismatches(headers_mismatches_of(tokens, headers)) + if compatible {
        as_part_mismatches(prefixed_mismatches(name, contents))
    } else {
        seq![
            PartMismatchView::BodyType(
                expected_type,
                actual_type,
                "MIME part '"@ + name + "': Expected a body of '"@ + expected_type
                    + "' but the actual content type was '"@ + actual_type + "'"@,
                Some(expected),
                Some(actual),
            ),
        ]
    }
}

fn push_body_mismatches(out: &mut Vec<PartMismatch>, ms: &Vec<BodyMismatch>)
    ensures
        part_mismatches_view(final(out)@) == part_mismatches_view(old(out)@) + as_part_mismatches(
            mismatches_view(ms@),
        ),
{
    let mut i: usize = 0;
    assert(ms@.take(0) =~= Seq::<BodyMismatch>::empty());
    assert(part_mismatches_view(out@) =~= part_mismatches_view(old(out)@) + as_part_mismatches(
        mismatches_view(ms@.take(0)),
    ));
    while i < ms.len()
        invariant
            i <= ms.len(),
            part_mismatches_view(out@) == part_mismatches_view(old(out)@) + as_part_mismatches(
                mismatches_view(ms@.take(i as int)),
            ),
        decreases ms.len() - i,
    {
        let ghost prev = out@;
        let m = copy_mismatch(&ms[i]);
        let ghost mv = m@;
        out.push(PartMismatch::Body(m));
        assert(part_mismatches_view(out@) =~= part_mismatches_view(prev).push(PartMismatchView::Body(mv)));
        assert(ms@.take(i + 1) =~= ms@.take(i as int).push(ms@[i as int]));
        assert(as_part_mismatches(mismatches_view(ms@.take(i + 1))) =~= as_part_mismatches(
            mismatches_view(ms@.take(i as int)),
        ).push(PartMismatchView::Body(ms@[i as int]@)));
        i = i + 1;
    }
    assert(ms@.take(ms.len() as int) =~= ms@);
}

/// Compares two file parts of a multipart body, the part named `key` (or at
/// position `index` where the key is empty): their headers, and then either
/// their contents, where their content types are compatible (`contents` are
/// the mismatches of comparing the decoded contents, with the matching rules
/// below the part's path moved to the root; `rebase_rule_path` moves them),
/// or their content types, given as displayed.
pub fn match_file_part(
    key: &str,
    index: usize,
    expected: &Vec<u8>,
    actual: &Vec<u8>,
    expected_type: &str,
    actual_type: &str,
    content_types_compatible: bool,
    headers: &Vec<PartHeader>,
    contents: &Vec<BodyMismatch>,
) -> (r: Result<(), Vec<PartMismatch>>)
    ensures
        ({
            let m = file_part_mismatches_of(
                key@,
                index,
                expected@,
                actual@,
                expected_type@,
                actual_type@,
                content_types_compatible,
                headers@,
                mismatches_view(contents@),
            );
            match r {
                Ok(_) => m.len() == 0,
                Err(v) => m.len() > 0 && part_mismatches_view(v@) == m,
            }
        }),
{
    let path = part_path(key, index);
    let name = part_name(key, index);
    let ghost tokens = seq![TokenView::Root, join_token(part_name_of(key@, index))];
    proof {
        crate::path_exp::lemma_build_expr_push(seq![TokenView::Root], join_token(part_name_of(key@, index)));
        let root = seq![TokenView::Root];
        assert(root.drop_last() =~= Seq::<TokenView>::empty());
        assert(build_expr_of(Seq::<TokenView>::empty()) =~= Seq::<char>::empty());
        assert(build_expr_of(root) =~= seq!['$']);
        assert(root.push(join_token(part_name_of(key@, index))) =~= tokens);
        assert(path@.tokens =~= tokens);
    }
    let header_mismatches = match_part_headers(&path, headers);
    let mut results: Vec<PartMismatch> = Vec::new();
    assert(part_mismatches_view(results@) =~= Seq::<PartMismatchView>::empty());
    push_body_mismatches(&mut results, &header_mismatches);
    let ghost after_headers = part_mismatches_view(results@);
    if content_types_compatible {
        let prefixed = prefix_part_mismatches(name.as_str(), contents);
        push_body_mismatches(&mut results, &prefixed);
    } else {
        let mut msg = String::new();
        push_str(&mut msg, "MIME part '");
        push_str(&mut msg, name.as_str());
        push_str(&mut msg, "': Expected a body of '");
        push_str(&mut msg, expected_type);
        push_str(&mut msg, "' but the actual content type was '");
        push_str(&mut msg, actual_type);
        push_str(&mut msg, "'");
        let t = BodyTypeMismatch {
            expected_type: expected_type.to_owned(),
            actual_type: actual_type.to_owned(),
            mismatch: msg,
            expected: Some(copy_bytes(expected)),
            actual: Some(copy_bytes(actual)),
        };
        let ghost tv = part_mismatch_view(PartMismatch::BodyType(t));
        results.push(PartMismatch::BodyType(t));
        assert(part_mismatches_view(results@) =~= after_headers.push(tv));
    }
    assert(part_mismatches_view(results@) =~= file_part_mismatches_of(
        key@,
        index,
        expected@,
        actual@,
        expected_type@,
        actual_type@,
        content_types_compatible,
        headers@,
        mismatches_view(contents@),
    ));
    if results.len() == 0 {
        Ok(())
    } else {
        Err(results)
    }
}

pub open spec fn opt_string_view(o: Option<String>) -> Option<Seq<char>> {
    match o {
        Some(s) => Some(s@),
        None => None,
    }
}

/// What decoding bytes as base64 with the standard alphabet and padding
/// gives: the decoded bytes, or the message of the decode error.
pub uninterp spec fn base64_standard_decoded(data: Seq<u8>) -> Result<Seq<u8>, Seq<char>>;

/// `base64::engine::general_purpose::STANDARD.decode`: decodes base64 text with
/// the standard alphabet and padding. The decoding itself is only named; the
/// error is given by its displayed message.
#[verifier::external_body]
pub(crate) fn base64_decode(data: &[u8]) -> (r: Result<Vec<u8>, String>)
    ensures
        match r {
            Ok(v) => base64_standard_decoded(data@) == Ok::<Seq<u8>, Seq<char>>(v@),
            Err(e) => base64_standard_decoded(data@) == Err::<Seq<u8>, Seq<char>>(e@),
        },
{
    match base64::engine::general_purpose::STANDARD.decode(data) {
        Ok(v) => Ok(v),
        Err(e) => Err(e.to_string()),
    }
}

/// The data of a part once its transfer encoding is undone: decoded where the
/// encoding is base64 (in any case), else as it is.
pub open spec fn decoded_part_data(encoding: Option<Seq<char>>, data: Seq<u8>) -> Result<Seq<u8>, Seq<char>> {
    match encoding {
        Some(e) => if unicode_lowercase(e) == "base64"@ {
            base64_standard_decoded(data)
        } else {
            Ok(data)
        },
        None => Ok(data),
    }
}

/// The data of a part with the transfer encoding given by its
/// `Content-Transfer-Encoding` header (where it has one) undone: base64 data
/// is decoded (or the decode error given), data in any other encoding is
/// taken as it is.
pub fn decode_part_data(transfer_encoding: Option<&str>, data: &Vec<u8>) -> (r: Result<Vec<u8>, String>)
    ensures
        match r {
            Ok(v) => decoded_part_data(crate::mock_server::opt_str_view(transfer_encoding), data@)
                == Ok::<Seq<u8>, Seq<char>>(v@),
            Err(e) => decoded_part_data(crate::mock_server::opt_str_view(transfer_encoding), data@)
                == Err::<Seq<u8>, Seq<char>>(e@),
        },
        match transfer_encoding {
            Some(enc) => all_ascii(enc@) ==> unicode_lowercase(enc@) == enc@.map_values(
                |c: char| ascii_lower(c),
            ),
            None => true,
        },
{
    match transfer_encoding {
        Some(encoding) => {
            let lower = str_to_lowercase(encoding);
            if str_equal(lower.as_str(), "base64") {
                base64_decode(data.as_slice())
            } else {
                Ok(copy_bytes(data))
            }
        },
        None => Ok(copy_bytes(data)),
    }
}

} // verus!
