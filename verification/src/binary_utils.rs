//! Matching of binary (octet stream) bodies.
//!
//! The rules that apply at the root of a body are evaluated by the caller; this
//! module decides, from their outcomes and the two bodies, which mismatches are
//! reported and what they say.
use vstd::prelude::*;

use crate::text::{decimal, digit_char, push_char, push_str, usize_to_decimal};
use crate::json_utils::{json_view, JsonValue, JsonView};
use crate::multipart::{base64_decode, base64_standard_decoded};
use vstd::utf8::encode_utf8;

verus! {

/// How the outcomes of several rules are combined.
#[derive(Clone, Copy, PartialEq, Eq, Debug)]
pub enum RuleLogic {
    /// Every rule must match.
    And,
    /// One rule matching is enough.
    Or,
}

/// The rules defined at the root of a body, with the outcome of each rule on
/// the two bodies (in the order of the rules): `Ok` where it matched, the
/// failure message where it did not.
pub struct RootMatchers {
    pub rule_logic: RuleLogic,
    pub outcomes: Vec<Result<(), String>>,
}

/// A mismatch between two bodies.
pub struct BodyMismatch {
    pub path: String,
    pub expected: Option<Vec<u8>>,
    pub actual: Option<Vec<u8>>,
    pub mismatch: String,
}

/// The contents of a `BodyMismatch`.
pub struct BodyMismatchView {
    pub path: Seq<char>,
    pub expected: Option<Seq<u8>>,
    pub actual: Option<Seq<u8>>,
    pub mismatch: Seq<char>,
}

pub open spec fn bytes_view(o: Option<Vec<u8>>) -> Option<Seq<u8>> {
    match o {
        Some(v) => Some(v@),
        None => None,
    }
}

impl View for BodyMismatch {
    type V = BodyMismatchView;

    open spec fn view(&self) -> BodyMismatchView {
        BodyMismatchView {
            path: self.path@,
            expected: bytes_view(self.expected),
            actual: bytes_view(self.actual),
            mismatch: self.mismatch@,
        }
    }
}

pub open spec fn outcome_view(o: Result<(), String>) -> Result<(), Seq<char>> {
    match o {
        Ok(_) => Ok(()),
        Err(m) => Err(m@),
    }
}

pub open spec fn outcomes_view(v: Seq<Result<(), String>>) -> Seq<Result<(), Seq<char>>> {
    v.map_values(|o: Result<(), String>| outcome_view(o))
}

impl View for RootMatchers {
    type V = (RuleLogic, Seq<Result<(), Seq<char>>>);

    open spec fn view(&self) -> (RuleLogic, Seq<Result<(), Seq<char>>>) {
        (self.rule_logic, outcomes_view(self.outcomes@))
    }
}

pub open spec fn matchers_view(m: Option<RootMatchers>) -> Option<(RuleLogic, Seq<Result<(), Seq<char>>>)> {
    match m {
        Some(r) => Some(r@),
        None => None,
    }
}

pub open spec fn mismatches_view(v: Seq<BodyMismatch>) -> Seq<BodyMismatchView> {
    v.map_values(|m: BodyMismatch| m@)
}

/// The failure messages among the outcomes, in order.
pub open spec fn error_messages(o: Seq<Result<(), Seq<char>>>) -> Seq<Seq<char>>
    decreases o.len(),
{
    if o.len() == 0 {
        Seq::empty()
    } else {
        let rest = error_messages(o.drop_last());
        match o.last() {
            Ok(_) => rest,
            Err(m) => rest.push(m),
        }
    }
}

/// Whether every outcome is a failure.
pub open spec fn all_failed(o: Seq<Result<(), Seq<char>>>) -> bool {
    forall|i: int| 0 <= i < o.len() ==> (#[trigger] o[i]) is Err
}

/// The lower-case hexadecimal digit for a value below 16.
pub open spec fn hex_char(d: nat) -> char {
    if d < 10 {
        digit_char(d)
    } else if d == 10 {
        'a'
    } else if d == 11 {
        'b'
    } else if d == 12 {
        'c'
    } else if d == 13 {
        'd'
    } else if d == 14 {
        'e'
    } else {
        'f'
    }
}

/// Each byte as two lower-case hexadecimal digits.
pub open spec fn hex_of(b: Seq<u8>) -> Seq<char>
    decreases b.len(),
{
    if b.len() == 0 {
        Seq::empty()
    } else {
        let x = b.last();
        hex_of(b.drop_last()) + seq![hex_char((x / 16) as nat), hex_char((x % 16) as nat)]
    }
}

/// The first `max` bytes (all of them where there are fewer) in hexadecimal.
pub open spec fn displayed_bytes(b: Seq<u8>, max: nat) -> Seq<char> {
    if b.len() <= max {
        hex_of(b)
    } else {
        hex_of(b.take(max as int))
    }
}

/// The message of the mismatch between two bodies that differ where no rule applies.
pub open spec fn unequal_bodies_message(
    expected: Seq<u8>,
    expected_ct: Seq<char>,
    actual: Seq<u8>,
    actual_ct: Seq<char>,
) -> Seq<char> {
    "Actual body ["@ + actual_ct + ", "@ + decimal(actual.len()) + " bytes, starting with "@
        + displayed_bytes(actual, 32) + "] is not equal to the expected body ["@ + expected_ct
        + ", "@ + decimal(expected.len()) + " bytes, starting with "@ + displayed_bytes(
        expected,
        32,
    ) + "]"@
}

/// A mismatch at the root of the body.
pub open spec fn root_mismatch(expected: Seq<u8>, actual: Seq<u8>, message: Seq<char>) -> BodyMismatchView {
    BodyMismatchView {
        path: "$"@,
        expected: Some(expected),
        actual: Some(actual),
        mismatch: message,
    }
}

/// One root mismatch for each message.
pub open spec fn root_mismatches(expected: Seq<u8>, actual: Seq<u8>, messages: Seq<Seq<char>>) -> Seq<BodyMismatchView> {
    messages.map_values(|m: Seq<char>| root_mismatch(expected, actual, m))
}

/// The mismatches reported for two binary bodies: where rules are defined at the
/// root, the failures of those rules (with `And` every failure, with `Or` every
/// failure when all of them failed, nothing otherwise), or one mismatch when
/// the list of rules is empty; where no rule is defined, one mismatch when the
/// bodies differ.
pub open spec fn octet_stream_mismatches(
    expected: Seq<u8>,
    expected_ct: Seq<char>,
    actual: Seq<u8>,
    actual_ct: Seq<char>,
    matchers: Option<(RuleLogic, Seq<Result<(), Seq<char>>>)>,
) -> Seq<BodyMismatchView> {
    match matchers {
        Some((logic, outcomes)) => {
            if outcomes.len() == 0 {
                seq![root_mismatch(expected, actual, "No matcher found for category 'body' and path '$'"@)]
            } else {
                match logic {
                    RuleLogic::And => root_mismatches(expected, actual, error_messages(outcomes)),
                    RuleLogic::Or => if all_failed(outcomes) {
                        root_mismatches(expected, actual, error_messages(outcomes))
                    } else {
                        Seq::empty()
                    },
                }
            }
        },
        None => if expected == actual {
            Seq::empty()
        } else {
            seq![
                root_mismatch(
                    expected,
                    actual,
                    unequal_bodies_message(expected, expected_ct, actual, actual_ct),
                ),
            ]
        },
    }
}

/// Two equal bodies match where no rule is defined at the root, whatever
/// their content types.
pub proof fn law_equal_bodies_match_without_rules(body: Seq<u8>, expected_ct: Seq<char>, actual_ct: Seq<char>)
    ensures
        octet_stream_mismatches(body, expected_ct, body, actual_ct, None).len() == 0,
{
}

/// With `Or`, the bodies match as soon as one of the rules at the root
/// matched.
pub proof fn law_one_passing_rule_is_enough_with_or(
    expected: Seq<u8>,
    expected_ct: Seq<char>,
    actual: Seq<u8>,
    actual_ct: Seq<char>,
    outcomes: Seq<Result<(), Seq<char>>>,
    i: int,
)
    requires
        0 <= i < outcomes.len(),
        outcomes[i] is Ok,
    ensures
        octet_stream_mismatches(expected, expected_ct, actual, actual_ct, Some((RuleLogic::Or, outcomes))).len()
            == 0,
{
    assert(!all_failed(outcomes));
}

/// With `And`, the bodies match exactly when every rule at the root matched
/// (and there is at least one).
pub proof fn law_every_rule_must_pass_with_and(
    expected: Seq<u8>,
    expected_ct: Seq<char>,
    actual: Seq<u8>,
    actual_ct: Seq<char>,
    outcomes: Seq<Result<(), Seq<char>>>,
)
    requires
        outcomes.len() > 0,
    ensures
        octet_stream_mismatches(expected, expected_ct, actual, actual_ct, Some((RuleLogic::And, outcomes))).len()
            == 0 <==> forall|i: int| 0 <= i < outcomes.len() ==> (#[trigger] outcomes[i]) is Ok,
{
    lemma_error_messages_empty(outcomes);
}

/// There are no failure messages exactly when every outcome is a success.
proof fn lemma_error_messages_empty(o: Seq<Result<(), Seq<char>>>)
    ensures
        error_messages(o).len() == 0 <==> forall|i: int| 0 <= i < o.len() ==> (#[trigger] o[i]) is Ok,
    decreases o.len(),
{
    if o.len() > 0 {
        lemma_error_messages_empty(o.drop_last());
        assert forall|i: int| 0 <= i < o.len() - 1 implies #[trigger] o.drop_last()[i] == o[i] by {}
        if error_messages(o).len() == 0 {
            assert forall|i: int| 0 <= i < o.len() implies (#[trigger] o[i]) is Ok by {
                if i < o.len() - 1 {
                    assert(o.drop_last()[i] == o[i]);
                }
            }
        }
        if forall|i: int| 0 <= i < o.len() ==> (#[trigger] o[i]) is Ok {
            assert forall|i: int| 0 <= i < o.drop_last().len() implies (#[trigger] o.drop_last()[i]) is Ok by {
                assert(o[i] is Ok);
            }
            assert(o[o.len() - 1] is Ok);
        }
    }
}

fn hex_digit(d: u8) -> (c: char)
    requires
        d < 16,
    ensures
        c == hex_char(d as nat),
{
    match d {
        0 => '0',
        1 => '1',
        2 => '2',
        3 => '3',
        4 => '4',
        5 => '5',
        6 => '6',
        7 => '7',
        8 => '8',
        9 => '9',
        10 => 'a',
        11 => 'b',
        12 => 'c',
        13 => 'd',
        14 => 'e',
        _ => 'f',
    }
}

/// The first `max_bytes` bytes in lower-case hexadecimal, two digits a byte.
pub fn display_bytes(bytes: &Vec<u8>, max_bytes: usize) -> (s: String)
    ensures
        s@ == displayed_bytes(bytes@, max_bytes as nat),
{
    let n = if bytes.len() <= max_bytes { bytes.len() } else { max_bytes };
    let mut s = String::new();
    let mut i: usize = 0;
    assert(bytes@.take(0) =~= Seq::<u8>::empty());
    while i < n
        invariant
            n <= bytes.len(),
            i <= n,
            s@ == hex_of(bytes@.take(i as int)),
        decreases n - i,
    {
        let b = bytes[i];
        push_char(&mut s, hex_digit(b / 16));
        push_char(&mut s, hex_digit(b % 16));
        assert(bytes@.take(i + 1).drop_last() =~= bytes@.take(i as int));
        i = i + 1;
        assert(s@ =~= hex_of(bytes@.take(i as int)));
    }
    assert(bytes@.take(bytes@.len() as int) =~= bytes@);
    s
}

/// A copy of some bytes.
pub(crate) fn copy_bytes(v: &Vec<u8>) -> (r: Vec<u8>)
    ensures
        r@ == v@,
{
    let mut r: Vec<u8> = Vec::new();
    let mut i: usize = 0;
    while i < v.len()
        invariant
            i <= v.len(),
            r@ == v@.take(i as int),
        decreases v.len() - i,
    {
        r.push(v[i]);
        i = i + 1;
        assert(r@ =~= v@.take(i as int));
    }
    assert(v@.take(v@.len() as int) =~= v@);
    r
}

fn mismatch_at_root(expected: &Vec<u8>, actual: &Vec<u8>, message: String) -> (m: BodyMismatch)
    ensures
        m@ == root_mismatch(expected@, actual@, message@),
{
    BodyMismatch {
        path: "$".to_owned(),
        expected: Some(copy_bytes(expected)),
        actual: Some(copy_bytes(actual)),
        mismatch: message,
    }
}

/// One root mismatch for each failed outcome, in order.
fn rule_failures(expected: &Vec<u8>, actual: &Vec<u8>, outcomes: &Vec<Result<(), String>>) -> (r: Vec<BodyMismatch>)
    ensures
        mismatches_view(r@) == root_mismatches(expected@, actual@, error_messages(outcomes_view(outcomes@))),
{
    let ghost o = outcomes_view(outcomes@);
    let mut r: Vec<BodyMismatch> = Vec::new();
    let mut i: usize = 0;
    assert(o.take(0) =~= Seq::<Result<(), Seq<char>>>::empty());
    assert(mismatches_view(r@) =~= root_mismatches(expected@, actual@, error_messages(o.take(0))));
    while i < outcomes.len()
        invariant
            i <= outcomes.len(),
            o == outcomes_view(outcomes@),
            mismatches_view(r@) == root_mismatches(expected@, actual@, error_messages(o.take(i as int))),
        decreases outcomes.len() - i,
    {
        assert(o.take(i + 1).drop_last() =~= o.take(i as int));
        assert(o.take(i + 1).last() == outcome_view(outcomes@[i as int]));
        match &outcomes[i] {
            Ok(_) => {},
            Err(message) => {
                let ghost before = r@;
                let ghost prev = error_messages(o.take(i as int));
                let m = mismatch_at_root(expected, actual, message.clone());
                r.push(m);
                assert(error_messages(o.take(i + 1)) == prev.push(message@));
                assert(root_mismatches(expected@, actual@, prev.push(message@)) =~= root_mismatches(
                    expected@,
                    actual@,
                    prev,
                ).push(root_mismatch(expected@, actual@, message@)));
                assert(mismatches_view(r@) =~= mismatches_view(before).push(r@.last()@));
                assert(mismatches_view(r@) =~= root_mismatches(
                    expected@,
                    actual@,
                    error_messages(o.take(i + 1)),
                ));
            },
        }
        i = i + 1;
    }
    assert(o.take(outcomes.len() as int) =~= o);
    r
}

/// Whether every outcome is a failure.
fn every_rule_failed(outcomes: &Vec<Result<(), String>>) -> (b: bool)
    ensures
        b == all_failed(outcomes_view(outcomes@)),
{
    let ghost o = outcomes_view(outcomes@);
    let mut i: usize = 0;
    while i < outcomes.len()
        invariant
            i <= outcomes.len(),
            o == outcomes_view(outcomes@),
            forall|j: int| 0 <= j < i ==> (#[trigger] o[j]) is Err,
        decreases outcomes.len() - i,
    {
        if outcomes[i].is_ok() {
            assert(o[i as int] is Ok);
            return false;
        }
        i = i + 1;
    }
    true
}

fn unequal_bodies(expected: &Vec<u8>, expected_ct: &str, actual: &Vec<u8>, actual_ct: &str) -> (s: String)
    ensures
        s@ == unequal_bodies_message(expected@, expected_ct@, actual@, actual_ct@),
{
    let mut s = String::new();
    push_str(&mut s, "Actual body [");
    push_str(&mut s, actual_ct);
    push_str(&mut s, ", ");
    push_str(&mut s, &usize_to_decimal(actual.len()));
    push_str(&mut s, " bytes, starting with ");
    push_str(&mut s, &display_bytes(actual, 32));
    push_str(&mut s, "] is not equal to the expected body [");
    push_str(&mut s, expected_ct);
    push_str(&mut s, ", ");
    push_str(&mut s, &usize_to_decimal(expected.len()));
    push_str(&mut s, " bytes, starting with ");
    push_str(&mut s, &display_bytes(expected, 32));
    push_str(&mut s, "]");
    assert(s@ =~= unequal_bodies_message(expected@, expected_ct@, actual@, actual_ct@));
    s
}

fn bytes_equal(a: &Vec<u8>, b: &Vec<u8>) -> (r: bool)
    ensures
        r == (a@ == b@),
{
    if a.len() != b.len() {
        return false;
    }
    let mut i: usize = 0;
    while i < a.len()
        invariant
            a.len() == b.len(),
            i <= a.len(),
            forall|j: int| 0 <= j < i ==> a@[j] == b@[j],
        decreases a.len() - i,
    {
        if a[i] != b[i] {
            return false;
        }
        i = i + 1;
    }
    assert(a@ =~= b@);
    true
}

/// Matches two binary bodies. `matchers` holds the rules defined at the root of
/// the body with their outcomes, or `None` where no rule is defined there;
/// `expected_ct` and `actual_ct` are the displayed content types of the two
/// parts.
pub fn match_octet_stream(
    expected: &Vec<u8>,
    expected_ct: &str,
    actual: &Vec<u8>,
    actual_ct: &str,
    matchers: &Option<RootMatchers>,
) -> (r: Result<(), Vec<BodyMismatch>>)
    ensures
        ({
            let m = octet_stream_mismatches(expected@, expected_ct@, actual@, actual_ct@, matchers_view(*matchers));
            match r {
                Ok(_) => m.len() == 0,
                Err(v) => m.len() > 0 && mismatches_view(v@) == m,
            }
        }),
{
    let ghost spec_result = octet_stream_mismatches(expected@, expected_ct@, actual@, actual_ct@, matchers_view(*matchers));
    let mut mismatches: Vec<BodyMismatch> = Vec::new();
    match matchers {
        Some(m) => {
            if m.outcomes.len() == 0 {
                let msg = "No matcher found for category 'body' and path '$'".to_owned();
                mismatches.push(mismatch_at_root(expected, actual, msg));
                assert(mismatches_view(mismatches@) =~= spec_result);
            } else {
                match m.rule_logic {
                    RuleLogic::And => {
                        mismatches = rule_failures(expected, actual, &m.outcomes);
                    },
                    RuleLogic::Or => {
                        if every_rule_failed(&m.outcomes) {
                            mismatches = rule_failures(expected, actual, &m.outcomes);
                        } else {
                            assert(mismatches_view(mismatches@) =~= spec_result);
                        }
                    },
                }
            }
        },
        None => {
            if !bytes_equal(expected, actual) {
                let msg = unequal_bodies(expected, expected_ct, actual, actual_ct);
                mismatches.push(mismatch_at_root(expected, actual, msg));
                assert(mismatches_view(mismatches@) =~= spec_result);
            } else {
                assert(mismatches_view(mismatches@) =~= spec_result);
            }
        },
    }
    if mismatches.len() == 0 {
        Ok(())
    } else {
        Err(mismatches)
    }
}

/// The bytes a JSON value holds as body data: a string is taken as base64
/// where it decodes, else as its UTF-8 bytes; any other value as the UTF-8
/// bytes of its JSON text.
pub open spec fn converted_data(data: JsonView, json_text: Seq<char>) -> Seq<u8> {
    match data {
        JsonView::String(s) => match base64_standard_decoded(encode_utf8(s)) {
            Ok(b) => b,
            Err(_) => encode_utf8(s),
        },
        _ => encode_utf8(json_text),
    }
}

/// The bytes a JSON value holds as body data (see `converted_data`).
/// `json_text` is the value's JSON text, which is written by the JSON
/// serialiser outside the library; it is read only where the value is not a
/// string.
pub fn convert_data(data: &JsonValue, json_text: &str) -> (r: Vec<u8>)
    ensures
        r@ == converted_data(json_view(*data), json_text@),
{
    match data {
        JsonValue::String(s) => {
            let bytes = s.as_str().as_bytes_vec();
            match base64_decode(bytes.as_slice()) {
                Ok(decoded) => decoded,
                Err(_) => bytes,
            }
        },
        _ => json_text.as_bytes_vec(),
    }
}

} // verus!
