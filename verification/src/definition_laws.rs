//! Laws of the matching rule definition parser.
use vstd::prelude::*;
use crate::definition_lexer::{followed_by_dot, lex_next, lex_slice, LexState, MatcherDefinitionToken};
use crate::expressions::ValueType;
use crate::definition_spec::{
    is_number_token, trim_quotes, p_definition, p_definition_exp, p_primitive, parse_definition, raw_from, raw_string,
    start_state,
    starts_matcher_definition,
};

verus! {

/// A definition keyword: a token that starts a matching rule definition.
pub open spec fn is_definition_keyword(t: MatcherDefinitionToken) -> bool {
    t is Matching || t is NotEmpty || t is EachKey || t is EachValue || t is AtLeast || t is AtMost
}

/// Every expression that parses is non-empty and starts with a definition
/// keyword (`matching`, `notEmpty`, `eachKey`, `eachValue`, `atLeast` or
/// `atMost`).
pub proof fn law_parsed_expression_starts_with_keyword(v: Seq<char>)
    requires
        parse_definition(v) is Ok,
    ensures
        v.len() > 0,
        lex_next(start_state(v)).1 matches Some(Ok(t)) && is_definition_keyword(t),
{
    let st = start_state(v);
    assert(p_definition(st, v).1 is Ok);
    assert(p_definition_exp(st, v).1 is Ok);
}

/// Every expression that parses is recognised as starting with a matching
/// rule definition (as `is_matcher_def` tells).
pub proof fn law_parsed_expression_is_recognised(v: Seq<char>)
    requires
        parse_definition(v) is Ok,
    ensures
        starts_matcher_definition(v),
{
    law_parsed_expression_starts_with_keyword(v);
}

proof fn lemma_raw_from_plain(raw: Seq<char>, i: int, acc: Seq<char>, span: (int, int), v: Seq<char>)
    requires
        0 <= i <= raw.len(),
        forall|k: int| i <= k < raw.len() ==> raw[k] != '\\',
    ensures
        raw_from(raw, i, acc, span, v) == Ok::<Seq<char>, Seq<char>>(acc + raw.subrange(i, raw.len() as int)),
    decreases raw.len() - i,
{
    if i < raw.len() {
        lemma_raw_from_plain(raw, i + 1, acc.push(raw[i]), span, v);
        assert(acc.push(raw[i]) + raw.subrange(i + 1, raw.len() as int) =~= acc + raw.subrange(i, raw.len() as int));
    } else {
        assert(acc + raw.subrange(i, raw.len() as int) =~= acc);
    }
}

/// The text of a string without backslashes is taken as it is: there is
/// nothing to unescape.
pub proof fn law_text_without_escapes_is_unchanged(raw: Seq<char>, span: (int, int), v: Seq<char>)
    requires
        forall|k: int| 0 <= k < raw.len() ==> raw[k] != '\\',
    ensures
        raw_string(raw, span, v) == Ok::<Seq<char>, Seq<char>>(raw),
{
    lemma_raw_from_plain(raw, 0, Seq::empty(), span, v);
    assert(Seq::<char>::empty() + raw.subrange(0, raw.len() as int) =~= raw);
}

/// A boolean literal is the word `true` or `false`.
pub proof fn law_boolean_literals_are_true_or_false(st: LexState)
    ensures
        lex_next(st).1 == Some(Ok::<MatcherDefinitionToken, ()>(MatcherDefinitionToken::Boolean)) ==> (lex_slice(
            lex_next(st).0,
        ) == "true"@ || lex_slice(lex_next(st).0) == "false"@),
{
}

/// The type of a primitive value follows the kind of its literal: a boolean
/// literal gives its text as a `Boolean` value, a string literal a `String`
/// value, a decimal literal its text as a `Decimal` value, `null` an empty
/// value of unknown type, and a number an `Integer` value (its text), or a
/// `Decimal` value where a fraction follows it; none
/// of them carries a generator.
pub proof fn law_primitive_value_type_follows_literal(st: LexState, v: Seq<char>, already_called: bool)
    requires
        0 <= st.end,
    ensures
        ({
            let (st1, t) = lex_next(st);
            let r = p_primitive(st, v, already_called).1;
            &&& t == Some(Ok::<MatcherDefinitionToken, ()>(MatcherDefinitionToken::Boolean)) ==> r == Ok::<
                (Seq<char>, ValueType, Option<crate::expressions::GeneratorView>),
                Seq<char>,
            >((lex_slice(st1), ValueType::Boolean, None))
            &&& t == Some(Ok::<MatcherDefinitionToken, ()>(MatcherDefinitionToken::String)) ==> (r matches Ok(
                p,
            ) && p.0 == trim_quotes(lex_slice(st1)) && p.1 == ValueType::String && p.2 is None)
            &&& t == Some(Ok::<MatcherDefinitionToken, ()>(MatcherDefinitionToken::Decimal)) ==> r == Ok::<
                (Seq<char>, ValueType, Option<crate::expressions::GeneratorView>),
                Seq<char>,
            >((lex_slice(st1), ValueType::Decimal, None))
            &&& t == Some(Ok::<MatcherDefinitionToken, ()>(MatcherDefinitionToken::Null)) ==> r == Ok::<
                (Seq<char>, ValueType, Option<crate::expressions::GeneratorView>),
                Seq<char>,
            >((Seq::empty(), ValueType::Unknown, None))
            &&& (t matches Some(Ok(tok)) && is_number_token(tok)) ==> (r matches Ok(p) ==> p.2 is None && (if followed_by_dot(
                st1,
            ) {
                p.1 == ValueType::Decimal
            } else {
                p.1 == ValueType::Integer && p.0 == lex_slice(st1)
            }))
            &&& (t matches Some(Ok(tok)) && is_number_token(tok) && !followed_by_dot(st1)) ==> r is Ok
        }),
{
}

} // verus!
