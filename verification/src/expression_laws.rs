//! Laws of merging value types and matching rule definitions.
use vstd::prelude::*;
use crate::expressions::{
    merged_definition, merged_type, value_type_rank, DefinitionView, EntryView, ValueType,
};

verus! {

/// Merging value types does not depend on the order of the two.
pub proof fn law_type_merge_commutative(a: ValueType, b: ValueType)
    ensures
        merged_type(a, b) == merged_type(b, a),
{
}

/// Merging value types groups freely.
pub proof fn law_type_merge_associative(a: ValueType, b: ValueType, c: ValueType)
    ensures
        merged_type(merged_type(a, b), c) == merged_type(a, merged_type(b, c)),
{
}

/// A value type merged with itself is unchanged.
pub proof fn law_type_merge_idempotent(a: ValueType)
    ensures
        merged_type(a, a) == a,
{
}

/// `Unknown` is the neutral type of a merge, and `String` absorbs every type.
pub proof fn law_type_merge_unknown_and_string(a: ValueType)
    ensures
        merged_type(ValueType::Unknown, a) == a,
        merged_type(a, ValueType::Unknown) == a,
        merged_type(ValueType::String, a) == ValueType::String,
        merged_type(a, ValueType::String) == ValueType::String,
{
}

/// A merge is one of its two types, the higher in rank.
pub proof fn law_type_merge_is_higher(a: ValueType, b: ValueType)
    ensures
        merged_type(a, b) == a || merged_type(a, b) == b,
        value_type_rank(merged_type(a, b)) >= value_type_rank(a),
        value_type_rank(merged_type(a, b)) >= value_type_rank(b),
{
}

/// The definition with no value, no type, no rules and no generator.
pub open spec fn empty_definition() -> DefinitionView {
    DefinitionView {
        value: Seq::empty(),
        value_type: ValueType::Unknown,
        rules: Seq::<EntryView>::empty(),
        generator: None,
    }
}

/// Merging with the empty definition, on either side, changes nothing.
pub proof fn law_definition_merge_identity(d: DefinitionView)
    ensures
        merged_definition(empty_definition(), d) == d,
        merged_definition(d, empty_definition()) == d,
{
    assert(Seq::<EntryView>::empty() + d.rules =~= d.rules);
    assert(d.rules + Seq::<EntryView>::empty() =~= d.rules);
    if d.value.len() == 0 {
        assert(d.value =~= Seq::<char>::empty());
    }
}

/// Merging definitions groups freely: merging a list of definitions from the
/// left gives the same as from the right.
pub proof fn law_definition_merge_associative(a: DefinitionView, b: DefinitionView, c: DefinitionView)
    ensures
        merged_definition(merged_definition(a, b), c) == merged_definition(a, merged_definition(b, c)),
{
    assert((a.rules + b.rules) + c.rules =~= a.rules + (b.rules + c.rules));
}

/// A merge keeps the rules of both definitions, the first one's first.
pub proof fn law_definition_merge_keeps_rules(a: DefinitionView, b: DefinitionView)
    ensures
        merged_definition(a, b).rules.len() == a.rules.len() + b.rules.len(),
        merged_definition(a, b).rules.subrange(0, a.rules.len() as int) == a.rules,
        merged_definition(a, b).rules.subrange(a.rules.len() as int, (a.rules.len() + b.rules.len()) as int) == b.rules,
{
    assert((a.rules + b.rules).subrange(0, a.rules.len() as int) =~= a.rules);
    assert((a.rules + b.rules).subrange(a.rules.len() as int, (a.rules.len() + b.rules.len()) as int) =~= b.rules);
}

} // verus!
