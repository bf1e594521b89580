//! Matching rule definition expressions, such as `matching(type,'Name')`,
//! `notEmpty('x')`, `eachKey(...)`, `atLeast(2)`, and their parser.
use vstd::prelude::*;

verus! {

/// Type to associate with an expression element
#[derive(Debug, Copy, Clone, PartialEq, Eq, Structural)]
pub enum ValueType {
    Unknown,
    String,
    Number,
    Integer,
    Decimal,
    Boolean,
}

/// The order in which value types absorb one another when merged: a merge
/// keeps the higher of the two.
pub open spec fn value_type_rank(t: ValueType) -> nat {
    match t {
        ValueType::Unknown => 0,
        ValueType::Boolean => 1,
        ValueType::Number => 2,
        ValueType::Integer => 3,
        ValueType::Decimal => 4,
        ValueType::String => 5,
    }
}

/// The merge of two value types: the one of higher rank.
pub open spec fn merged_type(a: ValueType, b: ValueType) -> ValueType {
    if value_type_rank(a) >= value_type_rank(b) {
        a
    } else {
        b
    }
}

impl ValueType {
    /// Merge this value type with the other one
    pub fn merge(self, other: ValueType) -> (r: ValueType)
        ensures
            r == merged_type(self, other),
    {
        match (self, other) {
            (ValueType::String, ValueType::String) => ValueType::String,
            (ValueType::Number, ValueType::Number) => ValueType::Number,
            (ValueType::Number, ValueType::Boolean) => ValueType::Number,
            (ValueType::Number, ValueType::Unknown) => ValueType::Number,
            (ValueType::Number, ValueType::Integer) => ValueType::Integer,
            (ValueType::Number, ValueType::Decimal) => ValueType::Decimal,
            (ValueType::Number, ValueType::String) => ValueType::String,
            (ValueType::Integer, ValueType::Number) => ValueType::Integer,
            (ValueType::Integer, ValueType::Boolean) => ValueType::Integer,
            (ValueType::Integer, ValueType::Unknown) => ValueType::Integer,
            (ValueType::Integer, ValueType::Integer) => ValueType::Integer,
            (ValueType::Integer, ValueType::Decimal) => ValueType::Decimal,
            (ValueType::Integer, ValueType::String) => ValueType::String,
            (ValueType::Decimal, ValueType::Number) => ValueType::Decimal,
            (ValueType::Decimal, ValueType::Boolean) => ValueType::Decimal,
            (ValueType::Decimal, ValueType::Unknown) => ValueType::Decimal,
            (ValueType::Decimal, ValueType::Integer) => ValueType::Decimal,
            (ValueType::Decimal, ValueType::Decimal) => ValueType::Decimal,
            (ValueType::Decimal, ValueType::String) => ValueType::String,
            (ValueType::Boolean, ValueType::Number) => ValueType::Number,
            (ValueType::Boolean, ValueType::Integer) => ValueType::Integer,
            (ValueType::Boolean, ValueType::Decimal) => ValueType::Decimal,
            (ValueType::Boolean, ValueType::Unknown) => ValueType::Boolean,
            (ValueType::Boolean, ValueType::String) => ValueType::String,
            (ValueType::Boolean, ValueType::Boolean) => ValueType::Boolean,
            (ValueType::String, _) => ValueType::String,
            (_, _) => other,
        }
    }
}

/// The data type a provider state generator produces.
#[derive(Debug, Copy, Clone, PartialEq, Eq, Structural)]
pub enum DataType {
    RAW,
    STRING,
    DECIMAL,
    INTEGER,
    BOOLEAN,
}

/// The data type that values of a value type are generated as.
pub open spec fn data_type_of(t: ValueType) -> DataType {
    match t {
        ValueType::Unknown => DataType::RAW,
        ValueType::String => DataType::STRING,
        ValueType::Number => DataType::DECIMAL,
        ValueType::Integer => DataType::INTEGER,
        ValueType::Decimal => DataType::DECIMAL,
        ValueType::Boolean => DataType::BOOLEAN,
    }
}

impl From<ValueType> for DataType {
    fn from(t: ValueType) -> (r: DataType) {
        match t {
            ValueType::Unknown => DataType::RAW,
            ValueType::String => DataType::STRING,
            ValueType::Number => DataType::DECIMAL,
            ValueType::Integer => DataType::INTEGER,
            ValueType::Decimal => DataType::DECIMAL,
            ValueType::Boolean => DataType::BOOLEAN,
        }
    }
}

impl vstd::std_specs::convert::FromSpecImpl<ValueType> for DataType {
    open spec fn obeys_from_spec() -> bool {
        true
    }

    open spec fn from_spec(t: ValueType) -> DataType {
        data_type_of(t)
    }
}

/// One of two alternatives.
#[derive(Clone, Debug, PartialEq, Eq)]
pub enum Either<L, R> {
    Left(L),
    Right(R),
}

/// Reference to another attribute that defines the structure of the matching rule
#[derive(Clone, Debug, PartialEq, Eq)]
pub struct MatchingReference {
    /// Name of the attribute that the reference is to
    pub name: String,
}

/// Generators that a matching rule definition can carry.
#[derive(Clone, Debug, PartialEq, Eq)]
pub enum Generator {
    Date(Option<String>, Option<String>),
    Time(Option<String>, Option<String>),
    DateTime(Option<String>, Option<String>),
    ProviderStateGenerator(String, Option<DataType>),
}

/// Matching rules that a matching rule definition can produce.
#[derive(Debug, PartialEq, Eq)]
pub enum MatchingRule {
    Equality,
    Regex(String),
    Type,
    MinType(usize),
    MaxType(usize),
    Timestamp(String),
    Date(String),
    Time(String),
    Include(String),
    Number,
    Integer,
    Decimal,
    Boolean,
    ContentType(String),
    Semver,
    NotEmpty,
    EachKey(MatchingRuleDefinition),
    EachValue(MatchingRuleDefinition),
}

/// Matching rule definition constructed from parsing a matching rule definition expression
#[derive(Debug, PartialEq, Eq)]
pub struct MatchingRuleDefinition {
    pub value: String,
    pub value_type: ValueType,
    pub rules: Vec<Either<MatchingRule, MatchingReference>>,
    pub generator: Option<Generator>,
}

pub enum GeneratorView {
    Date(Option<Seq<char>>, Option<Seq<char>>),
    Time(Option<Seq<char>>, Option<Seq<char>>),
    DateTime(Option<Seq<char>>, Option<Seq<char>>),
    ProviderState(Seq<char>, Option<DataType>),
}

pub enum RuleView {
    Equality,
    Regex(Seq<char>),
    Type,
    MinType(usize),
    MaxType(usize),
    Timestamp(Seq<char>),
    Date(Seq<char>),
    Time(Seq<char>),
    Include(Seq<char>),
    Number,
    Integer,
    Decimal,
    Boolean,
    ContentType(Seq<char>),
    Semver,
    NotEmpty,
    EachKey(DefinitionView),
    EachValue(DefinitionView),
}

pub enum EntryView {
    Rule(RuleView),
    Reference(Seq<char>),
}

pub struct DefinitionView {
    pub value: Seq<char>,
    pub value_type: ValueType,
    pub rules: Seq<EntryView>,
    pub generator: Option<GeneratorView>,
}

pub open spec fn opt_str_view(o: Option<String>) -> Option<Seq<char>> {
    match o {
        Some(s) => Some(s@),
        None => None,
    }
}

pub open spec fn generator_view(g: Generator) -> GeneratorView {
    match g {
        Generator::Date(a, b) => GeneratorView::Date(opt_str_view(a), opt_str_view(b)),
        Generator::Time(a, b) => GeneratorView::Time(opt_str_view(a), opt_str_view(b)),
        Generator::DateTime(a, b) => GeneratorView::DateTime(opt_str_view(a), opt_str_view(b)),
        Generator::ProviderStateGenerator(e, t) => GeneratorView::ProviderState(e@, t),
    }
}

pub open spec fn rule_view(r: MatchingRule) -> RuleView
    decreases r, 0nat,
{
    match r {
        MatchingRule::Equality => RuleView::Equality,
        MatchingRule::Regex(s) => RuleView::Regex(s@),
        MatchingRule::Type => RuleView::Type,
        MatchingRule::MinType(n) => RuleView::MinType(n),
        MatchingRule::MaxType(n) => RuleView::MaxType(n),
        MatchingRule::Timestamp(s) => RuleView::Timestamp(s@),
        MatchingRule::Date(s) => RuleView::Date(s@),
        MatchingRule::Time(s) => RuleView::Time(s@),
        MatchingRule::Include(s) => RuleView::Include(s@),
        MatchingRule::Number => RuleView::Number,
        MatchingRule::Integer => RuleView::Integer,
        MatchingRule::Decimal => RuleView::Decimal,
        MatchingRule::Boolean => RuleView::Boolean,
        MatchingRule::ContentType(s) => RuleView::ContentType(s@),
        MatchingRule::Semver => RuleView::Semver,
        MatchingRule::NotEmpty => RuleView::NotEmpty,
        MatchingRule::EachKey(d) => RuleView::EachKey(definition_view(d)),
        MatchingRule::EachValue(d) => RuleView::EachValue(definition_view(d)),
    }
}

pub open spec fn entry_view(e: Either<MatchingRule, MatchingReference>) -> EntryView
    decreases e, 0nat,
{
    match e {
        Either::Left(r) => EntryView::Rule(rule_view(r)),
        Either::Right(m) => EntryView::Reference(m.name@),
    }
}

pub open spec fn entries_view(s: Seq<Either<MatchingRule, MatchingReference>>) -> Seq<EntryView>
    decreases s, s.len(),
{
    if s.len() == 0 {
        Seq::empty()
    } else {
        entries_view(s.drop_last()).push(entry_view(s.last()))
    }
}

pub open spec fn definition_view(d: MatchingRuleDefinition) -> DefinitionView
    decreases d, 0nat,
{
    DefinitionView {
        value: d.value@,
        value_type: d.value_type,
        rules: entries_view(d.rules@),
        generator: match d.generator {
            Some(g) => Some(generator_view(g)),
            None => None,
        },
    }
}


/// A copy of an optional string.
fn duplicate_opt_string(o: &Option<String>) -> (r: Option<String>)
    ensures
        r == *o,
{
    match o {
        Some(s) => Some(s.clone()),
        None => None,
    }
}

impl MatchingReference {
    /// A copy of this reference.
    pub fn duplicate(&self) -> (r: MatchingReference)
        ensures
            r == *self,
    {
        MatchingReference { name: self.name.clone() }
    }
}

impl Generator {
    /// A copy of this generator.
    pub fn duplicate(&self) -> (r: Generator)
        ensures
            r == *self,
    {
        match self {
            Generator::Date(a, b) => Generator::Date(duplicate_opt_string(a), duplicate_opt_string(b)),
            Generator::Time(a, b) => Generator::Time(duplicate_opt_string(a), duplicate_opt_string(b)),
            Generator::DateTime(a, b) => Generator::DateTime(
                duplicate_opt_string(a),
                duplicate_opt_string(b),
            ),
            Generator::ProviderStateGenerator(e, t) => Generator::ProviderStateGenerator(e.clone(), *t),
        }
    }
}

/// A copy of an optional generator.
pub fn duplicate_generator(g: &Option<Generator>) -> (r: Option<Generator>)
    ensures
        r == *g,
{
    match g {
        Some(g) => Some(g.duplicate()),
        None => None,
    }
}

impl MatchingRule {
    /// A copy of this matching rule.
    pub fn duplicate(&self) -> (r: MatchingRule)
        ensures
            rule_view(r) == rule_view(*self),
        decreases self,
    {
        match self {
            MatchingRule::Equality => MatchingRule::Equality,
            MatchingRule::Regex(s) => MatchingRule::Regex(s.clone()),
            MatchingRule::Type => MatchingRule::Type,
            MatchingRule::MinType(n) => MatchingRule::MinType(*n),
            MatchingRule::MaxType(n) => MatchingRule::MaxType(*n),
            MatchingRule::Timestamp(s) => MatchingRule::Timestamp(s.clone()),
            MatchingRule::Date(s) => MatchingRule::Date(s.clone()),
            MatchingRule::Time(s) => MatchingRule::Time(s.clone()),
            MatchingRule::Include(s) => MatchingRule::Include(s.clone()),
            MatchingRule::Number => MatchingRule::Number,
            MatchingRule::Integer => MatchingRule::Integer,
            MatchingRule::Decimal => MatchingRule::Decimal,
            MatchingRule::Boolean => MatchingRule::Boolean,
            MatchingRule::ContentType(s) => MatchingRule::ContentType(s.clone()),
            MatchingRule::Semver => MatchingRule::Semver,
            MatchingRule::NotEmpty => MatchingRule::NotEmpty,
            MatchingRule::EachKey(d) => MatchingRule::EachKey(d.duplicate()),
            MatchingRule::EachValue(d) => MatchingRule::EachValue(d.duplicate()),
        }
    }
}

/// A copy of a rule entry.
pub fn duplicate_entry(e: &Either<MatchingRule, MatchingReference>) -> (r: Either<
    MatchingRule,
    MatchingReference,
>)
    ensures
        entry_view(r) == entry_view(*e),
    decreases e,
{
    match e {
        Either::Left(rule) => Either::Left(rule.duplicate()),
        Either::Right(reference) => Either::Right(reference.duplicate()),
    }
}

/// Copies of the entries `rules[from..]`, appended to `out`.
fn duplicate_entries(
    rules: &Vec<Either<MatchingRule, MatchingReference>>,
    out: &mut Vec<Either<MatchingRule, MatchingReference>>,
)
    ensures
        entries_view(final(out)@) == entries_view(old(out)@) + entries_view(rules@),
    decreases rules,
{
    let ghost start = out@;
    let mut i: usize = 0;
    while i < rules.len()
        invariant
            i <= rules.len(),
            out@.len() == start.len() + i,
            entries_view(out@) == entries_view(start) + entries_view(rules@.subrange(0, i as int)),
        decreases rules.len() - i,
    {
        proof {
            assert(decreases_to!(rules => rules@[i as int]));
        }
        let e = duplicate_entry(&rules[i]);
        let ghost before = out@;
        out.push(e);
        proof {
            assert(out@.drop_last() =~= before);
            assert(rules@.subrange(0, i + 1).drop_last() =~= rules@.subrange(0, i as int));
        }
        i = i + 1;
    }
    assert(rules@.subrange(0, i as int) =~= rules@);
}

impl MatchingRuleDefinition {
    /// A copy of this definition.
    pub fn duplicate(&self) -> (r: MatchingRuleDefinition)
        ensures
            definition_view(r) == definition_view(*self),
        decreases self,
    {
        let mut rules: Vec<Either<MatchingRule, MatchingReference>> = Vec::new();
        proof {
            assert(decreases_to!(self => self.rules));
        }
        duplicate_entries(&self.rules, &mut rules);
        proof {
            assert(entries_view(Seq::<Either<MatchingRule, MatchingReference>>::empty()) =~= Seq::<EntryView>::empty());
        }
        MatchingRuleDefinition {
            value: self.value.clone(),
            value_type: self.value_type,
            rules,
            generator: duplicate_generator(&self.generator),
        }
    }
}


/// The view of a generator that may be absent.
pub open spec fn opt_generator_view(g: Option<Generator>) -> Option<GeneratorView> {
    match g {
        Some(g) => Some(generator_view(g)),
        None => None,
    }
}

/// Two definitions merged: the first non-empty value, the merged value type,
/// the rules of both in order, and the first generator present.
pub open spec fn merged_definition(a: DefinitionView, b: DefinitionView) -> DefinitionView {
    DefinitionView {
        value: if a.value.len() == 0 {
            b.value
        } else {
            a.value
        },
        value_type: merged_type(a.value_type, b.value_type),
        rules: a.rules + b.rules,
        generator: if a.generator is Some {
            a.generator
        } else {
            b.generator
        },
    }
}

impl MatchingRuleDefinition {
    /// Construct a new MatchingRuleDefinition
    pub fn new(
        value: String,
        value_type: ValueType,
        matching_rule: MatchingRule,
        generator: Option<Generator>,
    ) -> (r: Self)
        ensures
            r.value == value,
            r.value_type == value_type,
            r.rules@ == seq![Either::<MatchingRule, MatchingReference>::Left(matching_rule)],
            r.generator == generator,
    {
        MatchingRuleDefinition { value, value_type, rules: vec![Either::Left(matching_rule)], generator }
    }

    /// Merges two matching rules definitions. This is used when multiple matching rules are
    /// provided for a single element.
    pub fn merge(&self, other: &MatchingRuleDefinition) -> (r: MatchingRuleDefinition)
        ensures
            definition_view(r) == merged_definition(definition_view(*self), definition_view(*other)),
    {
        let mut rules: Vec<Either<MatchingRule, MatchingReference>> = Vec::new();
        duplicate_entries(&self.rules, &mut rules);
        duplicate_entries(&other.rules, &mut rules);
        proof {
            assert(entries_view(Seq::<Either<MatchingRule, MatchingReference>>::empty()) =~= Seq::<EntryView>::empty());
        }
        let value = if self.value.as_str().is_empty() {
            other.value.clone()
        } else {
            self.value.clone()
        };
        let generator = if self.generator.is_some() {
            duplicate_generator(&self.generator)
        } else {
            duplicate_generator(&other.generator)
        };
        MatchingRuleDefinition {
            value,
            value_type: self.value_type.merge(other.value_type),
            rules,
            generator,
        }
    }
}


/// The view of a one-entry rule list is that entry's view.
pub proof fn lemma_single_entry(e: Either<MatchingRule, MatchingReference>)
    ensures
        entries_view(seq![e]) == seq![entry_view(e)],
{
    assert(seq![e].drop_last() =~= Seq::<Either<MatchingRule, MatchingReference>>::empty());
    assert(entries_view(Seq::<Either<MatchingRule, MatchingReference>>::empty()) =~= Seq::<EntryView>::empty());
    assert(Seq::<EntryView>::empty().push(entry_view(e)) =~= seq![entry_view(e)]);
}

} // verus!
