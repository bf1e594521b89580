//! A model of JSON values as the JSON utilities read them, and the utilities:
//! emptiness, deep merging, resolving path expressions and reading numbers.
//!
//! Objects keep their entries in ascending order of key, each key once, as
//! the maps of JSON documents do.
use vstd::prelude::*;
use crate::path_exp::{tokens_view, DocPath, PathToken, TokenView};
use crate::text::{decimal, usize_parse, usize_to_decimal, parse_usize, chars_of};
use crate::xml_model::{chars_less, lemma_pairs_view_index, names_seq, pairs_view, str_less};
use crate::text::push_str;
use crate::xml_query::{concat_paths, node_paths, paths_seq, pointer, pointer_of, prefixed, Paths};

verus! {

/// A JSON number.
#[derive(Debug, PartialEq, Eq)]
pub enum JsonNumber {
    /// A non-negative integer
    PosInt(u64),
    /// A negative integer
    NegInt(i64),
    /// A floating-point number, held by what the utilities read of it: its
    /// JSON text and its value converted to a `usize` (as `as usize` does)
    Float(String, usize),
}

/// A JSON value.
#[derive(Debug, PartialEq, Eq)]
pub enum JsonValue {
    Null,
    Bool(bool),
    Number(JsonNumber),
    String(String),
    Array(Vec<JsonValue>),
    Object(Vec<(String, JsonValue)>),
}

pub enum NumberView {
    PosInt(u64),
    NegInt(i64),
    Float(Seq<char>, usize),
}

pub enum JsonView {
    Null,
    Bool(bool),
    Number(NumberView),
    String(Seq<char>),
    Array(Seq<JsonView>),
    Object(Seq<(Seq<char>, JsonView)>),
}

pub open spec fn number_view(n: JsonNumber) -> NumberView {
    match n {
        JsonNumber::PosInt(u) => NumberView::PosInt(u),
        JsonNumber::NegInt(i) => NumberView::NegInt(i),
        JsonNumber::Float(t, u) => NumberView::Float(t@, u),
    }
}

pub open spec fn json_view(v: JsonValue) -> JsonView
    decreases v, 0nat,
{
    match v {
        JsonValue::Null => JsonView::Null,
        JsonValue::Bool(b) => JsonView::Bool(b),
        JsonValue::Number(n) => JsonView::Number(number_view(n)),
        JsonValue::String(s) => JsonView::String(s@),
        JsonValue::Array(items) => JsonView::Array(items_view(items@)),
        JsonValue::Object(entries) => JsonView::Object(entries_view(entries@)),
    }
}

pub open spec fn items_view(s: Seq<JsonValue>) -> Seq<JsonView>
    decreases s, s.len(),
{
    if s.len() == 0 {
        Seq::empty()
    } else {
        items_view(s.drop_last()).push(json_view(s.last()))
    }
}

pub open spec fn entries_view(s: Seq<(String, JsonValue)>) -> Seq<(Seq<char>, JsonView)>
    decreases s, s.len(),
{
    if s.len() == 0 {
        Seq::empty()
    } else {
        entries_view(s.drop_last()).push((s.last().0@, json_view(s.last().1)))
    }
}

pub proof fn lemma_items_view(s: Seq<JsonValue>)
    ensures
        items_view(s).len() == s.len(),
        forall|k: int| 0 <= k < s.len() ==> #[trigger] items_view(s)[k] == json_view(s[k]),
    decreases s.len(),
{
    if s.len() > 0 {
        lemma_items_view(s.drop_last());
    }
}

pub proof fn lemma_entries_view(s: Seq<(String, JsonValue)>)
    ensures
        entries_view(s).len() == s.len(),
        forall|k: int| 0 <= k < s.len() ==> #[trigger] entries_view(s)[k] == (s[k].0@, json_view(s[k].1)),
    decreases s.len(),
{
    if s.len() > 0 {
        lemma_entries_view(s.drop_last());
    }
}

/// Whether a JSON value is empty: `null`, an empty string, array or object.
pub open spec fn json_is_empty(v: JsonView) -> bool {
    match v {
        JsonView::Null => true,
        JsonView::Bool(_) => false,
        JsonView::Number(_) => false,
        JsonView::String(s) => s.len() == 0,
        JsonView::Array(a) => a.len() == 0,
        JsonView::Object(o) => o.len() == 0,
    }
}

/// If the JSON value is empty
pub fn is_empty(value: &JsonValue) -> (r: bool)
    ensures
        r == json_is_empty(json_view(*value)),
{
    proof {
        match value {
            JsonValue::Array(a) => lemma_items_view(a@),
            JsonValue::Object(o) => lemma_entries_view(o@),
            _ => {},
        }
    }
    match value {
        JsonValue::Null => true,
        JsonValue::Bool(_) => false,
        JsonValue::Number(_) => false,
        JsonValue::String(s) => s.as_str().is_empty(),
        JsonValue::Array(a) => a.len() == 0,
        JsonValue::Object(o) => o.len() == 0,
    }
}


impl JsonNumber {
    /// A copy of this number.
    pub fn duplicate(&self) -> (r: JsonNumber)
        ensures
            r == *self,
    {
        match self {
            JsonNumber::PosInt(u) => JsonNumber::PosInt(*u),
            JsonNumber::NegInt(i) => JsonNumber::NegInt(*i),
            JsonNumber::Float(t, u) => JsonNumber::Float(t.clone(), *u),
        }
    }
}

impl JsonValue {
    /// A copy of this value.
    pub fn duplicate(&self) -> (r: JsonValue)
        ensures
            json_view(r) == json_view(*self),
        decreases self,
    {
        match self {
            JsonValue::Null => JsonValue::Null,
            JsonValue::Bool(b) => JsonValue::Bool(*b),
            JsonValue::Number(n) => JsonValue::Number(n.duplicate()),
            JsonValue::String(s) => JsonValue::String(s.clone()),
            JsonValue::Array(items) => {
                proof {
                    assert(decreases_to!(self => items));
                }
                JsonValue::Array(duplicate_items(items))
            },
            JsonValue::Object(entries) => {
                proof {
                    assert(decreases_to!(self => entries));
                }
                JsonValue::Object(duplicate_entries(entries))
            },
        }
    }
}

/// Copies of some values.
fn duplicate_items(items: &Vec<JsonValue>) -> (r: Vec<JsonValue>)
    ensures
        items_view(r@) == items_view(items@),
    decreases items,
{
    let mut r: Vec<JsonValue> = Vec::new();
    let mut i: usize = 0;
    while i < items.len()
        invariant
            i <= items.len(),
            r@.len() == i,
            forall|k: int| 0 <= k < i ==> json_view(#[trigger] r@[k]) == json_view(items@[k]),
        decreases items.len() - i,
    {
        proof {
            assert(decreases_to!(items => items@[i as int]));
        }
        r.push(items[i].duplicate());
        i = i + 1;
    }
    proof {
        lemma_items_view(r@);
        lemma_items_view(items@);
        assert(items_view(r@) =~= items_view(items@));
    }
    r
}

/// Copies of some entries.
fn duplicate_entries(entries: &Vec<(String, JsonValue)>) -> (r: Vec<(String, JsonValue)>)
    ensures
        entries_view(r@) == entries_view(entries@),
    decreases entries,
{
    let mut r: Vec<(String, JsonValue)> = Vec::new();
    let mut i: usize = 0;
    while i < entries.len()
        invariant
            i <= entries.len(),
            r@.len() == i,
            forall|k: int|
                0 <= k < i ==> (#[trigger] r@[k]).0@ == entries@[k].0@ && json_view(r@[k].1) == json_view(
                    entries@[k].1,
                ),
        decreases entries.len() - i,
    {
        proof {
            assert(decreases_to!(entries => entries@[i as int]));
            assert(decreases_to!(entries@[i as int] => entries@[i as int].1));
        }
        r.push((entries[i].0.clone(), entries[i].1.duplicate()));
        i = i + 1;
    }
    proof {
        lemma_entries_view(r@);
        lemma_entries_view(entries@);
        assert(entries_view(r@) =~= entries_view(entries@));
    }
    r
}

/// Whether the keys of the entries come in ascending order, each once.
pub open spec fn keys_ascending(entries: Seq<(Seq<char>, JsonView)>) -> bool {
    forall|i: int| 0 <= i < entries.len() - 1 ==> chars_less(#[trigger] entries[i].0, entries[i + 1].0)
}

/// A JSON value as a document holds it: the entries of every object in
/// ascending order of key, each key once.
pub open spec fn json_wf(v: JsonView) -> bool
    decreases v, 0nat,
{
    match v {
        JsonView::Array(items) => items_wf(items),
        JsonView::Object(entries) => keys_ascending(entries) && entries_wf(entries),
        _ => true,
    }
}

pub open spec fn items_wf(items: Seq<JsonView>) -> bool
    decreases items, items.len(),
{
    items.len() > 0 ==> items_wf(items.drop_last()) && json_wf(items.last())
}

pub open spec fn entries_wf(entries: Seq<(Seq<char>, JsonView)>) -> bool
    decreases entries, entries.len(),
{
    entries.len() > 0 ==> entries_wf(entries.drop_last()) && json_wf(entries.last().1)
}

/// The deep merge of two values: arrays are concatenated, objects merged key
/// by key (a key in both gets the merge of its two values), and otherwise
/// the second value wins.
pub open spec fn merged_json(a: JsonView, b: JsonView) -> JsonView
    decreases a, 0nat,
{
    match (a, b) {
        (JsonView::Array(x), JsonView::Array(y)) => JsonView::Array(x + y),
        (JsonView::Object(x), JsonView::Object(y)) => JsonView::Object(merged_entries(x, y)),
        _ => b,
    }
}

/// Two objects' entries, in ascending order of key, merged.
pub open spec fn merged_entries(x: Seq<(Seq<char>, JsonView)>, y: Seq<(Seq<char>, JsonView)>) -> Seq<
    (Seq<char>, JsonView),
>
    decreases x, y.len(),
{
    if x.len() == 0 {
        y
    } else if y.len() == 0 {
        x
    } else if x[0].0 == y[0].0 {
        seq![(x[0].0, merged_json(x[0].1, y[0].1))] + merged_entries(x.drop_first(), y.drop_first())
    } else if chars_less(x[0].0, y[0].0) {
        seq![x[0]] + merged_entries(x.drop_first(), y)
    } else {
        seq![y[0]] + merged_entries(x, y.drop_first())
    }
}


/// Deep merges the other value into the given value
pub fn json_deep_merge(value: &JsonValue, other: &JsonValue) -> (r: JsonValue)
    ensures
        json_view(r) == merged_json(json_view(*value), json_view(*other)),
    decreases value, 0nat,
{
    match (value, other) {
        (JsonValue::Array(items), JsonValue::Array(other_items)) => {
            let mut values = duplicate_items(items);
            let mut more = duplicate_items(other_items);
            let ghost a = values@;
            let ghost b = more@;
            values.append(&mut more);
            proof {
                lemma_items_view(a);
                lemma_items_view(b);
                lemma_items_view(values@);
                assert(values@ =~= a + b);
                assert(items_view(values@) =~= items_view(a) + items_view(b));
            }
            JsonValue::Array(values)
        },
        (JsonValue::Object(entries), JsonValue::Object(other_entries)) => {
            proof {
                assert(decreases_to!(value => entries));
                lemma_entries_view(entries@);
                lemma_entries_view(other_entries@);
                assert(entries_view(entries@).subrange(0, entries@.len() as int) =~= entries_view(entries@));
                assert(entries_view(other_entries@).subrange(0, other_entries@.len() as int) =~= entries_view(
                    other_entries@,
                ));
            }
            JsonValue::Object(merge_entries_from(entries, 0, other_entries, 0))
        },
        _ => other.duplicate(),
    }
}

/// The entries `x[i..]` and `y[j..]`, each in ascending order of key, merged.
fn merge_entries_from(
    x: &Vec<(String, JsonValue)>,
    i: usize,
    y: &Vec<(String, JsonValue)>,
    j: usize,
) -> (r: Vec<(String, JsonValue)>)
    requires
        i <= x.len(),
        j <= y.len(),
    ensures
        entries_view(r@) == merged_entries(
            entries_view(x@).subrange(i as int, x@.len() as int),
            entries_view(y@).subrange(j as int, y@.len() as int),
        ),
    decreases x, (x.len() - i) + (y.len() - j),
{
    let ghost xs = entries_view(x@).subrange(i as int, x@.len() as int);
    let ghost ys = entries_view(y@).subrange(j as int, y@.len() as int);
    proof {
        lemma_entries_view(x@);
        lemma_entries_view(y@);
    }
    if i == x.len() {
        let r = duplicate_tail(y, j);
        return r;
    }
    if j == y.len() {
        let r = duplicate_tail(x, i);
        return r;
    }
    assert(xs[0] == entries_view(x@)[i as int]);
    assert(ys[0] == entries_view(y@)[j as int]);
    assert(xs.drop_first() =~= entries_view(x@).subrange(i + 1, x@.len() as int));
    assert(ys.drop_first() =~= entries_view(y@).subrange(j + 1, y@.len() as int));
    if crate::text::str_equal(x[i].0.as_str(), y[j].0.as_str()) {
        proof {
            assert(decreases_to!(x => x@[i as int]));
            assert(decreases_to!(x@[i as int] => x@[i as int].1));
        }
        let merged = json_deep_merge(&x[i].1, &y[j].1);
        let mut r = merge_entries_from(x, i + 1, y, j + 1);
        let ghost rest = r@;
        r.insert(0, (x[i].0.clone(), merged));
        proof {
            lemma_entries_view(rest);
            lemma_entries_view(r@);
            assert(entries_view(r@) =~= seq![(xs[0].0, merged_json(xs[0].1, ys[0].1))] + entries_view(rest));
        }
        r
    } else if str_less(&x[i].0, &y[j].0) {
        let first = (x[i].0.clone(), x[i].1.duplicate());
        let mut r = merge_entries_from(x, i + 1, y, j);
        let ghost rest = r@;
        r.insert(0, first);
        proof {
            lemma_entries_view(rest);
            lemma_entries_view(r@);
            assert(entries_view(r@) =~= seq![xs[0]] + entries_view(rest));
        }
        r
    } else {
        let first = (y[j].0.clone(), y[j].1.duplicate());
        let mut r = merge_entries_from(x, i, y, j + 1);
        let ghost rest = r@;
        r.insert(0, first);
        proof {
            lemma_entries_view(rest);
            lemma_entries_view(r@);
            assert(entries_view(r@) =~= seq![ys[0]] + entries_view(rest));
        }
        r
    }
}

/// Copies of the entries `entries[from..]`.
fn duplicate_tail(entries: &Vec<(String, JsonValue)>, from: usize) -> (r: Vec<(String, JsonValue)>)
    requires
        from <= entries.len(),
    ensures
        entries_view(r@) == entries_view(entries@).subrange(from as int, entries@.len() as int),
{
    let mut r: Vec<(String, JsonValue)> = Vec::new();
    let mut i: usize = from;
    while i < entries.len()
        invariant
            from <= i <= entries.len(),
            r@.len() == i - from,
            forall|k: int|
                0 <= k < r@.len() ==> (#[trigger] r@[k]).0@ == entries@[from + k].0@ && json_view(r@[k].1)
                    == json_view(entries@[from + k].1),
        decreases entries.len() - i,
    {
        r.push((entries[i].0.clone(), entries[i].1.duplicate()));
        i = i + 1;
    }
    proof {
        lemma_entries_view(r@);
        lemma_entries_view(entries@);
        assert(entries_view(r@) =~= entries_view(entries@).subrange(from as int, entries@.len() as int));
    }
    r
}


/// The position of the first entry with the given key.
pub open spec fn entry_position_from(entries: Seq<(Seq<char>, JsonView)>, key: Seq<char>, k: int) -> Option<int>
    decreases entries.len() - k,
{
    if k < 0 || k >= entries.len() {
        None
    } else if entries[k].0 == key {
        Some(k)
    } else {
        entry_position_from(entries, key, k + 1)
    }
}

/// Matches the tokens from `pos` on against a value: the leaf paths added
/// under the node of the value. An index past the end of an array leaves the
/// value and the node as they are for the next token.
pub open spec fn q_object(tokens: Seq<TokenView>, pos: int, v: JsonView) -> Paths
    decreases tokens.len() - pos, 0nat, 0nat,
{
    if pos < 0 || pos >= tokens.len() {
        Seq::empty()
    } else {
        match tokens[pos] {
            TokenView::Field(name) => match v {
                JsonView::Object(entries) => match entry_position_from(entries, name, 0) {
                    Some(k) => node_paths(name, q_object(tokens, pos + 1, entries[k].1)),
                    None => Seq::empty(),
                },
                _ => Seq::empty(),
            },
            TokenView::Index(i) => match v {
                JsonView::Array(items) => if i < items.len() {
                    node_paths(decimal(i as nat), q_object(tokens, pos + 1, items[i as int]))
                } else {
                    q_object(tokens, pos + 1, v)
                },
                _ => Seq::empty(),
            },
            TokenView::Star => match v {
                JsonView::Object(entries) => q_entries(tokens, pos + 1, entries, 0),
                _ => Seq::empty(),
            },
            TokenView::StarIndex => match v {
                JsonView::Array(items) => q_items(tokens, pos + 1, items, 0),
                _ => Seq::empty(),
            },
            TokenView::Root => q_object(tokens, pos + 1, v),
        }
    }
}

/// Matches the tokens from `pos` on against each entry of an object from `k`
/// on, each under a node labelled with its key.
pub open spec fn q_entries(tokens: Seq<TokenView>, pos: int, entries: Seq<(Seq<char>, JsonView)>, k: int) -> Paths
    decreases tokens.len() - pos, 1nat, entries.len() - k,
{
    if k < 0 || k >= entries.len() {
        Seq::empty()
    } else {
        node_paths(entries[k].0, q_object(tokens, pos, entries[k].1)) + q_entries(tokens, pos, entries, k + 1)
    }
}

/// Matches the tokens from `pos` on against each item of an array from `k`
/// on, each under a node labelled with its index.
pub open spec fn q_items(tokens: Seq<TokenView>, pos: int, items: Seq<JsonView>, k: int) -> Paths
    decreases tokens.len() - pos, 1nat, items.len() - k,
{
    if k < 0 || k >= items.len() {
        Seq::empty()
    } else {
        node_paths(decimal(k as nat), q_object(tokens, pos, items[k])) + q_items(tokens, pos, items, k + 1)
    }
}

/// The pointers of the leaves with non-empty labels, among some paths, at
/// the given depth (counting the root).
pub open spec fn json_pointers(paths: Paths, depth: nat) -> Seq<Seq<char>>
    decreases paths.len(),
{
    if paths.len() == 0 {
        Seq::empty()
    } else {
        let rest = json_pointers(paths.drop_last(), depth);
        let p = paths.last();
        if p.len() > 0 && p.len() + 1 == depth && p.last().len() > 0 {
            rest.push(pointer_of(p))
        } else {
            rest
        }
    }
}

/// The JSON pointers of the values that a path expression matches.
pub open spec fn resolved_json_pointers(v: JsonView, tokens: Seq<TokenView>) -> Seq<Seq<char>> {
    json_pointers(q_object(tokens, 0, v), tokens.len())
}

fn empty_paths() -> (r: Vec<Vec<String>>)
    ensures
        paths_seq(r@) == Seq::<Seq<Seq<char>>>::empty(),
{
    let r: Vec<Vec<String>> = Vec::new();
    assert(paths_seq(r@) =~= Seq::<Seq<Seq<char>>>::empty());
    r
}

/// The position of the first entry with the given key.
fn entry_position(entries: &Vec<(String, JsonValue)>, key: &String) -> (r: Option<usize>)
    ensures
        match r {
            Some(k) => entry_position_from(entries_view(entries@), key@, 0) == Some(k as int) && k < entries.len(),
            None => entry_position_from(entries_view(entries@), key@, 0) is None,
        },
{
    proof {
        lemma_entries_view(entries@);
    }
    let mut k: usize = 0;
    while k < entries.len()
        invariant
            k <= entries.len(),
            entries_view(entries@).len() == entries@.len(),
            forall|j: int| 0 <= j < entries@.len() ==> #[trigger] entries_view(entries@)[j] == (entries@[j].0@, json_view(entries@[j].1)),
            entry_position_from(entries_view(entries@), key@, 0) == entry_position_from(entries_view(entries@), key@, k as int),
        decreases entries.len() - k,
    {
        if crate::text::str_equal(entries[k].0.as_str(), key.as_str()) {
            return Some(k);
        }
        k = k + 1;
    }
    None
}

/// Matches the tokens from `pos` on against a value.
fn query_object_graph(tokens: &Vec<PathToken>, pos: usize, value: &JsonValue) -> (r: Vec<Vec<String>>)
    ensures
        paths_seq(r@) == q_object(tokens_view(tokens@), pos as int, json_view(*value)),
    decreases tokens.len() - pos, 0nat, 0nat,
{
    if pos >= tokens.len() {
        return empty_paths();
    }
    let ghost tv = tokens_view(tokens@);
    assert(tv[pos as int] == tokens@[pos as int]@);
    match &tokens[pos] {
        PathToken::Field(name) => match value {
            JsonValue::Object(entries) => match entry_position(entries, name) {
                Some(k) => {
                    proof {
                        lemma_entries_view(entries@);
                    }
                    let below = query_object_graph(tokens, pos + 1, &entries[k].1);
                    prefixed(name, below)
                },
                None => empty_paths(),
            },
            _ => empty_paths(),
        },
        PathToken::Index(i) => match value {
            JsonValue::Array(items) => {
                proof {
                    lemma_items_view(items@);
                }
                if *i < items.len() {
                    let below = query_object_graph(tokens, pos + 1, &items[*i]);
                    let label = usize_to_decimal(*i);
                    prefixed(&label, below)
                } else {
                    query_object_graph(tokens, pos + 1, value)
                }
            },
            _ => empty_paths(),
        },
        PathToken::Star => match value {
            JsonValue::Object(entries) => query_entries(tokens, pos + 1, entries, 0),
            _ => empty_paths(),
        },
        PathToken::StarIndex => match value {
            JsonValue::Array(items) => query_items(tokens, pos + 1, items, 0),
            _ => empty_paths(),
        },
        PathToken::Root => query_object_graph(tokens, pos + 1, value),
    }
}

/// Matches the tokens from `pos` on against each entry from `k` on.
fn query_entries(tokens: &Vec<PathToken>, pos: usize, entries: &Vec<(String, JsonValue)>, k: usize) -> (r: Vec<Vec<String>>)
    requires
        k <= entries.len(),
    ensures
        paths_seq(r@) == q_entries(tokens_view(tokens@), pos as int, entries_view(entries@), k as int),
    decreases tokens.len() - pos, 1nat, entries.len() - k,
{
    proof {
        lemma_entries_view(entries@);
    }
    if k >= entries.len() {
        return empty_paths();
    }
    let below = query_object_graph(tokens, pos, &entries[k].1);
    let first = prefixed(&entries[k].0, below);
    let rest = query_entries(tokens, pos, entries, k + 1);
    concat_paths(first, rest)
}

/// Matches the tokens from `pos` on against each item from `k` on.
fn query_items(tokens: &Vec<PathToken>, pos: usize, items: &Vec<JsonValue>, k: usize) -> (r: Vec<Vec<String>>)
    requires
        k <= items.len(),
    ensures
        paths_seq(r@) == q_items(tokens_view(tokens@), pos as int, items_view(items@), k as int),
    decreases tokens.len() - pos, 1nat, items.len() - k,
{
    proof {
        lemma_items_view(items@);
    }
    if k >= items.len() {
        return empty_paths();
    }
    let below = query_object_graph(tokens, pos, &items[k]);
    let label = usize_to_decimal(k);
    let first = prefixed(&label, below);
    let rest = query_items(tokens, pos, items, k + 1);
    concat_paths(first, rest)
}

/// Resolve the path expression against the JSON value, returning a list of JSON pointer values
/// that match.
pub fn resolve_path(value: &JsonValue, expression: &DocPath) -> (r: Vec<String>)
    ensures
        names_seq(r@) == resolved_json_pointers(json_view(*value), expression@.tokens),
{
    let tokens = expression.tokens();
    let paths = query_object_graph(tokens, 0, value);
    let depth = tokens.len();
    let ghost ps = paths_seq(paths@);
    let mut r: Vec<String> = Vec::new();
    let mut j: usize = 0;
    assert(names_seq(r@) =~= Seq::<Seq<char>>::empty());
    while j < paths.len()
        invariant
            j <= paths.len(),
            ps == paths_seq(paths@),
            depth == tokens_view(tokens@).len(),
            names_seq(r@) == json_pointers(ps.subrange(0, j as int), depth as nat),
        decreases paths.len() - j,
    {
        proof {
            assert(ps.subrange(0, j + 1).drop_last() =~= ps.subrange(0, j as int));
            assert(ps.subrange(0, j + 1).last() == names_seq(paths@[j as int]@));
        }
        let ghost before = r@;
        let n = paths[j].len();
        if n > 0 && n < depth && n + 1 == depth && paths[j][n - 1].as_str().unicode_len() > 0 {
            r.push(pointer(&paths[j]));
            assert(names_seq(r@) =~= names_seq(before).push(r@.last()@));
        }
        j = j + 1;
    }
    assert(ps.subrange(0, j as int) =~= ps);
    r
}


/// The value of a field of an object, if the object has it.
pub open spec fn field_value(entries: Seq<(Seq<char>, JsonView)>, field: Seq<char>) -> Option<JsonView> {
    match entry_position_from(entries, field, 0) {
        Some(k) => Some(entries[k].1),
        None => None,
    }
}

/// A number as an `i64`, when it is an integer that fits.
pub open spec fn number_as_i64(n: NumberView) -> Option<i64> {
    match n {
        NumberView::PosInt(u) => if u <= i64::MAX {
            Some(u as i64)
        } else {
            None
        },
        NumberView::NegInt(i) => Some(i),
        NumberView::Float(_, _) => None,
    }
}

/// A number as a `u64`, when it is a non-negative integer.
pub open spec fn number_as_u64(n: NumberView) -> Option<u64> {
    match n {
        NumberView::PosInt(u) => Some(u),
        _ => None,
    }
}

/// The field of an object read as an `i32`: its integer value cut to 32
/// bits (as `as i32` does), or the default.
pub open spec fn i32_field(entries: Seq<(Seq<char>, JsonView)>, field: Seq<char>, default: i32) -> i32 {
    match field_value(entries, field) {
        Some(JsonView::Number(n)) => match number_as_i64(n) {
            Some(x) => x as i32,
            None => default,
        },
        _ => default,
    }
}

/// The field of an object read as a `u16`: its non-negative integer value cut
/// to 16 bits (as `as u16` does), or the default.
pub open spec fn u16_field(entries: Seq<(Seq<char>, JsonView)>, field: Seq<char>, default: u16) -> u16 {
    match field_value(entries, field) {
        Some(JsonView::Number(n)) => match number_as_u64(n) {
            Some(x) => x as u16,
            None => default,
        },
        _ => default,
    }
}

fn field_of<'a>(map: &'a Vec<(String, JsonValue)>, field: &str) -> (r: Option<&'a JsonValue>)
    ensures
        match r {
            Some(v) => field_value(entries_view(map@), field@) == Some(json_view(*v)),
            None => field_value(entries_view(map@), field@) is None,
        },
{
    let mut key = String::new();
    crate::text::push_str(&mut key, field);
    proof {
        lemma_entries_view(map@);
    }
    match entry_position(map, &key) {
        Some(k) => Some(&map[k].1),
        None => None,
    }
}

fn as_i64_of(n: &JsonNumber) -> (r: Option<i64>)
    ensures
        r == number_as_i64(number_view(*n)),
{
    match n {
        JsonNumber::PosInt(u) => if *u <= i64::MAX as u64 {
            Some(*u as i64)
        } else {
            None
        },
        JsonNumber::NegInt(i) => Some(*i),
        JsonNumber::Float(_, _) => None,
    }
}

/// Trait to convert a JSON structure to a number
pub trait JsonToNum<T> {
    /// Converts the JSON field in the map to a Number
    fn json_to_number(map: &Vec<(String, JsonValue)>, field: &str, default: T) -> T;
}

impl JsonToNum<i32> for i32 {
    fn json_to_number(map: &Vec<(String, JsonValue)>, field: &str, default: i32) -> (r: i32)
        ensures
            r == i32_field(entries_view(map@), field@, default),
    {
        match field_of(map, field) {
            Some(JsonValue::Number(num)) => match as_i64_of(num) {
                Some(num) => num as i32,
                None => default,
            },
            _ => default,
        }
    }
}

impl JsonToNum<u16> for u16 {
    fn json_to_number(map: &Vec<(String, JsonValue)>, field: &str, default: u16) -> (r: u16)
        ensures
            r == u16_field(entries_view(map@), field@, default),
    {
        match field_of(map, field) {
            Some(JsonValue::Number(JsonNumber::PosInt(num))) => *num as u16,
            _ => default,
        }
    }
}

/// A JSON value read as a `usize`: a positive integer, a float (its value as a
/// `usize`), a non-negative integer (cut to a `usize`), or a string of digits;
/// none for anything else.
pub open spec fn json_as_usize(value: Option<JsonView>) -> Option<usize> {
    match value {
        Some(JsonView::Number(n)) => match n {
            NumberView::PosInt(u) => Some(u as usize),
            NumberView::NegInt(_) => None,
            NumberView::Float(_, truncated) => Some(truncated),
        },
        Some(JsonView::String(s)) => usize_parse(s),
        _ => None,
    }
}

pub open spec fn opt_json_view(value: Option<JsonValue>) -> Option<JsonView> {
    match value {
        Some(v) => Some(json_view(v)),
        None => None,
    }
}

/// Converts an optional JSON struct to a usize, returning `None` if it is not a numeric type.
pub fn json_to_num(value: Option<JsonValue>) -> (r: Option<usize>)
    ensures
        r == json_as_usize(opt_json_view(value)),
{
    match value {
        Some(JsonValue::Number(n)) => match n {
            JsonNumber::PosInt(u) => {
                if u <= i64::MAX as u64 && u > 0 {
                    Some((u as i64) as usize)
                } else {
                    Some(u as usize)
                }
            },
            JsonNumber::NegInt(_) => None,
            JsonNumber::Float(_, truncated) => Some(truncated),
        },
        Some(JsonValue::String(s)) => {
            let v = chars_of(s.as_str());
            parse_usize(&v)
        },
        _ => None,
    }
}


/// Header values joined into one, separated by a comma and a space.
pub open spec fn joined_values(vs: Seq<Seq<char>>) -> Seq<char>
    decreases vs.len(),
{
    if vs.len() == 0 {
        Seq::empty()
    } else if vs.len() == 1 {
        vs[0]
    } else {
        joined_values(vs.drop_last()) + ", "@ + vs.last()
    }
}

/// A header (name and joined value) put into headers in ascending order of
/// name: in place of one with the same name, else before the first with a
/// name that comes after it.
pub open spec fn insert_header(
    hs: Seq<(Seq<char>, Seq<char>)>,
    name: Seq<char>,
    value: Seq<char>,
) -> Seq<(Seq<char>, Seq<char>)>
    decreases hs.len(),
{
    if hs.len() == 0 {
        seq![(name, value)]
    } else if hs[0].0 == name {
        hs.update(0, (name, value))
    } else if chars_less(name, hs[0].0) {
        seq![(name, value)] + hs
    } else {
        seq![hs[0]] + insert_header(hs.drop_first(), name, value)
    }
}

/// The headers with their values joined, in ascending order of name, each
/// put in turn.
pub open spec fn joined_headers(headers: Seq<(Seq<char>, Seq<Seq<char>>)>) -> Seq<(Seq<char>, Seq<char>)>
    decreases headers.len(),
{
    if headers.len() == 0 {
        Seq::empty()
    } else {
        insert_header(
            joined_headers(headers.drop_last()),
            headers.last().0,
            joined_values(headers.last().1),
        )
    }
}

/// The JSON object of some headers: each name with its joined values.
pub open spec fn headers_json(headers: Seq<(Seq<char>, Seq<Seq<char>>)>) -> JsonView {
    JsonView::Object(
        joined_headers(headers).map_values(|h: (Seq<char>, Seq<char>)| (h.0, JsonView::String(h.1))),
    )
}

pub open spec fn headers_view(headers: Seq<(String, Vec<String>)>) -> Seq<(Seq<char>, Seq<Seq<char>>)> {
    headers.map_values(
        |h: (String, Vec<String>)| (h.0@, h.1@.map_values(|s: String| s@)),
    )
}

/// The values joined into one, separated by a comma and a space.
fn join_values(values: &Vec<String>) -> (r: String)
    ensures
        r@ == joined_values(values@.map_values(|s: String| s@)),
{
    let ghost vs = values@.map_values(|s: String| s@);
    let mut r = String::new();
    let mut i: usize = 0;
    assert(vs.take(0) =~= Seq::<Seq<char>>::empty());
    while i < values.len()
        invariant
            i <= values.len(),
            vs == values@.map_values(|s: String| s@),
            r@ == joined_values(vs.take(i as int)),
        decreases values.len() - i,
    {
        assert(vs.take(i + 1).drop_last() =~= vs.take(i as int));
        assert(vs.take(i + 1).last() == values@[i as int]@);
        if i > 0 {
            push_str(&mut r, ", ");
        } else {
            assert(r@ =~= Seq::<char>::empty());
        }
        push_str(&mut r, values[i].as_str());
        i = i + 1;
        assert(r@ =~= joined_values(vs.take(i as int)));
    }
    assert(vs.take(values.len() as int) =~= vs);
    r
}

fn copy_pairs(pairs: &Vec<(String, String)>, from: usize) -> (r: Vec<(String, String)>)
    requires
        from <= pairs.len(),
    ensures
        pairs_view(r@) == pairs_view(pairs@).subrange(from as int, pairs@.len() as int),
{
    let mut r: Vec<(String, String)> = Vec::new();
    let mut i = from;
    while i < pairs.len()
        invariant
            from <= i <= pairs.len(),
            r@.len() == i - from,
            forall|k: int| 0 <= k < r@.len() ==> (#[trigger] r@[k]).0@ == pairs@[from + k].0@ && r@[k].1@ == pairs@[from + k].1@,
        decreases pairs.len() - i,
    {
        r.push((pairs[i].0.clone(), pairs[i].1.clone()));
        i = i + 1;
    }
    proof {
        lemma_pairs_view_index(r@);
        lemma_pairs_view_index(pairs@);
        assert(pairs_view(r@) =~= pairs_view(pairs@).subrange(from as int, pairs@.len() as int));
    }
    r
}

/// A header put into the headers `hs[from..]` (see `insert_header`).
fn insert_header_from(hs: &Vec<(String, String)>, from: usize, name: &String, value: &String) -> (r: Vec<(String, String)>)
    requires
        from <= hs.len(),
    ensures
        pairs_view(r@) == insert_header(pairs_view(hs@).subrange(from as int, hs@.len() as int), name@, value@),
    decreases hs.len() - from,
{
    let ghost tail = pairs_view(hs@).subrange(from as int, hs@.len() as int);
    proof {
        lemma_pairs_view_index(hs@);
    }
    if from == hs.len() {
        let mut r: Vec<(String, String)> = Vec::new();
        r.push((name.clone(), value.clone()));
        proof {
            lemma_pairs_view_index(r@);
        }
        assert(tail =~= Seq::<(Seq<char>, Seq<char>)>::empty());
        assert(pairs_view(r@) =~= seq![(name@, value@)]);
        r
    } else if crate::text::str_equal(hs[from].0.as_str(), name.as_str()) {
        let mut r = copy_pairs(hs, from);
        proof {
            lemma_pairs_view_index(r@);
        }
        let ghost before = r@;
        r.set(0, (name.clone(), value.clone()));
        proof {
            lemma_pairs_view_index(r@);
        }
        assert(tail[0] == (hs@[from as int].0@, hs@[from as int].1@));
        assert(pairs_view(r@) =~= tail.update(0, (name@, value@)));
        r
    } else if str_less(name, &hs[from].0) {
        let rest = copy_pairs(hs, from);
        let mut r: Vec<(String, String)> = Vec::new();
        r.push((name.clone(), value.clone()));
        let mut i: usize = 0;
        proof {
            lemma_pairs_view_index(rest@);
        }
        while i < rest.len()
            invariant
                i <= rest.len(),
                r@.len() == i + 1,
                r@[0].0@ == name@ && r@[0].1@ == value@,
                forall|k: int| 0 < k < r@.len() ==> (#[trigger] r@[k]).0@ == rest@[k - 1].0@ && r@[k].1@ == rest@[k - 1].1@,
            decreases rest.len() - i,
        {
            r.push((rest[i].0.clone(), rest[i].1.clone()));
            i = i + 1;
        }
        proof {
            lemma_pairs_view_index(r@);
            lemma_pairs_view_index(rest@);
        }
        assert(tail[0] == (hs@[from as int].0@, hs@[from as int].1@));
        assert(pairs_view(r@) =~= seq![(name@, value@)] + tail);
        r
    } else {
        let rest = insert_header_from(hs, from + 1, name, value);
        let mut r: Vec<(String, String)> = Vec::new();
        r.push((hs[from].0.clone(), hs[from].1.clone()));
        let mut i: usize = 0;
        while i < rest.len()
            invariant
                from < hs.len(),
                i <= rest.len(),
                r@.len() == i + 1,
                r@[0].0@ == hs@[from as int].0@ && r@[0].1@ == hs@[from as int].1@,
                forall|k: int| 0 < k < r@.len() ==> (#[trigger] r@[k]).0@ == rest@[k - 1].0@ && r@[k].1@ == rest@[k - 1].1@,
            decreases rest.len() - i,
        {
            r.push((rest[i].0.clone(), rest[i].1.clone()));
            i = i + 1;
        }
        proof {
            lemma_pairs_view_index(r@);
            lemma_pairs_view_index(rest@);
        }
        assert(tail[0] == (hs@[from as int].0@, hs@[from as int].1@));
        assert(tail.drop_first() =~= pairs_view(hs@).subrange(from + 1, hs@.len() as int));
        assert(pairs_view(r@) =~= seq![tail[0]] + pairs_view(rest@));
        r
    }
}

/// Converts the headers map into a JSON struct: an object with each header's
/// values joined by a comma and a space, in ascending order of header name.
pub fn headers_to_json(headers: &Vec<(String, Vec<String>)>) -> (r: JsonValue)
    ensures
        json_view(r) == headers_json(headers_view(headers@)),
{
    let ghost hs = headers_view(headers@);
    let mut pairs: Vec<(String, String)> = Vec::new();
    let mut i: usize = 0;
    assert(hs.take(0) =~= Seq::<(Seq<char>, Seq<Seq<char>>)>::empty());
    assert(pairs_view(pairs@) =~= Seq::<(Seq<char>, Seq<char>)>::empty());
    while i < headers.len()
        invariant
            i <= headers.len(),
            hs == headers_view(headers@),
            pairs_view(pairs@) == joined_headers(hs.take(i as int)),
        decreases headers.len() - i,
    {
        assert(hs.take(i + 1).drop_last() =~= hs.take(i as int));
        assert(hs.take(i + 1).last() == hs[i as int]);
        let joined = join_values(&headers[i].1);
        assert(pairs_view(pairs@).subrange(0, pairs@.len() as int) =~= pairs_view(pairs@)) by {
            lemma_pairs_view_index(pairs@);
        }
        pairs = insert_header_from(&pairs, 0, &headers[i].0, &joined);
        i = i + 1;
    }
    assert(hs.take(headers.len() as int) =~= hs);
    let mut entries: Vec<(String, JsonValue)> = Vec::new();
    let mut j: usize = 0;
    proof {
        lemma_pairs_view_index(pairs@);
    }
    while j < pairs.len()
        invariant
            j <= pairs.len(),
            pairs_view(pairs@).len() == pairs@.len(),
            forall|k: int| 0 <= k < pairs@.len() ==> #[trigger] pairs_view(pairs@)[k] == (pairs@[k].0@, pairs@[k].1@),
            entries@.len() == j,
            forall|k: int|
                0 <= k < j ==> (#[trigger] entries@[k]).0@ == pairs@[k].0@ && json_view(entries@[k].1)
                    == JsonView::String(pairs@[k].1@),
        decreases pairs.len() - j,
    {
        entries.push((pairs[j].0.clone(), JsonValue::String(pairs[j].1.clone())));
        j = j + 1;
    }
    proof {
        lemma_entries_view(entries@);
        assert(entries_view(entries@) =~= pairs_view(pairs@).map_values(
            |h: (Seq<char>, Seq<char>)| (h.0, JsonView::String(h.1)),
        ));
    }
    JsonValue::Object(entries)
}

} // verus!
