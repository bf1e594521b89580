//! Laws of the JSON utilities: deep merge, headers and path resolution.
use vstd::prelude::*;

use crate::json_utils::{
    entries_wf, headers_json, insert_header, items_wf, joined_headers, joined_values, json_wf,
    entry_position_from, json_pointers, keys_ascending, merged_entries, merged_json, q_entries, q_items,
    q_object, resolved_json_pointers, JsonView,
};
use crate::path_exp::TokenView;
use crate::text::decimal;
use crate::xml_query::{node_paths, pointer_of, Paths};
use crate::xml_model::chars_less;

verus! {

/// No string comes before itself.
pub proof fn lemma_chars_less_irreflexive(a: Seq<char>)
    ensures
        !chars_less(a, a),
    decreases a.len(),
{
    if a.len() > 0 {
        lemma_chars_less_irreflexive(a.drop_first());
    }
}

/// The order of strings is transitive.
pub proof fn lemma_chars_less_transitive(a: Seq<char>, b: Seq<char>, c: Seq<char>)
    requires
        chars_less(a, b),
        chars_less(b, c),
    ensures
        chars_less(a, c),
    decreases a.len(),
{
    if a.len() > 0 && b.len() > 0 && c.len() > 0 && a[0] == b[0] && b[0] == c[0] {
        lemma_chars_less_transitive(a.drop_first(), b.drop_first(), c.drop_first());
    }
}

/// Different characters have different codes.
proof fn lemma_char_code_injective(c: char, d: char)
    requires
        c != d,
    ensures
        (c as u32) != (d as u32),
{
    assert((c as int) != (d as int));
}

/// Of two different strings, one comes before the other.
pub proof fn lemma_chars_less_total(a: Seq<char>, b: Seq<char>)
    requires
        a != b,
    ensures
        chars_less(a, b) || chars_less(b, a),
    decreases a.len(),
{
    if a.len() > 0 && b.len() > 0 {
        if a[0] == b[0] {
            if a.drop_first() == b.drop_first() {
                assert(a =~= seq![a[0]] + a.drop_first());
                assert(b =~= seq![b[0]] + b.drop_first());
            }
            lemma_chars_less_total(a.drop_first(), b.drop_first());
        } else {
            lemma_char_code_injective(a[0], b[0]);
        }
    } else if a.len() == 0 && b.len() == 0 {
        assert(a =~= b);
    }
}

/// The value of the first entry with the given key.
pub open spec fn entry_value(entries: Seq<(Seq<char>, JsonView)>, key: Seq<char>) -> Option<JsonView>
    decreases entries.len(),
{
    if entries.len() == 0 {
        None
    } else if entries[0].0 == key {
        Some(entries[0].1)
    } else {
        entry_value(entries.drop_first(), key)
    }
}

/// What a key holds after a merge, from what it holds in the two objects.
pub open spec fn merged_value(a: Option<JsonView>, b: Option<JsonView>) -> Option<JsonView> {
    match (a, b) {
        (Some(x), Some(y)) => Some(merged_json(x, y)),
        (Some(x), None) => Some(x),
        (None, Some(y)) => Some(y),
        (None, None) => None,
    }
}

/// In entries with ascending keys, every key after the first comes after it.
proof fn lemma_first_key_least(entries: Seq<(Seq<char>, JsonView)>, i: int)
    requires
        keys_ascending(entries),
        0 < i < entries.len(),
    ensures
        chars_less(entries[0].0, entries[i].0),
    decreases i,
{
    if i > 1 {
        lemma_first_key_least(entries, i - 1);
        lemma_chars_less_transitive(entries[0].0, entries[i - 1].0, entries[i].0);
    }
}

/// A key before the first key of ascending entries is not among them.
proof fn lemma_key_before_first_absent(entries: Seq<(Seq<char>, JsonView)>, key: Seq<char>)
    requires
        keys_ascending(entries),
        entries.len() > 0,
        chars_less(key, entries[0].0),
    ensures
        entry_value(entries, key) is None,
    decreases entries.len(),
{
    lemma_chars_less_irreflexive(key);
    assert(entries[0].0 != key);
    if entries.len() == 1 {
        assert(entry_value(entries.drop_first(), key) is None);
    } else {
        lemma_first_key_least(entries, 1);
        lemma_chars_less_transitive(key, entries[0].0, entries[1].0);
        assert(keys_ascending(entries.drop_first()));
        lemma_key_before_first_absent(entries.drop_first(), key);
    }
}

/// The first key of merged entries is the first key of one of the two.
proof fn lemma_merged_first_key(x: Seq<(Seq<char>, JsonView)>, y: Seq<(Seq<char>, JsonView)>)
    requires
        x.len() > 0 || y.len() > 0,
    ensures
        merged_entries(x, y).len() > 0,
        (x.len() > 0 && merged_entries(x, y)[0].0 == x[0].0) || (y.len() > 0 && merged_entries(
            x,
            y,
        )[0].0 == y[0].0),
{
}

/// The entries of a merge of objects with ascending keys have ascending keys.
pub proof fn lemma_merged_entries_ascending(x: Seq<(Seq<char>, JsonView)>, y: Seq<(Seq<char>, JsonView)>)
    requires
        keys_ascending(x),
        keys_ascending(y),
    ensures
        keys_ascending(merged_entries(x, y)),
    decreases x.len() + y.len(),
{
    if x.len() == 0 || y.len() == 0 {
    } else {
        assert(keys_ascending(x.drop_first()));
        assert(keys_ascending(y.drop_first()));
        let m = merged_entries(x, y);
        if x[0].0 == y[0].0 {
            let rest = merged_entries(x.drop_first(), y.drop_first());
            lemma_merged_entries_ascending(x.drop_first(), y.drop_first());
            if rest.len() > 0 {
                lemma_merged_first_key(x.drop_first(), y.drop_first());
                if x.len() > 1 && rest[0].0 == x[1].0 {
                } else {
                    assert(y.len() > 1 && rest[0].0 == y[1].0);
                }
            }
            assert forall|i: int| 0 <= i < m.len() - 1 implies chars_less(#[trigger] m[i].0, m[i + 1].0) by {
                if i > 0 {
                    assert(m[i] == rest[i - 1]);
                    assert(m[i + 1] == rest[i]);
                }
            }
        } else if chars_less(x[0].0, y[0].0) {
            let rest = merged_entries(x.drop_first(), y);
            lemma_merged_entries_ascending(x.drop_first(), y);
            lemma_merged_first_key(x.drop_first(), y);
            assert forall|i: int| 0 <= i < m.len() - 1 implies chars_less(#[trigger] m[i].0, m[i + 1].0) by {
                if i > 0 {
                    assert(m[i] == rest[i - 1]);
                    assert(m[i + 1] == rest[i]);
                }
            }
        } else {
            lemma_chars_less_total(x[0].0, y[0].0);
            let rest = merged_entries(x, y.drop_first());
            lemma_merged_entries_ascending(x, y.drop_first());
            lemma_merged_first_key(x, y.drop_first());
            assert forall|i: int| 0 <= i < m.len() - 1 implies chars_less(#[trigger] m[i].0, m[i + 1].0) by {
                if i > 0 {
                    assert(m[i] == rest[i - 1]);
                    assert(m[i + 1] == rest[i]);
                }
            }
        }
    }
}

/// What a key holds in a merge of objects with ascending keys: the merge of
/// its two values where both objects have it, its value where one has it,
/// nothing where neither has it.
pub proof fn lemma_merged_entries_value(
    x: Seq<(Seq<char>, JsonView)>,
    y: Seq<(Seq<char>, JsonView)>,
    key: Seq<char>,
)
    requires
        keys_ascending(x),
        keys_ascending(y),
    ensures
        entry_value(merged_entries(x, y), key) == merged_value(entry_value(x, key), entry_value(y, key)),
    decreases x.len() + y.len(),
{
    if x.len() == 0 {
    } else if y.len() == 0 {
    } else {
        assert(keys_ascending(x.drop_first()));
        assert(keys_ascending(y.drop_first()));
        let m = merged_entries(x, y);
        if x[0].0 == y[0].0 {
            lemma_merged_entries_value(x.drop_first(), y.drop_first(), key);
            assert(m.drop_first() =~= merged_entries(x.drop_first(), y.drop_first()));
        } else if chars_less(x[0].0, y[0].0) {
            lemma_merged_entries_value(x.drop_first(), y, key);
            assert(m.drop_first() =~= merged_entries(x.drop_first(), y));
            if key == x[0].0 {
                lemma_key_before_first_absent(y, key);
            }
        } else {
            lemma_chars_less_total(x[0].0, y[0].0);
            lemma_merged_entries_value(x, y.drop_first(), key);
            assert(m.drop_first() =~= merged_entries(x, y.drop_first()));
            if key == y[0].0 {
                lemma_key_before_first_absent(x, key);
            }
        }
    }
}

proof fn lemma_items_wf_index(items: Seq<JsonView>, i: int)
    requires
        items_wf(items),
        0 <= i < items.len(),
    ensures
        json_wf(items[i]),
    decreases items.len(),
{
    if i < items.len() - 1 {
        lemma_items_wf_index(items.drop_last(), i);
    }
}

proof fn lemma_items_wf_all(items: Seq<JsonView>)
    requires
        forall|i: int| 0 <= i < items.len() ==> json_wf(#[trigger] items[i]),
    ensures
        items_wf(items),
    decreases items.len(),
{
    if items.len() > 0 {
        lemma_items_wf_all(items.drop_last());
    }
}

proof fn lemma_entries_wf_index(entries: Seq<(Seq<char>, JsonView)>, i: int)
    requires
        entries_wf(entries),
        0 <= i < entries.len(),
    ensures
        json_wf(entries[i].1),
    decreases entries.len(),
{
    if i < entries.len() - 1 {
        lemma_entries_wf_index(entries.drop_last(), i);
    }
}

proof fn lemma_entries_wf_all(entries: Seq<(Seq<char>, JsonView)>)
    requires
        forall|i: int| 0 <= i < entries.len() ==> json_wf(#[trigger] entries[i].1),
    ensures
        entries_wf(entries),
    decreases entries.len(),
{
    if entries.len() > 0 {
        lemma_entries_wf_all(entries.drop_last());
    }
}

/// Every value in merged entries is well formed where those of the two
/// objects are.
proof fn lemma_merged_entries_wf(x: Seq<(Seq<char>, JsonView)>, y: Seq<(Seq<char>, JsonView)>)
    requires
        entries_wf(x),
        entries_wf(y),
    ensures
        forall|i: int| 0 <= i < merged_entries(x, y).len() ==> json_wf(#[trigger] merged_entries(x, y)[i].1),
    decreases x, y.len(),
{
    if x.len() == 0 || y.len() == 0 {
        let m = merged_entries(x, y);
        assert forall|i: int| 0 <= i < m.len() implies json_wf(#[trigger] m[i].1) by {
            if x.len() == 0 {
                lemma_entries_wf_index(y, i);
            } else {
                lemma_entries_wf_index(x, i);
            }
        }
    } else {
        assert(entries_wf(x.drop_first())) by {
            assert forall|i: int| 0 <= i < x.drop_first().len() implies json_wf(#[trigger] x.drop_first()[i].1) by {
                lemma_entries_wf_index(x, i + 1);
            }
            lemma_entries_wf_all(x.drop_first());
        }
        assert(entries_wf(y.drop_first())) by {
            assert forall|i: int| 0 <= i < y.drop_first().len() implies json_wf(#[trigger] y.drop_first()[i].1) by {
                lemma_entries_wf_index(y, i + 1);
            }
            lemma_entries_wf_all(y.drop_first());
        }
        lemma_entries_wf_index(x, 0);
        lemma_entries_wf_index(y, 0);
        let m = merged_entries(x, y);
        if x[0].0 == y[0].0 {
            assert(decreases_to!(x => x[0]));
            assert(decreases_to!(x[0] => x[0].1));
            lemma_merged_wf(x[0].1, y[0].1);
            lemma_merged_entries_wf(x.drop_first(), y.drop_first());
            assert forall|i: int| 0 <= i < m.len() implies json_wf(#[trigger] m[i].1) by {
                if i > 0 {
                    assert(m[i] == merged_entries(x.drop_first(), y.drop_first())[i - 1]);
                }
            }
        } else if chars_less(x[0].0, y[0].0) {
            lemma_merged_entries_wf(x.drop_first(), y);
            assert forall|i: int| 0 <= i < m.len() implies json_wf(#[trigger] m[i].1) by {
                if i > 0 {
                    assert(m[i] == merged_entries(x.drop_first(), y)[i - 1]);
                }
            }
        } else {
            lemma_merged_entries_wf(x, y.drop_first());
            assert forall|i: int| 0 <= i < m.len() implies json_wf(#[trigger] m[i].1) by {
                if i > 0 {
                    assert(m[i] == merged_entries(x, y.drop_first())[i - 1]);
                }
            }
        }
    }
}

/// The merge of two well-formed values is well formed.
proof fn lemma_merged_wf(a: JsonView, b: JsonView)
    requires
        json_wf(a),
        json_wf(b),
    ensures
        json_wf(merged_json(a, b)),
    decreases a, 1nat,
{
    match (a, b) {
        (JsonView::Array(x), JsonView::Array(y)) => {
            assert forall|i: int| 0 <= i < (x + y).len() implies json_wf(#[trigger] (x + y)[i]) by {
                if i < x.len() {
                    lemma_items_wf_index(x, i);
                } else {
                    lemma_items_wf_index(y, i - x.len());
                }
            }
            lemma_items_wf_all(x + y);
        },
        (JsonView::Object(x), JsonView::Object(y)) => {
            lemma_merged_entries_ascending(x, y);
            lemma_merged_entries_wf(x, y);
            lemma_entries_wf_all(merged_entries(x, y));
        },
        _ => {},
    }
}

/// Deep merging two objects: the merged object holds each key of either
/// object once, in ascending order; a key that only one object holds keeps
/// its value, and a key that both hold gets the deep merge of its two values.
pub proof fn law_deep_merge_of_objects(
    x: Seq<(Seq<char>, JsonView)>,
    y: Seq<(Seq<char>, JsonView)>,
    key: Seq<char>,
)
    requires
        json_wf(JsonView::Object(x)),
        json_wf(JsonView::Object(y)),
    ensures
        merged_json(JsonView::Object(x), JsonView::Object(y)) matches JsonView::Object(m) && keys_ascending(m)
            && entry_value(m, key) == merged_value(entry_value(x, key), entry_value(y, key)),
{
    lemma_merged_entries_ascending(x, y);
    lemma_merged_entries_value(x, y, key);
}

/// Deep merging two arrays appends the items of the second to those of the
/// first; merging values that are not both arrays or both objects gives the
/// second value.
pub proof fn law_deep_merge_of_arrays_and_other_values(a: JsonView, b: JsonView)
    ensures
        a is Array && b is Array ==> merged_json(a, b) == JsonView::Array(a->Array_0 + b->Array_0),
        !(a is Array && b is Array) && !(a is Object && b is Object) ==> merged_json(a, b) == b,
{
}

/// The deep merge of two well-formed values (objects with ascending, distinct
/// keys throughout) is well formed.
pub proof fn law_deep_merge_keeps_well_formed(a: JsonView, b: JsonView)
    requires
        json_wf(a),
        json_wf(b),
    ensures
        json_wf(merged_json(a, b)),
{
    lemma_merged_wf(a, b);
}


/// The value of the first header with the given name.
pub open spec fn header_value(hs: Seq<(Seq<char>, Seq<char>)>, name: Seq<char>) -> Option<Seq<char>>
    decreases hs.len(),
{
    if hs.len() == 0 {
        None
    } else if hs[0].0 == name {
        Some(hs[0].1)
    } else {
        header_value(hs.drop_first(), name)
    }
}

/// Whether header names come in strictly ascending order.
pub open spec fn header_names_ascending(hs: Seq<(Seq<char>, Seq<char>)>) -> bool {
    forall|i: int| 0 <= i < hs.len() - 1 ==> chars_less(#[trigger] hs[i].0, hs[i + 1].0)
}

proof fn lemma_insert_header(hs: Seq<(Seq<char>, Seq<char>)>, name: Seq<char>, value: Seq<char>, key: Seq<char>)
    requires
        header_names_ascending(hs),
    ensures
        header_names_ascending(insert_header(hs, name, value)),
        insert_header(hs, name, value).len() > 0,
        insert_header(hs, name, value)[0].0 == name || (hs.len() > 0 && insert_header(hs, name, value)[0].0 == hs[0].0),
        header_value(insert_header(hs, name, value), key) == if key == name {
            Some(value)
        } else {
            header_value(hs, key)
        },
    decreases hs.len(),
{
    let r = insert_header(hs, name, value);
    if hs.len() == 0 {
        assert(r.drop_first() =~= Seq::<(Seq<char>, Seq<char>)>::empty());
        assert(header_value(r.drop_first(), key) is None);
    } else if hs[0].0 == name {
        assert(r.drop_first() =~= hs.drop_first());
        assert forall|i: int| 0 <= i < r.len() - 1 implies chars_less(#[trigger] r[i].0, r[i + 1].0) by {
            assert(hs[i].0 == r[i].0);
            assert(hs[i + 1].0 == r[i + 1].0);
        }
    } else if chars_less(name, hs[0].0) {
        assert(r.drop_first() =~= hs);
        assert forall|i: int| 0 <= i < r.len() - 1 implies chars_less(#[trigger] r[i].0, r[i + 1].0) by {
            if i > 0 {
                assert(r[i] == hs[i - 1]);
                assert(r[i + 1] == hs[i]);
            }
        }
    } else {
        lemma_chars_less_total(name, hs[0].0);
        let rest = hs.drop_first();
        assert(header_names_ascending(rest));
        lemma_insert_header(rest, name, value, key);
        let ins = insert_header(rest, name, value);
        assert(r.drop_first() =~= ins);
        assert(r[0] == hs[0]);
        if key != hs[0].0 {
            assert(header_value(r, key) == header_value(ins, key));
            assert(header_value(hs, key) == header_value(rest, key));
        }
        assert forall|i: int| 0 <= i < r.len() - 1 implies chars_less(#[trigger] r[i].0, r[i + 1].0) by {
            if i == 0 {
                if ins[0].0 != name {
                    assert(ins[0].0 == rest[0].0);
                    assert(rest[0] == hs[1]);
                }
            } else {
                assert(r[i] == ins[i - 1]);
                assert(r[i + 1] == ins[i]);
            }
        }
    }
}

proof fn lemma_joined_headers(hs: Seq<(Seq<char>, Seq<Seq<char>>)>, key: Seq<char>)
    requires
        forall|i: int, j: int| 0 <= i < j < hs.len() ==> hs[i].0 != hs[j].0,
    ensures
        header_names_ascending(joined_headers(hs)),
        forall|i: int| 0 <= i < hs.len() && hs[i].0 == key ==> header_value(joined_headers(hs), key) == Some(
            joined_values(hs[i].1),
        ),
        (forall|i: int| 0 <= i < hs.len() ==> hs[i].0 != key) ==> header_value(joined_headers(hs), key) is None,
    decreases hs.len(),
{
    if hs.len() > 0 {
        let prefix = hs.drop_last();
        lemma_joined_headers(prefix, key);
        lemma_insert_header(joined_headers(prefix), hs.last().0, joined_values(hs.last().1), key);
        assert forall|i: int| 0 <= i < hs.len() && hs[i].0 == key implies header_value(joined_headers(hs), key)
            == Some(joined_values(hs[i].1)) by {
            if i < hs.len() - 1 {
                assert(prefix[i] == hs[i]);
                assert(hs[i].0 != hs[hs.len() - 1].0);
            }
        }
        if forall|i: int| 0 <= i < hs.len() ==> hs[i].0 != key {
            assert forall|i: int| 0 <= i < prefix.len() implies prefix[i].0 != key by {
                assert(prefix[i] == hs[i]);
            }
            assert(hs[hs.len() - 1].0 != key);
        }
    }
}

proof fn lemma_header_entries(hs: Seq<(Seq<char>, Seq<char>)>, key: Seq<char>)
    ensures
        ({
            let m = hs.map_values(|h: (Seq<char>, Seq<char>)| (h.0, JsonView::String(h.1)));
            &&& entry_value(m, key) == match header_value(hs, key) {
                Some(v) => Some(JsonView::String(v)),
                None => None::<JsonView>,
            }
            &&& (header_names_ascending(hs) ==> keys_ascending(m))
        }),
    decreases hs.len(),
{
    let m = hs.map_values(|h: (Seq<char>, Seq<char>)| (h.0, JsonView::String(h.1)));
    if hs.len() > 0 {
        lemma_header_entries(hs.drop_first(), key);
        assert(m.drop_first() =~= hs.drop_first().map_values(
            |h: (Seq<char>, Seq<char>)| (h.0, JsonView::String(h.1)),
        ));
    }
    if header_names_ascending(hs) {
        assert forall|i: int| 0 <= i < m.len() - 1 implies chars_less(#[trigger] m[i].0, m[i + 1].0) by {
            assert(m[i].0 == hs[i].0);
            assert(m[i + 1].0 == hs[i + 1].0);
        }
    }
}

/// The JSON object of some headers (with distinct names) holds each name
/// once, in ascending order, with the header's values joined by a comma and
/// a space, and no other name.
pub proof fn law_headers_json_holds_each_header_once(hs: Seq<(Seq<char>, Seq<Seq<char>>)>, name: Seq<char>)
    requires
        forall|i: int, j: int| 0 <= i < j < hs.len() ==> hs[i].0 != hs[j].0,
    ensures
        headers_json(hs) matches JsonView::Object(m) && keys_ascending(m)
            && (forall|i: int| 0 <= i < hs.len() && hs[i].0 == name ==> entry_value(m, name) == Some(
                JsonView::String(joined_values(hs[i].1)),
            ))
            && ((forall|i: int| 0 <= i < hs.len() ==> hs[i].0 != name) ==> entry_value(m, name) is None),
{
    lemma_joined_headers(hs, name);
    lemma_header_entries(joined_headers(hs), name);
}

/// Matching tokens depends only on the tokens from the position on: tokens
/// put before them change nothing.
proof fn lemma_q_object_shift(pre: Seq<TokenView>, ts: Seq<TokenView>, pos: int, v: JsonView)
    requires
        0 <= pos,
    ensures
        q_object(pre + ts, pre.len() + pos, v) == q_object(ts, pos, v),
    decreases ts.len() - pos, 0nat, 0nat,
{
    let all = pre + ts;
    if pos < ts.len() {
        assert(all[pre.len() + pos] == ts[pos]);
        match ts[pos] {
            TokenView::Field(name) => match v {
                JsonView::Object(entries) => match entry_position_from(entries, name, 0) {
                    Some(k) => {
                        lemma_q_object_shift(pre, ts, pos + 1, entries[k].1);
                    },
                    None => {},
                },
                _ => {},
            },
            TokenView::Index(i) => match v {
                JsonView::Array(items) => if i < items.len() {
                    lemma_q_object_shift(pre, ts, pos + 1, items[i as int]);
                } else {
                    lemma_q_object_shift(pre, ts, pos + 1, v);
                },
                _ => {},
            },
            TokenView::Star => match v {
                JsonView::Object(entries) => {
                    lemma_q_entries_shift(pre, ts, pos + 1, entries, 0);
                },
                _ => {},
            },
            TokenView::StarIndex => match v {
                JsonView::Array(items) => {
                    lemma_q_items_shift(pre, ts, pos + 1, items, 0);
                },
                _ => {},
            },
            TokenView::Root => {
                lemma_q_object_shift(pre, ts, pos + 1, v);
            },
        }
    }
}

proof fn lemma_q_entries_shift(
    pre: Seq<TokenView>,
    ts: Seq<TokenView>,
    pos: int,
    entries: Seq<(Seq<char>, JsonView)>,
    k: int,
)
    requires
        0 <= pos,
    ensures
        q_entries(pre + ts, pre.len() + pos, entries, k) == q_entries(ts, pos, entries, k),
    decreases ts.len() - pos, 1nat, entries.len() - k,
{
    if 0 <= k < entries.len() {
        lemma_q_object_shift(pre, ts, pos, entries[k].1);
        lemma_q_entries_shift(pre, ts, pos, entries, k + 1);
    }
}

proof fn lemma_q_items_shift(pre: Seq<TokenView>, ts: Seq<TokenView>, pos: int, items: Seq<JsonView>, k: int)
    requires
        0 <= pos,
    ensures
        q_items(pre + ts, pre.len() + pos, items, k) == q_items(ts, pos, items, k),
    decreases ts.len() - pos, 1nat, items.len() - k,
{
    if 0 <= k < items.len() {
        lemma_q_object_shift(pre, ts, pos, items[k]);
        lemma_q_items_shift(pre, ts, pos, items, k + 1);
    }
}

proof fn lemma_pointer_of_prefixed(label: Seq<char>, q: Seq<Seq<char>>)
    ensures
        pointer_of(seq![label] + q) == "/"@ + label + pointer_of(q),
    decreases q.len(),
{
    if q.len() == 0 {
        let p = seq![label];
        assert(p.drop_last() =~= Seq::<Seq<char>>::empty());
        assert(pointer_of(Seq::<Seq<char>>::empty()) =~= Seq::<char>::empty());
        assert(pointer_of(p) =~= "/"@ + label + pointer_of(q));
    } else {
        lemma_pointer_of_prefixed(label, q.drop_last());
        assert((seq![label] + q).drop_last() =~= seq![label] + q.drop_last());
        assert((seq![label] + q).last() == q.last());
        assert(pointer_of(seq![label] + q) =~= "/"@ + label + pointer_of(q));
    }
}

/// Each path with a label put in front.
pub open spec fn under_label(label: Seq<char>, paths: Paths) -> Paths {
    Seq::new(paths.len(), |i: int| seq![label] + paths[i])
}

proof fn lemma_pointers_under_label(label: Seq<char>, paths: Paths, depth: nat)
    requires
        depth >= 2,
    ensures
        json_pointers(under_label(label, paths), depth + 1) == json_pointers(paths, depth).map_values(
            |p: Seq<char>| "/"@ + label + p,
        ),
    decreases paths.len(),
{
    let f = |p: Seq<char>| "/"@ + label + p;
    if paths.len() == 0 {
        assert(under_label(label, paths) =~= Seq::<Seq<Seq<char>>>::empty());
        assert(json_pointers(paths, depth).map_values(f) =~= Seq::<Seq<char>>::empty());
    } else {
        let u = under_label(label, paths);
        lemma_pointers_under_label(label, paths.drop_last(), depth);
        assert(u.drop_last() =~= under_label(label, paths.drop_last()));
        let q = paths.last();
        assert(u.last() == seq![label] + q);
        lemma_pointer_of_prefixed(label, q);
        let rest = json_pointers(paths.drop_last(), depth);
        if q.len() > 0 && q.len() + 1 == depth && q.last().len() > 0 {
            assert((seq![label] + q).last() == q.last());
            assert(rest.push(pointer_of(q)).map_values(f) =~= rest.map_values(f).push(f(pointer_of(q))));
        } else {
            if q.len() > 0 {
                assert((seq![label] + q).last() == q.last());
            }
        }
    }
}

/// The pointers of the leaves under a node labelled `label` are those of
/// the leaves below it, one level up, each under `/label`.
proof fn lemma_pointers_of_node(label: Seq<char>, below: Paths, depth: nat)
    requires
        depth >= 3,
    ensures
        json_pointers(node_paths(label, below), depth) == json_pointers(below, (depth - 1) as nat).map_values(
            |p: Seq<char>| "/"@ + label + p,
        ),
{
    let d1 = (depth - 1) as nat;
    if below.len() == 0 {
        assert(json_pointers(below, d1) =~= Seq::<Seq<char>>::empty());
        let one = seq![seq![label]];
        assert(one.drop_last() =~= Seq::<Seq<Seq<char>>>::empty());
        assert(json_pointers(one.drop_last(), depth) =~= Seq::<Seq<char>>::empty());
        assert(one.last() == seq![label]);
        assert(json_pointers(one, depth) =~= Seq::<Seq<char>>::empty());
        assert(Seq::<Seq<char>>::empty().map_values(|p: Seq<char>| "/"@ + label + p) =~= Seq::<Seq<char>>::empty());
    } else {
        assert(node_paths(label, below) =~= under_label(label, below));
        lemma_pointers_under_label(label, below, d1);
    }
}

/// Resolving a path against an object: a field step descends into the value
/// of that field. For an object whose first entry with key `k` holds `w`, the
/// pointers that `$.k` followed by further tokens matches are exactly the
/// pointers those tokens match in `w`, each under `/k`.
pub proof fn law_field_step_descends_into_the_field(
    entries: Seq<(Seq<char>, JsonView)>,
    j: int,
    ts: Seq<TokenView>,
)
    requires
        0 <= j < entries.len(),
        forall|i: int| 0 <= i < j ==> entries[i].0 != entries[j].0,
        ts.len() > 0,
    ensures
        resolved_json_pointers(
            JsonView::Object(entries),
            seq![TokenView::Root, TokenView::Field(entries[j].0)] + ts,
        ) == resolved_json_pointers(entries[j].1, seq![TokenView::Root] + ts).map_values(
            |p: Seq<char>| "/"@ + entries[j].0 + p,
        ),
{
    let k = entries[j].0;
    let w = entries[j].1;
    let pre2 = seq![TokenView::Root, TokenView::Field(k)];
    let pre1 = seq![TokenView::Root];
    let t2 = pre2 + ts;
    let t1 = pre1 + ts;
    lemma_first_position(entries, k, j, 0);
    assert(t2[0] == TokenView::Root);
    assert(t2[1] == TokenView::Field(k));
    assert(t1[0] == TokenView::Root);
    lemma_q_object_shift(pre2, ts, 0, w);
    lemma_q_object_shift(pre1, ts, 0, w);
    assert(q_object(t2, 0, JsonView::Object(entries)) == q_object(t2, 1, JsonView::Object(entries)));
    assert(q_object(t2, 1, JsonView::Object(entries)) == node_paths(k, q_object(t2, 2, w)));
    assert(q_object(t1, 0, w) == q_object(t1, 1, w));
    lemma_pointers_of_node(k, q_object(ts, 0, w), t2.len());
}

/// Resolving a path against an array: an index step within bounds descends
/// into that item. The pointers that `$[i]` followed by further tokens
/// matches are exactly the pointers those tokens match in item `i`, each
/// under `/i`.
pub proof fn law_index_step_descends_into_the_item(items: Seq<JsonView>, i: usize, ts: Seq<TokenView>)
    requires
        i < items.len(),
        ts.len() > 0,
    ensures
        resolved_json_pointers(JsonView::Array(items), seq![TokenView::Root, TokenView::Index(i)] + ts)
            == resolved_json_pointers(items[i as int], seq![TokenView::Root] + ts).map_values(
            |p: Seq<char>| "/"@ + decimal(i as nat) + p,
        ),
{
    let w = items[i as int];
    let label = decimal(i as nat);
    let pre2 = seq![TokenView::Root, TokenView::Index(i)];
    let pre1 = seq![TokenView::Root];
    let t2 = pre2 + ts;
    let t1 = pre1 + ts;
    assert(t2[0] == TokenView::Root);
    assert(t2[1] == TokenView::Index(i));
    assert(t1[0] == TokenView::Root);
    lemma_q_object_shift(pre2, ts, 0, w);
    lemma_q_object_shift(pre1, ts, 0, w);
    assert(q_object(t2, 0, JsonView::Array(items)) == q_object(t2, 1, JsonView::Array(items)));
    assert(q_object(t2, 1, JsonView::Array(items)) == node_paths(label, q_object(t2, 2, w)));
    assert(q_object(t1, 0, w) == q_object(t1, 1, w));
    lemma_pointers_of_node(label, q_object(ts, 0, w), t2.len());
}

/// Resolving a path against an object that has no entry with the key of a
/// field step matches nothing.
pub proof fn law_missing_field_matches_nothing(
    entries: Seq<(Seq<char>, JsonView)>,
    key: Seq<char>,
    ts: Seq<TokenView>,
)
    requires
        forall|i: int| 0 <= i < entries.len() ==> entries[i].0 != key,
    ensures
        resolved_json_pointers(JsonView::Object(entries), seq![TokenView::Root, TokenView::Field(key)] + ts)
            == Seq::<Seq<char>>::empty(),
{
    let t = seq![TokenView::Root, TokenView::Field(key)] + ts;
    lemma_no_position(entries, key, 0);
    assert(t[0] == TokenView::Root);
    assert(t[1] == TokenView::Field(key));
    assert(q_object(t, 0, JsonView::Object(entries)) == q_object(t, 1, JsonView::Object(entries)));
    assert(q_object(t, 1, JsonView::Object(entries)) =~= Seq::<Seq<Seq<char>>>::empty());
    assert(json_pointers(Seq::<Seq<Seq<char>>>::empty(), t.len()) =~= Seq::<Seq<char>>::empty());
}

/// No entry from `from` on has key `k`.
proof fn lemma_no_position(entries: Seq<(Seq<char>, JsonView)>, k: Seq<char>, from: int)
    requires
        0 <= from,
        forall|i: int| from <= i < entries.len() ==> entries[i].0 != k,
    ensures
        entry_position_from(entries, k, from) is None,
    decreases entries.len() - from,
{
    if from < entries.len() {
        lemma_no_position(entries, k, from + 1);
    }
}

/// The first entry with key `k` from `from` on is at `j`.
proof fn lemma_first_position(entries: Seq<(Seq<char>, JsonView)>, k: Seq<char>, j: int, from: int)
    requires
        0 <= from <= j < entries.len(),
        entries[j].0 == k,
        forall|i: int| from <= i < j ==> entries[i].0 != k,
    ensures
        entry_position_from(entries, k, from) == Some(j),
    decreases j - from,
{
    if from < j {
        lemma_first_position(entries, k, j, from + 1);
    }
}

} // verus!
