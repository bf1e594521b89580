//! Resolving path expressions against XML elements: the pointers (such as
//! `/config[0]/sound[0]/@name`) of the nodes a path matches, and the node a
//! pointer designates.
use vstd::prelude::*;
use regex::Regex;
use crate::path_exp::{tokens_view, DocPath, PathToken, TokenView};
use crate::text::{chars_of, decimal, push_chars, push_str, split_of, usize_parse, usize_to_decimal};
use crate::xml_model::{
    child_elements, element_text, element_text_of, element_view, elements_named, elements_of,
    find_key, grouped, group_children, key_position, lemma_refs_view_len, named, names_seq,
    pairs_view, refs_view, resolve_namespaces, resolved_attributes, starts_with, text_nodes,
    texts_of, XmlElement, XmlElementView,
};

verus! {

/// Leaf paths under a node: each the labels from a child of the node down to
/// a leaf.
pub type Paths = Seq<Seq<Seq<char>>>;

/// The label of a matched element: `name[index]`.
pub open spec fn element_label(name: Seq<char>, index: nat) -> Seq<char> {
    name + "["@ + decimal(index) + "]"@
}

/// The leaf paths of a node labelled `label` with the given leaf paths below
/// it: the node itself when nothing is below it.
pub open spec fn node_paths(label: Seq<char>, below: Paths) -> Paths {
    if below.len() == 0 {
        seq![seq![label]]
    } else {
        Seq::new(below.len(), |i: int| seq![label] + below[i])
    }
}

/// An attribute token (`@name`) that names an attribute of the element,
/// namespace prefixes resolved.
pub open spec fn q_attributes(tokens: Seq<TokenView>, pos: int, e: XmlElementView) -> Paths {
    if 0 <= pos < tokens.len() {
        match tokens[pos] {
            TokenView::Field(name) => if starts_with(name, "@"@) && key_position(
                resolved_attributes(e.attributes),
                name.drop_first(),
            ) is Some {
                seq![seq![name]]
            } else {
                Seq::empty()
            },
            _ => Seq::empty(),
        }
    } else {
        Seq::empty()
    }
}

/// A `#text` token, when the element has some text.
pub open spec fn q_text(tokens: Seq<TokenView>, pos: int, e: XmlElementView) -> Paths {
    if 0 <= pos < tokens.len() {
        match tokens[pos] {
            TokenView::Field(name) => if name == "#text"@ && texts_of(e.children).len() > 0 {
                seq![seq![name]]
            } else {
                Seq::empty()
            },
            _ => Seq::empty(),
        }
    } else {
        Seq::empty()
    }
}

/// The label an element gets when a field token names it, by its name or by
/// its namespace and name.
pub open spec fn field_label(name: Seq<char>, e: XmlElementView, index: nat) -> Option<Seq<char>> {
    if e.name == name {
        Some(element_label(name, index))
    } else {
        match e.namespace {
            Some(ns) => if ns + ":"@ + e.name == name {
                Some(element_label(ns + ":"@ + e.name, index))
            } else {
                None
            },
            None => None,
        }
    }
}

/// Matches the tokens from `pos` on against the element (the `index`th of
/// its name under its parent): the leaf paths added under the parent node,
/// and whether the parent node is taken out of the tree (an index token that
/// does not match).
pub open spec fn q_graph(tokens: Seq<TokenView>, pos: int, e: XmlElementView, index: nat) -> (Paths, bool)
    decreases tokens.len() - pos, 0nat, 0nat, 0nat,
{
    if pos < 0 || pos >= tokens.len() {
        (Seq::empty(), false)
    } else {
        let next = pos + 1;
        let more = next < tokens.len();
        match tokens[pos] {
            TokenView::Field(name) => match field_label(name, e, index) {
                None => (Seq::empty(), false),
                Some(label) => if !more {
                    (node_paths(label, Seq::empty()), false)
                } else {
                    let (below, detached) = if tokens[next] is Index {
                        q_graph(tokens, next, e, index)
                    } else {
                        q_groups(tokens, next, grouped(e), 0, 0)
                    };
                    if detached {
                        (Seq::empty(), false)
                    } else {
                        (node_paths(label, q_attributes(tokens, next, e) + q_text(tokens, next, e) + below), false)
                    }
                },
            },
            TokenView::Index(i) => if i == index {
                if !more {
                    (Seq::empty(), false)
                } else {
                    let (below, detached) = q_groups(tokens, next, grouped(e), 0, 0);
                    (q_attributes(tokens, next, e) + q_text(tokens, next, e) + below, detached)
                }
            } else {
                (Seq::empty(), true)
            },
            TokenView::Root => q_graph(tokens, next, e, index),
            _ => {
                let label = element_label(e.name, index);
                if !more {
                    (node_paths(label, Seq::empty()), false)
                } else {
                    let (below, detached) = q_groups(tokens, next, grouped(e), 0, 0);
                    if detached {
                        (Seq::empty(), false)
                    } else {
                        (node_paths(label, q_attributes(tokens, next, e) + q_text(tokens, next, e) + below), false)
                    }
                }
            },
        }
    }
}

/// Matches the tokens from `pos` on against the children grouped by name,
/// from element `k` of group `g` on, each with its index in its group.
pub open spec fn q_groups(
    tokens: Seq<TokenView>,
    pos: int,
    groups: Seq<(Seq<char>, Seq<XmlElementView>)>,
    g: int,
    k: int,
) -> (Paths, bool)
    decreases tokens.len() - pos, 1nat, groups.len() - g, groups[g].1.len() - k,
{
    if g < 0 || g >= groups.len() {
        (Seq::empty(), false)
    } else if k < 0 || k >= groups[g].1.len() {
        q_groups(tokens, pos, groups, g + 1, 0)
    } else {
        let (first, d1) = q_graph(tokens, pos, groups[g].1[k], k as nat);
        let (rest, d2) = q_groups(tokens, pos, groups, g, k + 1);
        (first + rest, d1 || d2)
    }
}

/// The number of tokens other than index tokens.
pub open spec fn non_index_count(tokens: Seq<TokenView>) -> nat
    decreases tokens.len(),
{
    if tokens.len() == 0 {
        0
    } else {
        non_index_count(tokens.drop_last()) + if tokens.last() is Index {
            0nat
        } else {
            1nat
        }
    }
}

/// A path as a pointer: each label after a `/`.
pub open spec fn pointer_of(path: Seq<Seq<char>>) -> Seq<char>
    decreases path.len(),
{
    if path.len() == 0 {
        Seq::empty()
    } else {
        pointer_of(path.drop_last()) + "/"@ + path.last()
    }
}

/// The pointers of the leaves, among some paths, at the depth of the path
/// expression's non-index tokens.
pub open spec fn pointers_at_depth(paths: Paths, depth: nat) -> Seq<Seq<char>>
    decreases paths.len(),
{
    if paths.len() == 0 {
        Seq::empty()
    } else {
        let rest = pointers_at_depth(paths.drop_last(), depth);
        if paths.last().len() + 1 == depth {
            rest.push(pointer_of(paths.last()))
        } else {
            rest
        }
    }
}

/// The pointers of the nodes of an element that a path expression matches.
pub open spec fn resolved_pointers(e: XmlElementView, tokens: Seq<TokenView>) -> Seq<Seq<char>> {
    pointers_at_depth(q_graph(tokens, 0, e, 0).0, non_index_count(tokens))
}

pub open spec fn paths_seq(s: Seq<Vec<String>>) -> Paths {
    Seq::new(s.len(), |i: int| names_seq(s[i]@))
}

/// `name[index]`.
fn label_of(name: &String, index: usize) -> (r: String)
    ensures
        r@ == element_label(name@, index as nat),
{
    let mut r = name.clone();
    push_str(&mut r, "[");
    let d = usize_to_decimal(index);
    push_str(&mut r, d.as_str());
    push_str(&mut r, "]");
    r
}

/// The leaf paths of a node labelled `label` with `below` under it.
pub(crate) fn prefixed(label: &String, below: Vec<Vec<String>>) -> (r: Vec<Vec<String>>)
    ensures
        paths_seq(r@) == node_paths(label@, paths_seq(below@)),
{
    if below.len() == 0 {
        let r = vec![vec![label.clone()]];
        assert(names_seq(r@[0]@) =~= seq![label@]);
        assert(paths_seq(r@) =~= seq![seq![label@]]);
        return r;
    }
    let mut r: Vec<Vec<String>> = Vec::new();
    let mut i: usize = 0;
    while i < below.len()
        invariant
            i <= below.len(),
            r@.len() == i,
            forall|k: int| 0 <= k < i ==> names_seq(#[trigger] r@[k]@) == seq![label@] + names_seq(below@[k]@),
        decreases below.len() - i,
    {
        let mut p = vec![label.clone()];
        let mut j: usize = 0;
        while j < below[i].len()
            invariant
                i < below.len(),
                j <= below@[i as int].len(),
                p@.len() == j + 1,
                p@[0]@ == label@,
                forall|k: int| 1 <= k < p@.len() ==> #[trigger] p@[k]@ == below@[i as int]@[k - 1]@,
            decreases below@[i as int].len() - j,
        {
            p.push(below[i][j].clone());
            j = j + 1;
        }
        assert(names_seq(p@) =~= seq![label@] + names_seq(below@[i as int]@));
        r.push(p);
        i = i + 1;
    }
    assert(paths_seq(r@) =~= node_paths(label@, paths_seq(below@)));
    r
}

/// `a` followed by `b`.
pub(crate) fn concat_paths(a: Vec<Vec<String>>, b: Vec<Vec<String>>) -> (r: Vec<Vec<String>>)
    ensures
        paths_seq(r@) == paths_seq(a@) + paths_seq(b@),
{
    let mut r = a;
    let mut b = b;
    let ghost a0 = r@;
    let ghost b0 = b@;
    r.append(&mut b);
    assert(r@ =~= a0 + b0);
    assert(paths_seq(r@) =~= paths_seq(a0) + paths_seq(b0));
    r
}

/// The attribute token at `pos`, when it names an attribute of the element.
fn query_attributes(tokens: &Vec<PathToken>, pos: usize, element: &XmlElement) -> (r: Vec<Vec<String>>)
    ensures
        paths_seq(r@) == q_attributes(tokens_view(tokens@), pos as int, element_view(*element)),
{
    let empty: Vec<Vec<String>> = Vec::new();
    assert(paths_seq(empty@) =~= Seq::<Seq<Seq<char>>>::empty());
    if pos < tokens.len() {
        match &tokens[pos] {
            PathToken::Field(name) => {
                let v = crate::text::chars_of(name.as_str());
                if v.len() > 0 && v[0] == '@' {
                    let attribute_name = crate::xml_model::substring(name, 1, v.len());
                    let attributes = resolve_namespaces(&element.attributes);
                    proof {
                        reveal_strlit("@");
                        assert("@"@ =~= seq!['@']);
                        assert(name@.subrange(0, 1) =~= seq!['@']);
                        assert(starts_with(name@, "@"@));
                        assert(attribute_name@ =~= name@.drop_first());
                        assert(tokens_view(tokens@)[pos as int] == TokenView::Field(name@));
                        assert(element_view(*element).attributes == pairs_view(element.attributes@));
                    }
                    match crate::xml_model::find_key(&attributes, &attribute_name) {
                        Some(_) => {
                            let r = vec![vec![name.clone()]];
                            assert(names_seq(r@[0]@) =~= seq![name@]);
                            assert(paths_seq(r@) =~= seq![seq![name@]]);
                            return r;
                        },
                        None => {},
                    }
                } else {
                    proof {
                        reveal_strlit("@");
                        if v@.len() > 0 {
                            assert(name@.subrange(0, 1)[0] != '@');
                        }
                    }
                }
            },
            _ => {},
        }
    }
    empty
}


/// A `#text` token at `pos`, when the element has some text.
fn query_text(tokens: &Vec<PathToken>, pos: usize, element: &XmlElement) -> (r: Vec<Vec<String>>)
    ensures
        paths_seq(r@) == q_text(tokens_view(tokens@), pos as int, element_view(*element)),
{
    let empty: Vec<Vec<String>> = Vec::new();
    assert(paths_seq(empty@) =~= Seq::<Seq<Seq<char>>>::empty());
    if pos < tokens.len() {
        match &tokens[pos] {
            PathToken::Field(name) => {
                assert(tokens_view(tokens@)[pos as int] == TokenView::Field(name@));
                if crate::text::str_equal(name.as_str(), "#text") && text_nodes(element).len() > 0 {
                    let r = vec![vec![name.clone()]];
                    assert(names_seq(r@[0]@) =~= seq![name@]);
                    assert(paths_seq(r@) =~= seq![seq![name@]]);
                    return r;
                }
            },
            _ => {},
        }
    }
    empty
}

/// The label an element gets when the field `name` names it.
fn field_label_of(name: &String, element: &XmlElement, index: usize) -> (r: Option<String>)
    ensures
        match r {
            Some(l) => field_label(name@, element_view(*element), index as nat) == Some(l@),
            None => field_label(name@, element_view(*element), index as nat) is None,
        },
{
    if crate::text::str_equal(element.name.as_str(), name.as_str()) {
        Some(label_of(name, index))
    } else {
        match &element.namespace {
            Some(ns) => {
                let mut qualified = ns.clone();
                push_str(&mut qualified, ":");
                push_str(&mut qualified, element.name.as_str());
                if crate::text::str_equal(qualified.as_str(), name.as_str()) {
                    Some(label_of(&qualified, index))
                } else {
                    None
                }
            },
            None => None,
        }
    }
}

/// The groups seen through their names and elements.
pub open spec fn groups_view(groups: Seq<(String, Vec<&XmlElement>)>) -> Seq<(Seq<char>, Seq<XmlElementView>)> {
    Seq::new(groups.len(), |i: int| (groups[i].0@, refs_view(groups[i].1@)))
}

/// The child elements of an element grouped by name, as `grouped` gives them.
fn groups_of(element: &XmlElement) -> (r: Vec<(String, Vec<&XmlElement>)>)
    ensures
        groups_view(r@) == grouped(element_view(*element)),
{
    let r = group_children(element);
    assert(groups_view(r@) =~= grouped(element_view(*element)));
    r
}

/// Matches the tokens from `pos` on against the element.
fn query_graph(tokens: &Vec<PathToken>, pos: usize, element: &XmlElement, index: usize) -> (r: (Vec<Vec<String>>, bool))
    ensures
        (paths_seq(r.0@), r.1) == q_graph(tokens_view(tokens@), pos as int, element_view(*element), index as nat),
    decreases tokens.len() - pos, 0nat, 0nat, 0nat,
{
    let ghost tv = tokens_view(tokens@);
    let empty: Vec<Vec<String>> = Vec::new();
    assert(paths_seq(empty@) =~= Seq::<Seq<Seq<char>>>::empty());
    if pos >= tokens.len() {
        return (empty, false);
    }
    let next = pos + 1;
    let more = next < tokens.len();
    assert(tv[pos as int] == tokens@[pos as int]@);
    match &tokens[pos] {
        PathToken::Field(name) => {
            match field_label_of(name, element, index) {
                None => (empty, false),
                Some(label) => {
                    if !more {
                        (prefixed(&label, empty), false)
                    } else {
                        assert(tv[next as int] == tokens@[next as int]@);
                        let (below, detached) = if tokens[next].is_index() {
                            query_graph(tokens, next, element, index)
                        } else {
                            let groups = groups_of(element);
                            query_groups(tokens, next, &groups, 0, 0)
                        };
                        if detached {
                            (empty, false)
                        } else {
                            let a = query_attributes(tokens, next, element);
                            let t = query_text(tokens, next, element);
                            let all = concat_paths(concat_paths(a, t), below);
                            (prefixed(&label, all), false)
                        }
                    }
                },
            }
        },
        PathToken::Index(i) => {
            if *i == index {
                if !more {
                    (empty, false)
                } else {
                    let groups = groups_of(element);
                    let (below, detached) = query_groups(tokens, next, &groups, 0, 0);
                    let a = query_attributes(tokens, next, element);
                    let t = query_text(tokens, next, element);
                    (concat_paths(concat_paths(a, t), below), detached)
                }
            } else {
                (empty, true)
            }
        },
        PathToken::Root => query_graph(tokens, next, element, index),
        _ => {
            let label = label_of(&element.name, index);
            if !more {
                (prefixed(&label, empty), false)
            } else {
                let groups = groups_of(element);
                let (below, detached) = query_groups(tokens, next, &groups, 0, 0);
                if detached {
                    (empty, false)
                } else {
                    let a = query_attributes(tokens, next, element);
                    let t = query_text(tokens, next, element);
                    let all = concat_paths(concat_paths(a, t), below);
                    (prefixed(&label, all), false)
                }
            }
        },
    }
}

/// Matches the tokens from `pos` on against the grouped children, from
/// element `k` of group `g` on.
fn query_groups(
    tokens: &Vec<PathToken>,
    pos: usize,
    groups: &Vec<(String, Vec<&XmlElement>)>,
    g: usize,
    k: usize,
) -> (r: (Vec<Vec<String>>, bool))
    requires
        g <= groups.len(),
        g < groups.len() ==> k <= groups@[g as int].1.len(),
    ensures
        (paths_seq(r.0@), r.1) == q_groups(tokens_view(tokens@), pos as int, groups_view(groups@), g as int, k as int),
    decreases tokens.len() - pos, 1nat, groups.len() - g, groups@[g as int].1.len() - k,
{
    let ghost gv = groups_view(groups@);
    if g >= groups.len() {
        let empty: Vec<Vec<String>> = Vec::new();
        assert(paths_seq(empty@) =~= Seq::<Seq<Seq<char>>>::empty());
        return (empty, false);
    }
    proof {
        lemma_refs_view_len(groups@[g as int].1@);
    }
    assert(gv[g as int].1.len() == groups@[g as int].1.len());
    if k >= groups[g].1.len() {
        return query_groups(tokens, pos, groups, g + 1, 0);
    }
    let child: &XmlElement = groups[g].1[k];
    assert(gv[g as int].1[k as int] == element_view(*child));
    let (first, d1) = query_graph(tokens, pos, child, k);
    let (rest, d2) = query_groups(tokens, pos, groups, g, k + 1);
    (concat_paths(first, rest), d1 || d2)
}


/// A path as a pointer: each label after a `/`.
pub(crate) fn pointer(path: &Vec<String>) -> (r: String)
    ensures
        r@ == pointer_of(names_seq(path@)),
{
    let mut r = String::new();
    let mut i: usize = 0;
    while i < path.len()
        invariant
            i <= path.len(),
            r@ == pointer_of(names_seq(path@.subrange(0, i as int))),
        decreases path.len() - i,
    {
        proof {
            let s = names_seq(path@.subrange(0, i + 1));
            assert(s.drop_last() =~= names_seq(path@.subrange(0, i as int)));
            assert(s.last() == path@[i as int]@);
        }
        push_str(&mut r, "/");
        push_str(&mut r, path[i].as_str());
        i = i + 1;
    }
    assert(path@.subrange(0, i as int) =~= path@);
    r
}

/// Resolve the path expression against the XML, returning a list of pointer values that match.
pub fn resolve_path(value: &XmlElement, expression: &DocPath) -> (r: Vec<String>)
    ensures
        names_seq(r@) == resolved_pointers(element_view(*value), expression@.tokens),
{
    let tokens = expression.tokens();
    let (paths, _) = query_graph(tokens, 0, value, 0);
    let ghost tv = tokens_view(tokens@);
    let mut depth: usize = 0;
    let mut i: usize = 0;
    while i < tokens.len()
        invariant
            i <= tokens.len(),
            tv == tokens_view(tokens@),
            depth as nat == non_index_count(tv.subrange(0, i as int)),
            depth <= i,
        decreases tokens.len() - i,
    {
        proof {
            assert(tv.subrange(0, i + 1).drop_last() =~= tv.subrange(0, i as int));
            assert(tv.subrange(0, i + 1).last() == tokens@[i as int]@);
        }
        if !tokens[i].is_index() {
            depth = depth + 1;
        }
        i = i + 1;
    }
    assert(tv.subrange(0, i as int) =~= tv);
    let ghost ps = paths_seq(paths@);
    let mut r: Vec<String> = Vec::new();
    let mut j: usize = 0;
    while j < paths.len()
        invariant
            j <= paths.len(),
            ps == paths_seq(paths@),
            names_seq(r@) == pointers_at_depth(ps.subrange(0, j as int), depth as nat),
        decreases paths.len() - j,
    {
        proof {
            assert(ps.subrange(0, j + 1).drop_last() =~= ps.subrange(0, j as int));
            assert(ps.subrange(0, j + 1).last() == names_seq(paths@[j as int]@));
        }
        let ghost before = r@;
        if paths[j].len() < depth && paths[j].len() + 1 == depth {
            r.push(pointer(&paths[j]));
            assert(names_seq(r@) =~= names_seq(before).push(r@.last()@));
        }
        j = j + 1;
    }
    assert(ps.subrange(0, j as int) =~= ps);
    r
}


/// The name and index text that the pattern `(\w+)\[(\d+)]` captures at its
/// first match in a pointer segment, if it matches.
pub uninterp spec fn path_segment_captures(segment: Seq<char>) -> Option<(Seq<char>, Seq<char>)>;

/// `regex::Regex::captures` with the pattern `(\w+)\[(\d+)]`: the two
/// captured groups of the first match, or none when the pattern does not
/// match. The contract names them and claims nothing else of the matching.
#[verifier::external_body]
pub(crate) fn segment_captures(segment: &str) -> (r: Option<(String, String)>)
    ensures
        match r {
            Some((name, index)) => path_segment_captures(segment@) == Some((name@, index@)),
            None => path_segment_captures(segment@) is None,
        },
{
    let pattern = Regex::new(r"(\w+)\[(\d+)]").unwrap();
    match pattern.captures(segment) {
        Some(c) => Some((c[1].to_string(), c[2].to_string())),
        None => None,
    }
}

/// A node that a pointer designates.
#[derive(Debug, PartialEq, Eq)]
pub enum XmlResult {
    /// Matched XML element
    ElementNode(XmlElement),
    /// Matched XML text
    TextNode(String),
    /// Matches an attribute
    Attribute(String, String),
}

pub enum XmlResultView {
    ElementNode(XmlElementView),
    TextNode(Seq<char>),
    Attribute(Seq<char>, Seq<char>),
}

pub open spec fn result_view(r: Option<XmlResult>) -> Option<XmlResultView> {
    match r {
        Some(XmlResult::ElementNode(e)) => Some(XmlResultView::ElementNode(element_view(e))),
        Some(XmlResult::TextNode(t)) => Some(XmlResultView::TextNode(t@)),
        Some(XmlResult::Attribute(k, v)) => Some(XmlResultView::Attribute(k@, v@)),
        None => None,
    }
}

/// The non-empty pieces among some.
pub open spec fn non_empty(parts: Seq<Seq<char>>) -> Seq<Seq<char>>
    decreases parts.len(),
{
    if parts.len() == 0 {
        Seq::empty()
    } else if parts.last().len() > 0 {
        non_empty(parts.drop_last()).push(parts.last())
    } else {
        non_empty(parts.drop_last())
    }
}

/// The segments of a pointer: the non-empty pieces between slashes.
pub open spec fn pointer_segments(path: Seq<char>) -> Seq<Seq<char>> {
    non_empty(split_of(path, '/'))
}

/// The index a segment names: its digits' value, or 0 when they do not parse.
pub open spec fn segment_index(text: Seq<char>) -> nat {
    match usize_parse(text) {
        Some(n) => n as nat,
        None => 0,
    }
}

/// The node designated by the segments from `from` on, below the element.
pub open spec fn next_match(e: XmlElementView, segs: Seq<Seq<char>>, from: int) -> Option<XmlResultView>
    decreases segs.len() - from,
{
    if from < 0 || from >= segs.len() {
        None
    } else {
        let first = segs[from];
        if starts_with(first, "@"@) {
            match key_position(e.attributes, first.drop_first()) {
                Some(i) => Some(XmlResultView::Attribute(first.drop_first(), e.attributes[i].1)),
                None => None,
            }
        } else if first == "#text"@ {
            if element_text(e).len() == 0 {
                None
            } else {
                Some(XmlResultView::TextNode(element_text(e)))
            }
        } else {
            match path_segment_captures(first) {
                Some((name, index_text)) => {
                    let group = named(elements_of(e.children), name);
                    let index = segment_index(index_text);
                    if index < group.len() {
                        if from + 1 < segs.len() {
                            next_match(group[index as int], segs, from + 1)
                        } else {
                            Some(XmlResultView::ElementNode(group[index as int]))
                        }
                    } else {
                        None
                    }
                },
                None => None,
            }
        }
    }
}

/// The node that a pointer designates in the element: the pointer's first
/// segment must name the element itself with index 0.
pub open spec fn matching_node(e: XmlElementView, path: Seq<char>) -> Option<XmlResultView> {
    let segs = pointer_segments(path);
    if segs.len() == 0 {
        None
    } else {
        match path_segment_captures(segs[0]) {
            Some((name, index_text)) => if segment_index(index_text) == 0 && name == e.name {
                if segs.len() > 1 {
                    next_match(e, segs, 1)
                } else {
                    Some(XmlResultView::ElementNode(e))
                }
            } else {
                None
            },
            None => None,
        }
    }
}

/// The segments of a pointer.
fn segments_of(path: &str) -> (r: Vec<String>)
    ensures
        names_seq(r@) == pointer_segments(path@),
{
    let v = chars_of(path);
    let mut r: Vec<String> = Vec::new();
    let mut start: usize = 0;
    let mut i: usize = 0;
    proof {
        assert(v@.subrange(0, 0) =~= Seq::<char>::empty());
        assert(split_of(Seq::<char>::empty(), '/').drop_last() =~= Seq::<Seq<char>>::empty());
        assert(names_seq(r@) =~= Seq::<Seq<char>>::empty());
    }
    while i < v.len()
        invariant
            v@ == path@,
            start <= i <= v.len(),
            split_of(v@.subrange(0, i as int), '/').len() >= 1,
            split_of(v@.subrange(0, i as int), '/').last() == v@.subrange(start as int, i as int),
            names_seq(r@) == non_empty(split_of(v@.subrange(0, i as int), '/').drop_last()),
        decreases v.len() - i,
    {
        let ghost before = split_of(v@.subrange(0, i as int), '/');
        let ghost after = split_of(v@.subrange(0, i + 1), '/');
        assert(v@.subrange(0, i + 1).drop_last() =~= v@.subrange(0, i as int));
        assert(v@.subrange(0, i + 1).last() == v@[i as int]);
        if v[i] == '/' {
            assert(after == before.push(Seq::<char>::empty()));
            assert(after.drop_last() =~= before);
            assert(before =~= before.drop_last().push(before.last()));
            if start < i {
                let mut piece = String::new();
                push_chars(&mut piece, &v, start, i);
                let ghost old_r = r@;
                r.push(piece);
                assert(names_seq(r@) =~= names_seq(old_r).push(piece@));
            }
            start = i + 1;
            assert(v@.subrange(start as int, i + 1) =~= Seq::<char>::empty());
        } else {
            assert(after == before.update(before.len() - 1, before.last().push(v@[i as int])));
            assert(after.drop_last() =~= before.drop_last());
            assert(v@.subrange(start as int, i + 1) =~= v@.subrange(start as int, i as int).push(v@[i as int]));
        }
        i = i + 1;
    }
    let ghost parts = split_of(v@.subrange(0, i as int), '/');
    assert(parts =~= parts.drop_last().push(parts.last()));
    if start < v.len() {
        let mut piece = String::new();
        push_chars(&mut piece, &v, start, v.len());
        let ghost old_r = r@;
        r.push(piece);
        assert(names_seq(r@) =~= names_seq(old_r).push(piece@));
    }
    assert(v@.subrange(0, i as int) =~= path@);
    r
}

/// The index a segment names.
fn index_of_segment(text: &String) -> (r: usize)
    ensures
        r as nat == segment_index(text@),
{
    let v = chars_of(text.as_str());
    match crate::text::parse_usize(&v) {
        Some(n) => n,
        None => 0,
    }
}

/// The node designated by the segments from `from` on, below the element.
fn match_next(element: &XmlElement, segs: &Vec<String>, from: usize) -> (r: Option<XmlResult>)
    ensures
        result_view(r) == next_match(element_view(*element), names_seq(segs@), from as int),
    decreases segs.len() - from,
{
    if from >= segs.len() {
        return None;
    }
    let first = &segs[from];
    let v = chars_of(first.as_str());
    proof {
        reveal_strlit("@");
        assert("@"@ =~= seq!['@']);
    }
    if v.len() > 0 && v[0] == '@' {
        let key = crate::xml_model::substring(first, 1, v.len());
        assert(first@.subrange(0, 1) =~= seq!['@']);
        assert(key@ =~= first@.drop_first());
        proof {
            crate::xml_model::lemma_pairs_view_index(element.attributes@);
        }
        match find_key(&element.attributes, &key) {
            Some(i) => Some(XmlResult::Attribute(key, element.attributes[i].1.clone())),
            None => None,
        }
    } else {
        proof {
            if v@.len() > 0 {
                assert(first@.subrange(0, 1)[0] != '@');
            }
        }
        if crate::text::str_equal(first.as_str(), "#text") {
            let text = element_text_of(element);
            if text.as_str().is_empty() {
                None
            } else {
                Some(XmlResult::TextNode(text))
            }
        } else {
            match segment_captures(first.as_str()) {
                Some((name, index_text)) => {
                    let elems = child_elements(element);
                    let group = elements_named(&elems, &name);
                    let index = index_of_segment(&index_text);
                    proof {
                        lemma_refs_view_len(group@);
                    }
                    if index < group.len() {
                        if from + 1 < segs.len() {
                            match_next(group[index], segs, from + 1)
                        } else {
                            Some(XmlResult::ElementNode(group[index].duplicate()))
                        }
                    } else {
                        None
                    }
                },
                None => None,
            }
        }
    }
}

/// Returns the matching node from the XML for the given path.
pub fn resolve_matching_node(element: &XmlElement, path: &str) -> (r: Option<XmlResult>)
    ensures
        result_view(r) == matching_node(element_view(*element), path@),
{
    let segs = segments_of(path);
    if segs.len() == 0 {
        return None;
    }
    match segment_captures(segs[0].as_str()) {
        Some((name, index_text)) => {
            let index = index_of_segment(&index_text);
            if index == 0 && crate::text::str_equal(name.as_str(), element.name.as_str()) {
                if segs.len() > 1 {
                    match_next(element, &segs, 1)
                } else {
                    Some(XmlResult::ElementNode(element.duplicate()))
                }
            } else {
                None
            }
        },
        None => None,
    }
}

} // verus!
