//! A model of XML elements as the XML utilities read them: the element's
//! name, namespace, attributes and child nodes.
use vstd::prelude::*;
use crate::text::{chars_of, push_str};

verus! {

/// A node of an XML document.
#[derive(Debug, PartialEq, Eq)]
pub enum XmlNode {
    /// A child element
    Element(XmlElement),
    /// Text content
    Text(String),
    /// Any other node (a comment, CDATA, a processing instruction)
    Other,
}

/// An XML element.
#[derive(Debug, PartialEq, Eq)]
pub struct XmlElement {
    /// The local name of the element
    pub name: String,
    /// The namespace of the element, if it has one
    pub namespace: Option<String>,
    /// The attributes of the element, by their names as written (with any prefix)
    pub attributes: Vec<(String, String)>,
    /// The child nodes, in document order
    pub children: Vec<XmlNode>,
}

pub enum XmlNodeView {
    Element(XmlElementView),
    Text(Seq<char>),
    Other,
}

pub struct XmlElementView {
    pub name: Seq<char>,
    pub namespace: Option<Seq<char>>,
    pub attributes: Seq<(Seq<char>, Seq<char>)>,
    pub children: Seq<XmlNodeView>,
}

pub open spec fn pair_view(p: (String, String)) -> (Seq<char>, Seq<char>) {
    (p.0@, p.1@)
}

pub open spec fn pairs_view(s: Seq<(String, String)>) -> Seq<(Seq<char>, Seq<char>)>
    decreases s.len(),
{
    if s.len() == 0 {
        Seq::empty()
    } else {
        pairs_view(s.drop_last()).push(pair_view(s.last()))
    }
}

pub open spec fn strings_view(s: Seq<String>) -> Seq<Seq<char>>
    decreases s.len(),
{
    if s.len() == 0 {
        Seq::empty()
    } else {
        strings_view(s.drop_last()).push(s.last()@)
    }
}

pub open spec fn refs_view(s: Seq<&XmlElement>) -> Seq<XmlElementView>
    decreases s.len(),
{
    if s.len() == 0 {
        Seq::empty()
    } else {
        refs_view(s.drop_last()).push(element_view(*s.last()))
    }
}

pub open spec fn opt_chars(o: Option<String>) -> Option<Seq<char>> {
    match o {
        Some(s) => Some(s@),
        None => None,
    }
}

pub open spec fn node_view(n: XmlNode) -> XmlNodeView
    decreases n, 0nat,
{
    match n {
        XmlNode::Element(e) => XmlNodeView::Element(element_view(e)),
        XmlNode::Text(t) => XmlNodeView::Text(t@),
        XmlNode::Other => XmlNodeView::Other,
    }
}

pub open spec fn nodes_view(s: Seq<XmlNode>) -> Seq<XmlNodeView>
    decreases s, s.len(),
{
    if s.len() == 0 {
        Seq::empty()
    } else {
        nodes_view(s.drop_last()).push(node_view(s.last()))
    }
}

pub open spec fn element_view(e: XmlElement) -> XmlElementView
    decreases e, 0nat,
{
    XmlElementView {
        name: e.name@,
        namespace: opt_chars(e.namespace),
        attributes: pairs_view(e.attributes@),
        children: nodes_view(e.children@),
    }
}

/// The elements among some nodes, in order.
pub open spec fn elements_of(nodes: Seq<XmlNodeView>) -> Seq<XmlElementView>
    decreases nodes.len(),
{
    if nodes.len() == 0 {
        Seq::empty()
    } else {
        let rest = elements_of(nodes.drop_last());
        match nodes.last() {
            XmlNodeView::Element(e) => rest.push(e),
            _ => rest,
        }
    }
}

/// The non-empty text contents among some nodes, in order.
pub open spec fn texts_of(nodes: Seq<XmlNodeView>) -> Seq<Seq<char>>
    decreases nodes.len(),
{
    if nodes.len() == 0 {
        Seq::empty()
    } else {
        let rest = texts_of(nodes.drop_last());
        match nodes.last() {
            XmlNodeView::Text(t) => if t.len() > 0 {
                rest.push(t)
            } else {
                rest
            },
            _ => rest,
        }
    }
}

/// The text of an element: the text of its text and element children,
/// concatenated in order.
pub open spec fn element_text(e: XmlElementView) -> Seq<char>
    decreases e, 0nat,
{
    nodes_text(e.children)
}

pub open spec fn nodes_text(nodes: Seq<XmlNodeView>) -> Seq<char>
    decreases nodes, nodes.len(),
{
    if nodes.len() == 0 {
        Seq::empty()
    } else {
        nodes_text(nodes.drop_last()) + match nodes.last() {
            XmlNodeView::Element(e) => element_text(e),
            XmlNodeView::Text(t) => t,
            XmlNodeView::Other => Seq::empty(),
        }
    }
}

/// Whether one string comes before another in the order of `str`: by
/// characters, a proper prefix first.
pub open spec fn chars_less(a: Seq<char>, b: Seq<char>) -> bool
    decreases a.len(),
{
    if a.len() == 0 {
        b.len() > 0
    } else if b.len() == 0 {
        false
    } else if a[0] != b[0] {
        (a[0] as u32) < (b[0] as u32)
    } else {
        chars_less(a.drop_first(), b.drop_first())
    }
}

/// A name inserted into an ascending list of distinct names.
pub open spec fn insert_name(names: Seq<Seq<char>>, n: Seq<char>) -> Seq<Seq<char>>
    decreases names.len(),
{
    if names.len() == 0 {
        seq![n]
    } else if names[0] == n {
        names
    } else if chars_less(n, names[0]) {
        seq![n] + names
    } else {
        seq![names[0]] + insert_name(names.drop_first(), n)
    }
}

/// The distinct names of some elements, in ascending order.
pub open spec fn sorted_names(elems: Seq<XmlElementView>) -> Seq<Seq<char>>
    decreases elems.len(),
{
    if elems.len() == 0 {
        Seq::empty()
    } else {
        insert_name(sorted_names(elems.drop_last()), elems.last().name)
    }
}

/// The elements with the given name, in order.
pub open spec fn named(elems: Seq<XmlElementView>, name: Seq<char>) -> Seq<XmlElementView>
    decreases elems.len(),
{
    if elems.len() == 0 {
        Seq::empty()
    } else if elems.last().name == name {
        named(elems.drop_last(), name).push(elems.last())
    } else {
        named(elems.drop_last(), name)
    }
}

/// The child elements of an element grouped by name: the groups in ascending
/// order of name, each in document order.
pub open spec fn grouped(e: XmlElementView) -> Seq<(Seq<char>, Seq<XmlElementView>)> {
    let elems = elements_of(e.children);
    let names = sorted_names(elems);
    Seq::new(names.len(), |i: int| (names[i], named(elems, names[i])))
}

/// A sequence with one more element drops back to itself.
pub proof fn lemma_push_drop_last<A>(s: Seq<A>, x: A)
    ensures
        s.push(x).drop_last() == s,
        s.push(x).last() == x,
{
    assert(s.push(x).drop_last() =~= s);
}

/// The view of a prefix one longer is the view of the prefix, extended.
pub proof fn lemma_nodes_view_step(s: Seq<XmlNode>, i: int)
    requires
        0 <= i < s.len(),
    ensures
        nodes_view(s.subrange(0, i + 1)) == nodes_view(s.subrange(0, i)).push(node_view(s[i])),
        nodes_view(s.subrange(0, i + 1)).drop_last() == nodes_view(s.subrange(0, i)),
        nodes_view(s.subrange(0, i + 1)).last() == node_view(s[i]),
{
    assert(s.subrange(0, i + 1).drop_last() =~= s.subrange(0, i));
    assert(s.subrange(0, i + 1).last() == s[i]);
    lemma_push_drop_last(nodes_view(s.subrange(0, i)), node_view(s[i]));
}

pub proof fn lemma_refs_view_step(s: Seq<&XmlElement>, i: int)
    requires
        0 <= i < s.len(),
    ensures
        refs_view(s.subrange(0, i + 1)) == refs_view(s.subrange(0, i)).push(element_view(*s[i])),
        refs_view(s.subrange(0, i + 1)).drop_last() == refs_view(s.subrange(0, i)),
        refs_view(s.subrange(0, i + 1)).last() == element_view(*s[i]),
{
    assert(s.subrange(0, i + 1).drop_last() =~= s.subrange(0, i));
    assert(s.subrange(0, i + 1).last() == s[i]);
    lemma_push_drop_last(refs_view(s.subrange(0, i)), element_view(*s[i]));
}

pub proof fn lemma_pairs_view_index(s: Seq<(String, String)>)
    ensures
        pairs_view(s).len() == s.len(),
        forall|k: int| 0 <= k < s.len() ==> #[trigger] pairs_view(s)[k] == pair_view(s[k]),
    decreases s.len(),
{
    if s.len() > 0 {
        lemma_pairs_view_index(s.drop_last());
    }
}

impl XmlElement {
    /// A copy of this element.
    pub fn duplicate(&self) -> (r: XmlElement)
        ensures
            element_view(r) == element_view(*self),
        decreases self,
    {
        let mut attributes: Vec<(String, String)> = Vec::new();
        let mut i: usize = 0;
        while i < self.attributes.len()
            invariant
                i <= self.attributes.len(),
                attributes@.len() == i,
                forall|k: int| 0 <= k < i ==> pair_view(#[trigger] attributes@[k]) == pair_view(self.attributes@[k]),
            decreases self.attributes.len() - i,
        {
            let pair = &self.attributes[i];
            attributes.push((pair.0.clone(), pair.1.clone()));
            i = i + 1;
        }
        proof {
            lemma_pairs_view_index(attributes@);
            lemma_pairs_view_index(self.attributes@);
            assert(pairs_view(attributes@) =~= pairs_view(self.attributes@));
        }
        let mut children: Vec<XmlNode> = Vec::new();
        let mut j: usize = 0;
        while j < self.children.len()
            invariant
                j <= self.children.len(),
                nodes_view(children@) == nodes_view(self.children@.subrange(0, j as int)),
            decreases self.children.len() - j,
        {
            proof {
                assert(decreases_to!(self => self.children@[j as int]));
            }
            let c = duplicate_node(&self.children[j]);
            let ghost before = children@;
            children.push(c);
            proof {
                assert(children@.drop_last() =~= before);
                assert(self.children@.subrange(0, j + 1).drop_last() =~= self.children@.subrange(0, j as int));
            }
            j = j + 1;
        }
        proof {
            assert(self.children@.subrange(0, j as int) =~= self.children@);
        }
        let namespace = match &self.namespace {
            Some(ns) => Some(ns.clone()),
            None => None,
        };
        XmlElement { name: self.name.clone(), namespace, attributes, children }
    }
}

/// A copy of a node.
pub fn duplicate_node(n: &XmlNode) -> (r: XmlNode)
    ensures
        node_view(r) == node_view(*n),
    decreases n,
{
    match n {
        XmlNode::Element(e) => XmlNode::Element(e.duplicate()),
        XmlNode::Text(t) => XmlNode::Text(t.clone()),
        XmlNode::Other => XmlNode::Other,
    }
}


/// The non-empty text of the text nodes of an element, in order.
pub fn text_nodes(element: &XmlElement) -> (r: Vec<String>)
    ensures
        strings_view(r@) == texts_of(element_view(*element).children),
{
    let mut r: Vec<String> = Vec::new();
    let mut i: usize = 0;
    while i < element.children.len()
        invariant
            i <= element.children.len(),
            strings_view(r@) == texts_of(nodes_view(element.children@.subrange(0, i as int))),
        decreases element.children.len() - i,
    {
        let ghost before = r@;
        proof {
            lemma_nodes_view_step(element.children@, i as int);
        }
        match &element.children[i] {
            XmlNode::Text(t) => {
                if !t.as_str().is_empty() {
                    r.push(t.clone());
                    assert(r@.drop_last() =~= before);
                }
            },
            _ => {},
        }
        i = i + 1;
    }
    assert(element.children@.subrange(0, i as int) =~= element.children@);
    r
}

/// The text of an element: the text of its text and element children,
/// concatenated in order.
pub fn element_text_of(element: &XmlElement) -> (r: String)
    ensures
        r@ == element_text(element_view(*element)),
    decreases element,
{
    let mut r = String::new();
    let mut i: usize = 0;
    while i < element.children.len()
        invariant
            i <= element.children.len(),
            r@ == nodes_text(nodes_view(element.children@.subrange(0, i as int))),
        decreases element.children.len() - i,
    {
        proof {
            lemma_nodes_view_step(element.children@, i as int);
            assert(decreases_to!(element => element.children@[i as int]));
        }
        match &element.children[i] {
            XmlNode::Element(e) => {
                let t = element_text_of(e);
                push_str(&mut r, t.as_str());
            },
            XmlNode::Text(t) => push_str(&mut r, t.as_str()),
            XmlNode::Other => {
                assert(r@ + Seq::<char>::empty() =~= r@);
            },
        }
        i = i + 1;
    }
    assert(element.children@.subrange(0, i as int) =~= element.children@);
    r
}

/// Whether one string comes before another in the order of `str`.
pub fn str_less(a: &String, b: &String) -> (r: bool)
    ensures
        r == chars_less(a@, b@),
{
    let va = chars_of(a.as_str());
    let vb = chars_of(b.as_str());
    let mut i: usize = 0;
    assert(va@.subrange(0, va@.len() as int) =~= va@);
    assert(vb@.subrange(0, vb@.len() as int) =~= vb@);
    while i < va.len() && i < vb.len()
        invariant
            va@ == a@,
            vb@ == b@,
            i <= va.len(),
            i <= vb.len(),
            va@.subrange(0, i as int) == vb@.subrange(0, i as int),
            chars_less(a@, b@) == chars_less(va@.subrange(i as int, va@.len() as int), vb@.subrange(i as int, vb@.len() as int)),
        decreases va.len() - i,
    {
        let ghost ra = va@.subrange(i as int, va@.len() as int);
        let ghost rb = vb@.subrange(i as int, vb@.len() as int);
        assert(ra[0] == va@[i as int]);
        assert(rb[0] == vb@[i as int]);
        if va[i] != vb[i] {
            return (va[i] as u32) < (vb[i] as u32);
        }
        assert(ra.drop_first() =~= va@.subrange(i + 1, va@.len() as int));
        assert(rb.drop_first() =~= vb@.subrange(i + 1, vb@.len() as int));
        assert(va@.subrange(0, i + 1) =~= va@.subrange(0, i as int).push(va@[i as int]));
        assert(vb@.subrange(0, i + 1) =~= vb@.subrange(0, i as int).push(vb@[i as int]));
        i = i + 1;
    }
    i == va.len() && i < vb.len()
}

/// Copies of `names[from..]`.
fn copy_names(names: &Vec<String>, from: usize) -> (r: Vec<String>)
    requires
        from <= names.len(),
    ensures
        r@.len() == names@.len() - from,
        forall|k: int| 0 <= k < r@.len() ==> #[trigger] r@[k]@ == names@[from + k]@,
{
    let mut r: Vec<String> = Vec::new();
    let mut i = from;
    while i < names.len()
        invariant
            from <= i <= names.len(),
            r@.len() == i - from,
            forall|k: int| 0 <= k < r@.len() ==> #[trigger] r@[k]@ == names@[from + k]@,
        decreases names.len() - i,
    {
        r.push(names[i].clone());
        i = i + 1;
    }
    r
}

/// The names seen through their characters.
pub open spec fn names_seq(s: Seq<String>) -> Seq<Seq<char>> {
    Seq::new(s.len(), |i: int| s[i]@)
}

/// `n` inserted into the ascending names `names[from..]`.
pub(crate) fn insert_name_from(names: &Vec<String>, from: usize, n: &String) -> (r: Vec<String>)
    requires
        from <= names.len(),
    ensures
        names_seq(r@) == insert_name(names_seq(names@).subrange(from as int, names@.len() as int), n@),
    decreases names.len() - from,
{
    let ghost tail = names_seq(names@).subrange(from as int, names@.len() as int);
    if from == names.len() {
        let r = vec![n.clone()];
        assert(tail =~= Seq::<Seq<char>>::empty());
        assert(names_seq(r@) =~= seq![n@]);
        r
    } else if crate::text::str_equal(names[from].as_str(), n.as_str()) {
        let r = copy_names(names, from);
        assert(tail[0] == names[from as int]@);
        assert(names_seq(r@) =~= tail);
        r
    } else if str_less(n, &names[from]) {
        let mut r = vec![n.clone()];
        let rest = copy_names(names, from);
        let mut i: usize = 0;
        while i < rest.len()
            invariant
                from < names.len(),
                i <= rest.len(),
                r@.len() == i + 1,
                r@[0]@ == n@,
                forall|k: int| 0 < k < r@.len() ==> #[trigger] r@[k]@ == rest@[k - 1]@,
            decreases rest.len() - i,
        {
            r.push(rest[i].clone());
            i = i + 1;
        }
        assert(tail[0] == names[from as int]@);
        assert(names_seq(r@) =~= seq![n@] + tail);
        r
    } else {
        let rest = insert_name_from(names, from + 1, n);
        let mut r = vec![names[from].clone()];
        let mut i: usize = 0;
        while i < rest.len()
            invariant
                from < names.len(),
                i <= rest.len(),
                r@.len() == i + 1,
                r@[0]@ == names@[from as int]@,
                forall|k: int| 0 < k < r@.len() ==> #[trigger] r@[k]@ == rest@[k - 1]@,
            decreases rest.len() - i,
        {
            r.push(rest[i].clone());
            i = i + 1;
        }
        assert(tail[0] == names[from as int]@);
        assert(tail.drop_first() =~= names_seq(names@).subrange(from + 1, names@.len() as int));
        assert(names_seq(r@) =~= seq![tail[0]] + names_seq(rest@));
        r
    }
}

/// The child elements of an element, in order.
pub fn child_elements(element: &XmlElement) -> (r: Vec<&XmlElement>)
    ensures
        refs_view(r@) == elements_of(element_view(*element).children),
{
    let mut r: Vec<&XmlElement> = Vec::new();
    let mut i: usize = 0;
    while i < element.children.len()
        invariant
            i <= element.children.len(),
            refs_view(r@) == elements_of(nodes_view(element.children@.subrange(0, i as int))),
        decreases element.children.len() - i,
    {
        let ghost before = r@;
        proof {
            lemma_nodes_view_step(element.children@, i as int);
        }
        match &element.children[i] {
            XmlNode::Element(e) => {
                r.push(e);
                assert(r@.drop_last() =~= before);
            },
            _ => {},
        }
        i = i + 1;
    }
    assert(element.children@.subrange(0, i as int) =~= element.children@);
    r
}

/// The distinct names of some elements, in ascending order.
fn sorted_element_names(elems: &Vec<&XmlElement>) -> (r: Vec<String>)
    ensures
        names_seq(r@) == sorted_names(refs_view(elems@)),
{
    let mut names: Vec<String> = Vec::new();
    let mut i: usize = 0;
    assert(names_seq(names@) =~= Seq::<Seq<char>>::empty());
    while i < elems.len()
        invariant
            i <= elems.len(),
            names_seq(names@) == sorted_names(refs_view(elems@.subrange(0, i as int))),
        decreases elems.len() - i,
    {
        proof {
            lemma_refs_view_step(elems@, i as int);
            assert(names_seq(names@).subrange(0, names@.len() as int) =~= names_seq(names@));
        }
        names = insert_name_from(&names, 0, &elems[i].name);
        i = i + 1;
    }
    assert(elems@.subrange(0, i as int) =~= elems@);
    names
}

pub proof fn lemma_refs_view_len(s: Seq<&XmlElement>)
    ensures
        refs_view(s).len() == s.len(),
        forall|k: int| 0 <= k < s.len() ==> #[trigger] refs_view(s)[k] == element_view(*s[k]),
    decreases s.len(),
{
    if s.len() > 0 {
        lemma_refs_view_len(s.drop_last());
    }
}

/// The elements of `elems` with the given name, in order.
pub(crate) fn elements_named<'a>(elems: &Vec<&'a XmlElement>, name: &String) -> (r: Vec<&'a XmlElement>)
    ensures
        refs_view(r@) == named(refs_view(elems@), name@),
{
    let mut r: Vec<&XmlElement> = Vec::new();
    let mut i: usize = 0;
    while i < elems.len()
        invariant
            i <= elems.len(),
            refs_view(r@) == named(refs_view(elems@.subrange(0, i as int)), name@),
        decreases elems.len() - i,
    {
        let ghost before = r@;
        proof {
            lemma_refs_view_step(elems@, i as int);
        }
        if crate::text::str_equal(elems[i].name.as_str(), name.as_str()) {
            r.push(elems[i]);
            assert(r@.drop_last() =~= before);
        }
        i = i + 1;
    }
    assert(elems@.subrange(0, i as int) =~= elems@);
    r
}

/// Groups all the child elements by name: the groups come in ascending order
/// of name, each holding its elements in document order.
pub fn group_children(element: &XmlElement) -> (r: Vec<(String, Vec<&XmlElement>)>)
    ensures
        r@.len() == grouped(element_view(*element)).len(),
        forall|k: int|
            0 <= k < r@.len() ==> (#[trigger] r@[k]).0@ == grouped(element_view(*element))[k].0 && refs_view(
                r@[k].1@,
            ) == grouped(element_view(*element))[k].1,
{
    let elems = child_elements(element);
    let names = sorted_element_names(&elems);
    let mut r: Vec<(String, Vec<&XmlElement>)> = Vec::new();
    let mut i: usize = 0;
    while i < names.len()
        invariant
            i <= names.len(),
            refs_view(elems@) == elements_of(element_view(*element).children),
            names_seq(names@) == sorted_names(refs_view(elems@)),
            r@.len() == i,
            forall|k: int|
                0 <= k < i ==> (#[trigger] r@[k]).0@ == grouped(element_view(*element))[k].0 && refs_view(
                    r@[k].1@,
                ) == grouped(element_view(*element))[k].1,
        decreases names.len() - i,
    {
        let group = elements_named(&elems, &names[i]);
        r.push((names[i].clone(), group));
        i = i + 1;
    }
    r
}


/// The position of the first pair from `i` on whose key is `k`.
pub open spec fn key_position_from(m: Seq<(Seq<char>, Seq<char>)>, k: Seq<char>, i: int) -> Option<int>
    decreases m.len() - i,
{
    if i < 0 || i >= m.len() {
        None
    } else if m[i].0 == k {
        Some(i)
    } else {
        key_position_from(m, k, i + 1)
    }
}

/// The position of the first pair whose key is `k`.
pub open spec fn key_position(m: Seq<(Seq<char>, Seq<char>)>, k: Seq<char>) -> Option<int> {
    key_position_from(m, k, 0)
}

/// The pairs with `k` set to `v`: the value of an existing key replaced, or
/// the pair added at the end, as a map insertion does.
pub open spec fn set_pair(m: Seq<(Seq<char>, Seq<char>)>, k: Seq<char>, v: Seq<char>) -> Seq<(Seq<char>, Seq<char>)> {
    match key_position(m, k) {
        Some(i) => m.update(i, (k, v)),
        None => m.push((k, v)),
    }
}

/// Whether `s` starts with `p`.
pub open spec fn starts_with(s: Seq<char>, p: Seq<char>) -> bool {
    p.len() <= s.len() && s.subrange(0, p.len() as int) == p
}

/// The namespaces declared by `xmlns:` attributes: each prefix with its URI.
pub open spec fn declared_namespaces(attrs: Seq<(Seq<char>, Seq<char>)>) -> Seq<(Seq<char>, Seq<char>)>
    decreases attrs.len(),
{
    if attrs.len() == 0 {
        Seq::empty()
    } else {
        let rest = declared_namespaces(attrs.drop_last());
        let (k, v) = attrs.last();
        if starts_with(k, "xmlns:"@) {
            rest.push((k.subrange("xmlns:"@.len() as int, k.len() as int), v))
        } else {
            rest
        }
    }
}

/// The position of the first `:` in a name.
pub open spec fn colon_position_from(s: Seq<char>, i: int) -> Option<int>
    decreases s.len() - i,
{
    if i < 0 || i >= s.len() {
        None
    } else if s[i] == ':' {
        Some(i)
    } else {
        colon_position_from(s, i + 1)
    }
}

/// The attributes with each prefixed attribute also present under its
/// namespace URI (`uri:name`), given the declared namespaces.
pub open spec fn resolved_from(attrs: Seq<(Seq<char>, Seq<char>)>, namespaces: Seq<(Seq<char>, Seq<char>)>) -> Seq<
    (Seq<char>, Seq<char>),
>
    decreases attrs.len(),
{
    if attrs.len() == 0 {
        Seq::empty()
    } else {
        let (k, v) = attrs.last();
        let m = set_pair(resolved_from(attrs.drop_last(), namespaces), k, v);
        match colon_position_from(k, 0) {
            Some(c) => match key_position(namespaces, k.subrange(0, c)) {
                Some(j) => set_pair(m, namespaces[j].1 + ":"@ + k.subrange(c + 1, k.len() as int), v),
                None => m,
            },
            None => m,
        }
    }
}

/// The attributes with namespace prefixes resolved: unchanged when no
/// namespace is declared, otherwise each prefixed attribute is also present
/// under its namespace URI.
pub open spec fn resolved_attributes(attrs: Seq<(Seq<char>, Seq<char>)>) -> Seq<(Seq<char>, Seq<char>)> {
    if declared_namespaces(attrs).len() == 0 {
        attrs
    } else {
        resolved_from(attrs, declared_namespaces(attrs))
    }
}

/// The position of the first pair whose key is `k`.
pub(crate) fn find_key(m: &Vec<(String, String)>, k: &String) -> (r: Option<usize>)
    ensures
        match r {
            Some(i) => key_position(pairs_view(m@), k@) == Some(i as int) && i < m.len(),
            None => key_position(pairs_view(m@), k@) is None,
        },
{
    proof {
        lemma_pairs_view_index(m@);
    }
    let mut i: usize = 0;
    while i < m.len()
        invariant
            i <= m.len(),
            pairs_view(m@).len() == m@.len(),
            forall|j: int| 0 <= j < m@.len() ==> #[trigger] pairs_view(m@)[j] == pair_view(m@[j]),
            key_position(pairs_view(m@), k@) == key_position_from(pairs_view(m@), k@, i as int),
        decreases m.len() - i,
    {
        if crate::text::str_equal(m[i].0.as_str(), k.as_str()) {
            return Some(i);
        }
        i = i + 1;
    }
    None
}

/// Sets `k` to `v`, as a map insertion does.
fn set_key(m: &mut Vec<(String, String)>, k: String, v: String)
    ensures
        pairs_view(final(m)@) == set_pair(pairs_view(old(m)@), k@, v@),
{
    proof {
        lemma_pairs_view_index(m@);
    }
    match find_key(m, &k) {
        Some(i) => {
            let ghost before = m@;
            m.set(i, (k, v));
            proof {
                lemma_pairs_view_index(m@);
                assert(pairs_view(m@) =~= pairs_view(before).update(i as int, (k@, v@)));
            }
        },
        None => {
            let ghost before = m@;
            m.push((k, v));
            proof {
                lemma_push_drop_last(before, (k, v));
            }
        },
    }
}

/// Whether `s` starts with `p`.
fn has_prefix_str(s: &String, p: &str) -> (r: bool)
    ensures
        r == starts_with(s@, p@),
{
    let vs = chars_of(s.as_str());
    let vp = chars_of(p);
    if vp.len() > vs.len() {
        return false;
    }
    let mut i: usize = 0;
    while i < vp.len()
        invariant
            vs@ == s@,
            vp@ == p@,
            vp.len() <= vs.len(),
            i <= vp.len(),
            vs@.subrange(0, i as int) == vp@.subrange(0, i as int),
        decreases vp.len() - i,
    {
        if vs[i] != vp[i] {
            assert(vs@.subrange(0, vp@.len() as int)[i as int] != vp@[i as int]);
            return false;
        }
        assert(vs@.subrange(0, i + 1) =~= vs@.subrange(0, i as int).push(vs@[i as int]));
        assert(vp@.subrange(0, i + 1) =~= vp@.subrange(0, i as int).push(vp@[i as int]));
        i = i + 1;
    }
    assert(vp@.subrange(0, i as int) =~= vp@);
    true
}

/// The characters `s[from..to]` as a string.
pub(crate) fn substring(s: &String, from: usize, to: usize) -> (r: String)
    requires
        from <= to <= s@.len(),
    ensures
        r@ == s@.subrange(from as int, to as int),
{
    let v = chars_of(s.as_str());
    let mut r = String::new();
    crate::text::push_chars(&mut r, &v, from, to);
    r
}

/// The namespaces declared by `xmlns:` attributes: each prefix with its URI.
fn namespaces_of(attributes: &Vec<(String, String)>) -> (r: Vec<(String, String)>)
    ensures
        pairs_view(r@) == declared_namespaces(pairs_view(attributes@)),
{
    let mut r: Vec<(String, String)> = Vec::new();
    let mut i: usize = 0;
    let prefix_len = chars_of("xmlns:").len();
    while i < attributes.len()
        invariant
            i <= attributes.len(),
            prefix_len == "xmlns:"@.len(),
            pairs_view(r@) == declared_namespaces(pairs_view(attributes@.subrange(0, i as int))),
        decreases attributes.len() - i,
    {
        let ghost before = r@;
        proof {
            let s = attributes@;
            assert(s.subrange(0, i + 1).drop_last() =~= s.subrange(0, i as int));
            lemma_push_drop_last(pairs_view(s.subrange(0, i as int)), pair_view(s[i as int]));
        }
        let k = &attributes[i].0;
        if has_prefix_str(k, "xmlns:") {
            let key = substring(k, prefix_len, k.unicode_len());
            r.push((key, attributes[i].1.clone()));
            proof {
                lemma_push_drop_last(before, r@.last());
            }
        }
        i = i + 1;
    }
    assert(attributes@.subrange(0, i as int) =~= attributes@);
    r
}

/// The position of the first `:` in a name.
fn colon_position(s: &String) -> (r: Option<usize>)
    ensures
        match r {
            Some(c) => colon_position_from(s@, 0) == Some(c as int) && c < s@.len(),
            None => colon_position_from(s@, 0) is None,
        },
{
    let v = chars_of(s.as_str());
    let mut i: usize = 0;
    while i < v.len()
        invariant
            v@ == s@,
            i <= v.len(),
            colon_position_from(s@, 0) == colon_position_from(s@, i as int),
        decreases v.len() - i,
    {
        if v[i] == ':' {
            return Some(i);
        }
        i = i + 1;
    }
    None
}

/// Resolves namespace prefixes of attribute names: when the attributes
/// declare namespaces (`xmlns:prefix`), each prefixed attribute is also given
/// under its namespace URI (`uri:name`); otherwise the attributes are unchanged.
pub fn resolve_namespaces(attributes: &Vec<(String, String)>) -> (r: Vec<(String, String)>)
    ensures
        pairs_view(r@) == resolved_attributes(pairs_view(attributes@)),
{
    let namespaces = namespaces_of(attributes);
    if namespaces.len() == 0 {
        proof {
            lemma_pairs_view_index(namespaces@);
        }
        let mut r: Vec<(String, String)> = Vec::new();
        let mut i: usize = 0;
        while i < attributes.len()
            invariant
                i <= attributes.len(),
                r@.len() == i,
                forall|k: int| 0 <= k < i ==> pair_view(#[trigger] r@[k]) == pair_view(attributes@[k]),
            decreases attributes.len() - i,
        {
            r.push((attributes[i].0.clone(), attributes[i].1.clone()));
            i = i + 1;
        }
        proof {
            lemma_pairs_view_index(r@);
            lemma_pairs_view_index(attributes@);
            assert(pairs_view(r@) =~= pairs_view(attributes@));
        }
        return r;
    }
    proof {
        lemma_pairs_view_index(namespaces@);
    }
    let ghost ns = pairs_view(namespaces@);
    let mut r: Vec<(String, String)> = Vec::new();
    let mut i: usize = 0;
    while i < attributes.len()
        invariant
            i <= attributes.len(),
            ns == pairs_view(namespaces@),
            pairs_view(r@) == resolved_from(pairs_view(attributes@.subrange(0, i as int)), ns),
        decreases attributes.len() - i,
    {
        proof {
            let s = attributes@;
            assert(s.subrange(0, i + 1).drop_last() =~= s.subrange(0, i as int));
            lemma_push_drop_last(pairs_view(s.subrange(0, i as int)), pair_view(s[i as int]));
            lemma_pairs_view_index(namespaces@);
        }
        let k = &attributes[i].0;
        let v = &attributes[i].1;
        set_key(&mut r, k.clone(), v.clone());
        match colon_position(k) {
            Some(c) => {
                let prefix = substring(k, 0, c);
                match find_key(&namespaces, &prefix) {
                    Some(j) => {
                        let mut expanded = namespaces[j].1.clone();
                        crate::text::push_str(&mut expanded, ":");
                        let n = k.unicode_len();
                        let attr = substring(k, c + 1, n);
                        crate::text::push_str(&mut expanded, attr.as_str());
                        set_key(&mut r, expanded, v.clone());
                    },
                    None => {},
                }
            },
            None => {},
        }
        i = i + 1;
    }
    assert(attributes@.subrange(0, i as int) =~= attributes@);
    r
}

} // verus!
