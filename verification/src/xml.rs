//! The structured document model: an element tree with ordered attributes.
//!
//! `Elem` mirrors what the engine needs from a vector drawing: a tag name,
//! attributes in document order, and ordered children.  Ghost counterparts
//! `ElemV` / `NodeV` carry the same shape over `Seq<char>` and are the
//! vocabulary of every contract about documents.

use vstd::prelude::*;
use vstd::string::*;

verus! {

broadcast use vstd::std_specs::vec::group_vec_axioms;

pub struct Elem {
    pub name: String,
    pub attributes: Vec<(String, String)>,
    pub children: Vec<Node>,
}

pub enum Node {
    Element(Elem),
    Text(String),
    Comment(String),
    CData(String),
    Instruction(String, Option<String>),
}

#[verifier::ext_equal]
pub struct ElemV {
    pub name: Seq<char>,
    pub attrs: Seq<(Seq<char>, Seq<char>)>,
    pub children: Seq<NodeV>,
}

#[verifier::ext_equal]
pub enum NodeV {
    Element(ElemV),
    Text(Seq<char>),
    Comment(Seq<char>),
    CData(Seq<char>),
    Instruction(Seq<char>, Option<Seq<char>>),
}

pub open spec fn elem_view(e: Elem) -> ElemV
    decreases e,
{
    ElemV {
        name: e.name@,
        attrs: e.attributes.deep_view(),
        children: nodes_view(e.children@),
    }
}

pub open spec fn nodes_view(ns: Seq<Node>) -> Seq<NodeV>
    decreases ns,
{
    if ns.len() == 0 {
        Seq::empty()
    } else {
        nodes_view(ns.drop_last()).push(node_view(ns.last()))
    }
}

pub open spec fn node_view(n: Node) -> NodeV
    decreases n,
{
    match n {
        Node::Element(e) => NodeV::Element(elem_view(e)),
        Node::Text(t) => NodeV::Text(t@),
        Node::Comment(c) => NodeV::Comment(c@),
        Node::CData(c) => NodeV::CData(c@),
        Node::Instruction(name, data) => NodeV::Instruction(name@, data.deep_view()),
    }
}

pub broadcast proof fn lemma_nodes_view_len(ns: Seq<Node>)
    ensures
        #[trigger] nodes_view(ns).len() == ns.len(),
    decreases ns.len(),
{
    if ns.len() > 0 {
        lemma_nodes_view_len(ns.drop_last());
    }
}

pub broadcast proof fn lemma_nodes_view_index(ns: Seq<Node>, i: int)
    requires
        0 <= i < ns.len(),
    ensures
        nodes_view(ns).len() == ns.len(),
        #[trigger] nodes_view(ns)[i] == node_view(ns[i]),
    decreases ns.len(),
{
    lemma_nodes_view_len(ns);
    if i < ns.len() - 1 {
        lemma_nodes_view_index(ns.drop_last(), i);
    }
}

impl DeepView for Elem {
    type V = ElemV;

    open spec fn deep_view(&self) -> ElemV {
        elem_view(*self)
    }
}

impl DeepView for Node {
    type V = NodeV;

    open spec fn deep_view(&self) -> NodeV {
        node_view(*self)
    }
}

// ---------------------------------------------------------------------------
// Attribute lists
// ---------------------------------------------------------------------------

pub open spec fn attrs_has(attrs: Seq<(Seq<char>, Seq<char>)>, k: Seq<char>) -> bool {
    exists|i: int| 0 <= i < attrs.len() && attrs[i].0 == k
}

/// Value of the first attribute named `k`.
pub open spec fn attrs_get(attrs: Seq<(Seq<char>, Seq<char>)>, k: Seq<char>) -> Seq<char>
    decreases attrs.len(),
{
    if attrs.len() == 0 {
        Seq::empty()
    } else if attrs.first().0 == k {
        attrs.first().1
    } else {
        attrs_get(attrs.drop_first(), k)
    }
}

/// Every attribute named `k` set to `v`; appended if absent.
pub open spec fn attrs_put(
    attrs: Seq<(Seq<char>, Seq<char>)>,
    k: Seq<char>,
    v: Seq<char>,
) -> Seq<(Seq<char>, Seq<char>)> {
    if attrs_has(attrs, k) {
        attrs.map_values(|p: (Seq<char>, Seq<char>)| if p.0 == k { (k, v) } else { p })
    } else {
        attrs.push((k, v))
    }
}

/// The element-wise deep view of a node vector is `nodes_view` of its view.
pub broadcast proof fn lemma_nodes_deep_view(v: Vec<Node>)
    ensures
        #[trigger] v.deep_view() == nodes_view(v@),
{
    lemma_nodes_view_len(v@);
    assert forall|i: int| 0 <= i < v@.len() implies nodes_view(v@)[i] == v.deep_view()[i] by {
        lemma_nodes_view_index(v@, i);
    }
    assert(v.deep_view() =~= nodes_view(v@));
}

/// The view of a concatenation is the concatenation of the views.
pub proof fn lemma_nodes_view_concat(a: Seq<Node>, b: Seq<Node>)
    ensures
        nodes_view(a + b) == nodes_view(a) + nodes_view(b),
    decreases b.len(),
{
    if b.len() == 0 {
        assert(a + b =~= a);
        assert(nodes_view(a + b) =~= nodes_view(a) + nodes_view(b));
    } else {
        lemma_nodes_view_concat(a, b.drop_last());
        assert((a + b).drop_last() =~= a + b.drop_last());
        assert(nodes_view(a + b) =~= nodes_view(a) + nodes_view(b));
    }
}

/// Sequences whose nodes agree pairwise have the same view.
pub proof fn lemma_nodes_view_pointwise(a: Seq<Node>, b: Seq<Node>)
    requires
        a.len() == b.len(),
        forall|i: int| 0 <= i < a.len() ==> node_view(a[i]) == node_view(b[i]),
    ensures
        nodes_view(a) == nodes_view(b),
    decreases a.len(),
{
    if a.len() > 0 {
        lemma_nodes_view_pointwise(a.drop_last(), b.drop_last());
        assert(nodes_view(a) =~= nodes_view(b));
    } else {
        assert(nodes_view(a) =~= nodes_view(b));
    }
}

pub proof fn lemma_attrs_get_first(attrs: Seq<(Seq<char>, Seq<char>)>, k: Seq<char>, i: int)
    requires
        0 <= i < attrs.len(),
        attrs[i].0 == k,
        forall|j: int| 0 <= j < i ==> attrs[j].0 != k,
    ensures
        attrs_get(attrs, k) == attrs[i].1,
    decreases i,
{
    if i > 0 {
        lemma_attrs_get_first(attrs.drop_first(), k, i - 1);
    }
}

// ---------------------------------------------------------------------------
// Serialized text
// ---------------------------------------------------------------------------

/// Escaping for text nodes: `&`, `<`, `>`.
pub open spec fn esc_char_text(c: char) -> Seq<char> {
    if c == '&' {
        seq!['&', 'a', 'm', 'p', ';']
    } else if c == '<' {
        seq!['&', 'l', 't', ';']
    } else if c == '>' {
        seq!['&', 'g', 't', ';']
    } else {
        seq![c]
    }
}

/// Escaping for attribute values: text escapes plus both quote kinds.
pub open spec fn esc_char_attr(c: char) -> Seq<char> {
    if c == '"' {
        seq!['&', 'q', 'u', 'o', 't', ';']
    } else if c == '\'' {
        seq!['&', 'a', 'p', 'o', 's', ';']
    } else {
        esc_char_text(c)
    }
}

pub open spec fn esc_text(s: Seq<char>) -> Seq<char>
    decreases s.len(),
{
    if s.len() == 0 {
        Seq::empty()
    } else {
        esc_text(s.drop_last()) + esc_char_text(s.last())
    }
}

pub open spec fn esc_attr(s: Seq<char>) -> Seq<char>
    decreases s.len(),
{
    if s.len() == 0 {
        Seq::empty()
    } else {
        esc_attr(s.drop_last()) + esc_char_attr(s.last())
    }
}

/// Two spaces of indentation per depth level.
pub open spec fn indent_of(depth: nat) -> Seq<char>
    decreases depth,
{
    if depth == 0 {
        Seq::empty()
    } else {
        indent_of((depth - 1) as nat) + seq![' ', ' ']
    }
}

pub open spec fn attrs_text(attrs: Seq<(Seq<char>, Seq<char>)>) -> Seq<char>
    decreases attrs.len(),
{
    if attrs.len() == 0 {
        Seq::empty()
    } else {
        attrs_text(attrs.drop_last()) + seq![' '] + attrs.last().0 + seq!['=', '"'] + esc_attr(
            attrs.last().1,
        ) + seq!['"']
    }
}

/// One level deeper, with indentation growth capped at depth 64.
pub open spec fn deeper(depth: nat) -> nat {
    if depth >= 64 {
        depth
    } else {
        depth + 1
    }
}

/// The serialized form of an element: deterministic, two-space indented,
/// one tag or text node per line, self-closing tags for childless elements.
pub open spec fn elem_text(e: ElemV, depth: nat) -> Seq<char>
    decreases e,
{
    if e.children.len() == 0 {
        indent_of(depth) + seq!['<'] + e.name + attrs_text(e.attrs) + seq!['/', '>', '\n']
    } else {
        indent_of(depth) + seq!['<'] + e.name + attrs_text(e.attrs) + seq!['>', '\n']
            + children_text(e.children, deeper(depth)) + indent_of(depth) + seq!['<', '/']
            + e.name + seq!['>', '\n']
    }
}

pub open spec fn children_text(ns: Seq<NodeV>, depth: nat) -> Seq<char>
    decreases ns,
{
    if ns.len() == 0 {
        Seq::empty()
    } else {
        children_text(ns.drop_last(), depth) + node_text(ns.last(), depth)
    }
}

pub open spec fn node_text(n: NodeV, depth: nat) -> Seq<char>
    decreases n,
{
    match n {
        NodeV::Element(e) => elem_text(e, depth),
        NodeV::Text(t) => indent_of(depth) + esc_text(t) + seq!['\n'],
        NodeV::Comment(c) => indent_of(depth) + seq!['<', '!', '-', '-'] + c + seq![
            '-',
            '-',
            '>',
            '\n',
        ],
        NodeV::CData(c) => indent_of(depth) + seq!['<', '!', '[', 'C', 'D', 'A', 'T', 'A', '[']
            + c + seq![']', ']', '>', '\n'],
        NodeV::Instruction(name, data) => indent_of(depth) + seq!['<', '?'] + name + (match data {
            Some(d) => seq![' '] + d,
            None => Seq::empty(),
        }) + seq!['?', '>', '\n'],
    }
}

} // verus!

