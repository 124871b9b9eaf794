//! Parsing text into documents through the `xmltree` crate.
//!
//! Parsing is the one document operation this crate does not implement
//! itself: it is delegated to `xmltree` behind a single trusted wrapper,
//! whose result is named by the uninterpreted function `parsed_nodes`.
//! The `attribute-order` feature of `xmltree` keeps attributes in document
//! order, so the parse result is a function of the input text alone.

use vstd::prelude::*;
use crate::xml::{Elem, ElemV, Node, NodeV};

verus! {

/// Declares `xmltree::Element` so the conversion helpers below may name it.
#[verifier::external_type_specification]
#[verifier::external_body]
pub struct ExElement(xmltree::Element);

/// Declares `xmltree::XMLNode` so the conversion helpers below may name it.
#[verifier::external_type_specification]
#[verifier::external_body]
pub struct ExXMLNode(xmltree::XMLNode);

/// The node list that the XML parser yields on a given text, or `None` where
/// the text is not well-formed: a function of the text alone.
pub uninterp spec fn parsed_nodes(s: Seq<char>) -> Option<Seq<NodeV>>;

/// Relies on `xmltree::Element::parse_all`: parses the text into its
/// top-level nodes in document order (whitespace-only text dropped,
/// comments kept).  With the `attribute-order` feature the attribute
/// order is the document order, so the result depends on the text alone.
/// Element prefixes and namespace declarations are discarded.
#[verifier::external_body]
fn parse_nodes_raw(s: &str) -> (r: Option<Vec<Node>>)
    ensures
        match r {
            Some(nodes) => parsed_nodes(s@) == Some(nodes.deep_view()),
            None => parsed_nodes(s@) is None,
        },
{
    match xmltree::Element::parse_all(s.as_bytes()) {
        Ok(nodes) => Some(nodes.into_iter().map(node_of_xml).collect()),
        Err(_) => None,
    }
}

/// Relies on the shape of `xmltree::XMLNode`: each variant is moved,
/// field for field, into this crate's node type.
#[verifier::external_body]
fn node_of_xml(n: xmltree::XMLNode) -> Node {
    match n {
        xmltree::XMLNode::Element(e) => Node::Element(elem_of_xml(e)),
        xmltree::XMLNode::Text(t) => Node::Text(t),
        xmltree::XMLNode::Comment(c) => Node::Comment(c),
        xmltree::XMLNode::CData(c) => Node::CData(c),
        xmltree::XMLNode::ProcessingInstruction(name, data) => Node::Instruction(name, data),
    }
}

/// Relies on the shape of `xmltree::Element`: local name, attributes in
/// document order, children in document order.  Prefix and namespace
/// information is dropped.
#[verifier::external_body]
fn elem_of_xml(e: xmltree::Element) -> Elem {
    Elem {
        name: e.name,
        attributes: e.attributes.into_iter().collect(),
        children: e.children.into_iter().map(node_of_xml).collect(),
    }
}

/// The first top-level element among parsed nodes, if any.
pub open spec fn first_element_of(ns: Seq<NodeV>) -> Option<ElemV>
    decreases ns.len(),
{
    if ns.len() == 0 {
        None
    } else {
        match ns.first() {
            NodeV::Element(e) => Some(e),
            _ => first_element_of(ns.drop_first()),
        }
    }
}

/// The root element parsed from `s`: the first top-level element, or
/// `None` where the text is malformed or holds no element.
pub open spec fn parsed_root(s: Seq<char>) -> Option<ElemV> {
    match parsed_nodes(s) {
        None => None,
        Some(ns) => first_element_of(ns),
    }
}

/// Parses `s` and returns its root element.
pub fn get_xml(s: &str) -> (r: Option<Elem>)
    ensures
        match r {
            Some(e) => parsed_root(s@) == Some(e.deep_view()),
            None => parsed_root(s@) is None,
        },
{
    match parse_nodes_raw(s) {
        None => None,
        Some(mut nodes) => {
            let ghost all = nodes.deep_view();
            while nodes.len() > 0
                invariant
                    parsed_nodes(s@) == Some(all),
                    first_element_of(nodes.deep_view()) == first_element_of(all),
                decreases nodes.len(),
            {
                let ghost pre = nodes.deep_view();
                let nd = nodes.remove(0);
                proof {
                    assert(nodes.deep_view() =~= pre.drop_first());
                    assert(nd.deep_view() == pre.first());
                }
                match nd {
                    Node::Element(e) => {
                        proof {
                            assert(pre.first() == NodeV::Element(e.deep_view()));
                            assert(first_element_of(pre) == Some(e.deep_view()));
                        }
                        return Some(e);
                    }
                    _ => {}
                }
            }
            proof {
                assert(nodes.deep_view() =~= Seq::<NodeV>::empty());
            }
            None
        }
    }
}

} // verus!
