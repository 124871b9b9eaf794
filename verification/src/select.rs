//! Sub-tree selection: the selector language is `""` (flatten the root into
//! a generic wrapper) or `#id` (first matching descendant, depth first).

use vstd::prelude::*;
use vstd::string::*;
use crate::xml::{
    Elem, ElemV, Node, NodeV, attrs_get, attrs_has, lemma_nodes_view_index, lemma_nodes_view_len,
    node_view, nodes_view,
};

verus! {

broadcast use {
    vstd::std_specs::vec::group_vec_axioms,
    lemma_nodes_view_len,
    lemma_nodes_view_index,
    crate::xml::lemma_nodes_deep_view,
};

/// Does this element carry `id="<id>"`?
pub open spec fn has_id(e: ElemV, id: Seq<char>) -> bool {
    attrs_has(e.attrs, "id"@) && attrs_get(e.attrs, "id"@) == id
}

/// First element with the given id, in depth-first pre-order over `ns` and
/// their descendants.
pub open spec fn find_by_id(ns: Seq<NodeV>, id: Seq<char>) -> Option<ElemV>
    decreases ns,
{
    if ns.len() == 0 {
        None
    } else {
        match ns.first() {
            NodeV::Element(e) => {
                if has_id(e, id) {
                    Some(e)
                } else {
                    match find_by_id(e.children, id) {
                        Some(r) => Some(r),
                        None => find_by_id(ns.drop_first(), id),
                    }
                }
            }
            _ => find_by_id(ns.drop_first(), id),
        }
    }
}

/// What `query_selector` extracts from a document for a given pattern.
pub open spec fn spec_query_selector(e: ElemV, pattern: Seq<char>) -> Option<ElemV> {
    if pattern.len() == 0 {
        Some(ElemV { name: "g"@, attrs: Seq::empty(), children: e.children })
    } else if pattern.first() == '#' {
        find_by_id(e.children, pattern.drop_first())
    } else {
        None
    }
}

/// Extracts a sub-tree: `""` flattens the root's children into a fresh
/// `<g>` wrapper; `#id` returns the first descendant whose `id` equals
/// `id`; anything else selects nothing.
pub fn query_selector(svg: Elem, pattern: &str) -> (r: Option<Elem>)
    ensures
        match r {
            Some(e) => spec_query_selector(svg.deep_view(), pattern@) == Some(e.deep_view()),
            None => spec_query_selector(svg.deep_view(), pattern@) is None,
        },
{
    let plen = pattern.unicode_len();
    if plen == 0 {
        let ghost sv = svg.deep_view();
        let mut group = Elem::new("g");
        group.children = svg.children;
        proof {
            assert(group.deep_view() =~~= ElemV {
                name: "g"@,
                attrs: Seq::empty(),
                children: sv.children,
            });
        }
        Some(group)
    } else if pattern.get_char(0) == '#' {
        let id = pattern.substring_char(1, plen);
        proof {
            assert(id@ =~= pattern@.drop_first());
        }
        find_elem_by_id(svg.children, id)
    } else {
        None
    }
}

/// Depth-first search among `nodes` and their descendants for the first
/// element whose `id` attribute equals `id`.
fn find_elem_by_id(nodes: Vec<Node>, id: &str) -> (r: Option<Elem>)
    ensures
        match r {
            Some(e) => find_by_id(nodes.deep_view(), id@) == Some(e.deep_view()),
            None => find_by_id(nodes.deep_view(), id@) is None,
        },
    decreases nodes,
{
    let ghost all = nodes.deep_view();
    let mut rest = nodes;
    while rest.len() > 0
        invariant
            all == nodes.deep_view(),
            find_by_id(rest.deep_view(), id@) == find_by_id(all, id@),
            forall|j: int|
                0 <= j < rest@.len() ==> exists|m: int|
                    0 <= m < nodes@.len() && #[trigger] rest@[j] == nodes@[m],
        decreases rest.len(),
    {
        let ghost pre = rest.deep_view();
        let ghost prev = rest@;
        let nd = rest.remove(0);
        proof {
            assert(rest.deep_view() =~= pre.drop_first());
            assert(nd.deep_view() == pre.first());
            assert(nd == prev[0]);
            assert(forall|j: int| 0 <= j < rest@.len() ==> #[trigger] rest@[j] == prev[j + 1]);
        }
        match nd {
            Node::Element(e) => {
                let matched = match e.get_attr("id") {
                    Some(v) => crate::text::str_eq(v.as_str(), id),
                    None => false,
                };
                if matched {
                    proof {
                        assert(has_id(e.deep_view(), id@));
                        assert(find_by_id(pre, id@) == Some(e.deep_view()));
                    }
                    return Some(e);
                }
                proof {
                    assert(!has_id(e.deep_view(), id@));
                    assert(exists|m: int|
                        0 <= m < nodes@.len() && #[trigger] prev[0] == nodes@[m]);
                }
                let ghost ev = e.deep_view();
                proof {
                    let m = choose|m: int| 0 <= m < nodes@.len() && prev[0] == nodes@[m];
                    assert(0 <= m < nodes@.len() && prev[0] == nodes@[m]);
                    assert(decreases_to!(nodes => nodes[m]));
                    assert(decreases_to!(nodes => e.children));
                }
                let sub = find_elem_by_id(e.children, id);
                match sub {
                    Some(found) => {
                        proof {
                            assert(find_by_id(ev.children, id@) == Some(found.deep_view()));
                            assert(find_by_id(pre, id@) == Some(found.deep_view()));
                        }
                        return Some(found);
                    }
                    None => {
                        proof {
                            assert(find_by_id(ev.children, id@) is None);
                            assert(find_by_id(pre, id@) == find_by_id(pre.drop_first(), id@));
                        }
                    }
                }
            }
            _ => {
                proof {
                    assert(find_by_id(pre, id@) == find_by_id(pre.drop_first(), id@));
                }
            }
        }
    }
    proof {
        assert(rest.deep_view() =~= Seq::<NodeV>::empty());
    }
    None
}

} // verus!
