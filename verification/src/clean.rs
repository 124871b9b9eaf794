//! Promoting unique `label` attributes to `id`s: an element whose label
//! appears exactly once in the whole document gains that label as its id.

use vstd::prelude::*;
use vstd::string::*;
use crate::xml::{
    attrs_get, attrs_has, attrs_put, Elem, ElemV, Node, NodeV, lemma_nodes_deep_view,
    lemma_nodes_view_index, lemma_nodes_view_len, node_view, nodes_view,
};

verus! {

broadcast use {
    vstd::std_specs::vec::group_vec_axioms,
    lemma_nodes_view_len,
    lemma_nodes_view_index,
    lemma_nodes_deep_view,
};

/// How many elements of the tree rooted at `e` carry `label="l"`.
pub open spec fn label_count(e: ElemV, l: Seq<char>) -> nat
    decreases e,
{
    (if attrs_has(e.attrs, "label"@) && attrs_get(e.attrs, "label"@) == l {
        1nat
    } else {
        0nat
    }) + label_count_children(e.children, l)
}

pub open spec fn label_count_children(ns: Seq<NodeV>, l: Seq<char>) -> nat
    decreases ns,
{
    if ns.len() == 0 {
        0
    } else {
        label_count_children(ns.drop_last(), l) + match ns.last() {
            NodeV::Element(c) => label_count(c, l),
            _ => 0nat,
        }
    }
}

/// The tree with every uniquely labelled element given its label as id;
/// counts are taken over the whole document `root`.
pub open spec fn clean_elem(e: ElemV, root: ElemV) -> ElemV
    decreases e,
{
    ElemV {
        attrs: if attrs_has(e.attrs, "label"@) && label_count(root, attrs_get(e.attrs, "label"@))
            == 1 {
            attrs_put(e.attrs, "id"@, attrs_get(e.attrs, "label"@))
        } else {
            e.attrs
        },
        children: clean_children(e.children, root),
        ..e
    }
}

pub open spec fn clean_children(ns: Seq<NodeV>, root: ElemV) -> Seq<NodeV>
    decreases ns,
{
    if ns.len() == 0 {
        Seq::empty()
    } else {
        clean_children(ns.drop_last(), root).push(
            match ns.last() {
                NodeV::Element(c) => NodeV::Element(clean_elem(c, root)),
                other => other,
            },
        )
    }
}

pub open spec fn spec_clean(root: ElemV) -> ElemV {
    clean_elem(root, root)
}

/// `n`, saturated into a machine word.
pub open spec fn cap64(n: nat) -> u64 {
    if n < 0xffff_ffff_ffff_ffff {
        n as u64
    } else {
        0xffff_ffff_ffff_ffff
    }
}

fn count_label(e: &Elem, l: &str) -> (r: u64)
    ensures
        r == cap64(label_count(e.deep_view(), l@)),
    decreases *e,
{
    let own: u64 = match e.get_attr("label") {
        Some(v) => {
            if crate::text::str_eq(v.as_str(), l) {
                1
            } else {
                0
            }
        }
        None => 0,
    };
    let mut total: u64 = own;
    let ghost cv = nodes_view(e.children@);
    let n = e.children.len();
    let mut i: usize = 0;
    while i < n
        invariant
            0 <= i <= n,
            n == e.children@.len(),
            cv == nodes_view(e.children@),
            own == (if attrs_has(e.deep_view().attrs, "label"@) && attrs_get(
                e.deep_view().attrs,
                "label"@,
            ) == l@ {
                1int
            } else {
                0int
            }),
            total == cap64(own as nat + label_count_children(cv.take(i as int), l@)),
        decreases n - i,
    {
        let ghost pre_total = total;
        match &e.children[i] {
            Node::Element(c) => {
                let sub = count_label(c, l);
                proof {
                    assert(cv[i as int] == NodeV::Element(c.deep_view()));
                }
                if total > 0xffff_ffff_ffff_ffff - sub {
                    total = 0xffff_ffff_ffff_ffff;
                } else {
                    total = total + sub;
                }
            }
            _ => {
                proof {
                    assert(!(cv[i as int] is Element));
                }
            }
        }
        proof {
            assert(cv.take(i as int + 1).drop_last() =~= cv.take(i as int));
            assert(cv.take(i as int + 1).last() == cv[i as int]);
            assert(total == cap64(own as nat + label_count_children(cv.take(i as int + 1), l@)));
        }
        i += 1;
    }
    proof {
        assert(cv.take(n as int) =~= cv);
    }
    total
}

fn clean_rec(e: &Elem, root: &Elem) -> (r: Elem)
    ensures
        r.deep_view() == clean_elem(e.deep_view(), root.deep_view()),
    decreases *e,
{
    let labelled = match e.get_attr("label") {
        Some(l) => Some(l.clone()),
        None => None,
    };
    let mut out = Elem {
        name: e.name.clone(),
        attributes: crate::export::clone_attrs_pub(&e.attributes),
        children: Vec::new(),
    };
    match labelled {
        Some(l) => {
            let c = count_label(root, l.as_str());
            if c == 1 {
                out.set_attr("id", l);
            }
        }
        None => {}
    }
    let ghost target_attrs = if attrs_has(e.deep_view().attrs, "label"@) && label_count(
        root.deep_view(),
        attrs_get(e.deep_view().attrs, "label"@),
    ) == 1 {
        attrs_put(e.deep_view().attrs, "id"@, attrs_get(e.deep_view().attrs, "label"@))
    } else {
        e.deep_view().attrs
    };
    proof {
        assert(out.deep_view().attrs =~= target_attrs);
    }
    let mut children: Vec<Node> = Vec::new();
    let cn = e.children.len();
    let mut j: usize = 0;
    while j < cn
        invariant
            0 <= j <= cn,
            cn == e.children@.len(),
            children.deep_view() =~= clean_children(
                nodes_view(e.children@).take(j as int),
                root.deep_view(),
            ),
        decreases cn - j,
    {
        let ghost pre = children.deep_view();
        let ghost cv = nodes_view(e.children@);
        match &e.children[j] {
            Node::Element(c) => {
                let cc = clean_rec(c, root);
                children.push(Node::Element(cc));
                proof {
                    assert(cv[j as int] == NodeV::Element(c.deep_view()));
                    assert(children.deep_view() =~= pre.push(
                        NodeV::Element(clean_elem(c.deep_view(), root.deep_view())),
                    ));
                }
            }
            Node::Text(t) => {
                children.push(Node::Text(t.clone()));
            }
            Node::Comment(c) => {
                children.push(Node::Comment(c.clone()));
            }
            Node::CData(c) => {
                children.push(Node::CData(c.clone()));
            }
            Node::Instruction(nm, data) => {
                let d = match data {
                    Some(d) => Some(d.clone()),
                    None => None,
                };
                proof {
                    assert(d.deep_view() == data.deep_view());
                }
                children.push(Node::Instruction(nm.clone(), d));
            }
        }
        proof {
            assert(cv.take(j as int + 1).drop_last() =~= cv.take(j as int));
            assert(cv.take(j as int + 1).last() == cv[j as int]);
            assert(clean_children(cv.take(j as int + 1), root.deep_view()) == clean_children(
                cv.take(j as int),
                root.deep_view(),
            ).push(
                match cv[j as int] {
                    NodeV::Element(c) => NodeV::Element(clean_elem(c, root.deep_view())),
                    other => other,
                },
            ));
            assert(children.deep_view() =~= clean_children(
                cv.take(j as int + 1),
                root.deep_view(),
            ));
        }
        j += 1;
    }
    proof {
        let cv = nodes_view(e.children@);
        assert(cv.take(cn as int) =~= cv);
    }
    out.children = children;
    proof {
        assert(out.deep_view() =~~= clean_elem(e.deep_view(), root.deep_view()));
    }
    out
}

/// Gives every uniquely labelled element its label as id.
pub fn clean(element: &mut Elem)
    ensures
        final(element).deep_view() == spec_clean(old(element).deep_view()),
{
    let r = clean_rec(element, element);
    *element = r;
}

} // verus!
