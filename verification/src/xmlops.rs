//! Executable operations on the document model: construction, attribute
//! access and update, and deep copying.

use vstd::prelude::*;
use vstd::string::*;
use vstd::pervasive::VecAdditionalExecFns;
use crate::xml::{Elem, Node, ElemV, NodeV, elem_view, node_view, nodes_view, attrs_has, attrs_get, attrs_put, lemma_nodes_view_len, lemma_nodes_view_index, lemma_nodes_view_pointwise, lemma_attrs_get_first};

verus! {

broadcast use {vstd::std_specs::vec::group_vec_axioms, lemma_nodes_view_len, lemma_nodes_view_index};

impl Elem {
    /// A childless, attribute-less element named `name`.
    pub fn new(name: &str) -> (r: Elem)
        ensures
            r.deep_view() == (ElemV {
                name: name@,
                attrs: Seq::empty(),
                children: Seq::empty(),
            }),
    {
        let r = Elem { name: name.to_owned(), attributes: Vec::new(), children: Vec::new() };
        proof {
            let dv = r.deep_view();
            assert(dv.attrs =~= Seq::<(Seq<char>, Seq<char>)>::empty());
            assert(dv.children =~= Seq::<NodeV>::empty());
            assert(dv =~~= ElemV { name: name@, attrs: Seq::empty(), children: Seq::empty() });
        }
        r
    }

    /// The value of the first attribute named `k`, if any.
    pub fn get_attr(&self, k: &str) -> (r: Option<&String>)
        ensures
            match r {
                Some(v) => attrs_has(self.deep_view().attrs, k@) && v@ == attrs_get(
                    self.deep_view().attrs,
                    k@,
                ),
                None => !attrs_has(self.deep_view().attrs, k@),
            },
    {
        let n = self.attributes.len();
        let mut i: usize = 0;
        while i < n
            invariant
                0 <= i <= n,
                n == self.attributes@.len(),
                forall|j: int| 0 <= j < i ==> self.attributes@[j].0@ != k@,
            decreases n - i,
        {
            if crate::text::str_eq(self.attributes[i].0.as_str(), k) {
                proof {
                    let attrs = self.deep_view().attrs;
                    assert(attrs[i as int].0 == k@);
                    lemma_attrs_get_first(attrs, k@, i as int);
                }
                return Some(&self.attributes[i].1);
            }
            i += 1;
        }
        proof {
            let attrs = self.deep_view().attrs;
            assert(forall|j: int| 0 <= j < attrs.len() ==> attrs[j].0 != k@);
        }
        None
    }

    /// Sets attribute `k` to `v`: overwrites where present, appends otherwise.
    pub fn set_attr(&mut self, k: &str, v: String)
        ensures
            final(self).deep_view() == (ElemV {
                attrs: attrs_put(old(self).deep_view().attrs, k@, v@),
                ..old(self).deep_view()
            }),
    {
        let ghost pre = self.deep_view();
        let ghost children0 = self.children@;
        let ghost name0 = self.name@;
        let n = self.attributes.len();
        let mut i: usize = 0;
        let mut found = false;
        while i < n
            invariant
                0 <= i <= n,
                n == self.attributes@.len(),
                self.name@ == name0,
                self.children@ == children0,
                pre.name == name0,
                pre.children == nodes_view(children0),
                found == exists|j: int| 0 <= j < i && pre.attrs[j].0 == k@,
                self.attributes@.len() == pre.attrs.len(),
                forall|j: int|
                    i <= j < n ==> (self.attributes@[j].0@, self.attributes@[j].1@) == pre.attrs[j],
                forall|j: int|
                    0 <= j < i ==> (self.attributes@[j].0@, self.attributes@[j].1@) == (
                    if pre.attrs[j].0 == k@ {
                        (k@, v@)
                    } else {
                        pre.attrs[j]
                    }),
            decreases n - i,
        {
            if crate::text::str_eq(self.attributes[i].0.as_str(), k) {
                proof {
                    assert(pre.attrs[i as int].0 == k@);
                }
                let pair = (k.to_owned(), v.clone());
                self.attributes.set(i, pair);
                found = true;
                proof {
                    assert(exists|j: int| 0 <= j < i + 1 && pre.attrs[j].0 == k@) by {
                        assert(pre.attrs[i as int].0 == k@);
                    }
                }
            } else {
                proof {
                    assert(pre.attrs[i as int].0 != k@);
                }
            }
            i += 1;
        }
        if !found {
            self.attributes.push((k.to_owned(), v));
            proof {
                assert(!attrs_has(pre.attrs, k@));
                let dv = self.deep_view();
                assert(dv.attrs =~= pre.attrs.push((k@, v@)));
                assert(dv.children =~= pre.children);
                assert(dv =~~= ElemV { attrs: attrs_put(pre.attrs, k@, v@), ..pre });
            }
        } else {
            proof {
                assert(attrs_has(pre.attrs, k@));
                let dv = self.deep_view();
                assert(dv.attrs =~= pre.attrs.map_values(
                    |p: (Seq<char>, Seq<char>)|
                        if p.0 == k@ {
                            (k@, v@)
                        } else {
                            p
                        },
                ));
                assert(dv.children =~= pre.children);
                assert(dv =~~= ElemV { attrs: attrs_put(pre.attrs, k@, v@), ..pre });
            }
        }
    }

    /// An independent deep copy.
    pub fn duplicate(&self) -> (r: Elem)
        ensures
            r.deep_view() == self.deep_view(),
        decreases *self,
    {
        let mut attributes: Vec<(String, String)> = Vec::new();
        let an = self.attributes.len();
        let mut i: usize = 0;
        while i < an
            invariant
                0 <= i <= an,
                an == self.attributes@.len(),
                attributes.deep_view() =~= self.attributes.deep_view().take(i as int),
            decreases an - i,
        {
            let ghost preat = attributes.deep_view();
            let k = self.attributes[i].0.clone();
            let v = self.attributes[i].1.clone();
            attributes.push((k, v));
            proof {
                assert(attributes.deep_view() =~= preat.push((k@, v@)));
                assert(attributes.deep_view() =~= self.attributes.deep_view().take(i as int + 1));
            }
            i += 1;
        }
        proof {
            assert(self.attributes.deep_view().take(an as int) =~= self.attributes.deep_view());
        }
        let mut children: Vec<Node> = Vec::new();
        let cn = self.children.len();
        let mut j: usize = 0;
        while j < cn
            invariant
                0 <= j <= cn,
                cn == self.children@.len(),
                children@.len() == j,
                forall|m: int|
                    0 <= m < j ==> node_view(children@[m]) == node_view(self.children@[m]),
            decreases cn - j,
        {
            let child = self.children[j].duplicate();
            children.push(child);
            j += 1;
        }
        let r = Elem { name: self.name.clone(), attributes, children };
        proof {
            let dv = r.deep_view();
            let sv = self.deep_view();
            assert(dv.attrs =~= sv.attrs);
            lemma_nodes_view_pointwise(r.children@, self.children@);
            assert(dv =~~= sv);
        }
        r
    }
}

impl Node {
    /// An independent deep copy.
    pub fn duplicate(&self) -> (r: Node)
        ensures
            r.deep_view() == self.deep_view(),
        decreases *self,
    {
        match self {
            Node::Element(e) => Node::Element(e.duplicate()),
            Node::Text(t) => Node::Text(t.clone()),
            Node::Comment(c) => Node::Comment(c.clone()),
            Node::CData(c) => Node::CData(c.clone()),
            Node::Instruction(name, data) => {
                let d = match data {
                    Some(d) => Some(d.clone()),
                    None => None,
                };
                proof {
                    assert(d.deep_view() == data.deep_view());
                }
                Node::Instruction(name.clone(), d)
            }
        }
    }
}


} // verus!
