//! Document-level post-processing before export: stripping size-marker
//! elements, combining `<defs>`, and setting a fresh view box.
//!
//! Rasterization, bounding-box geometry and file output live outside the
//! library; these transforms only prepare the document text.

use vstd::prelude::*;
use vstd::string::*;
use crate::xml::{
    Elem, ElemV, Node, NodeV, attrs_get, attrs_has, attrs_put, elem_text, lemma_nodes_deep_view,
    lemma_nodes_view_concat, lemma_nodes_view_index, lemma_nodes_view_len, node_view, nodes_view,
};
use crate::xmlload::{get_xml, parsed_root};

verus! {

broadcast use {
    vstd::std_specs::vec::group_vec_axioms,
    lemma_nodes_view_len,
    lemma_nodes_view_index,
    lemma_nodes_deep_view,
};

#[derive(Debug)]
pub enum ExportError {
    /// The document text does not parse.
    XmlParse,
    /// No bounding box could be computed for the drawing.
    NoBBox,
    /// A file could not be written; holds the path.
    Io(String),
    /// Rasterization failed.
    Raster,
}

pub struct ExportArgs {
    pub no_resize: bool,
    pub dim: Vec<u32>,
}

/// A whole document as text: header line plus the serialized root.
pub open spec fn doc_text_of(e: ElemV) -> Seq<char> {
    "<?xml version=\"1.0\" encoding=\"UTF-8\"?>\n"@ + elem_text(e, 0)
}

/// Serializes a document with the document header.
pub fn xml_to_str(svg_xml: &Elem) -> (r: Result<String, ExportError>)
    ensures
        r matches Ok(s) && s@ == doc_text_of(svg_xml.deep_view()),
{
    let mut out = "<?xml version=\"1.0\" encoding=\"UTF-8\"?>\n".to_owned();
    let body = crate::serialize::xml_to_string(svg_xml);
    out.append(body.as_str());
    Ok(out)
}

// ---------------------------------------------------------------------------
// Stripping marked elements
// ---------------------------------------------------------------------------

/// Is this an element whose `attr` equals `"true"`?
pub open spec fn marked(n: NodeV, attr: Seq<char>) -> bool {
    match n {
        NodeV::Element(c) => attrs_has(c.attrs, attr) && attrs_get(c.attrs, attr) == "true"@,
        _ => false,
    }
}

/// The tree with every element marked `attr="true"` removed, recursively.
pub open spec fn strip_elem(e: ElemV, attr: Seq<char>) -> ElemV
    decreases e,
{
    ElemV { children: strip_children(e.children, attr), ..e }
}

pub open spec fn strip_children(ns: Seq<NodeV>, attr: Seq<char>) -> Seq<NodeV>
    decreases ns,
{
    if ns.len() == 0 {
        Seq::empty()
    } else {
        strip_children(ns.drop_last(), attr) + (if marked(ns.last(), attr) {
            Seq::empty()
        } else {
            match ns.last() {
                NodeV::Element(c) => seq![NodeV::Element(strip_elem(c, attr))],
                other => seq![other],
            }
        })
    }
}

fn strip_elem_exec(e: &Elem, attr: &str) -> (r: Elem)
    ensures
        r.deep_view() == strip_elem(e.deep_view(), attr@),
    decreases *e,
{
    let mut children: Vec<Node> = Vec::new();
    let cn = e.children.len();
    let mut j: usize = 0;
    while j < cn
        invariant
            0 <= j <= cn,
            cn == e.children@.len(),
            children.deep_view() =~= strip_children(nodes_view(e.children@).take(j as int), attr@),
        decreases cn - j,
    {
        let ghost pre = children.deep_view();
        let ghost cv = nodes_view(e.children@);
        match &e.children[j] {
            Node::Element(c) => {
                let is_marked = match c.get_attr(attr) {
                    Some(v) => crate::text::str_eq(v.as_str(), "true"),
                    None => false,
                };
                if !is_marked {
                    let sc = strip_elem_exec(c, attr);
                    children.push(Node::Element(sc));
                }
            }
            Node::Text(t) => {
                children.push(Node::Text(t.clone()));
            }
            Node::Comment(c) => {
                children.push(Node::Comment(c.clone()));
            }
            Node::CData(c) => {
                children.push(Node::CData(c.clone()));
            }
            Node::Instruction(nm, data) => {
                let d = match data {
                    Some(d) => Some(d.clone()),
                    None => None,
                };
                proof {
                    assert(d.deep_view() == data.deep_view());
                }
                children.push(Node::Instruction(nm.clone(), d));
            }
        }
        proof {
            assert(cv.take(j as int + 1).drop_last() =~= cv.take(j as int));
            assert(cv.take(j as int + 1).last() == cv[j as int]);
            assert(children.deep_view() =~= strip_children(cv.take(j as int + 1), attr@));
        }
        j += 1;
    }
    proof {
        let cv = nodes_view(e.children@);
        assert(cv.take(cn as int) =~= cv);
    }
    let mut attributes: Vec<(String, String)> = Vec::new();
    let an = e.attributes.len();
    let mut i: usize = 0;
    while i < an
        invariant
            0 <= i <= an,
            an == e.attributes@.len(),
            attributes.deep_view() =~= e.attributes.deep_view().take(i as int),
        decreases an - i,
    {
        let ghost pre = attributes.deep_view();
        attributes.push((e.attributes[i].0.clone(), e.attributes[i].1.clone()));
        proof {
            assert(attributes.deep_view() =~= pre.push(e.attributes.deep_view()[i as int]));
            assert(attributes.deep_view() =~= e.attributes.deep_view().take(i as int + 1));
        }
        i += 1;
    }
    proof {
        assert(e.attributes.deep_view().take(an as int) =~= e.attributes.deep_view());
    }
    let r = Elem { name: e.name.clone(), attributes, children };
    proof {
        assert(r.deep_view() =~~= strip_elem(e.deep_view(), attr@));
    }
    r
}

/// Parses, removes every element marked `attr="true"`, and re-serializes.
pub fn strip_marked(svg_str: &str, attr: &str) -> (r: Result<String, ExportError>)
    ensures
        match r {
            Ok(s) => parsed_root(svg_str@) matches Some(root) && s@ == doc_text_of(
                strip_elem(root, attr@),
            ),
            Err(_) => parsed_root(svg_str@) is None,
        },
{
    match get_xml(svg_str) {
        Some(root) => {
            let stripped = strip_elem_exec(&root, attr);
            xml_to_str(&stripped)
        }
        None => Err(ExportError::XmlParse),
    }
}

// ---------------------------------------------------------------------------
// Combining defs
// ---------------------------------------------------------------------------

/// The `<defs>` elements of the tree, in document pre-order; a `defs`
/// element is collected whole, without looking inside it.
pub open spec fn defs_of_children(ns: Seq<NodeV>) -> Seq<ElemV>
    decreases ns,
{
    if ns.len() == 0 {
        Seq::empty()
    } else {
        defs_of_children(ns.drop_last()) + match ns.last() {
            NodeV::Element(c) => if c.name == "defs"@ {
                seq![c]
            } else {
                defs_of_children(c.children)
            },
            _ => Seq::empty(),
        }
    }
}

/// The tree with every `<defs>` element removed, recursively.
pub open spec fn drop_defs_children(ns: Seq<NodeV>) -> Seq<NodeV>
    decreases ns,
{
    if ns.len() == 0 {
        Seq::empty()
    } else {
        drop_defs_children(ns.drop_last()) + match ns.last() {
            NodeV::Element(c) => if c.name == "defs"@ {
                Seq::empty()
            } else {
                seq![
                    NodeV::Element(
                        ElemV { children: drop_defs_children(c.children), ..c },
                    ),
                ]
            },
            other => seq![other],
        }
    }
}

/// The element children of the collected defs, flattened in order.
pub open spec fn flatten_defs(defs: Seq<ElemV>) -> Seq<NodeV>
    decreases defs.len(),
{
    if defs.len() == 0 {
        Seq::empty()
    } else {
        flatten_defs(defs.drop_last()) + elements_only(defs.last().children)
    }
}

pub open spec fn elements_only(ns: Seq<NodeV>) -> Seq<NodeV>
    decreases ns.len(),
{
    if ns.len() == 0 {
        Seq::empty()
    } else {
        elements_only(ns.drop_last()) + match ns.last() {
            NodeV::Element(c) => seq![NodeV::Element(c)],
            _ => Seq::empty(),
        }
    }
}

/// The document with all its `<defs>` combined into one, inserted first,
/// carrying `id="defs"`.
pub open spec fn spec_combine_defs(root: ElemV) -> ElemV {
    let defs_elem = ElemV {
        name: "defs"@,
        attrs: seq![("id"@, "defs"@)],
        children: flatten_defs(defs_of_children(root.children)),
    };
    ElemV {
        children: seq![NodeV::Element(defs_elem)] + drop_defs_children(root.children),
        ..root
    }
}

/// Removes `<defs>` elements from below `e`, returning the cleaned element
/// and the removed defs in document order.
fn collect_defs_exec(e: &Elem) -> (r: (Elem, Vec<Elem>))
    ensures
        r.0.deep_view() == (ElemV {
            children: drop_defs_children(e.deep_view().children),
            ..e.deep_view()
        }),
        r.1.deep_view() == defs_of_children(e.deep_view().children),
    decreases *e,
{
    let mut children: Vec<Node> = Vec::new();
    let mut defs: Vec<Elem> = Vec::new();
    let cn = e.children.len();
    let mut j: usize = 0;
    while j < cn
        invariant
            0 <= j <= cn,
            cn == e.children@.len(),
            children.deep_view() =~= drop_defs_children(nodes_view(e.children@).take(j as int)),
            defs.deep_view() =~= defs_of_children(nodes_view(e.children@).take(j as int)),
        decreases cn - j,
    {
        let ghost prec = children.deep_view();
        let ghost pred = defs.deep_view();
        let ghost cv = nodes_view(e.children@);
        match &e.children[j] {
            Node::Element(c) => {
                if crate::text::str_eq(c.name.as_str(), "defs") {
                    defs.push(c.duplicate());
                } else {
                    let (sub, mut subdefs) = collect_defs_exec(c);
                    children.push(Node::Element(sub));
                    let ghost sdv = subdefs.deep_view();
                    let ghost dpre = defs.deep_view();
                    defs.append(&mut subdefs);
                    proof {
                        assert forall|m: int|
                            0 <= m < defs.deep_view().len() implies defs.deep_view()[m] == (dpre
                            + sdv)[m] by {
                            assert(defs.deep_view()[m] == defs@[m].deep_view());
                        }
                        assert(defs.deep_view() =~= dpre + sdv);
                    }
                }
            }
            Node::Text(t) => {
                children.push(Node::Text(t.clone()));
            }
            Node::Comment(c) => {
                children.push(Node::Comment(c.clone()));
            }
            Node::CData(c) => {
                children.push(Node::CData(c.clone()));
            }
            Node::Instruction(nm, data) => {
                let d = match data {
                    Some(d) => Some(d.clone()),
                    None => None,
                };
                proof {
                    assert(d.deep_view() == data.deep_view());
                }
                children.push(Node::Instruction(nm.clone(), d));
            }
        }
        proof {
            assert(cv.take(j as int + 1).drop_last() =~= cv.take(j as int));
            assert(cv.take(j as int + 1).last() == cv[j as int]);
            assert(children.deep_view() =~= drop_defs_children(cv.take(j as int + 1)));
            assert(defs.deep_view() =~= defs_of_children(cv.take(j as int + 1)));
        }
        j += 1;
    }
    proof {
        let cv = nodes_view(e.children@);
        assert(cv.take(cn as int) =~= cv);
    }
    let cleaned = Elem {
        name: e.name.clone(),
        attributes: clone_attrs_pub(&e.attributes),
        children,
    };
    proof {
        assert(cleaned.deep_view() =~~= ElemV {
            children: drop_defs_children(e.deep_view().children),
            ..e.deep_view()
        });
    }
    (cleaned, defs)
}

pub(crate) fn clone_attrs_pub(attrs: &Vec<(String, String)>) -> (r: Vec<(String, String)>)
    ensures
        r.deep_view() == attrs.deep_view(),
{
    let mut out: Vec<(String, String)> = Vec::new();
    let an = attrs.len();
    let mut i: usize = 0;
    while i < an
        invariant
            0 <= i <= an,
            an == attrs@.len(),
            out.deep_view() =~= attrs.deep_view().take(i as int),
        decreases an - i,
    {
        let ghost pre = out.deep_view();
        out.push((attrs[i].0.clone(), attrs[i].1.clone()));
        proof {
            assert(out.deep_view() =~= pre.push(attrs.deep_view()[i as int]));
            assert(out.deep_view() =~= attrs.deep_view().take(i as int + 1));
        }
        i += 1;
    }
    proof {
        assert(attrs.deep_view().take(an as int) =~= attrs.deep_view());
    }
    out
}

/// Finds all the `<defs>` in the svg and combines them all into one.
pub fn combine_defs(svg_str: String) -> (r: Result<String, ExportError>)
    ensures
        match r {
            Ok(s) => parsed_root(svg_str@) matches Some(root) && s@ == doc_text_of(
                spec_combine_defs(root),
            ),
            Err(_) => parsed_root(svg_str@) is None,
        },
{
    let root = match get_xml(svg_str.as_str()) {
        Some(root) => root,
        None => {
            return Err(ExportError::XmlParse);
        }
    };
    let ghost rv = root.deep_view();
    let (cleaned, mut defs) = collect_defs_exec(&root);
    let mut defs_children: Vec<Node> = Vec::new();
    let ghost dv = defs.deep_view();
    let dn = defs.len();
    let mut i: usize = 0;
    while i < dn
        invariant
            0 <= i <= dn,
            dn == defs@.len(),
            dv == defs.deep_view(),
            defs_children.deep_view() =~= flatten_defs(dv.take(i as int)),
        decreases dn - i,
    {
        let ghost pre = defs_children.deep_view();
        proof {
            assert(dv[i as int] == defs@[i as int].deep_view());
        }
        let cs = &defs[i].children;
        let cl = cs.len();
        let mut k: usize = 0;
        proof {
            assert(pre + elements_only(nodes_view(cs@).take(0)) =~= pre);
        }
        while k < cl
            invariant
                0 <= k <= cl,
                cl == cs@.len(),
                cs@ == defs@[i as int].children@,
                defs_children.deep_view() =~= pre + elements_only(
                    nodes_view(cs@).take(k as int),
                ),
            decreases cl - k,
        {
            let ghost prev = defs_children.deep_view();
            let ghost cv = nodes_view(cs@);
            proof {
                crate::xml::lemma_nodes_view_index(cs@, k as int);
            }
            match &cs[k] {
                Node::Element(c) => {
                    let dup = c.duplicate();
                    defs_children.push(Node::Element(dup));
                    proof {
                        assert(cv[k as int] == NodeV::Element(c.deep_view()));
                        assert(defs_children.deep_view() =~= prev.push(
                            NodeV::Element(c.deep_view()),
                        ));
                    }
                }
                _ => {
                    proof {
                        assert(!(cv[k as int] is Element));
                    }
                }
            }
            proof {
                assert(cv.take(k as int + 1).drop_last() =~= cv.take(k as int));
                assert(cv.take(k as int + 1).last() == cv[k as int]);
                assert(defs_children.deep_view() =~= pre + elements_only(cv.take(k as int + 1)));
            }
            k += 1;
        }
        proof {
            let cv = nodes_view(cs@);
            assert(cv.take(cl as int) =~= cv);
            assert(cv =~= dv[i as int].children);
            assert(dv.take(i as int + 1).drop_last() =~= dv.take(i as int));
            assert(dv.take(i as int + 1).last() == dv[i as int]);
            assert(defs_children.deep_view() =~= flatten_defs(dv.take(i as int + 1)));
        }
        i += 1;
    }
    proof {
        assert(dv.take(dn as int) =~= dv);
    }
    let mut defs_elem = Elem::new("defs");
    let ghost de0 = defs_elem.deep_view();
    defs_elem.set_attr("id", "defs".to_owned());
    proof {
        assert(!attrs_has(de0.attrs, "id"@));
        assert(defs_elem.deep_view().attrs =~= seq![("id"@, "defs"@)]);
    }
    let ghost dc = defs_children.deep_view();
    defs_elem.children = defs_children;
    proof {
        assert(nodes_view(defs_elem.children@) == dc);
        assert(defs_elem.deep_view() =~~= ElemV {
            name: "defs"@,
            attrs: seq![("id"@, "defs"@)],
            children: flatten_defs(defs_of_children(rv.children)),
        });
    }
    let ghost dev = defs_elem.deep_view();
    let mut out_children: Vec<Node> = Vec::new();
    out_children.push(Node::Element(defs_elem));
    let ghost oc0 = out_children@;
    let mut cleaned = cleaned;
    let ghost cleaned_children = nodes_view(cleaned.children@);
    let mut rest = std_take_children_pub(&mut cleaned);
    let ghost restq = rest@;
    out_children.append(&mut rest);
    proof {
        assert(out_children@ == oc0 + restq);
        lemma_nodes_view_concat(oc0, restq);
        assert(nodes_view(oc0) =~= seq![NodeV::Element(dev)]);
        assert(nodes_view(out_children@) =~= seq![NodeV::Element(dev)] + cleaned_children);
    }
    let mut cleaned2 = cleaned;
    cleaned2.children = out_children;
    proof {
        assert(cleaned2.deep_view() =~~= spec_combine_defs(rv));
    }
    xml_to_str(&cleaned2)
}

/// Moves the children out of an element, leaving it childless.
pub(crate) fn std_take_children_pub(e: &mut Elem) -> (r: Vec<Node>)
    ensures
        r@ == old(e).children@,
        final(e).name == old(e).name,
        final(e).attributes == old(e).attributes,
        final(e).children@ == Seq::<Node>::empty(),
{
    let mut out: Vec<Node> = Vec::new();
    core::mem::swap(&mut out, &mut e.children);
    out
}

// ---------------------------------------------------------------------------
// Resizing
// ---------------------------------------------------------------------------

/// Replaces the root's `viewBox` with an already-computed value and
/// re-serializes.  The geometry of the new view box is the rasterizer's
/// business and is handed in as text.
pub fn resize(svg_str: String, view_box: &str) -> (r: Result<String, ExportError>)
    ensures
        match r {
            Ok(s) => parsed_root(svg_str@) matches Some(root) && s@ == doc_text_of(
                ElemV { attrs: attrs_put(root.attrs, "viewBox"@, view_box@), ..root },
            ),
            Err(_) => parsed_root(svg_str@) is None,
        },
{
    match get_xml(svg_str.as_str()) {
        Some(mut root) => {
            let ghost rv = root.deep_view();
            root.set_attr("viewBox", view_box.to_owned());
            proof {
                assert(root.deep_view() =~~= ElemV {
                    attrs: attrs_put(rv.attrs, "viewBox"@, view_box@),
                    ..rv
                });
            }
            xml_to_str(&root)
        }
        None => Err(ExportError::XmlParse),
    }
}

} // verus!
