//! Compositing two rendered emotes into one: the "right" emote is cut out
//! of the "left" one through a mask, so the pair appears to touch.
//!
//! `bolden` widens every drawn element's stroke by an exact decimal amount,
//! giving the cutout a margin; `generate_snuggle` assembles the final
//! drawing.  All geometry values arrive as already-formatted text.

use vstd::prelude::*;
use vstd::string::*;
use crate::dec::{dec_add, dec_add_v, dec_format, dec_parse, dec_print, Dec};
use crate::export::elements_only;
use crate::parse::{css_rules, parse_css};
use crate::color::{set_fill, set_stroke, spec_set_fill, spec_set_stroke};
use crate::xml::{
    attrs_has, Elem, ElemV, lemma_nodes_deep_view, lemma_nodes_view_index, lemma_nodes_view_len,
    Node, NodeV, node_view, nodes_view,
};

verus! {

broadcast use {
    vstd::std_specs::vec::group_vec_axioms,
    lemma_nodes_view_len,
    lemma_nodes_view_index,
    lemma_nodes_deep_view,
};

// ---------------------------------------------------------------------------
// Widening strokes
// ---------------------------------------------------------------------------

/// The rules of a style string re-rendered, with every `stroke-width` rule
/// removed and its parsed value carried along; a `fill` rule met while no
/// stroke width is known counts as a zero-width stroke.
pub open spec fn bolden_rules(rules: Seq<(Seq<char>, Seq<char>)>, sw: Option<(nat, nat)>) -> (
    Seq<char>,
    Option<(nat, nat)>,
)
    decreases rules.len(),
{
    if rules.len() == 0 {
        (Seq::empty(), sw)
    } else {
        let name = rules.first().0;
        let value = rules.first().1;
        if name == "stroke-width"@ {
            bolden_rules(rules.drop_first(), dec_parse(value))
        } else {
            let sw1 = if name == "fill"@ && sw is None {
                Some((0nat, 0nat))
            } else {
                sw
            };
            let rest = bolden_rules(rules.drop_first(), sw1);
            (name + seq![':'] + value + seq![';'] + rest.0, rest.1)
        }
    }
}

/// A style string after widening: rules kept in order, the stroke width
/// (explicit, or zero where only a fill was present) increased by `amount`
/// and appended.
pub open spec fn spec_style_bolden(style: Seq<char>, amount: (nat, nat)) -> Seq<char> {
    let r = bolden_rules(css_rules(style), None);
    r.0 + match r.1 {
        Some(w) => "stroke-width: "@ + dec_print(dec_add_v(w, amount)) + seq![';'],
        None => Seq::<char>::empty(),
    }
}

/// A `stroke-width` attribute value after widening; a value that is no
/// plain decimal is left as it stands.
pub open spec fn bolden_sw_value(v: Seq<char>, amount: (nat, nat)) -> Seq<char> {
    match dec_parse(v) {
        Some(w) => dec_print(dec_add_v(w, amount)),
        None => v,
    }
}

/// An element's attributes after widening: an existing `stroke-width` is
/// increased; an element with `fill` but no `stroke-width` gains one equal
/// to exactly the amount; `style` strings are rewritten rule-wise.
pub open spec fn spec_bolden_attrs(
    attrs: Seq<(Seq<char>, Seq<char>)>,
    amount: (nat, nat),
) -> Seq<(Seq<char>, Seq<char>)> {
    let a1 = if attrs_has(attrs, "stroke-width"@) {
        attrs.map_values(
            |p: (Seq<char>, Seq<char>)|
                if p.0 == "stroke-width"@ {
                    (p.0, bolden_sw_value(p.1, amount))
                } else {
                    p
                },
        )
    } else if attrs_has(attrs, "fill"@) {
        attrs.push(("stroke-width"@, dec_print(amount)))
    } else {
        attrs
    };
    a1.map_values(
        |p: (Seq<char>, Seq<char>)|
            if p.0 == "style"@ {
                (p.0, spec_style_bolden(p.1, amount))
            } else {
                p
            },
    )
}

pub open spec fn spec_bolden(e: ElemV, amount: (nat, nat)) -> ElemV
    decreases e,
{
    ElemV {
        name: e.name,
        attrs: spec_bolden_attrs(e.attrs, amount),
        children: bolden_children(e.children, amount),
    }
}

pub open spec fn bolden_children(ns: Seq<NodeV>, amount: (nat, nat)) -> Seq<NodeV>
    decreases ns,
{
    if ns.len() == 0 {
        Seq::empty()
    } else {
        bolden_children(ns.drop_last(), amount).push(bolden_node(ns.last(), amount))
    }
}

pub open spec fn bolden_node(n: NodeV, amount: (nat, nat)) -> NodeV
    decreases n,
{
    match n {
        NodeV::Element(e) => NodeV::Element(spec_bolden(e, amount)),
        other => other,
    }
}

fn style_bolden_exec(style: &str, amount: Dec) -> (r: String)
    requires
        amount.wf(),
    ensures
        r@ == spec_style_bolden(style@, amount.view_v()),
{
    proof {
        reveal_strlit(":");
        reveal_strlit(";");
        reveal_strlit("stroke-width: ");
        assert(":"@ =~= seq![':']);
        assert(";"@ =~= seq![';']);
    }
    let rules = parse_css(style);
    let ghost rv = rules.deep_view();
    let mut out = String::new();
    let mut sw: Option<Dec> = None;
    let n = rules.len();
    let mut i: usize = 0;
    proof {
        assert(rv.skip(0) =~= rv);
    }
    while i < n
        invariant
            0 <= i <= n,
            n == rules@.len(),
            ":"@ =~= seq![':'],
            ";"@ =~= seq![';'],
            rv == rules.deep_view(),
            rv == css_rules(style@),
            (match sw {
                Some(d) => d.wf() && bolden_rules(rv, None).1 == bolden_rules(
                    rv.skip(i as int),
                    Some(d.view_v()),
                ).1,
                None => bolden_rules(rv, None).1 == bolden_rules(
                    rv.skip(i as int),
                    None::<(nat, nat)>,
                ).1,
            }),
            (match sw {
                Some(d) => bolden_rules(rv, None).0 == out@ + bolden_rules(
                    rv.skip(i as int),
                    Some(d.view_v()),
                ).0,
                None => bolden_rules(rv, None).0 == out@ + bolden_rules(
                    rv.skip(i as int),
                    None::<(nat, nat)>,
                ).0,
            }),
        decreases n - i,
    {
        let ghost swv: Option<(nat, nat)> = match sw {
            Some(d) => Some(d.view_v()),
            None => None,
        };
        proof {
            assert(rv[i as int] == (rules@[i as int].0@, rules@[i as int].1@));
            assert(rv.skip(i as int).first() == rv[i as int]);
            assert(rv.skip(i as int).drop_first() =~= rv.skip(i as int + 1));
        }
        if crate::text::str_eq(rules[i].0.as_str(), "stroke-width") {
            sw = Dec::parse(rules[i].1.as_str());
        } else {
            if crate::text::str_eq(rules[i].0.as_str(), "fill") && sw.is_none() {
                sw = Some(Dec { mant: 0, exp: 0 });
            }
            out.append(rules[i].0.as_str());
            out.append(":");
            out.append(rules[i].1.as_str());
            out.append(";");
        }
        i += 1;
    }
    proof {
        assert(rv.skip(n as int) =~= Seq::<(Seq<char>, Seq<char>)>::empty());
    }
    match sw {
        Some(w) => {
            out.append("stroke-width: ");
            let total = dec_add(w, amount);
            let txt = dec_format(total);
            out.append(txt.as_str());
            out.append(";");
            proof {
                assert("stroke-width: "@ + dec_print(dec_add_v(w.view_v(), amount.view_v()))
                    + seq![';'] =~= "stroke-width: "@ + txt@ + ";"@);
                assert(out@ =~= spec_style_bolden(style@, amount.view_v()));
            }
        }
        None => {
            proof {
                assert(out@ =~= spec_style_bolden(style@, amount.view_v()));
            }
        }
    }
    out
}

fn bolden_elem_exec(e: &Elem, amount: Dec) -> (r: Elem)
    requires
        amount.wf(),
    ensures
        r.deep_view() == spec_bolden(e.deep_view(), amount.view_v()),
    decreases *e,
{
    let ghost av = e.attributes.deep_view();
    let has_sw = match e.get_attr("stroke-width") {
        Some(_) => true,
        None => false,
    };
    let has_fill = match e.get_attr("fill") {
        Some(_) => true,
        None => false,
    };
    let mut attributes: Vec<(String, String)> = Vec::new();
    let an = e.attributes.len();
    let mut i: usize = 0;
    while i < an
        invariant
            0 <= i <= an,
            an == e.attributes@.len(),
            av == e.attributes.deep_view(),
            amount.wf(),
            has_sw == attrs_has(av, "stroke-width"@),
            attributes@.len() == i,
            forall|t: int|
                0 <= t < i ==> (attributes@[t].0@, attributes@[t].1@) == (if has_sw && av[t].0
                    == "stroke-width"@ {
                    (av[t].0, bolden_sw_value(av[t].1, amount.view_v()))
                } else {
                    av[t]
                }),
        decreases an - i,
    {
        proof {
            assert(av[i as int] == (e.attributes@[i as int].0@, e.attributes@[i as int].1@));
        }
        let k = &e.attributes[i].0;
        let v = &e.attributes[i].1;
        if has_sw && crate::text::str_eq(k.as_str(), "stroke-width") {
            let nv = match Dec::parse(v.as_str()) {
                Some(w) => dec_format(dec_add(w, amount)),
                None => v.clone(),
            };
            attributes.push((k.clone(), nv));
        } else {
            attributes.push((k.clone(), v.clone()));
        }
        i += 1;
    }
    proof {
        let target = if has_sw {
            av.map_values(
                |p: (Seq<char>, Seq<char>)|
                    if p.0 == "stroke-width"@ {
                        (p.0, bolden_sw_value(p.1, amount.view_v()))
                    } else {
                        p
                    },
            )
        } else {
            av
        };
        assert forall|t: int| 0 <= t < an implies attributes.deep_view()[t] == target[t] by {
            assert(attributes.deep_view()[t] == (attributes@[t].0@, attributes@[t].1@));
        }
        assert(attributes.deep_view() =~= target);
    }
    if !has_sw && has_fill {
        let ghost pre = attributes.deep_view();
        attributes.push(("stroke-width".to_owned(), dec_format(amount)));
        proof {
            assert(attributes.deep_view() =~= pre.push(
                ("stroke-width"@, dec_print(amount.view_v())),
            ));
        }
    }
    // style pass
    let ghost a1 = attributes.deep_view();
    let mut styled: Vec<(String, String)> = Vec::new();
    let an2 = attributes.len();
    let mut j: usize = 0;
    while j < an2
        invariant
            0 <= j <= an2,
            an2 == attributes@.len(),
            a1 == attributes.deep_view(),
            amount.wf(),
            styled@.len() == j,
            forall|t: int|
                0 <= t < j ==> (styled@[t].0@, styled@[t].1@) == (if a1[t].0 == "style"@ {
                    (a1[t].0, spec_style_bolden(a1[t].1, amount.view_v()))
                } else {
                    a1[t]
                }),
        decreases an2 - j,
    {
        proof {
            assert(a1[j as int] == (attributes@[j as int].0@, attributes@[j as int].1@));
        }
        let k = &attributes[j].0;
        let v = &attributes[j].1;
        if crate::text::str_eq(k.as_str(), "style") {
            let nv = style_bolden_exec(v.as_str(), amount);
            styled.push((k.clone(), nv));
        } else {
            styled.push((k.clone(), v.clone()));
        }
        j += 1;
    }
    proof {
        let target = a1.map_values(
            |p: (Seq<char>, Seq<char>)|
                if p.0 == "style"@ {
                    (p.0, spec_style_bolden(p.1, amount.view_v()))
                } else {
                    p
                },
        );
        assert forall|t: int| 0 <= t < an2 implies styled.deep_view()[t] == target[t] by {
            assert(styled.deep_view()[t] == (styled@[t].0@, styled@[t].1@));
        }
        assert(styled.deep_view() =~= target);
        assert(styled.deep_view() =~= spec_bolden_attrs(av, amount.view_v()));
    }
    let mut children: Vec<Node> = Vec::new();
    let cn = e.children.len();
    let mut m: usize = 0;
    while m < cn
        invariant
            0 <= m <= cn,
            cn == e.children@.len(),
            amount.wf(),
            children.deep_view() =~= bolden_children(
                nodes_view(e.children@).take(m as int),
                amount.view_v(),
            ),
        decreases cn - m,
    {
        let ghost pre = children.deep_view();
        let ghost cv = nodes_view(e.children@);
        match &e.children[m] {
            Node::Element(c) => {
                let bc = bolden_elem_exec(c, amount);
                children.push(Node::Element(bc));
                proof {
                    assert(cv[m as int] == NodeV::Element(c.deep_view()));
                    assert(children.deep_view() =~= pre.push(
                        NodeV::Element(spec_bolden(c.deep_view(), amount.view_v())),
                    ));
                }
            }
            Node::Text(t) => {
                children.push(Node::Text(t.clone()));
            }
            Node::Comment(c) => {
                children.push(Node::Comment(c.clone()));
            }
            Node::CData(c) => {
                children.push(Node::CData(c.clone()));
            }
            Node::Instruction(nm, data) => {
                let d = match data {
                    Some(d) => Some(d.clone()),
                    None => None,
                };
                proof {
                    assert(d.deep_view() == data.deep_view());
                }
                children.push(Node::Instruction(nm.clone(), d));
            }
        }
        proof {
            assert(cv.take(m as int + 1).drop_last() =~= cv.take(m as int));
            assert(cv.take(m as int + 1).last() == cv[m as int]);
            assert(bolden_children(cv.take(m as int + 1), amount.view_v())
                == bolden_children(cv.take(m as int), amount.view_v()).push(
                bolden_node(cv[m as int], amount.view_v()),
            ));
            assert(children.deep_view() =~= pre.push(bolden_node(cv[m as int], amount.view_v())));
            assert(children.deep_view() =~= bolden_children(
                cv.take(m as int + 1),
                amount.view_v(),
            ));
        }
        m += 1;
    }
    proof {
        let cv = nodes_view(e.children@);
        assert(cv.take(cn as int) =~= cv);
    }
    let r = Elem { name: e.name.clone(), attributes: styled, children };
    proof {
        assert(r.deep_view() =~~= spec_bolden(e.deep_view(), amount.view_v()));
    }
    r
}

/// Increases the `stroke-width` of any drawn element by `amount`; an
/// element with a fill but no stroke is treated as having a zero-width
/// stroke first.
pub fn bolden(amount: Dec, xml: &mut Elem)
    requires
        amount.wf(),
    ensures
        final(xml).deep_view() == spec_bolden(old(xml).deep_view(), amount.view_v()),
{
    let r = bolden_elem_exec(xml, amount);
    *xml = r;
}

// ---------------------------------------------------------------------------
// Assembling the snuggle drawing
// ---------------------------------------------------------------------------

/// The combined drawing: a mask holding a white rectangle (the visible
/// span of the left emote) minus the widened, blackened right emote; the
/// right emote's own children; and the left emote shifted and masked.
pub open spec fn spec_generate_snuggle(
    left: ElemV,
    right: ElemV,
    x: Seq<char>,
    y: Seq<char>,
    w: Seq<char>,
    h: Seq<char>,
    mask_transform: Seq<char>,
    left_translate: Seq<char>,
    bold: (nat, nat),
) -> ElemV {
    let rect = ElemV {
        name: "rect"@,
        attrs: seq![("fill"@, "white"@), ("x"@, x), ("y"@, y), ("width"@, w), ("height"@, h)],
        children: Seq::empty(),
    };
    let cut = spec_set_stroke("#000000"@, spec_set_fill("#000000"@, spec_bolden(right, bold)));
    let right_mask = ElemV {
        name: "g"@,
        attrs: seq![("transform"@, mask_transform)],
        children: elements_only(cut.children),
    };
    let mask = ElemV {
        name: "mask"@,
        attrs: seq![("id"@, "snuggle-mask"@)],
        children: seq![NodeV::Element(rect), NodeV::Element(right_mask)],
    };
    let left_group = ElemV {
        name: "g"@,
        attrs: seq![("transform"@, left_translate)],
        children: left.children,
    };
    let left_group2 = ElemV {
        name: "g"@,
        attrs: seq![("mask"@, "url(#snuggle-mask)"@)],
        children: seq![NodeV::Element(left_group)],
    };
    ElemV {
        name: "svg"@,
        attrs: seq![
            ("xmlns"@, "http://www.w3.org/2000/svg"@),
            ("version"@, "1.1"@),
            ("width"@, "128"@),
            ("height"@, "128"@),
        ],
        children: seq![NodeV::Element(mask)] + right.children + seq![NodeV::Element(left_group2)],
    }
}

proof fn proof_nodes_index(ns: Seq<Node>, i: int)
    requires
        0 <= i < ns.len(),
    ensures
        nodes_view(ns).len() == ns.len(),
        nodes_view(ns)[i] == node_view(ns[i]),
{
    lemma_nodes_view_index(ns, i);
}

/// Keeps only the element children, copied.
fn elements_only_exec(ns: &Vec<Node>) -> (r: Vec<Node>)
    ensures
        r.deep_view() == elements_only(nodes_view(ns@)),
{
    let mut out: Vec<Node> = Vec::new();
    let n = ns.len();
    let mut i: usize = 0;
    while i < n
        invariant
            0 <= i <= n,
            n == ns@.len(),
            out.deep_view() =~= elements_only(nodes_view(ns@).take(i as int)),
        decreases n - i,
    {
        let ghost pre = out.deep_view();
        let ghost cv = nodes_view(ns@);
        match &ns[i] {
            Node::Element(c) => {
                out.push(Node::Element(c.duplicate()));
                proof {
                    assert(cv[i as int] == NodeV::Element(c.deep_view()));
                    assert(out.deep_view() =~= pre.push(NodeV::Element(c.deep_view())));
                }
            }
            _ => {
                proof {
                    assert(!(cv[i as int] is Element));
                }
            }
        }
        proof {
            assert(cv.take(i as int + 1).drop_last() =~= cv.take(i as int));
            assert(cv.take(i as int + 1).last() == cv[i as int]);
            assert(out.deep_view() =~= elements_only(cv.take(i as int + 1)));
        }
        i += 1;
    }
    proof {
        let cv = nodes_view(ns@);
        assert(cv.take(n as int) =~= cv);
    }
    out
}

/// Builds the snuggle drawing from two rendered emotes.  The mask
/// rectangle's geometry and both transforms arrive as already-formatted
/// text; `bold` is the cutout margin.
pub fn generate_snuggle(
    left: &Elem,
    right: &Elem,
    rect_x: &str,
    rect_y: &str,
    rect_w: &str,
    rect_h: &str,
    mask_transform: &str,
    left_translate: &str,
    bold: Dec,
) -> (r: Elem)
    requires
        bold.wf(),
    ensures
        r.deep_view() == spec_generate_snuggle(
            left.deep_view(),
            right.deep_view(),
            rect_x@,
            rect_y@,
            rect_w@,
            rect_h@,
            mask_transform@,
            left_translate@,
            bold.view_v(),
        ),
{
    let mut rect_attrs: Vec<(String, String)> = Vec::new();
    rect_attrs.push(("fill".to_owned(), "white".to_owned()));
    rect_attrs.push(("x".to_owned(), rect_x.to_owned()));
    rect_attrs.push(("y".to_owned(), rect_y.to_owned()));
    rect_attrs.push(("width".to_owned(), rect_w.to_owned()));
    rect_attrs.push(("height".to_owned(), rect_h.to_owned()));
    let rect = Elem { name: "rect".to_owned(), attributes: rect_attrs, children: Vec::new() };
    proof {
        assert(rect.deep_view().attrs =~= seq![
            ("fill"@, "white"@),
            ("x"@, rect_x@),
            ("y"@, rect_y@),
            ("width"@, rect_w@),
            ("height"@, rect_h@),
        ]);
        assert(rect.deep_view().children =~= Seq::<NodeV>::empty());
    }
    let mut cut = right.duplicate();
    bolden(bold, &mut cut);
    set_fill("#000000", &mut cut);
    set_stroke("#000000", &mut cut);
    let mut rm_attrs: Vec<(String, String)> = Vec::new();
    rm_attrs.push(("transform".to_owned(), mask_transform.to_owned()));
    let right_mask = Elem {
        name: "g".to_owned(),
        attributes: rm_attrs,
        children: elements_only_exec(&cut.children),
    };
    proof {
        assert(right_mask.deep_view().attrs =~= seq![("transform"@, mask_transform@)]);
    }
    let mut mask_attrs: Vec<(String, String)> = Vec::new();
    mask_attrs.push(("id".to_owned(), "snuggle-mask".to_owned()));
    let mut mask_children: Vec<Node> = Vec::new();
    mask_children.push(Node::Element(rect));
    mask_children.push(Node::Element(right_mask));
    let mask = Elem { name: "mask".to_owned(), attributes: mask_attrs, children: mask_children };
    proof {
        assert(mask.deep_view().attrs =~= seq![("id"@, "snuggle-mask"@)]);
    }
    let mut lg_attrs: Vec<(String, String)> = Vec::new();
    lg_attrs.push(("transform".to_owned(), left_translate.to_owned()));
    let left_dup = left.duplicate();
    let left_group = Elem {
        name: "g".to_owned(),
        attributes: lg_attrs,
        children: left_dup.children,
    };
    proof {
        assert(left_group.deep_view().attrs =~= seq![("transform"@, left_translate@)]);
    }
    let mut lg2_attrs: Vec<(String, String)> = Vec::new();
    lg2_attrs.push(("mask".to_owned(), "url(#snuggle-mask)".to_owned()));
    let mut lg2_children: Vec<Node> = Vec::new();
    lg2_children.push(Node::Element(left_group));
    let left_group2 = Elem {
        name: "g".to_owned(),
        attributes: lg2_attrs,
        children: lg2_children,
    };
    proof {
        assert(left_group2.deep_view().attrs =~= seq![("mask"@, "url(#snuggle-mask)"@)]);
    }
    let mut res_attrs: Vec<(String, String)> = Vec::new();
    res_attrs.push(("xmlns".to_owned(), "http://www.w3.org/2000/svg".to_owned()));
    res_attrs.push(("version".to_owned(), "1.1".to_owned()));
    res_attrs.push(("width".to_owned(), "128".to_owned()));
    res_attrs.push(("height".to_owned(), "128".to_owned()));
    let mut res = Elem { name: "svg".to_owned(), attributes: res_attrs, children: Vec::new() };
    proof {
        assert(res.deep_view().attrs =~= seq![
            ("xmlns"@, "http://www.w3.org/2000/svg"@),
            ("version"@, "1.1"@),
            ("width"@, "128"@),
            ("height"@, "128"@),
        ]);
    }
    let mut res_children: Vec<Node> = Vec::new();
    res_children.push(Node::Element(mask));
    let ghost oc0 = res_children@;
    let mut right_dup = right.duplicate();
    let mut right_children = crate::export::std_take_children_pub(&mut right_dup);
    let ghost rq = right_children@;
    res_children.append(&mut right_children);
    proof {
        crate::xml::lemma_nodes_view_concat(oc0, rq);
    }
    let ghost before_lg2 = nodes_view(res_children@);
    res_children.push(Node::Element(left_group2));
    res.children = res_children;
    proof {
        let lv = left.deep_view();
        let rv = right.deep_view();
        let spec_rect = ElemV {
            name: "rect"@,
            attrs: seq![
                ("fill"@, "white"@),
                ("x"@, rect_x@),
                ("y"@, rect_y@),
                ("width"@, rect_w@),
                ("height"@, rect_h@),
            ],
            children: Seq::empty(),
        };
        assert(rect.deep_view() =~~= spec_rect);
        let cut_v = spec_set_stroke("#000000"@, spec_set_fill("#000000"@, spec_bolden(
            rv,
            bold.view_v(),
        )));
        let spec_right_mask = ElemV {
            name: "g"@,
            attrs: seq![("transform"@, mask_transform@)],
            children: elements_only(cut_v.children),
        };
        assert(right_mask.deep_view() =~~= spec_right_mask);
        let spec_mask = ElemV {
            name: "mask"@,
            attrs: seq![("id"@, "snuggle-mask"@)],
            children: seq![NodeV::Element(spec_rect), NodeV::Element(spec_right_mask)],
        };
        let mc = mask.deep_view().children;
        assert(mask.children@.len() == 2);
        assert(mask.children@[0] == Node::Element(rect));
        assert(mask.children@[1] == Node::Element(right_mask));
        proof_nodes_index(mask.children@, 0);
        proof_nodes_index(mask.children@, 1);
        assert(mc[0] == node_view(mask.children@[0]));
        assert(mc[1] == node_view(mask.children@[1]));
        assert(mc[0] == NodeV::Element(rect.deep_view()));
        assert(mc[1] == NodeV::Element(right_mask.deep_view()));
        assert(mc =~= spec_mask.children);
        assert(mask.deep_view() =~~= spec_mask);
        let spec_lg = ElemV {
            name: "g"@,
            attrs: seq![("transform"@, left_translate@)],
            children: lv.children,
        };
        assert(left_group.deep_view() =~~= spec_lg);
        let spec_lg2 = ElemV {
            name: "g"@,
            attrs: seq![("mask"@, "url(#snuggle-mask)"@)],
            children: seq![NodeV::Element(spec_lg)],
        };
        let lc = left_group2.deep_view().children;
        assert(left_group2.children@.len() == 1);
        assert(left_group2.children@[0] == Node::Element(left_group));
        proof_nodes_index(left_group2.children@, 0);
        assert(lc[0] == node_view(left_group2.children@[0]));
        assert(lc[0] == NodeV::Element(left_group.deep_view()));
        assert(lc =~= spec_lg2.children);
        assert(left_group2.deep_view() =~~= spec_lg2);
        assert(nodes_view(rq) == rv.children);
        assert(nodes_view(oc0) =~= seq![NodeV::Element(spec_mask)]);
        assert(before_lg2 =~= seq![NodeV::Element(spec_mask)] + rv.children);
        assert(nodes_view(res.children@) =~= before_lg2.push(
            node_view(Node::Element(left_group2)),
        ));
        assert(nodes_view(res.children@) =~= seq![NodeV::Element(spec_mask)] + rv.children + seq![
            NodeV::Element(spec_lg2),
        ]);
        assert(res.deep_view() =~~= spec_generate_snuggle(
            lv,
            rv,
            rect_x@,
            rect_y@,
            rect_w@,
            rect_h@,
            mask_transform@,
            left_translate@,
            bold.view_v(),
        ));
    }
    res
}

} // verus!
