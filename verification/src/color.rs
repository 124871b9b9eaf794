//! Colour overriding: rewrite `fill`/`stroke` (and their opacities) on every
//! descendant element that already declares them, as attributes or inside an
//! inline `style` string.
//!
//! Colour tokens are normalized through the `css-color-parser` crate behind
//! one trusted wrapper; everything after that call is verified.

use vstd::prelude::*;
use vstd::string::*;
use crate::parse::{css_rules, parse_css};
use crate::xml::{
    Elem, ElemV, Node, NodeV, lemma_nodes_deep_view, lemma_nodes_view_index, lemma_nodes_view_len,
    node_view, nodes_view,
};

verus! {

broadcast use {
    vstd::std_specs::vec::group_vec_axioms,
    lemma_nodes_view_len,
    lemma_nodes_view_index,
    lemma_nodes_deep_view,
};

/// What the CSS colour parser makes of a token: red, green, blue and the
/// opacity's decimal rendering; `None` where the token is no CSS colour.
/// A function of the token alone.
pub uninterp spec fn css_color_of(s: Seq<char>) -> Option<(u8, u8, u8, Seq<char>)>;

/// Relies on `str::parse::<css_color_parser::Color>`: named colours, hex
/// triplets and functional notation give the channel values; the alpha
/// channel is rendered through its standard decimal formatting.
#[verifier::external_body]
fn parse_css_color(s: &str) -> (r: Option<(u8, u8, u8, String)>)
    ensures
        match r {
            Some(c) => css_color_of(s@) == Some((c.0, c.1, c.2, c.3@)),
            None => css_color_of(s@) is None,
        },
{
    match s.parse::<css_color_parser::Color>() {
        Ok(c) => Some((c.r, c.g, c.b, format!("{}", c.a))),
        Err(_) => None,
    }
}

pub open spec fn hex_digit(d: int) -> char {
    if d < 10 {
        crate::text::digit_char(d)
    } else if d == 10 {
        'a'
    } else if d == 11 {
        'b'
    } else if d == 12 {
        'c'
    } else if d == 13 {
        'd'
    } else if d == 14 {
        'e'
    } else {
        'f'
    }
}

/// Two lowercase hex digits of a byte.
pub open spec fn hex2(n: u8) -> Seq<char> {
    seq![hex_digit(n as int / 16), hex_digit(n as int % 16)]
}

fn hex_digit_str(d: u8) -> (r: &'static str)
    requires
        d < 16,
    ensures
        r@ =~= seq![hex_digit(d as int)],
{
    proof {
        reveal_strlit("a");
        reveal_strlit("b");
        reveal_strlit("c");
        reveal_strlit("d");
        reveal_strlit("e");
        reveal_strlit("f");
    }
    if d < 10 {
        crate::text::digit_str(d as u64)
    } else if d == 10 {
        "a"
    } else if d == 11 {
        "b"
    } else if d == 12 {
        "c"
    } else if d == 13 {
        "d"
    } else if d == 14 {
        "e"
    } else {
        "f"
    }
}

fn push_hex2(out: &mut String, n: u8)
    ensures
        final(out)@ == old(out)@ + hex2(n),
{
    out.append(hex_digit_str(n / 16));
    out.append(hex_digit_str(n % 16));
    proof {
        assert(out@ =~= old(out)@ + hex2(n));
    }
}

/// The colour token normalized to `(#rrggbb, opacity)`; a token the CSS
/// parser refuses is kept as written, with opacity `1`.
pub open spec fn color_norm(c: Seq<char>) -> (Seq<char>, Seq<char>) {
    match css_color_of(c) {
        Some(p) => (seq!['#'] + hex2(p.0) + hex2(p.1) + hex2(p.2), p.3),
        None => (c, seq!['1']),
    }
}

// ---------------------------------------------------------------------------
// Inline style rewriting
// ---------------------------------------------------------------------------

/// The `name:value` renderings of all rules that are neither `prop` nor
/// `oprop`, in order.
pub open spec fn kept_rules(
    rules: Seq<(Seq<char>, Seq<char>)>,
    prop: Seq<char>,
    oprop: Seq<char>,
) -> Seq<Seq<char>>
    decreases rules.len(),
{
    if rules.len() == 0 {
        Seq::empty()
    } else {
        kept_rules(rules.drop_last(), prop, oprop) + (if rules.last().0 == prop || rules.last().0
            == oprop {
            Seq::empty()
        } else {
            seq![rules.last().0 + seq![':'] + rules.last().1]
        })
    }
}

pub open spec fn join_semi(parts: Seq<Seq<char>>) -> Seq<char>
    decreases parts.len(),
{
    if parts.len() == 0 {
        Seq::empty()
    } else if parts.len() == 1 {
        parts[0]
    } else {
        join_semi(parts.drop_last()) + seq![';'] + parts.last()
    }
}

/// The inline style with every `prop`/`oprop` rule removed and one fresh
/// rule for each appended, all re-joined with `;`.
pub open spec fn style_rewrite(
    style: Seq<char>,
    prop: Seq<char>,
    oprop: Seq<char>,
    color: Seq<char>,
    opacity: Seq<char>,
) -> Seq<char> {
    join_semi(
        kept_rules(css_rules(style), prop, oprop) + seq![
            prop + seq![':', ' '] + color + seq![';'],
            oprop + seq![':', ' '] + opacity + seq![';'],
        ],
    )
}

fn style_rewrite_exec(style: &str, prop: &str, oprop: &str, color: &String, opacity: &String) -> (r:
    String)
    ensures
        r@ == style_rewrite(style@, prop@, oprop@, color@, opacity@),
{
    proof {
        reveal_strlit(":");
        reveal_strlit(": ");
        reveal_strlit(";");
        assert(":"@ =~= seq![':']);
        assert(": "@ =~= seq![':', ' ']);
        assert(";"@ =~= seq![';']);
    }
    let rules = parse_css(style);
    let mut parts: Vec<String> = Vec::new();
    let n = rules.len();
    let mut i: usize = 0;
    while i < n
        invariant
            0 <= i <= n,
            n == rules@.len(),
            ":"@ =~= seq![':'],
            rules.deep_view() == css_rules(style@),
            parts.deep_view() =~= kept_rules(rules.deep_view().take(i as int), prop@, oprop@),
        decreases n - i,
    {
        let ghost pre = parts.deep_view();
        let ghost rv = rules.deep_view();
        proof {
            assert(rv[i as int] == (rules@[i as int].0@, rules@[i as int].1@));
            assert(rv.take(i as int + 1).drop_last() =~= rv.take(i as int));
            assert(rv.take(i as int + 1).last() == rv[i as int]);
        }
        if !crate::text::str_eq(rules[i].0.as_str(), prop) && !crate::text::str_eq(
            rules[i].0.as_str(),
            oprop,
        ) {
            let mut piece = rules[i].0.clone();
            piece.append(":");
            piece.append(rules[i].1.as_str());
            parts.push(piece);
            proof {
                assert(parts.deep_view() =~= pre.push(rv[i as int].0 + seq![':'] + rv[
                    i as int].1));
                assert(parts.deep_view() =~= kept_rules(rv.take(i as int + 1), prop@, oprop@));
            }
        } else {
            proof {
                assert(parts.deep_view() =~= kept_rules(rv.take(i as int + 1), prop@, oprop@));
            }
        }
        i += 1;
    }
    proof {
        assert(rules.deep_view().take(n as int) =~= rules.deep_view());
    }
    let mut fresh = prop.to_owned();
    fresh.append(": ");
    fresh.append(color.as_str());
    fresh.append(";");
    parts.push(fresh);
    let mut fresh2 = oprop.to_owned();
    fresh2.append(": ");
    fresh2.append(opacity.as_str());
    fresh2.append(";");
    parts.push(fresh2);
    proof {
        assert(parts.deep_view() =~= kept_rules(css_rules(style@), prop@, oprop@) + seq![
            prop@ + seq![':', ' '] + color@ + seq![';'],
            oprop@ + seq![':', ' '] + opacity@ + seq![';'],
        ]);
    }
    let m = parts.len();
    let mut out = String::new();
    let mut k: usize = 0;
    while k < m
        invariant
            0 <= k <= m,
            m == parts@.len(),
            ";"@ =~= seq![';'],
            parts.deep_view() == kept_rules(css_rules(style@), prop@, oprop@) + seq![
                prop@ + seq![':', ' '] + color@ + seq![';'],
                oprop@ + seq![':', ' '] + opacity@ + seq![';'],
            ],
            out@ == join_semi(parts.deep_view().take(k as int)),
        decreases m - k,
    {
        let ghost pv = parts.deep_view();
        if k > 0 {
            out.append(";");
        }
        out.append(parts[k].as_str());
        proof {
            assert(pv.take(k as int + 1).drop_last() =~= pv.take(k as int));
            assert(pv.take(k as int + 1).last() == pv[k as int]);
            if k == 0 {
                assert(out@ =~= join_semi(pv.take(1)));
            } else {
                assert(out@ =~= join_semi(pv.take(k as int + 1)));
            }
        }
        k += 1;
    }
    proof {
        assert(parts.deep_view().take(m as int) =~= parts.deep_view());
    }
    out
}

// ---------------------------------------------------------------------------
// Recursive recolouring
// ---------------------------------------------------------------------------

/// One attribute after recolouring: `style` values are rewritten rule-wise,
/// existing `prop`/`oprop` attributes are overwritten, all else is kept.
pub open spec fn recolor_attr(
    p: (Seq<char>, Seq<char>),
    prop: Seq<char>,
    oprop: Seq<char>,
    color: Seq<char>,
    opacity: Seq<char>,
) -> (Seq<char>, Seq<char>) {
    if p.0 == "style"@ {
        (p.0, style_rewrite(p.1, prop, oprop, color, opacity))
    } else if p.0 == prop {
        (p.0, color)
    } else if p.0 == oprop {
        (p.0, opacity)
    } else {
        p
    }
}

pub open spec fn recolor_elem(
    e: ElemV,
    prop: Seq<char>,
    oprop: Seq<char>,
    color: Seq<char>,
    opacity: Seq<char>,
) -> ElemV
    decreases e,
{
    ElemV {
        name: e.name,
        attrs: e.attrs.map_values(
            |p: (Seq<char>, Seq<char>)| recolor_attr(p, prop, oprop, color, opacity),
        ),
        children: recolor_children(e.children, prop, oprop, color, opacity),
    }
}

pub open spec fn recolor_children(
    ns: Seq<NodeV>,
    prop: Seq<char>,
    oprop: Seq<char>,
    color: Seq<char>,
    opacity: Seq<char>,
) -> Seq<NodeV>
    decreases ns,
{
    if ns.len() == 0 {
        Seq::empty()
    } else {
        recolor_children(ns.drop_last(), prop, oprop, color, opacity).push(
            recolor_node(ns.last(), prop, oprop, color, opacity),
        )
    }
}

pub open spec fn recolor_node(
    n: NodeV,
    prop: Seq<char>,
    oprop: Seq<char>,
    color: Seq<char>,
    opacity: Seq<char>,
) -> NodeV
    decreases n,
{
    match n {
        NodeV::Element(e) => NodeV::Element(recolor_elem(e, prop, oprop, color, opacity)),
        other => other,
    }
}

fn recolor_elem_exec(e: &Elem, prop: &str, oprop: &str, color: &String, opacity: &String) -> (r:
    Elem)
    ensures
        r.deep_view() == recolor_elem(e.deep_view(), prop@, oprop@, color@, opacity@),
    decreases *e,
{
    let mut attributes: Vec<(String, String)> = Vec::new();
    let an = e.attributes.len();
    let mut i: usize = 0;
    while i < an
        invariant
            0 <= i <= an,
            an == e.attributes@.len(),
            attributes.deep_view() =~= e.attributes.deep_view().map_values(
                |p: (Seq<char>, Seq<char>)| recolor_attr(p, prop@, oprop@, color@, opacity@),
            ).take(i as int),
        decreases an - i,
    {
        let ghost pre = attributes.deep_view();
        let k = &e.attributes[i].0;
        let v = &e.attributes[i].1;
        if crate::text::str_eq(k.as_str(), "style") {
            proof {
                reveal_strlit("style");
            }
            let nv = style_rewrite_exec(v.as_str(), prop, oprop, color, opacity);
            attributes.push((k.clone(), nv));
        } else if crate::text::str_eq(k.as_str(), prop) {
            attributes.push((k.clone(), color.clone()));
        } else if crate::text::str_eq(k.as_str(), oprop) {
            attributes.push((k.clone(), opacity.clone()));
        } else {
            attributes.push((k.clone(), v.clone()));
        }
        proof {
            let f = |p: (Seq<char>, Seq<char>)| recolor_attr(p, prop@, oprop@, color@, opacity@);
            let src = e.attributes.deep_view();
            assert(src[i as int] == (e.attributes@[i as int].0@, e.attributes@[i as int].1@));
            assert(attributes.deep_view() =~= pre.push(f(src[i as int])));
            assert(src.map_values(f).take(i as int + 1) =~= src.map_values(f).take(
                i as int).push(f(src[i as int])));
            assert(attributes.deep_view() =~= src.map_values(f).take(i as int + 1));
        }
        i += 1;
    }
    proof {
        let f = |p: (Seq<char>, Seq<char>)| recolor_attr(p, prop@, oprop@, color@, opacity@);
        let src = e.attributes.deep_view();
        assert(src.map_values(f).take(an as int) =~= src.map_values(f));
    }
    let mut children: Vec<Node> = Vec::new();
    let cn = e.children.len();
    let mut j: usize = 0;
    while j < cn
        invariant
            0 <= j <= cn,
            cn == e.children@.len(),
            children.deep_view() =~= recolor_children(
                nodes_view(e.children@).take(j as int),
                prop@,
                oprop@,
                color@,
                opacity@,
            ),
        decreases cn - j,
    {
        let ghost pre = children.deep_view();
        let ghost cv = nodes_view(e.children@);
        match &e.children[j] {
            Node::Element(c) => {
                let rc = recolor_elem_exec(c, prop, oprop, color, opacity);
                children.push(Node::Element(rc));
            }
            Node::Text(t) => {
                children.push(Node::Text(t.clone()));
            }
            Node::Comment(c) => {
                children.push(Node::Comment(c.clone()));
            }
            Node::CData(c) => {
                children.push(Node::CData(c.clone()));
            }
            Node::Instruction(nm, data) => {
                let d = match data {
                    Some(d) => Some(d.clone()),
                    None => None,
                };
                proof {
                    assert(d.deep_view() == data.deep_view());
                }
                children.push(Node::Instruction(nm.clone(), d));
            }
        }
        proof {
            assert(cv.take(j as int + 1).drop_last() =~= cv.take(j as int));
            assert(cv.take(j as int + 1).last() == cv[j as int]);
            assert(children.deep_view() =~= pre.push(
                recolor_node(cv[j as int], prop@, oprop@, color@, opacity@),
            ));
            assert(children.deep_view() =~= recolor_children(
                cv.take(j as int + 1),
                prop@,
                oprop@,
                color@,
                opacity@,
            ));
        }
        j += 1;
    }
    proof {
        let cv = nodes_view(e.children@);
        assert(cv.take(cn as int) =~= cv);
    }
    let r = Elem { name: e.name.clone(), attributes, children };
    proof {
        assert(r.deep_view() =~~= recolor_elem(e.deep_view(), prop@, oprop@, color@, opacity@));
    }
    r
}

/// A document after `set-fill` with the given colour token.
pub open spec fn spec_set_fill(color: Seq<char>, e: ElemV) -> ElemV {
    recolor_elem(e, "fill"@, "fill-opacity"@, color_norm(color).0, color_norm(color).1)
}

/// A document after `set-stroke` with the given colour token.
pub open spec fn spec_set_stroke(color: Seq<char>, e: ElemV) -> ElemV {
    recolor_elem(e, "stroke"@, "stroke-opacity"@, color_norm(color).0, color_norm(color).1)
}

fn normalize_color(color: &str) -> (r: (String, String))
    ensures
        (r.0@, r.1@) == color_norm(color@),
{
    proof {
        reveal_strlit("#");
        reveal_strlit("1");
        assert("#"@ =~= seq!['#']);
        assert("1"@ =~= seq!['1']);
    }
    match parse_css_color(color) {
        Some(c) => {
            let mut hexed = String::new();
            hexed.append("#");
            push_hex2(&mut hexed, c.0);
            push_hex2(&mut hexed, c.1);
            push_hex2(&mut hexed, c.2);
            proof {
                assert(hexed@ =~= seq!['#'] + hex2(c.0) + hex2(c.1) + hex2(c.2));
            }
            (hexed, c.3)
        }
        None => {
            let mut one = String::new();
            one.append("1");
            proof {
                assert(one@ =~= seq!['1']);
            }
            (color.to_owned(), one)
        }
    }
}

/// Overrides `fill` and `fill-opacity` on every descendant of `xml` that
/// already declares them, as attributes or inside `style`.
pub fn set_fill(color: &str, xml: &mut Elem)
    ensures
        final(xml).deep_view() == spec_set_fill(color@, old(xml).deep_view()),
{
    let (c, o) = normalize_color(color);
    let r = recolor_elem_exec(xml, "fill", "fill-opacity", &c, &o);
    *xml = r;
}

/// Overrides `stroke` and `stroke-opacity` on every descendant of `xml`
/// that already declares them, as attributes or inside `style`.
pub fn set_stroke(color: &str, xml: &mut Elem)
    ensures
        final(xml).deep_view() == spec_set_stroke(color@, old(xml).deep_view()),
{
    let (c, o) = normalize_color(color);
    let r = recolor_elem_exec(xml, "stroke", "stroke-opacity", &c, &o);
    *xml = r;
}

} // verus!
