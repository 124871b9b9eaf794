//! The library's stated laws, proved over the same specification functions
//! its contracts use.  (Render-once memoization is stated directly in the
//! contract of `RenderingContext::get_variant`.)

use vstd::prelude::*;
use crate::color::{join_semi, kept_rules, recolor_elem, style_rewrite};
use crate::parse::css_rules;
use crate::context::{has_ns_strict, seq_has, spec_interp, CtxV};
use crate::dec::dec_print;
use crate::select::{find_by_id, spec_query_selector};
use crate::snuggle::spec_bolden;
use crate::xml::{attrs_has, ElemV};

verus! {

/// Override law: in a merged index a name the child declares resolves to
/// the child's entry, and a name only the parent declares is still
/// reachable with the parent's entry.
pub proof fn lemma_override_law(
    parent: Map<Seq<char>, Seq<char>>,
    child: Map<Seq<char>, Seq<char>>,
    k: Seq<char>,
)
    ensures
        child.contains_key(k) ==> parent.union_prefer_right(child).contains_key(k)
            && parent.union_prefer_right(child)[k] == child[k],
        !child.contains_key(k) && parent.contains_key(k) ==> parent.union_prefer_right(
            child,
        ).contains_key(k) && parent.union_prefer_right(child)[k] == parent[k],
{
}

/// Selector law: the empty pattern yields a generic wrapper holding
/// exactly the document's top-level children, in order, under a fresh
/// `<g>`; `#id` yields the depth-first search among the children, which
/// consults only `id` attributes.
pub proof fn lemma_selector_law(doc: ElemV, id: Seq<char>)
    ensures
        spec_query_selector(doc, Seq::empty()) == Some(
            ElemV { name: "g"@, attrs: Seq::empty(), children: doc.children },
        ),
        spec_query_selector(doc, seq!['#'] + id) == find_by_id(doc.children, id),
{
    let pat = seq!['#'] + id;
    assert(pat[0] == '#');
    assert(pat.drop_first() =~= id);
}

/// Colour law: recolouring changes no attribute name and no attribute
/// other than the property pair and `style`; an existing property
/// attribute takes exactly the new colour.
pub proof fn lemma_color_law(
    e: ElemV,
    prop: Seq<char>,
    oprop: Seq<char>,
    color: Seq<char>,
    opacity: Seq<char>,
    i: int,
)
    requires
        0 <= i < e.attrs.len(),
        prop != "style"@,
        oprop != "style"@,
    ensures
        recolor_elem(e, prop, oprop, color, opacity).attrs.len() == e.attrs.len(),
        recolor_elem(e, prop, oprop, color, opacity).attrs[i].0 == e.attrs[i].0,
        e.attrs[i].0 == prop ==> recolor_elem(e, prop, oprop, color, opacity).attrs[i].1
            == color,
        e.attrs[i].0 != prop && e.attrs[i].0 != oprop && e.attrs[i].0 != "style"@
            ==> recolor_elem(e, prop, oprop, color, opacity).attrs[i] == e.attrs[i],
{
    let f = |p: (Seq<char>, Seq<char>)| crate::color::recolor_attr(p, prop, oprop, color, opacity);
    let out = recolor_elem(e, prop, oprop, color, opacity).attrs;
    assert(out == e.attrs.map_values(f));
    assert(out.len() == e.attrs.len());
    assert(out[i] == f(e.attrs[i]));
}

/// Bolden law: an element with a fill but no stroke width gains a stroke
/// width of exactly the amount; an element with no fill, no stroke width
/// and no style string keeps its attributes unchanged.
pub proof fn lemma_bolden_law(e: ElemV, amount: (nat, nat))
    ensures
        !attrs_has(e.attrs, "stroke-width"@) && attrs_has(e.attrs, "fill"@) ==> spec_bolden(
            e,
            amount,
        ).attrs.len() == e.attrs.len() + 1 && spec_bolden(e, amount).attrs.last() == (
        "stroke-width"@, dec_print(amount)),
        !attrs_has(e.attrs, "stroke-width"@) && !attrs_has(e.attrs, "fill"@) && !attrs_has(
            e.attrs,
            "style"@,
        ) ==> spec_bolden(e, amount).attrs == e.attrs,
{
    reveal_strlit("stroke-width");
    reveal_strlit("style");
    assert("stroke-width"@ != "style"@) by {
        assert("stroke-width"@.len() != "style"@.len());
    }
    let out = crate::snuggle::spec_bolden_attrs(e.attrs, amount);
    let g = |p: (Seq<char>, Seq<char>)|
        if p.0 == "style"@ {
            (p.0, crate::snuggle::spec_style_bolden(p.1, amount))
        } else {
            p
        };
    if !attrs_has(e.attrs, "stroke-width"@) && attrs_has(e.attrs, "fill"@) {
        let a1 = e.attrs.push(("stroke-width"@, dec_print(amount)));
        assert(out == a1.map_values(g));
        assert(out.len() == a1.len());
        assert(a1.last().0 == "stroke-width"@);
        assert(out.last() == g(a1.last()));
        assert(out.last() == a1.last());
    }
    if !attrs_has(e.attrs, "stroke-width"@) && !attrs_has(e.attrs, "fill"@) && !attrs_has(
        e.attrs,
        "style"@,
    ) {
        assert(out == e.attrs.map_values(g));
        assert forall|t: int| 0 <= t < e.attrs.len() implies out[t] == e.attrs[t] by {
            assert(e.attrs[t].0 != "style"@);
            assert(out[t] == g(e.attrs[t]));
        }
        assert(out =~= e.attrs);
    }
}

/// A style rule is kept by the colour rewrite exactly when it names
/// neither the property nor its opacity.
pub open spec fn rule_kept(r: (Seq<char>, Seq<char>), prop: Seq<char>, oprop: Seq<char>) -> bool {
    r.0 != prop && r.0 != oprop
}

/// The `name:value` rendering of one style rule.
pub open spec fn rule_text(r: (Seq<char>, Seq<char>)) -> Seq<char> {
    r.0 + seq![':'] + r.1
}

/// Style preservation law: rewriting a style string keeps exactly the
/// rules that name neither the property nor its opacity, in their original
/// order, and appends the fresh property pair; nothing else appears.
pub proof fn lemma_style_rewrite_law(
    style: Seq<char>,
    prop: Seq<char>,
    oprop: Seq<char>,
    color: Seq<char>,
    opacity: Seq<char>,
)
    ensures
        style_rewrite(style, prop, oprop, color, opacity) == join_semi(
            css_rules(style).filter(|r: (Seq<char>, Seq<char>)| rule_kept(r, prop, oprop))
                .map_values(|r: (Seq<char>, Seq<char>)| rule_text(r)) + seq![
                prop + seq![':', ' '] + color + seq![';'],
                oprop + seq![':', ' '] + opacity + seq![';'],
            ],
        ),
{
    lemma_kept_rules_filter(css_rules(style), prop, oprop);
}

proof fn lemma_kept_rules_filter(
    rules: Seq<(Seq<char>, Seq<char>)>,
    prop: Seq<char>,
    oprop: Seq<char>,
)
    ensures
        kept_rules(rules, prop, oprop) == rules.filter(
            |r: (Seq<char>, Seq<char>)| rule_kept(r, prop, oprop),
        ).map_values(|r: (Seq<char>, Seq<char>)| rule_text(r)),
    decreases rules.len(),
{
    reveal(Seq::filter);
    let pred = |r: (Seq<char>, Seq<char>)| rule_kept(r, prop, oprop);
    let fmt = |r: (Seq<char>, Seq<char>)| rule_text(r);
    if rules.len() == 0 {
        assert(kept_rules(rules, prop, oprop) =~= rules.filter(pred).map_values(fmt));
    } else {
        lemma_kept_rules_filter(rules.drop_last(), prop, oprop);
        if pred(rules.last()) {
            assert(rules.filter(pred) == rules.drop_last().filter(pred).push(rules.last()));
            assert(rules.filter(pred).map_values(fmt) =~= rules.drop_last().filter(
                pred,
            ).map_values(fmt).push(fmt(rules.last())));
            assert(kept_rules(rules, prop, oprop) =~= rules.filter(pred).map_values(fmt));
        } else {
            assert(rules.filter(pred) == rules.drop_last().filter(pred));
            assert(kept_rules(rules, prop, oprop) =~= rules.filter(pred).map_values(fmt));
        }
    }
}

/// Tag exposure: while a variant renders, `tags.<t>` reads `true` exactly
/// for the tags the declaration attaches to that variant, and nothing for
/// any other name.
pub proof fn lemma_tag_exposure(c: CtxV, vname: Seq<char>, tag: Seq<char>)
    requires
        c.species.variants.contains_key(vname),
    ensures
        spec_interp(c, vname, seq!["tags"@, tag]) == (if seq_has(
            c.species.variants[vname],
            tag,
        ) {
            "true"@
        } else {
            Seq::<char>::empty()
        }),
{
    let segs = seq!["tags"@, tag];
    assert(segs[0] == "tags"@);
    assert(segs[1] == tag);
}

/// Variable exposure: while any variant renders, `vars.<k>` reads the
/// declaration's value for `k` — provided no level of the chain shadows
/// the name `vars` and the variant carries no tag table of that name.
pub proof fn lemma_vars_interpolation(c: CtxV, vname: Seq<char>, k: Seq<char>)
    requires
        c.species.vars.contains_key(k),
        !has_ns_strict(c, "vars"@),
        c.species.name != "vars"@,
    ensures
        spec_interp(c, vname, seq!["vars"@, k]) == c.species.vars[k],
{
    reveal_strlit("vars");
    reveal_strlit("tags");
    assert("vars"@ != "tags"@) by {
        assert("vars"@[0] == 'v' && "tags"@[0] == 't');
    }
    let segs = seq!["vars"@, k];
    assert(segs[0] == "vars"@);
    assert(segs[1] == k);
}

} // verus!
