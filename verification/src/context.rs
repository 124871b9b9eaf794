//! The rendering context: the composition engine.
//!
//! A context wraps one declaration level, holds the file store and two
//! append-only caches (rendered variants, loaded assets), and wraps a parent
//! context mirroring the declaration's parent chain.  Its abstract value is
//! `CtxV`.  Template evaluation is written out twice: once as specification
//! functions (`spec_render_str` and the cluster around it) and once as the
//! executable evaluator, which is proved equal to them; `evolves` states
//! the coarser guarantee every step also keeps — caches only grow, the
//! declaration and file store stay.

use vstd::prelude::*;
use vstd::string::*;
use vstd::map_lib::lemma_submap_of_trans;
use crate::dict::Dict;
use crate::parse::{SpeciesDecl, SpeciesV};
use crate::template::{parse_tpl, Template, TemplateError};
use crate::color::{set_fill, set_stroke, spec_set_fill, spec_set_stroke};
use crate::select::{query_selector, spec_query_selector};
use crate::serialize::{write_escaped, xml_to_string};
use crate::template::{compile_str, TplNode};
use crate::text::{contains_str, find_at, lemma_split_nonempty, lemma_split_pieces, spec_split,
    spec_trim, split_all, split_once, str_eq, trim_spaces};
use crate::xml::{elem_text, Elem, ElemV};
use crate::xmlload::{get_xml, parsed_root};

verus! {

broadcast use {vstd::std_specs::vec::group_vec_axioms, lemma_submap_of_trans};

pub struct RenderingContext {
    species: SpeciesDecl,
    files: Dict<String>,
    rendered_variants: Dict<Elem>,
    loaded_assets: Dict<Elem>,
    compilations: u64,
    parent: Option<Box<RenderingContext>>,
}

#[verifier::ext_equal]
pub struct CtxV {
    pub species: SpeciesV,
    pub files: Map<Seq<char>, Seq<char>>,
    pub rendered: Map<Seq<char>, ElemV>,
    pub assets: Map<Seq<char>, ElemV>,
    pub compilations: u64,
    pub parent: Option<Box<CtxV>>,
}

spec fn ctx_view(c: RenderingContext) -> CtxV
    decreases c,
{
    CtxV {
        species: c.species.deep_view(),
        files: c.files@,
        rendered: c.rendered_variants@,
        assets: c.loaded_assets@,
        compilations: c.compilations,
        parent: match c.parent {
            Some(b) => Some(Box::new(ctx_view(*b))),
            None => None,
        },
    }
}

impl DeepView for RenderingContext {
    type V = CtxV;

    closed spec fn deep_view(&self) -> CtxV {
        ctx_view(*self)
    }
}

/// What a rendering step may do to a context: both caches may only grow,
/// the compilation count may only grow, and the declaration, the file store
/// and the chain shape stay what they were — at every level.
pub open spec fn evolves(a: CtxV, b: CtxV) -> bool
    decreases a,
{
    &&& b.species == a.species
    &&& b.files == a.files
    &&& a.rendered.submap_of(b.rendered)
    &&& a.assets.submap_of(b.assets)
    &&& b.compilations >= a.compilations
    &&& match (a.parent, b.parent) {
        (None, None) => true,
        (Some(pa), Some(pb)) => evolves(*pa, *pb),
        _ => false,
    }
}

pub proof fn lemma_evolves_refl(a: CtxV)
    ensures
        evolves(a, a),
    decreases a,
{
    match a.parent {
        Some(pa) => lemma_evolves_refl(*pa),
        None => {}
    }
}

pub proof fn lemma_evolves_trans(a: CtxV, b: CtxV, c: CtxV)
    requires
        evolves(a, b),
        evolves(b, c),
    ensures
        evolves(a, c),
    decreases a,
{
    match (a.parent, b.parent, c.parent) {
        (Some(pa), Some(pb), Some(pc)) => lemma_evolves_trans(*pa, *pb, *pc),
        _ => {}
    }
}

/// The context freshly built for a declaration: empty caches at every
/// level, the declaration chain unfolded into the context chain, and the
/// same file store shared by every level.
pub open spec fn ctx_of_species(d: SpeciesV, files: Map<Seq<char>, Seq<char>>) -> CtxV
    decreases d,
{
    CtxV {
        species: SpeciesV { parent: None, ..d },
        files,
        rendered: Map::empty(),
        assets: Map::empty(),
        compilations: 0,
        parent: match d.parent {
            Some(p) => Some(Box::new(ctx_of_species(*p, files))),
            None => None,
        },
    }
}

/// Shorthand for the first occurrence of `c` in `s`.
pub open spec fn find_at_alias(s: Seq<char>, c: char) -> Option<int> {
    crate::text::find_at(s, 0, c)
}

/// One more compilation, saturating.
pub open spec fn bump(c: u64) -> u64 {
    if c < 0xffff_ffff_ffff_ffff {
        (c + 1) as u64
    } else {
        c
    }
}

/// The template text a partial-include name resolves to: a bare name is
/// looked up in this level's template index and read from the file store; a
/// `species.name` form must name this species (then it is the bare form) or
/// is delegated to the parent chain; any other form resolves to nothing.
pub open spec fn resolve_template(c: CtxV, name: Seq<char>) -> Option<Seq<char>>
    decreases c,
{
    let segs = spec_split(name, '.');
    if segs.len() == 1 {
        if c.species.template_paths.contains_key(name) {
            let path = c.species.template_paths[name];
            if c.files.contains_key(path) {
                Some(c.files[path])
            } else {
                None
            }
        } else {
            None
        }
    } else if segs.len() == 2 {
        if segs[0] == c.species.name {
            if c.species.template_paths.contains_key(segs[1]) {
                let path = c.species.template_paths[segs[1]];
                if c.files.contains_key(path) {
                    Some(c.files[path])
                } else {
                    None
                }
            } else {
                None
            }
        } else {
            match c.parent {
                Some(p) => resolve_template(*p, name),
                None => None,
            }
        }
    } else {
        None
    }
}

/// What `get_asset` returns and leaves behind: a cached asset is handed
/// back as it is; otherwise the asset index gives a path, the file store
/// gives its text, the text parses to its root element, and the element is
/// cached; any miss on that way yields nothing and changes nothing.
pub open spec fn spec_get_asset(c: CtxV, name: Seq<char>) -> (Option<ElemV>, CtxV) {
    if c.assets.contains_key(name) {
        (Some(c.assets[name]), c)
    } else if !c.species.asset_paths.contains_key(name) {
        (None, c)
    } else {
        let path = c.species.asset_paths[name];
        if !c.files.contains_key(path) {
            (None, c)
        } else {
            match parsed_root(c.files[path]) {
                None => (None, c),
                Some(e) => (Some(e), CtxV { assets: c.assets.insert(name, e), ..c }),
            }
        }
    }
}

impl RenderingContext {
    /// Builds the context chain for a declaration chain.  The declaration's
    /// parent moves into a nested context; every level shares the same file
    /// store.
    pub fn new(species: SpeciesDecl, files: Dict<String>) -> (r: RenderingContext)
        ensures
            r.deep_view() == ctx_of_species(species.deep_view(), files@),
        decreases species,
    {
        let SpeciesDecl {
            name,
            base,
            variants,
            vars,
            template_paths,
            variant_paths,
            asset_paths,
            parent,
        } = species;
        let parent_ctx = match parent {
            Some(b) => Some(Box::new(RenderingContext::new(*b, files.duplicate()))),
            None => None,
        };
        let bare = SpeciesDecl {
            name,
            base,
            variants,
            vars,
            template_paths,
            variant_paths,
            asset_paths,
            parent: None,
        };
        let r = RenderingContext {
            species: bare,
            files,
            rendered_variants: Dict::new(),
            loaded_assets: Dict::new(),
            compilations: 0,
            parent: parent_ctx,
        };
        proof {
            assert(bare.deep_view() =~~= SpeciesV { parent: None, ..species.deep_view() });
            assert(r.deep_view() =~~= ctx_of_species(species.deep_view(), files@));
        }
        r
    }

    /// The declaration this context wraps (its parent link stripped).
    pub fn species(&self) -> (r: &SpeciesDecl)
        ensures
            r.deep_view() == self.deep_view().species,
    {
        &self.species
    }

    /// How many template compilations this level has performed.
    pub fn compilations(&self) -> (r: u64)
        ensures
            r == self.deep_view().compilations,
    {
        self.compilations
    }

    /// Resolves a partial-include name to its template text.
    pub fn load(&self, name: &str) -> (r: Result<String, TemplateError>)
        ensures
            match r {
                Ok(text) => resolve_template(self.deep_view(), name@) == Some(text@),
                Err(_) => resolve_template(self.deep_view(), name@) is None,
            },
        decreases *self,
    {
        let segs = split_all(name, '.');
        proof {
            assert(segs.deep_view() == spec_split(name@, '.'));
            lemma_split_pieces(name@, '.');
        }
        if segs.len() == 1 {
            proof {
                assert(spec_split(name@, '.')[0] == name@) by {
                    crate::text::lemma_find_at(name@, 0, '.');
                    match crate::text::find_at(name@, 0, '.') {
                        Some(k) => {
                            crate::text::lemma_split_nonempty(
                                name@.subrange(k + 1, name@.len() as int),
                                '.',
                            );
                            assert(spec_split(name@, '.').len() >= 2);
                        }
                        None => {}
                    }
                }
            }
            self.load_bare(name)
        } else if segs.len() == 2 {
            proof {
                assert(segs.deep_view()[0] == segs@[0]@);
                assert(segs.deep_view()[1] == segs@[1]@);
                assert(find_at_alias(segs.deep_view()[1], '.') is None);
            }
            if crate::text::str_eq(segs[0].as_str(), self.species.name.as_str()) {
                self.load_bare(segs[1].as_str())
            } else {
                match &self.parent {
                    Some(p) => p.load(name),
                    None => Err(TemplateError::NoTemplate(name.to_owned())),
                }
            }
        } else {
            Err(TemplateError::NoTemplate(name.to_owned()))
        }
    }

    /// Looks a bare template name up in this level's index and file store.
    fn load_bare(&self, name: &str) -> (r: Result<String, TemplateError>)
        requires
            find_at_alias(name@, '.') is None,
        ensures
            match r {
                Ok(text) => resolve_template(self.deep_view(), name@) == Some(text@),
                Err(_) => resolve_template(self.deep_view(), name@) is None,
            },
    {
        match self.species.template_paths.get(name) {
            Some(path) => match self.files.get(path.as_str()) {
                Some(text) => Ok(text.clone()),
                None => Err(TemplateError::NoTemplate(name.to_owned())),
            },
            None => Err(TemplateError::NoTemplate(name.to_owned())),
        }
    }

    /// Compiles the template file at `path` from the file store.
    pub fn compile(&mut self, path: &str) -> (r: Result<Template, TemplateError>)
        ensures
            final(self).deep_view() == (CtxV {
                compilations: bump(old(self).deep_view().compilations),
                ..old(self).deep_view()
            }),
            match r {
                Ok(t) => old(self).deep_view().files.contains_key(path@) && parse_tpl(
                    old(self).deep_view().files[path@],
                    0,
                ) == Some(t.deep_view()),
                Err(_) => !old(self).deep_view().files.contains_key(path@) || parse_tpl(
                    old(self).deep_view().files[path@],
                    0,
                ) is None,
            },
    {
        let ghost pre = self.deep_view();
        if self.compilations < 0xffff_ffff_ffff_ffff {
            self.compilations = self.compilations + 1;
        }
        proof {
            assert(self.deep_view() =~~= CtxV { compilations: bump(pre.compilations), ..pre });
        }
        let r = match self.files.get(path) {
            Some(text) => crate::template::compile_str(text.as_str()),
            None => Err(TemplateError::NoTemplate(path.to_owned())),
        };
        r
    }

    /// Loads the named asset: load-once, cached, copied out on every read.
    pub fn get_asset(&mut self, name: &str) -> (r: Option<Elem>)
        ensures
            match r {
                Some(e) => spec_get_asset(old(self).deep_view(), name@).0 == Some(e.deep_view()),
                None => spec_get_asset(old(self).deep_view(), name@).0 is None,
            },
            final(self).deep_view() == spec_get_asset(old(self).deep_view(), name@).1,
    {
        let ghost pre = self.deep_view();
        let cached = match self.loaded_assets.get(name) {
            Some(e) => Some(e.duplicate()),
            None => None,
        };
        match cached {
            Some(e) => Some(e),
            None => {
                let path = match self.species.asset_paths.get(name) {
                    Some(p) => p.clone(),
                    None => {
                        return None;
                    }
                };
                let text = match self.files.get(path.as_str()) {
                    Some(t) => t.clone(),
                    None => {
                        return None;
                    }
                };
                match get_xml(text.as_str()) {
                    None => None,
                    Some(e) => {
                        let copy = e.duplicate();
                        self.loaded_assets.insert(name.to_owned(), e);
                        proof {
                            assert(self.deep_view() =~~= CtxV {
                                assets: pre.assets.insert(name@, copy.deep_view()),
                                ..pre
                            });
                        }
                        Some(copy)
                    }
                }
            }
        }
    }
}

// ---------------------------------------------------------------------------
// The dynamic evaluation bindings and the renderer
// ---------------------------------------------------------------------------

/// Recursion allowance for nested template evaluation: variant templates may
/// reference each other, and indirect self-reference is cut off at this
/// depth instead of recursing without bound.
pub const RENDER_DEPTH: u64 = 32;

/// Some level of the chain (this one included) is named `seg`.
pub open spec fn has_ns(c: CtxV, seg: Seq<char>) -> bool
    decreases c,
{
    c.species.name == seg || match c.parent {
        Some(p) => has_ns(*p, seg),
        None => false,
    }
}

/// Some strict ancestor is named `seg`.
pub open spec fn has_ns_strict(c: CtxV, seg: Seq<char>) -> bool {
    match c.parent {
        Some(p) => has_ns(*p, seg),
        None => false,
    }
}

pub open spec fn seq_has(ss: Seq<Seq<char>>, s: Seq<char>) -> bool {
    exists|i: int| 0 <= i < ss.len() && ss[i] == s
}

/// The variant being rendered carries this tag.
pub open spec fn tag_on(c: CtxV, vname: Seq<char>, tag: Seq<char>) -> bool {
    c.species.variants.contains_key(vname) && seq_has(c.species.variants[vname], tag)
}

/// What an interpolation `{{segs}}` inserts while variant `vname` renders:
/// a present tag reads `true`; a path into an ancestor's namespace is
/// delegated to the deepest ancestor of that name; `vars.k` reads the
/// declaration's variable; everything else (lookup functions, maps, unbound
/// names) inserts nothing.
pub open spec fn spec_interp(c: CtxV, vname: Seq<char>, segs: Seq<Seq<char>>) -> Seq<char>
    decreases c, 2int,
{
    if segs.len() >= 1 && segs[0] == "tags"@ && c.species.variants.contains_key(vname) {
        if segs.len() == 2 && seq_has(c.species.variants[vname], segs[1]) {
            "true"@
        } else {
            Seq::empty()
        }
    } else if segs.len() >= 1 && has_ns_strict(c, segs[0]) {
        match c.parent {
            Some(p) => spec_interp_ns(*p, vname, segs),
            None => Seq::empty(),
        }
    } else if segs.len() >= 1 && segs[0] == c.species.name {
        if segs.len() >= 2 {
            spec_interp_local(c, vname, segs.drop_first())
        } else {
            Seq::empty()
        }
    } else {
        spec_interp_local(c, vname, segs)
    }
}

pub open spec fn spec_interp_ns(c: CtxV, vname: Seq<char>, segs: Seq<Seq<char>>) -> Seq<char>
    decreases c, 1int,
{
    if segs.len() >= 1 && has_ns_strict(c, segs[0]) {
        match c.parent {
            Some(p) => spec_interp_ns(*p, vname, segs),
            None => Seq::empty(),
        }
    } else if segs.len() >= 1 && segs[0] == c.species.name {
        if segs.len() >= 2 {
            spec_interp_local(c, vname, segs.drop_first())
        } else {
            Seq::empty()
        }
    } else {
        Seq::empty()
    }
}

pub open spec fn spec_interp_local(c: CtxV, vname: Seq<char>, segs: Seq<Seq<char>>) -> Seq<char>
    decreases c, 0int,
{
    if segs.len() >= 1 && segs[0] == "tags"@ && c.species.variants.contains_key(vname) {
        if segs.len() == 2 && seq_has(c.species.variants[vname], segs[1]) {
            "true"@
        } else {
            Seq::empty()
        }
    } else if segs.len() == 2 && segs[0] == "vars"@ && c.species.vars.contains_key(segs[1]) {
        c.species.vars[segs[1]]
    } else {
        Seq::empty()
    }
}

// ---------------------------------------------------------------------------
// The evaluator, as specification functions
// ---------------------------------------------------------------------------
//
// Every step of template evaluation is deterministic once the parser's and
// the colour parser's results are named, so the whole evaluator can be
// written out as specification functions over `CtxV`.  Each pair below is
// the result text — `None` where evaluation fails — and the context left
// behind.  The executable evaluator is proved equal to these, clause for
// clause.

/// Levels of the context chain, this one included.
pub open spec fn ctx_depth(c: CtxV) -> nat
    decreases c,
{
    1 + match c.parent {
        Some(p) => ctx_depth(*p),
        None => 0nat,
    }
}

/// The selected sub-tree of a rendered document, serialized; empty where
/// the document is missing or the selector matches nothing.
pub open spec fn spec_select_serialize(svg: Option<ElemV>, selector: Seq<char>) -> Seq<char> {
    match svg {
        Some(el) => match crate::select::spec_query_selector(el, selector) {
            Some(hit) => elem_text(hit, 0),
            None => Seq::empty(),
        },
        None => Seq::empty(),
    }
}

/// Compiling and evaluating template text: one compilation is counted,
/// then the parsed nodes are evaluated.
pub open spec fn spec_render_str(c: CtxV, src: Seq<char>, vname: Seq<char>, fuel: nat) -> (
    Option<Seq<char>>,
    CtxV,
)
    decreases fuel, 10int, 0int,
{
    let c1 = CtxV { compilations: bump(c.compilations), ..c };
    match parse_tpl(src, 0) {
        None => (None, c1),
        Some(ns) => spec_render_nodes(c1, ns, vname, fuel),
    }
}

/// Evaluating a node list in order, threading the context through.
pub open spec fn spec_render_nodes(
    c: CtxV,
    ns: Seq<crate::template::TplNodeV>,
    vname: Seq<char>,
    fuel: nat,
) -> (Option<Seq<char>>, CtxV)
    decreases fuel, 9int, ns.len(),
{
    if ns.len() == 0 {
        (Some(Seq::empty()), c)
    } else {
        match ns.first() {
            crate::template::TplNodeV::Text(t) => {
                let rest = spec_render_nodes(c, ns.drop_first(), vname, fuel);
                (
                    match rest.0 {
                        Some(s) => Some(t + s),
                        None => None,
                    },
                    rest.1,
                )
            }
            crate::template::TplNodeV::Interp(p) => {
                let v = crate::xml::esc_attr(spec_interp(c, vname, spec_split(p, '.')));
                let rest = spec_render_nodes(c, ns.drop_first(), vname, fuel);
                (
                    match rest.0 {
                        Some(s) => Some(v + s),
                        None => None,
                    },
                    rest.1,
                )
            }
            crate::template::TplNodeV::Partial(p) => {
                match resolve_template(c, p) {
                    None => (None, c),
                    Some(text) => {
                        if fuel == 0 {
                            (None, c)
                        } else {
                            let sub = spec_render_str(c, text, vname, (fuel - 1) as nat);
                            match sub.0 {
                                None => (None, sub.1),
                                Some(s) => {
                                    let rest = spec_render_nodes(
                                        sub.1,
                                        ns.drop_first(),
                                        vname,
                                        fuel,
                                    );
                                    (
                                        match rest.0 {
                                            Some(s2) => Some(s + s2),
                                            None => None,
                                        },
                                        rest.1,
                                    )
                                }
                            }
                        }
                    }
                }
            }
            crate::template::TplNodeV::Section(p, raw) => {
                let sec = spec_section(c, spec_split(p, '.'), raw, vname, fuel);
                match sec.0 {
                    None => (None, sec.1),
                    Some(s) => {
                        let rest = spec_render_nodes(sec.1, ns.drop_first(), vname, fuel);
                        (
                            match rest.0 {
                                Some(s2) => Some(s + s2),
                                None => None,
                            },
                            rest.1,
                        )
                    }
                }
            }
        }
    }
}

/// One section, resolved as the dynamic bindings resolve a dotted path:
/// the tag table first, then an ancestor's namespace, then this species'
/// own name, then the local bindings.
pub open spec fn spec_section(
    c: CtxV,
    segs: Seq<Seq<char>>,
    raw: Seq<char>,
    vname: Seq<char>,
    fuel: nat,
) -> (Option<Seq<char>>, CtxV)
    decreases fuel, 8int, ctx_depth(c),
{
    if segs.len() >= 1 && segs[0] == "tags"@ && c.species.variants.contains_key(vname) {
        spec_section_tags(c, segs, raw, vname, fuel)
    } else if segs.len() >= 1 && has_ns_strict(c, segs[0]) {
        match c.parent {
            Some(p) => {
                let r = spec_section_ns(*p, segs, raw, vname, fuel);
                (r.0, CtxV { parent: Some(Box::new(r.1)), ..c })
            }
            None => (Some(Seq::empty()), c),
        }
    } else if segs.len() >= 1 && segs[0] == c.species.name {
        if segs.len() >= 2 {
            spec_section_local(c, segs.drop_first(), raw, vname, fuel)
        } else {
            (Some(Seq::empty()), c)
        }
    } else {
        spec_section_local(c, segs, raw, vname, fuel)
    }
}

/// The walk to the deepest ancestor named `segs[0]`.
pub open spec fn spec_section_ns(
    c: CtxV,
    segs: Seq<Seq<char>>,
    raw: Seq<char>,
    vname: Seq<char>,
    fuel: nat,
) -> (Option<Seq<char>>, CtxV)
    decreases fuel, 7int, ctx_depth(c),
{
    if segs.len() >= 1 && has_ns_strict(c, segs[0]) {
        match c.parent {
            Some(p) => {
                let r = spec_section_ns(*p, segs, raw, vname, fuel);
                (r.0, CtxV { parent: Some(Box::new(r.1)), ..c })
            }
            None => (Some(Seq::empty()), c),
        }
    } else if segs.len() >= 1 && segs[0] == c.species.name {
        if segs.len() >= 2 {
            spec_section_local(c, segs.drop_first(), raw, vname, fuel)
        } else {
            (Some(Seq::empty()), c)
        }
    } else {
        (Some(Seq::empty()), c)
    }
}

/// A section against one level's own bindings: tag table, the `vars` map
/// (a map, not a block — skipped), the colour functions, an asset lookup,
/// a variant lookup; an unbound name renders nothing.
pub open spec fn spec_section_local(
    c: CtxV,
    segs: Seq<Seq<char>>,
    raw: Seq<char>,
    vname: Seq<char>,
    fuel: nat,
) -> (Option<Seq<char>>, CtxV)
    decreases fuel, 6int, ctx_depth(c),
{
    if segs.len() >= 1 && segs[0] == "tags"@ && c.species.variants.contains_key(vname) {
        spec_section_tags(c, segs, raw, vname, fuel)
    } else if segs.len() >= 1 && segs[0] == "vars"@ {
        (Some(Seq::empty()), c)
    } else if segs.len() == 1 && segs[0] == "set-fill"@ {
        spec_apply_color(c, raw, vname, fuel, true)
    } else if segs.len() == 1 && segs[0] == "set-stroke"@ {
        spec_apply_color(c, raw, vname, fuel, false)
    } else if segs.len() == 1 && c.species.asset_paths.contains_key(segs[0]) {
        let a = spec_get_asset(c, segs[0]);
        (Some(spec_select_serialize(a.0, raw)), a.1)
    } else if segs.len() >= 1 && segs[0] == "variant"@ {
        if segs.len() == 2 && fuel > 0 {
            let v = spec_get_variant(c, segs[1], (fuel - 1) as nat);
            (Some(spec_select_serialize(v.0, raw)), v.1)
        } else {
            (Some(Seq::empty()), c)
        }
    } else {
        (Some(Seq::empty()), c)
    }
}

/// A present tag renders its block; an absent one renders nothing.
pub open spec fn spec_section_tags(
    c: CtxV,
    segs: Seq<Seq<char>>,
    raw: Seq<char>,
    vname: Seq<char>,
    fuel: nat,
) -> (Option<Seq<char>>, CtxV)
    decreases fuel, 5int, ctx_depth(c),
{
    if segs.len() == 2 && tag_on(c, vname, segs[1]) {
        if fuel == 0 {
            (None, c)
        } else {
            spec_render_str(c, raw, vname, (fuel - 1) as nat)
        }
    } else {
        (Some(Seq::empty()), c)
    }
}

/// `set-fill` / `set-stroke` over a raw `color|xml` block: both halves are
/// rendered as templates, the fragment is parsed, recoloured with the
/// trimmed colour and re-serialized; each failure yields its inline
/// diagnostic comment instead of failing the render.
pub open spec fn spec_apply_color(
    c: CtxV,
    raw: Seq<char>,
    vname: Seq<char>,
    fuel: nat,
    fill: bool,
) -> (Option<Seq<char>>, CtxV)
    decreases fuel, 5int, ctx_depth(c),
{
    match find_at(raw, 0, '|') {
        None => (Some("<!-- Invalid syntax: expected `color|xml` -->"@), c),
        Some(i) => {
            if fuel == 0 {
                (Some("<!-- Error in parsing color or element -->"@), c)
            } else {
                let cpart = raw.subrange(0, i);
                let xpart = raw.subrange(i + 1, raw.len() as int);
                let rc = spec_render_str(c, cpart, vname, (fuel - 1) as nat);
                match rc.0 {
                    None => (Some("<!-- Error in parsing color or element -->"@), rc.1),
                    Some(color) => {
                        let rx = spec_render_str(rc.1, xpart, vname, (fuel - 1) as nat);
                        match rx.0 {
                            None => (
                                Some("<!-- Error in parsing color or element -->"@),
                                rx.1,
                            ),
                            Some(xtext) => {
                                match parsed_root(xtext) {
                                    None => (Some("<!-- Error in parsing xml -->"@), rx.1),
                                    Some(el) => (
                                        Some(
                                            elem_text(
                                                if fill {
                                                    spec_set_fill(spec_trim(color), el)
                                                } else {
                                                    spec_set_stroke(spec_trim(color), el)
                                                },
                                                0,
                                            ),
                                        ),
                                        rx.1,
                                    ),
                                }
                            }
                        }
                    }
                }
            }
        }
    }
}

/// What a variant lookup returns and leaves behind: the cached document;
/// or, for an indexed name with fuel to spare, the variant's file is
/// compiled (counted), evaluated, parsed and cached; every failure on
/// that way yields nothing.
pub open spec fn spec_get_variant(c: CtxV, name: Seq<char>, fuel: nat) -> (Option<ElemV>, CtxV)
    decreases fuel, 4int, ctx_depth(c),
{
    if c.rendered.contains_key(name) {
        (Some(c.rendered[name]), c)
    } else if !c.species.variant_paths.contains_key(name) {
        (None, c)
    } else if fuel == 0 {
        (None, c)
    } else {
        let path = c.species.variant_paths[name];
        let c1 = CtxV { compilations: bump(c.compilations), ..c };
        if !c.files.contains_key(path) {
            (None, c1)
        } else {
            match parse_tpl(c.files[path], 0) {
                None => (None, c1),
                Some(ns) => {
                    let rr = spec_render_nodes(c1, ns, name, (fuel - 1) as nat);
                    match rr.0 {
                        None => (None, rr.1),
                        Some(s) => match parsed_root(s) {
                            None => (None, rr.1),
                            Some(el) => {
                                if rr.1.rendered.contains_key(name) {
                                    (Some(rr.1.rendered[name]), rr.1)
                                } else {
                                    (
                                        Some(el),
                                        CtxV {
                                            rendered: rr.1.rendered.insert(name, el),
                                            ..rr.1
                                        },
                                    )
                                }
                            }
                        },
                    }
                }
            }
        }
    }
}

proof fn lemma_evolves_bump(a: CtxV)
    ensures
        evolves(a, CtxV { compilations: bump(a.compilations), ..a }),
{
    match a.parent {
        Some(pa) => lemma_evolves_refl(*pa),
        None => {}
    }
}

proof fn lemma_evolves_rendered(a: CtxV, k: Seq<char>, v: ElemV)
    requires
        !a.rendered.contains_key(k),
    ensures
        evolves(a, CtxV { rendered: a.rendered.insert(k, v), ..a }),
{
    match a.parent {
        Some(pa) => lemma_evolves_refl(*pa),
        None => {}
    }
}

proof fn lemma_get_asset_evolves(c: CtxV, name: Seq<char>)
    ensures
        evolves(c, spec_get_asset(c, name).1),
{
    lemma_evolves_refl(c);
    if !c.assets.contains_key(name) && c.species.asset_paths.contains_key(name) {
        let path = c.species.asset_paths[name];
        if c.files.contains_key(path) {
            match parsed_root(c.files[path]) {
                Some(e) => {
                    match c.parent {
                        Some(pa) => lemma_evolves_refl(*pa),
                        None => {}
                    }
                }
                None => {}
            }
        }
    }
}

/// The selected sub-tree of a rendered document, serialized; an empty
/// string where the selector matches nothing.
pub fn select_serialize(svg: Elem, selector: &str) -> (r: String)
    ensures
        r@ == match spec_query_selector(svg.deep_view(), selector@) {
            Some(el) => crate::xml::elem_text(el, 0),
            None => Seq::<char>::empty(),
        },
{
    match query_selector(svg, selector) {
        Some(el) => xml_to_string(&el),
        None => String::new(),
    }
}

/// An owned copy of `v[from..]`.
fn tail_of(v: &Vec<String>, from: usize) -> (r: Vec<String>)
    requires
        from <= v@.len(),
    ensures
        r.deep_view() == v.deep_view().skip(from as int),
{
    let mut out: Vec<String> = Vec::new();
    let n = v.len();
    let mut i: usize = from;
    while i < n
        invariant
            from <= i <= n,
            n == v@.len(),
            out.deep_view() =~= v.deep_view().subrange(from as int, i as int),
        decreases n - i,
    {
        let ghost pre = out.deep_view();
        out.push(v[i].clone());
        proof {
            assert(out.deep_view() =~= pre.push(v@[i as int]@));
            assert(out.deep_view() =~= v.deep_view().subrange(from as int, i as int + 1));
        }
        i += 1;
    }
    proof {
        assert(v.deep_view().subrange(from as int, n as int) =~= v.deep_view().skip(from as int));
    }
    out
}

impl RenderingContext {
    /// Whether any level of this chain is named `seg`.
    fn has_ns_exec(&self, seg: &str) -> (r: bool)
        ensures
            r == has_ns(self.deep_view(), seg@),
        decreases *self,
    {
        if str_eq(self.species.name.as_str(), seg) {
            true
        } else {
            match &self.parent {
                Some(p) => p.has_ns_exec(seg),
                None => false,
            }
        }
    }

    fn has_ns_strict_exec(&self, seg: &str) -> (r: bool)
        ensures
            r == has_ns_strict(self.deep_view(), seg@),
    {
        match &self.parent {
            Some(p) => p.has_ns_exec(seg),
            None => false,
        }
    }

    /// Whether the declaration tags variant `vname` with `tag`.
    pub fn tag_enabled(&self, vname: &str, tag: &str) -> (r: bool)
        ensures
            r == tag_on(self.deep_view(), vname@, tag@),
    {
        match self.species.variants.get(vname) {
            Some(tags) => contains_str(tags, tag),
            None => false,
        }
    }

    /// The text an interpolation inserts while `vname` renders: the
    /// dynamic evaluation bindings, looked up by dotted path.
    pub fn interp_value(&self, vname: &str, segs: &Vec<String>) -> (r: String)
        requires
            segs@.len() >= 1,
        ensures
            r@ == spec_interp(self.deep_view(), vname@, segs.deep_view()),
        decreases *self, 2int,
    {
        proof {
            assert(segs.deep_view()[0] == segs@[0]@);
        }
        let tags_bound = str_eq(segs[0].as_str(), "tags") && self.species.variants.contains_key(
            vname,
        );
        if tags_bound {
            self.interp_tags(vname, segs)
        } else if self.has_ns_strict_exec(segs[0].as_str()) {
            match &self.parent {
                Some(p) => p.interp_value_ns(vname, segs),
                None => String::new(),
            }
        } else if str_eq(segs[0].as_str(), self.species.name.as_str()) {
            if segs.len() >= 2 {
                let rest = tail_of(segs, 1);
                proof {
                    assert(rest.deep_view() =~= segs.deep_view().drop_first());
                }
                self.interp_value_local(vname, &rest)
            } else {
                String::new()
            }
        } else {
            self.interp_value_local(vname, segs)
        }
    }

    fn interp_value_ns(&self, vname: &str, segs: &Vec<String>) -> (r: String)
        requires
            segs@.len() >= 1,
        ensures
            r@ == spec_interp_ns(self.deep_view(), vname@, segs.deep_view()),
        decreases *self, 1int,
    {
        proof {
            assert(segs.deep_view()[0] == segs@[0]@);
        }
        if self.has_ns_strict_exec(segs[0].as_str()) {
            match &self.parent {
                Some(p) => p.interp_value_ns(vname, segs),
                None => String::new(),
            }
        } else if str_eq(segs[0].as_str(), self.species.name.as_str()) {
            if segs.len() >= 2 {
                let rest = tail_of(segs, 1);
                proof {
                    assert(rest.deep_view() =~= segs.deep_view().drop_first());
                }
                self.interp_value_local(vname, &rest)
            } else {
                String::new()
            }
        } else {
            String::new()
        }
    }

    fn interp_value_local(&self, vname: &str, segs: &Vec<String>) -> (r: String)
        requires
            segs@.len() >= 1,
        ensures
            r@ == spec_interp_local(self.deep_view(), vname@, segs.deep_view()),
        decreases *self, 0int,
    {
        proof {
            assert(segs.deep_view()[0] == segs@[0]@);
        }
        let tags_bound = str_eq(segs[0].as_str(), "tags") && self.species.variants.contains_key(
            vname,
        );
        if tags_bound {
            self.interp_tags(vname, segs)
        } else if segs.len() == 2 && str_eq(segs[0].as_str(), "vars") {
            proof {
                assert(segs.deep_view()[1] == segs@[1]@);
            }
            match self.species.vars.get(segs[1].as_str()) {
                Some(v) => v.clone(),
                None => String::new(),
            }
        } else {
            String::new()
        }
    }

    /// The text a `tags.x` interpolation inserts: `true` for a present tag.
    fn interp_tags(&self, vname: &str, segs: &Vec<String>) -> (r: String)
        requires
            segs@.len() >= 1,
            segs@[0]@ == "tags"@,
            self.deep_view().species.variants.contains_key(vname@),
        ensures
            r@ == (if segs.deep_view().len() == 2 && seq_has(
                self.deep_view().species.variants[vname@],
                segs.deep_view()[1],
            ) {
                "true"@
            } else {
                Seq::<char>::empty()
            }),
    {
        if segs.len() == 2 {
            proof {
                assert(segs.deep_view()[1] == segs@[1]@);
            }
            let hit = match self.species.variants.get(vname) {
                Some(tags) => contains_str(tags, segs[1].as_str()),
                None => false,
            };
            if hit {
                "true".to_owned()
            } else {
                String::new()
            }
        } else {
            String::new()
        }
    }

    /// Renders template text against this context: compile, count the
    /// compilation, evaluate.
    fn render_str_fueled(&mut self, src: &str, vname: &str, fuel: u64) -> (r: Result<
        String,
        TemplateError,
    >)
        ensures
            evolves(old(self).deep_view(), final(self).deep_view()),
            final(self).deep_view() == spec_render_str(
                old(self).deep_view(),
                src@,
                vname@,
                fuel as nat,
            ).1,
            match r {
                Ok(s) => spec_render_str(old(self).deep_view(), src@, vname@, fuel as nat).0
                    == Some(s@),
                Err(_) => spec_render_str(old(self).deep_view(), src@, vname@, fuel as nat).0
                    is None,
            },
        decreases fuel, 10int, *old(self),
    {
        let ghost c0 = self.deep_view();
        if self.compilations < 0xffff_ffff_ffff_ffff {
            self.compilations = self.compilations + 1;
        }
        proof {
            lemma_evolves_bump(c0);
            assert(self.deep_view() =~~= CtxV { compilations: bump(c0.compilations), ..c0 });
        }
        let t = match compile_str(src) {
            Ok(t) => t,
            Err(e) => {
                return Err(e);
            }
        };
        let ghost mid = self.deep_view();
        let r = self.render_template_fueled(&t, vname, fuel);
        proof {
            lemma_evolves_trans(c0, mid, self.deep_view());
        }
        r
    }

    /// Evaluates a compiled template against the dynamic bindings for
    /// variant `vname`, exactly as `spec_render_nodes` lays it out.
    fn render_template_fueled(&mut self, t: &Template, vname: &str, fuel: u64) -> (r: Result<
        String,
        TemplateError,
    >)
        ensures
            evolves(old(self).deep_view(), final(self).deep_view()),
            final(self).deep_view() == spec_render_nodes(
                old(self).deep_view(),
                t.deep_view(),
                vname@,
                fuel as nat,
            ).1,
            match r {
                Ok(s) => spec_render_nodes(
                    old(self).deep_view(),
                    t.deep_view(),
                    vname@,
                    fuel as nat,
                ).0 == Some(s@),
                Err(_) => spec_render_nodes(
                    old(self).deep_view(),
                    t.deep_view(),
                    vname@,
                    fuel as nat,
                ).0 is None,
            },
        decreases fuel, 9int, *old(self),
    {
        proof {
            lemma_evolves_refl(old(self).deep_view());
        }
        let ghost goal = spec_render_nodes(
            old(self).deep_view(),
            t.deep_view(),
            vname@,
            fuel as nat,
        );
        let mut out = String::new();
        let n = t.nodes.len();
        let mut i: usize = 0;
        proof {
            assert(t.deep_view().skip(0) =~= t.deep_view());
            let rest = spec_render_nodes(self.deep_view(), t.deep_view(), vname@, fuel as nat);
            match rest.0 {
                Some(s) => {
                    assert(out@ + s =~= s);
                }
                None => {}
            }
        }
        while i < n
            invariant
                0 <= i <= n,
                n == t.nodes@.len(),
                evolves(old(self).deep_view(), self.deep_view()),
                goal == spec_render_nodes(
                    old(self).deep_view(),
                    t.deep_view(),
                    vname@,
                    fuel as nat,
                ),
                goal.1 == spec_render_nodes(
                    self.deep_view(),
                    t.deep_view().skip(i as int),
                    vname@,
                    fuel as nat,
                ).1,
                goal.0 == (match spec_render_nodes(
                    self.deep_view(),
                    t.deep_view().skip(i as int),
                    vname@,
                    fuel as nat,
                ).0 {
                    Some(s) => Some(out@ + s),
                    None => None::<Seq<char>>,
                }),
            decreases n - i,
        {
            let ghost tv = t.deep_view();
            let ghost cur = self.deep_view();
            proof {
                assert(tv[i as int] == t.nodes@[i as int].deep_view());
                assert(tv.skip(i as int).first() == tv[i as int]);
                assert(tv.skip(i as int).drop_first() =~= tv.skip(i as int + 1));
            }
            match &t.nodes[i] {
                TplNode::Text(txt) => {
                    let ghost out0 = out@;
                    out.append(txt.as_str());
                    proof {
                        let rest = spec_render_nodes(
                            cur,
                            tv.skip(i as int + 1),
                            vname@,
                            fuel as nat,
                        );
                        match rest.0 {
                            Some(s) => {
                                assert(out@ + s =~= out0 + (txt@ + s));
                            }
                            None => {}
                        }
                    }
                }
                TplNode::Interp(p) => {
                    let segs = split_all(p.as_str(), '.');
                    proof {
                        lemma_split_nonempty(p@, '.');
                    }
                    let v = self.interp_value(vname, &segs);
                    let ghost out0 = out@;
                    write_escaped(&mut out, v.as_str(), true);
                    proof {
                        let rest = spec_render_nodes(
                            cur,
                            tv.skip(i as int + 1),
                            vname@,
                            fuel as nat,
                        );
                        match rest.0 {
                            Some(s) => {
                                assert(out@ + s =~= out0 + (crate::xml::esc_attr(v@) + s));
                            }
                            None => {}
                        }
                    }
                }
                TplNode::Partial(p) => {
                    let text = match self.load(p.as_str()) {
                        Ok(t) => t,
                        Err(e) => {
                            return Err(e);
                        }
                    };
                    if fuel == 0 {
                        return Err(TemplateError::Depth);
                    }
                    let ghost mid = self.deep_view();
                    match self.render_str_fueled(text.as_str(), vname, fuel - 1) {
                        Ok(sub) => {
                            proof {
                                lemma_evolves_trans(
                                    old(self).deep_view(),
                                    mid,
                                    self.deep_view(),
                                );
                            }
                            let ghost out0 = out@;
                            out.append(sub.as_str());
                            proof {
                                let rest = spec_render_nodes(
                                    self.deep_view(),
                                    tv.skip(i as int + 1),
                                    vname@,
                                    fuel as nat,
                                );
                                match rest.0 {
                                    Some(s) => {
                                        assert(out@ + s =~= out0 + (sub@ + s));
                                    }
                                    None => {}
                                }
                            }
                        }
                        Err(e) => {
                            proof {
                                lemma_evolves_trans(
                                    old(self).deep_view(),
                                    mid,
                                    self.deep_view(),
                                );
                            }
                            return Err(e);
                        }
                    }
                }
                TplNode::Section(p, raw) => {
                    let segs = split_all(p.as_str(), '.');
                    proof {
                        lemma_split_nonempty(p@, '.');
                    }
                    let ghost mid = self.deep_view();
                    match self.section_value(vname, &segs, raw.as_str(), fuel) {
                        Ok(sub) => {
                            proof {
                                lemma_evolves_trans(
                                    old(self).deep_view(),
                                    mid,
                                    self.deep_view(),
                                );
                            }
                            let ghost out0 = out@;
                            out.append(sub.as_str());
                            proof {
                                let rest = spec_render_nodes(
                                    self.deep_view(),
                                    tv.skip(i as int + 1),
                                    vname@,
                                    fuel as nat,
                                );
                                match rest.0 {
                                    Some(s) => {
                                        assert(out@ + s =~= out0 + (sub@ + s));
                                    }
                                    None => {}
                                }
                            }
                        }
                        Err(e) => {
                            proof {
                                lemma_evolves_trans(
                                    old(self).deep_view(),
                                    mid,
                                    self.deep_view(),
                                );
                            }
                            return Err(e);
                        }
                    }
                }
            }
            i += 1;
        }
        proof {
            assert(t.deep_view().skip(n as int) =~= Seq::<crate::template::TplNodeV>::empty());
            let rest = spec_render_nodes(
                self.deep_view(),
                t.deep_view().skip(n as int),
                vname@,
                fuel as nat,
            );
            assert(rest.0 == Some(Seq::<char>::empty()));
            assert(out@ + Seq::<char>::empty() =~= out@);
        }
        Ok(out)
    }

    /// Evaluates one section `{{#segs}}raw{{/segs}}`: a present tag renders
    /// the block; an ancestor's namespace delegates along the chain; lookup
    /// functions receive the raw block verbatim.
    fn section_value(&mut self, vname: &str, segs: &Vec<String>, raw: &str, fuel: u64) -> (r:
        Result<String, TemplateError>)
        requires
            segs@.len() >= 1,
        ensures
            evolves(old(self).deep_view(), final(self).deep_view()),
            final(self).deep_view() == spec_section(
                old(self).deep_view(),
                segs.deep_view(),
                raw@,
                vname@,
                fuel as nat,
            ).1,
            match r {
                Ok(s) => spec_section(
                    old(self).deep_view(),
                    segs.deep_view(),
                    raw@,
                    vname@,
                    fuel as nat,
                ).0 == Some(s@),
                Err(_) => spec_section(
                    old(self).deep_view(),
                    segs.deep_view(),
                    raw@,
                    vname@,
                    fuel as nat,
                ).0 is None,
            },
        decreases fuel, 8int, *old(self),
    {
        proof {
            lemma_evolves_refl(old(self).deep_view());
            assert(segs.deep_view()[0] == segs@[0]@);
            assert(segs.deep_view().len() == segs@.len());
        }
        let tags_bound = str_eq(segs[0].as_str(), "tags") && self.species.variants.contains_key(
            vname,
        );
        if tags_bound {
            self.section_tags(vname, segs, raw, fuel)
        } else if self.has_ns_strict_exec(segs[0].as_str()) {
            let ghost c0 = self.deep_view();
            let ghost mut bpre = c0;
            let ghost mut bfin = c0;
            let r = match &mut self.parent {
                Some(b) => {
                    proof {
                        bpre = b.deep_view();
                    }
                    let r = b.section_ns(vname, segs, raw, fuel);
                    proof {
                        bfin = b.deep_view();
                    }
                    r
                }
                None => Ok(String::new()),
            };
            proof {
                assert(c0.parent is Some);
                assert(c0.parent == Some(Box::new(bpre)));
                assert(bfin == spec_section_ns(
                    bpre,
                    segs.deep_view(),
                    raw@,
                    vname@,
                    fuel as nat,
                ).1);
                assert(self.deep_view() =~~= CtxV { parent: Some(Box::new(bfin)), ..c0 });
                lemma_evolves_refl(c0);
            }
            r
        } else if str_eq(segs[0].as_str(), self.species.name.as_str()) {
            if segs.len() >= 2 {
                let rest = tail_of(segs, 1);
                proof {
                    assert(rest@.len() == rest.deep_view().len());
                    assert(rest.deep_view().len() >= 1);
                    assert(rest.deep_view() =~= segs.deep_view().drop_first());
                }
                self.section_local(vname, &rest, raw, fuel)
            } else {
                Ok(String::new())
            }
        } else {
            self.section_local(vname, segs, raw, fuel)
        }
    }

    /// Walks the chain to the deepest ancestor named `segs[0]`.
    fn section_ns(&mut self, vname: &str, segs: &Vec<String>, raw: &str, fuel: u64) -> (r: Result<
        String,
        TemplateError,
    >)
        requires
            segs@.len() >= 1,
        ensures
            evolves(old(self).deep_view(), final(self).deep_view()),
            final(self).deep_view() == spec_section_ns(
                old(self).deep_view(),
                segs.deep_view(),
                raw@,
                vname@,
                fuel as nat,
            ).1,
            match r {
                Ok(s) => spec_section_ns(
                    old(self).deep_view(),
                    segs.deep_view(),
                    raw@,
                    vname@,
                    fuel as nat,
                ).0 == Some(s@),
                Err(_) => spec_section_ns(
                    old(self).deep_view(),
                    segs.deep_view(),
                    raw@,
                    vname@,
                    fuel as nat,
                ).0 is None,
            },
        decreases fuel, 7int, *old(self),
    {
        proof {
            lemma_evolves_refl(old(self).deep_view());
            assert(segs.deep_view()[0] == segs@[0]@);
            assert(segs.deep_view().len() == segs@.len());
        }
        if self.has_ns_strict_exec(segs[0].as_str()) {
            let ghost c0 = self.deep_view();
            let ghost mut bpre = c0;
            let ghost mut bfin = c0;
            let r = match &mut self.parent {
                Some(b) => {
                    proof {
                        bpre = b.deep_view();
                    }
                    let r = b.section_ns(vname, segs, raw, fuel);
                    proof {
                        bfin = b.deep_view();
                    }
                    r
                }
                None => Ok(String::new()),
            };
            proof {
                assert(c0.parent is Some);
                assert(c0.parent == Some(Box::new(bpre)));
                assert(bfin == spec_section_ns(
                    bpre,
                    segs.deep_view(),
                    raw@,
                    vname@,
                    fuel as nat,
                ).1);
                assert(self.deep_view() =~~= CtxV { parent: Some(Box::new(bfin)), ..c0 });
                lemma_evolves_refl(c0);
            }
            r
        } else if str_eq(segs[0].as_str(), self.species.name.as_str()) {
            if segs.len() >= 2 {
                let rest = tail_of(segs, 1);
                proof {
                    assert(rest@.len() == rest.deep_view().len());
                    assert(rest.deep_view().len() >= 1);
                    assert(rest.deep_view() =~= segs.deep_view().drop_first());
                }
                self.section_local(vname, &rest, raw, fuel)
            } else {
                Ok(String::new())
            }
        } else {
            Ok(String::new())
        }
    }

    /// A section resolved against this level's own bindings.
    fn section_local(&mut self, vname: &str, segs: &Vec<String>, raw: &str, fuel: u64) -> (r:
        Result<String, TemplateError>)
        requires
            segs@.len() >= 1,
        ensures
            evolves(old(self).deep_view(), final(self).deep_view()),
            final(self).deep_view() == spec_section_local(
                old(self).deep_view(),
                segs.deep_view(),
                raw@,
                vname@,
                fuel as nat,
            ).1,
            match r {
                Ok(s) => spec_section_local(
                    old(self).deep_view(),
                    segs.deep_view(),
                    raw@,
                    vname@,
                    fuel as nat,
                ).0 == Some(s@),
                Err(_) => spec_section_local(
                    old(self).deep_view(),
                    segs.deep_view(),
                    raw@,
                    vname@,
                    fuel as nat,
                ).0 is None,
            },
        decreases fuel, 6int, *old(self),
    {
        proof {
            lemma_evolves_refl(old(self).deep_view());
            assert(segs.deep_view()[0] == segs@[0]@);
            assert(segs.deep_view().len() == segs@.len());
        }
        let tags_bound = str_eq(segs[0].as_str(), "tags") && self.species.variants.contains_key(
            vname,
        );
        if tags_bound {
            self.section_tags(vname, segs, raw, fuel)
        } else if str_eq(segs[0].as_str(), "vars") {
            Ok(String::new())
        } else if segs.len() == 1 && str_eq(segs[0].as_str(), "set-fill") {
            self.apply_color(raw, vname, fuel, true)
        } else if segs.len() == 1 && str_eq(segs[0].as_str(), "set-stroke") {
            self.apply_color(raw, vname, fuel, false)
        } else if segs.len() == 1 && self.species.asset_paths.contains_key(segs[0].as_str()) {
            let ghost c0 = self.deep_view();
            let r = self.get_asset(segs[0].as_str());
            proof {
                lemma_get_asset_evolves(c0, segs@[0]@);
            }
            match r {
                Some(svg) => {
                    let out = select_serialize(svg, raw);
                    proof {
                        assert(out@ == spec_select_serialize(
                            spec_get_asset(c0, segs.deep_view()[0]).0,
                            raw@,
                        ));
                    }
                    Ok(out)
                }
                None => {
                    proof {
                        assert(Seq::<char>::empty() =~= spec_select_serialize(
                            spec_get_asset(c0, segs.deep_view()[0]).0,
                            raw@,
                        ));
                    }
                    Ok(String::new())
                }
            }
        } else if str_eq(segs[0].as_str(), "variant") {
            if segs.len() == 2 && fuel > 0 {
                proof {
                    assert(segs.deep_view()[1] == segs@[1]@);
                }
                let ghost c0 = self.deep_view();
                let r = self.get_variant_fueled(segs[1].as_str(), fuel - 1);
                match r {
                    Some(svg) => {
                        let out = select_serialize(svg, raw);
                        proof {
                            assert(out@ == spec_select_serialize(
                                spec_get_variant(
                                    c0,
                                    segs.deep_view()[1],
                                    (fuel - 1) as nat,
                                ).0,
                                raw@,
                            ));
                        }
                        Ok(out)
                    }
                    None => {
                        proof {
                            assert(Seq::<char>::empty() =~= spec_select_serialize(
                                spec_get_variant(
                                    c0,
                                    segs.deep_view()[1],
                                    (fuel - 1) as nat,
                                ).0,
                                raw@,
                            ));
                        }
                        Ok(String::new())
                    }
                }
            } else {
                Ok(String::new())
            }
        } else {
            Ok(String::new())
        }
    }

    /// A present tag renders its block; an absent one renders nothing and
    /// touches nothing.
    fn section_tags(&mut self, vname: &str, segs: &Vec<String>, raw: &str, fuel: u64) -> (r:
        Result<String, TemplateError>)
        requires
            segs@.len() >= 1,
        ensures
            evolves(old(self).deep_view(), final(self).deep_view()),
            final(self).deep_view() == spec_section_tags(
                old(self).deep_view(),
                segs.deep_view(),
                raw@,
                vname@,
                fuel as nat,
            ).1,
            match r {
                Ok(s) => spec_section_tags(
                    old(self).deep_view(),
                    segs.deep_view(),
                    raw@,
                    vname@,
                    fuel as nat,
                ).0 == Some(s@),
                Err(_) => spec_section_tags(
                    old(self).deep_view(),
                    segs.deep_view(),
                    raw@,
                    vname@,
                    fuel as nat,
                ).0 is None,
            },
        decreases fuel, 5int, *old(self),
    {
        proof {
            lemma_evolves_refl(old(self).deep_view());
        }
        let hit = if segs.len() == 2 {
            proof {
                assert(segs.deep_view()[1] == segs@[1]@);
            }
            self.tag_enabled(vname, segs[1].as_str())
        } else {
            false
        };
        proof {
            assert(hit == (segs.deep_view().len() == 2 && tag_on(
                self.deep_view(),
                vname@,
                segs.deep_view()[1],
            )));
        }
        if hit {
            if fuel == 0 {
                return Err(TemplateError::Depth);
            }
            self.render_str_fueled(raw, vname, fuel - 1)
        } else {
            Ok(String::new())
        }
    }

    /// `set-fill` / `set-stroke`: the raw block is `color|xml`, both halves
    /// are themselves rendered as templates, the colour is normalized, and
    /// the property is rewritten across the fragment; a malformed block
    /// yields an inline diagnostic comment instead of failing the render.
    fn apply_color(&mut self, raw: &str, vname: &str, fuel: u64, fill: bool) -> (r: Result<
        String,
        TemplateError,
    >)
        ensures
            evolves(old(self).deep_view(), final(self).deep_view()),
            final(self).deep_view() == spec_apply_color(
                old(self).deep_view(),
                raw@,
                vname@,
                fuel as nat,
                fill,
            ).1,
            match r {
                Ok(s) => spec_apply_color(
                    old(self).deep_view(),
                    raw@,
                    vname@,
                    fuel as nat,
                    fill,
                ).0 == Some(s@),
                Err(_) => spec_apply_color(
                    old(self).deep_view(),
                    raw@,
                    vname@,
                    fuel as nat,
                    fill,
                ).0 is None,
            },
        decreases fuel, 5int, *old(self),
    {
        proof {
            lemma_evolves_refl(old(self).deep_view());
        }
        match split_once(raw, '|') {
            None => Ok("<!-- Invalid syntax: expected `color|xml` -->".to_owned()),
            Some(pair) => {
                if fuel == 0 {
                    return Ok("<!-- Error in parsing color or element -->".to_owned());
                }
                let ghost i = crate::text::find_at(raw@, 0, '|').unwrap();
                proof {
                    assert(pair.0@ == raw@.subrange(0, i));
                    assert(pair.1@ == raw@.subrange(i + 1, raw@.len() as int));
                }
                let color = match self.render_str_fueled(pair.0.as_str(), vname, fuel - 1) {
                    Ok(c) => c,
                    Err(_) => {
                        return Ok("<!-- Error in parsing color or element -->".to_owned());
                    }
                };
                let ghost mid = self.deep_view();
                let xml_text = match self.render_str_fueled(pair.1.as_str(), vname, fuel - 1) {
                    Ok(x) => {
                        proof {
                            lemma_evolves_trans(old(self).deep_view(), mid, self.deep_view());
                        }
                        x
                    }
                    Err(_) => {
                        proof {
                            lemma_evolves_trans(old(self).deep_view(), mid, self.deep_view());
                        }
                        return Ok("<!-- Error in parsing color or element -->".to_owned());
                    }
                };
                match get_xml(xml_text.as_str()) {
                    None => Ok("<!-- Error in parsing xml -->".to_owned()),
                    Some(mut el) => {
                        let ghost elv = el.deep_view();
                        let trimmed = trim_spaces(color.as_str());
                        if fill {
                            set_fill(trimmed.as_str(), &mut el);
                        } else {
                            set_stroke(trimmed.as_str(), &mut el);
                        }
                        let out = xml_to_string(&el);
                        proof {
                            assert(out@ == elem_text(
                                if fill {
                                    spec_set_fill(spec_trim(color@), elv)
                                } else {
                                    spec_set_stroke(spec_trim(color@), elv)
                                },
                                0,
                            ));
                        }
                        Ok(out)
                    }
                }
            }
        }
    }

    /// Renders the named variant: render-once, cached, copied out on every
    /// read.  A cached variant is returned as it is, with nothing compiled
    /// and nothing else touched; a name outside the variant index yields
    /// nothing and changes nothing; a fresh render is inserted into the
    /// cache it is returned from.
    fn get_variant_fueled(&mut self, name: &str, fuel: u64) -> (r: Option<Elem>)
        ensures
            evolves(old(self).deep_view(), final(self).deep_view()),
            old(self).deep_view().rendered.contains_key(name@) ==> *final(self) == *old(self)
                && (r matches Some(e) && e.deep_view() == old(self).deep_view().rendered[name@]),
            (!old(self).deep_view().rendered.contains_key(name@)
                && !old(self).deep_view().species.variant_paths.contains_key(name@))
                ==> (r is None && *final(self) == *old(self)),
            r matches Some(e) ==> final(self).deep_view().rendered.contains_key(name@)
                && final(self).deep_view().rendered[name@] == e.deep_view(),
            final(self).deep_view() == spec_get_variant(
                old(self).deep_view(),
                name@,
                fuel as nat,
            ).1,
            match r {
                Some(e) => spec_get_variant(old(self).deep_view(), name@, fuel as nat).0
                    == Some(e.deep_view()),
                None => spec_get_variant(old(self).deep_view(), name@, fuel as nat).0 is None,
            },
        decreases fuel, 4int, *old(self),
    {
        proof {
            lemma_evolves_refl(old(self).deep_view());
        }
        let cached = match self.rendered_variants.get(name) {
            Some(e) => Some(e.duplicate()),
            None => None,
        };
        match cached {
            Some(e) => {
                return Some(e);
            }
            None => {}
        }
        let path = match self.species.variant_paths.get(name) {
            Some(p) => p.clone(),
            None => {
                return None;
            }
        };
        if fuel == 0 {
            return None;
        }
        let ghost c0 = self.deep_view();
        proof {
            assert(path@ == c0.species.variant_paths[name@]);
        }
        let t = match self.compile(path.as_str()) {
            Ok(t) => {
                proof {
                    lemma_evolves_bump(c0);
                }
                t
            }
            Err(_) => {
                proof {
                    lemma_evolves_bump(c0);
                }
                return None;
            }
        };
        let ghost mid = self.deep_view();
        proof {
            assert(mid == CtxV { compilations: bump(c0.compilations), ..c0 });
            assert(c0.files.contains_key(path@));
            assert(parse_tpl(c0.files[path@], 0) == Some(t.deep_view()));
        }
        let rendered = match self.render_template_fueled(&t, name, fuel - 1) {
            Ok(s) => {
                proof {
                    lemma_evolves_bump(c0);
                    lemma_evolves_trans(c0, mid, self.deep_view());
                }
                s
            }
            Err(_) => {
                proof {
                    lemma_evolves_bump(c0);
                    lemma_evolves_trans(c0, mid, self.deep_view());
                }
                return None;
            }
        };
        match get_xml(rendered.as_str()) {
            None => None,
            Some(parsed) => {
                let already = match self.rendered_variants.get(name) {
                    Some(e) => Some(e.duplicate()),
                    None => None,
                };
                match already {
                    Some(e) => Some(e),
                    None => {
                        let ghost pre = self.deep_view();
                        let copy = parsed.duplicate();
                        self.rendered_variants.insert(name.to_owned(), parsed);
                        proof {
                            lemma_evolves_rendered(pre, name@, copy.deep_view());
                            assert(self.deep_view() =~~= CtxV {
                                rendered: pre.rendered.insert(name@, copy.deep_view()),
                                ..pre
                            });
                            lemma_evolves_trans(c0, pre, self.deep_view());
                        }
                        Some(copy)
                    }
                }
            }
        }
    }

    /// Renders the named variant into a document, memoized per context: for
    /// one context and one name the template is compiled and evaluated at
    /// most once; later calls return the cached document unchanged, and
    /// every read hands out an independent copy.  A fresh render is pinned
    /// exactly by `spec_get_variant`: the indexed file's text is compiled,
    /// evaluated, parsed and cached.
    pub fn get_variant(&mut self, name: &str) -> (r: Option<Elem>)
        ensures
            evolves(old(self).deep_view(), final(self).deep_view()),
            old(self).deep_view().rendered.contains_key(name@) ==> *final(self) == *old(self)
                && (r matches Some(e) && e.deep_view() == old(self).deep_view().rendered[name@]),
            (!old(self).deep_view().rendered.contains_key(name@)
                && !old(self).deep_view().species.variant_paths.contains_key(name@))
                ==> (r is None && *final(self) == *old(self)),
            r matches Some(e) ==> final(self).deep_view().rendered.contains_key(name@)
                && final(self).deep_view().rendered[name@] == e.deep_view(),
            final(self).deep_view() == spec_get_variant(
                old(self).deep_view(),
                name@,
                RENDER_DEPTH as nat,
            ).1,
            match r {
                Some(e) => spec_get_variant(old(self).deep_view(), name@, RENDER_DEPTH as nat).0
                    == Some(e.deep_view()),
                None => spec_get_variant(old(self).deep_view(), name@, RENDER_DEPTH as nat).0
                    is None,
            },
    {
        self.get_variant_fueled(name, RENDER_DEPTH)
    }

    /// Evaluates a compiled template for variant `variant_name`: exactly
    /// the node-list evaluation `spec_render_nodes`, at the engine's
    /// recursion allowance.
    pub fn render(&mut self, t: &Template, variant_name: &str) -> (r: Result<
        String,
        TemplateError,
    >)
        ensures
            evolves(old(self).deep_view(), final(self).deep_view()),
            final(self).deep_view() == spec_render_nodes(
                old(self).deep_view(),
                t.deep_view(),
                variant_name@,
                RENDER_DEPTH as nat,
            ).1,
            match r {
                Ok(s) => spec_render_nodes(
                    old(self).deep_view(),
                    t.deep_view(),
                    variant_name@,
                    RENDER_DEPTH as nat,
                ).0 == Some(s@),
                Err(_) => spec_render_nodes(
                    old(self).deep_view(),
                    t.deep_view(),
                    variant_name@,
                    RENDER_DEPTH as nat,
                ).0 is None,
            },
    {
        self.render_template_fueled(t, variant_name, RENDER_DEPTH)
    }

    /// Compiles and evaluates template text for variant `variant_name`:
    /// exactly `spec_render_str` at the engine's recursion allowance.
    pub fn render_to_string(&mut self, src: &str, variant_name: &str) -> (r: Result<
        String,
        TemplateError,
    >)
        ensures
            evolves(old(self).deep_view(), final(self).deep_view()),
            final(self).deep_view() == spec_render_str(
                old(self).deep_view(),
                src@,
                variant_name@,
                RENDER_DEPTH as nat,
            ).1,
            match r {
                Ok(s) => spec_render_str(
                    old(self).deep_view(),
                    src@,
                    variant_name@,
                    RENDER_DEPTH as nat,
                ).0 == Some(s@),
                Err(_) => spec_render_str(
                    old(self).deep_view(),
                    src@,
                    variant_name@,
                    RENDER_DEPTH as nat,
                ).0 is None,
            },
    {
        self.render_str_fueled(src, variant_name, RENDER_DEPTH)
    }
}

} // verus!
