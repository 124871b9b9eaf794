//! Emotes assembled from named assets: each asset is a document fragment
//! keyed by its `label` (or, failing that, `id`) attribute.

use vstd::prelude::*;
use vstd::string::*;
use crate::dict::Dict;
use crate::xml::{attrs_get, attrs_has, Elem, ElemV, Node, NodeV, elem_view, node_view,
    nodes_view, lemma_nodes_view_index, lemma_nodes_view_len, lemma_nodes_deep_view};
use crate::xmlload::{get_xml, parsed_root};

verus! {

broadcast use {
    vstd::std_specs::vec::group_vec_axioms,
    lemma_nodes_view_len,
    lemma_nodes_view_index,
    lemma_nodes_deep_view,
};

// ---------------------------------------------------------------------------
// Path text
// ---------------------------------------------------------------------------

/// `p` resolved against `dir`: an absolute path stands, anything else is
/// `dir/p`.
pub open spec fn joined_path(dir: Seq<char>, p: Seq<char>) -> Seq<char> {
    if p.len() >= 1 && p[0] == '/' {
        p
    } else {
        dir + seq!['/'] + p
    }
}

pub fn join_path(dir: &str, p: &str) -> (r: String)
    ensures
        r@ == joined_path(dir@, p@),
{
    proof {
        reveal_strlit("/");
        assert("/"@ =~= seq!['/']);
    }
    let plen = p.unicode_len();
    if plen >= 1 && p.get_char(0) == '/' {
        p.to_owned()
    } else {
        let mut out = dir.to_owned();
        out.append("/");
        out.append(p);
        proof {
            assert(out@ =~= dir@ + seq!['/'] + p@);
        }
        out
    }
}

/// Index of the last `/` in `s`, if any.
pub open spec fn rfind_slash(s: Seq<char>) -> Option<int>
    decreases s.len(),
{
    if s.len() == 0 {
        None
    } else if s.last() == '/' {
        Some(s.len() - 1)
    } else {
        rfind_slash(s.drop_last())
    }
}

/// The directory part of a path: up to its last `/`, or `.` if none.
pub open spec fn dir_of(path: Seq<char>) -> Seq<char> {
    match rfind_slash(path) {
        Some(i) => path.subrange(0, i),
        None => seq!['.'],
    }
}

pub fn parent_dir(path: &str) -> (r: String)
    ensures
        r@ == dir_of(path@),
{
    proof {
        reveal_strlit(".");
        assert("."@ =~= seq!['.']);
    }
    let len = path.unicode_len();
    let mut i: usize = len;
    proof {
        assert(path@.take(len as int) =~= path@);
    }
    while i > 0
        invariant
            0 <= i <= len,
            len == path@.len(),
            rfind_slash(path@) == rfind_slash(path@.take(i as int)),
        decreases i,
    {
        proof {
            assert(path@.take(i as int).last() == path@[i - 1]);
            assert(path@.take(i as int).drop_last() =~= path@.take(i as int - 1));
        }
        if path.get_char(i - 1) == '/' {
            let r = path.substring_char(0, i - 1);
            proof {
                assert(r@ =~= path@.subrange(0, i as int - 1));
            }
            return r.to_owned();
        }
        i -= 1;
    }
    proof {
        assert(path@.take(0) =~= Seq::<char>::empty());
    }
    ".".to_owned()
}

// ---------------------------------------------------------------------------
// Emote assets
// ---------------------------------------------------------------------------

pub struct Asset {
    element: Elem,
}

impl DeepView for Asset {
    type V = ElemV;

    closed spec fn deep_view(&self) -> ElemV {
        elem_view(self.element)
    }
}

impl Asset {
    pub fn new(element: Elem) -> (r: Asset)
        ensures
            r.deep_view() == element.deep_view(),
    {
        Asset { element }
    }

    pub fn duplicate(&self) -> (r: Asset)
        ensures
            r.deep_view() == self.deep_view(),
    {
        Asset { element: self.element.duplicate() }
    }

    /// The fragment this asset holds.
    pub fn element(&self) -> (r: &Elem)
        ensures
            r.deep_view() == self.deep_view(),
    {
        &self.element
    }

    /// Loads an individually declared asset from the file store.
    pub fn from_decl(declaration: crate::decl::Asset, files: &Dict<String>) -> (r: Option<Asset>)
        requires
            declaration.deep_view().1 is Some,
        ensures
            match r {
                Some(a) => declaration.deep_view().1 matches Some(p) && files@.contains_key(p)
                    && parsed_root(files@[p]) == Some(a.deep_view()),
                None => declaration.deep_view().1 matches Some(p) && (!files@.contains_key(p)
                    || parsed_root(files@[p]) is None),
            },
    {
        let src = match declaration.src {
            Some(s) => s,
            None => {
                proof {
                    assert(false);
                }
                return None;
            }
        };
        let text = match files.get(src.as_str()) {
            Some(t) => t.clone(),
            None => {
                return None;
            }
        };
        match get_xml(text.as_str()) {
            Some(e) => Some(Asset { element: e }),
            None => None,
        }
    }
}

// ---------------------------------------------------------------------------
// Emotes
// ---------------------------------------------------------------------------

/// Elements among `ns`, one `<g>` level flattened: a top-level group
/// contributes its own element children instead of itself.
pub open spec fn flat_elems(ns: Seq<NodeV>) -> Seq<ElemV>
    decreases ns,
{
    if ns.len() == 0 {
        Seq::empty()
    } else {
        flat_elems(ns.drop_last()) + match ns.last() {
            NodeV::Element(e) => if e.name == "g"@ {
                child_elems(e.children)
            } else {
                seq![e]
            },
            _ => Seq::empty(),
        }
    }
}

pub open spec fn child_elems(ns: Seq<NodeV>) -> Seq<ElemV>
    decreases ns,
{
    if ns.len() == 0 {
        Seq::empty()
    } else {
        child_elems(ns.drop_last()) + match ns.last() {
            NodeV::Element(e) => seq![e],
            _ => Seq::empty(),
        }
    }
}

/// Whether an element is drawable content worth keeping as an asset.
pub open spec fn drawable(name: Seq<char>) -> bool {
    name != "title"@ && name != "sodipodi:namedview"@ && name != "image"@ && name != "metadata"@
}

pub open spec fn keep_drawable(es: Seq<ElemV>) -> Seq<ElemV>
    decreases es.len(),
{
    if es.len() == 0 {
        Seq::empty()
    } else {
        keep_drawable(es.drop_last()) + (if drawable(es.last().name) {
            seq![es.last()]
        } else {
            Seq::empty()
        })
    }
}

/// The key an element is stored under: its `label`, or failing that its
/// `id`.
pub open spec fn asset_key(e: ElemV) -> Option<Seq<char>> {
    if attrs_has(e.attrs, "label"@) {
        Some(attrs_get(e.attrs, "label"@))
    } else if attrs_has(e.attrs, "id"@) {
        Some(attrs_get(e.attrs, "id"@))
    } else {
        None
    }
}

/// The asset table read from a run of elements, in order; a later element
/// under the same key shadows an earlier one.
pub open spec fn emote_map(es: Seq<ElemV>) -> Map<Seq<char>, ElemV>
    decreases es.len(),
{
    if es.len() == 0 {
        Map::empty()
    } else {
        match asset_key(es.last()) {
            Some(k) => emote_map(es.drop_last()).insert(k, es.last()),
            None => emote_map(es.drop_last()),
        }
    }
}

/// The asset table of a whole drawing.
pub open spec fn emote_of_xml(root: ElemV) -> Map<Seq<char>, ElemV> {
    emote_map(keep_drawable(flat_elems(root.children)))
}

pub struct Emote {
    pub assets: Dict<Asset>,
}

impl Emote {
    pub fn empty() -> (r: Emote)
        ensures
            r.assets@ == Map::<Seq<char>, ElemV>::empty(),
    {
        Emote { assets: Dict::new() }
    }

    pub fn duplicate(&self) -> (r: Emote)
        ensures
            r.assets@ == self.assets@,
    {
        Emote { assets: crate::dict::duplicate_assets(&self.assets) }
    }

    /// Loads an emote from a drawing: top-level `<g>` groups are flattened
    /// one level, non-drawable elements are dropped, and each remaining
    /// element is stored under its `label` or `id`.
    pub fn from_xml(root: Elem) -> (r: Option<Emote>)
        ensures
            r matches Some(em) && em.assets@ == emote_of_xml(root.deep_view()),
    {
        let ghost cv = nodes_view(root.children@);
        let mut flats: Vec<Elem> = Vec::new();
        let n = root.children.len();
        let mut i: usize = 0;
        while i < n
            invariant
                0 <= i <= n,
                n == root.children@.len(),
                cv == nodes_view(root.children@),
                flats.deep_view() =~= flat_elems(cv.take(i as int)),
            decreases n - i,
        {
            let ghost pre = flats.deep_view();
            match &root.children[i] {
                Node::Element(e) => {
                    if crate::text::str_eq(e.name.as_str(), "g") {
                        let ghost gv = nodes_view(e.children@);
                        let gn = e.children.len();
                        let mut j: usize = 0;
                        proof {
                            assert(pre + child_elems(gv.take(0)) =~= pre);
                        }
                        while j < gn
                            invariant
                                0 <= j <= gn,
                                gn == e.children@.len(),
                                gv == nodes_view(e.children@),
                                flats.deep_view() =~= pre + child_elems(gv.take(j as int)),
                            decreases gn - j,
                        {
                            let ghost pre2 = flats.deep_view();
                            match &e.children[j] {
                                Node::Element(c) => {
                                    flats.push(c.duplicate());
                                    proof {
                                        assert(gv[j as int] == NodeV::Element(c.deep_view()));
                                        assert(flats.deep_view() =~= pre2.push(c.deep_view()));
                                    }
                                }
                                _ => {
                                    proof {
                                        assert(!(gv[j as int] is Element));
                                    }
                                }
                            }
                            proof {
                                assert(gv.take(j as int + 1).drop_last() =~= gv.take(j as int));
                                assert(gv.take(j as int + 1).last() == gv[j as int]);
                                assert(flats.deep_view() =~= pre + child_elems(gv.take(
                                    j as int + 1,
                                )));
                            }
                            j += 1;
                        }
                        proof {
                            assert(gv.take(gn as int) =~= gv);
                            assert(cv[i as int] == NodeV::Element(e.deep_view()));
                        }
                    } else {
                        flats.push(e.duplicate());
                        proof {
                            assert(cv[i as int] == NodeV::Element(e.deep_view()));
                            assert(flats.deep_view() =~= pre.push(e.deep_view()));
                        }
                    }
                }
                _ => {
                    proof {
                        assert(!(cv[i as int] is Element));
                    }
                }
            }
            proof {
                assert(cv.take(i as int + 1).drop_last() =~= cv.take(i as int));
                assert(cv.take(i as int + 1).last() == cv[i as int]);
                assert(flats.deep_view() =~= flat_elems(cv.take(i as int + 1)));
            }
            i += 1;
        }
        proof {
            assert(cv.take(n as int) =~= cv);
        }
        let ghost fv = flats.deep_view();
        let mut assets: Dict<Asset> = Dict::new();
        let fn_ = flats.len();
        let mut k: usize = 0;
        proof {
            assert(keep_drawable(fv.take(0)) =~= Seq::<ElemV>::empty());
        }
        while k < fn_
            invariant
                0 <= k <= fn_,
                fn_ == flats@.len(),
                fv == flats.deep_view(),
                assets@ =~= emote_map(keep_drawable(fv.take(k as int))),
            decreases fn_ - k,
        {
            let ghost pre = assets@;
            let e = &flats[k];
            proof {
                assert(fv[k as int] == flats@[k as int].deep_view());
            }
            let is_drawable = !(crate::text::str_eq(e.name.as_str(), "title") || crate::text::str_eq(
                e.name.as_str(),
                "sodipodi:namedview",
            ) || crate::text::str_eq(e.name.as_str(), "image") || crate::text::str_eq(
                e.name.as_str(),
                "metadata",
            ));
            if is_drawable {
                let key = match e.get_attr("label") {
                    Some(l) => Some(l.clone()),
                    None => match e.get_attr("id") {
                        Some(l) => Some(l.clone()),
                        None => None,
                    },
                };
                match key {
                    Some(kk) => {
                        assets.insert(kk, Asset { element: e.duplicate() });
                    }
                    None => {}
                }
            }
            proof {
                let kept0 = keep_drawable(fv.take(k as int));
                let kept1 = keep_drawable(fv.take(k as int + 1));
                assert(fv.take(k as int + 1).drop_last() =~= fv.take(k as int));
                assert(fv.take(k as int + 1).last() == fv[k as int]);
                if drawable(fv[k as int].name) {
                    assert(kept1 =~= kept0 + seq![fv[k as int]]);
                    assert(kept1.drop_last() =~= kept0);
                    assert(kept1.last() == fv[k as int]);
                    assert(emote_map(kept1) == (match asset_key(fv[k as int]) {
                        Some(kx) => emote_map(kept0).insert(kx, fv[k as int]),
                        None => emote_map(kept0),
                    }));
                } else {
                    assert(kept1 =~= kept0);
                }
                assert(assets@ =~= emote_map(kept1));
            }
            k += 1;
        }
        proof {
            assert(fv.take(fn_ as int) =~= fv);
        }
        Some(Emote { assets })
    }
}

impl DeepView for Emote {
    type V = Map<Seq<char>, ElemV>;

    open spec fn deep_view(&self) -> Map<Seq<char>, ElemV> {
        self.assets@
    }
}

/// Each individually declared asset loaded from the file store and laid
/// into the table; the first unavailable one fails the whole load.
pub open spec fn add_assets(
    m: Map<Seq<char>, ElemV>,
    assets: Seq<(Seq<char>, Option<Seq<char>>)>,
    files: Map<Seq<char>, Seq<char>>,
) -> Option<Map<Seq<char>, ElemV>>
    decreases assets.len(),
{
    if assets.len() == 0 {
        Some(m)
    } else {
        match assets.first().1 {
            Some(p) => {
                if files.contains_key(p) {
                    match parsed_root(files[p]) {
                        Some(root) => add_assets(
                            m.insert(assets.first().0, root),
                            assets.drop_first(),
                            files,
                        ),
                        None => None,
                    }
                } else {
                    None
                }
            }
            None => None,
        }
    }
}

/// What `Emote::from_decl` yields: a base emote from the variant's source
/// drawing, from the named already-built emote, or empty; then the
/// individually declared assets on top.
pub open spec fn spec_from_decl(
    d: crate::decl::VariantV,
    emotes: Map<Seq<char>, Map<Seq<char>, ElemV>>,
    files: Map<Seq<char>, Seq<char>>,
) -> Option<Map<Seq<char>, ElemV>> {
    let base = match d.src {
        Some(p) => {
            if files.contains_key(p) {
                match parsed_root(files[p]) {
                    Some(root) => Some(emote_of_xml(root)),
                    None => None,
                }
            } else {
                None
            }
        }
        None => match d.base {
            Some(b) => {
                if emotes.contains_key(b) {
                    Some(emotes[b])
                } else {
                    None
                }
            }
            None => Some(Map::empty()),
        },
    };
    match base {
        None => None,
        Some(m) => add_assets(m, d.assets, files),
    }
}

impl Emote {
    /// Builds the emote one variant declaration describes, against the
    /// already-built emotes and the file store.
    pub fn from_decl(
        variant_decl: crate::decl::Variant,
        emotes: &Dict<Emote>,
        files: &Dict<String>,
    ) -> (r: Option<Emote>)
        requires
            forall|i: int|
                0 <= i < variant_decl.deep_view().assets.len()
                    ==> (#[trigger] variant_decl.deep_view().assets[i]).1 is Some,
        ensures
            match r {
                Some(em) => spec_from_decl(variant_decl.deep_view(), emotes@, files@) == Some(
                    em.assets@,
                ),
                None => spec_from_decl(variant_decl.deep_view(), emotes@, files@) is None,
            },
    {
        let ghost dv = variant_decl.deep_view();
        let crate::decl::Variant { base, src, assets: asset_decls, overwrites: _ } = variant_decl;
        let mut res = match src {
            Some(p) => {
                proof {
                    assert(dv.src == Some(p@));
                }
                let text = match files.get(p.as_str()) {
                    Some(t) => t.clone(),
                    None => {
                        proof {
                            assert(spec_from_decl(dv, emotes@, files@) is None);
                        }
                        return None;
                    }
                };
                match get_xml(text.as_str()) {
                    Some(root) => match Emote::from_xml(root) {
                        Some(em) => em,
                        None => {
                            proof {
                                assert(false);
                            }
                            return None;
                        }
                    },
                    None => {
                        proof {
                            assert(spec_from_decl(dv, emotes@, files@) is None);
                        }
                        return None;
                    }
                }
            }
            None => match base {
                Some(b) => match emotes.get(b.as_str()) {
                    Some(em) => em.duplicate(),
                    None => {
                        proof {
                            assert(dv.src is None && dv.base == Some(b@));
                            assert(spec_from_decl(dv, emotes@, files@) is None);
                        }
                        return None;
                    }
                },
                None => Emote::empty(),
            },
        };
        proof {
            assert(spec_from_decl(dv, emotes@, files@) == add_assets(
                res.assets@,
                dv.assets,
                files@,
            ));
            assert(asset_decls.deep_view() =~= dv.assets);
        }
        add_assets_exec(res, asset_decls, files)
    }
}

/// Lays each declared asset into the table, in order; the first
/// unavailable one fails the whole load.
fn add_assets_exec(res: Emote, decls: Vec<crate::decl::Asset>, files: &Dict<String>) -> (r:
    Option<Emote>)
    requires
        forall|i: int|
            0 <= i < decls.deep_view().len() ==> (#[trigger] decls.deep_view()[i]).1 is Some,
    ensures
        match r {
            Some(em) => add_assets(res.assets@, decls.deep_view(), files@) == Some(em.assets@),
            None => add_assets(res.assets@, decls.deep_view(), files@) is None,
        },
    decreases decls@.len(),
{
    let ghost all = decls.deep_view();
    let mut decls = decls;
    if decls.len() == 0 {
        proof {
            assert(all.len() == 0);
        }
        return Some(res);
    }
    let ghost pre_dv = decls.deep_view();
    let ad = decls.remove(0);
    proof {
        assert(decls.deep_view() =~= pre_dv.drop_first());
        assert(ad.deep_view() == pre_dv.first());
        assert(all[0].1 is Some);
    }
    let name = ad.name.clone();
    match Asset::from_decl(ad, files) {
        Some(a) => {
            let mut res = res;
            let ghost m0 = res.assets@;
            res.assets.insert(name, a);
            proof {
                assert(add_assets(m0, all, files@) == add_assets(
                    res.assets@,
                    all.drop_first(),
                    files@,
                ));
            }
            let r = add_assets_exec(res, decls, files);
            proof {
                assert(decls.deep_view() =~= all.drop_first());
            }
            r
        }
        None => {
            proof {
                assert(add_assets(res.assets@, all, files@) is None);
            }
            None
        }
    }
}


/// What `construct_emote` yields and leaves behind: a missing name builds
/// nothing; a variant without a base builds straight from its declaration;
/// one with a base first builds the base recursively, stores it under the
/// base's name, and then builds against the grown table.  Cyclic base
/// references run out of fuel and build nothing.
pub open spec fn spec_construct(
    variants: Seq<(Seq<char>, crate::decl::VariantV)>,
    emotes: Map<Seq<char>, Map<Seq<char>, ElemV>>,
    files: Map<Seq<char>, Seq<char>>,
    name: Seq<char>,
    fuel: nat,
) -> (Option<Map<Seq<char>, ElemV>>, Map<Seq<char>, Map<Seq<char>, ElemV>>)
    decreases fuel,
{
    match crate::decl::assoc_get(variants, name) {
        None => (None, emotes),
        Some(v) => match v.base {
            None => (spec_from_decl(v, emotes, files), emotes),
            Some(b) => {
                if fuel == 0 {
                    (None, emotes)
                } else {
                    let built = spec_construct(variants, emotes, files, b, (fuel - 1) as nat);
                    match built.0 {
                        None => (None, built.1),
                        Some(base_map) => {
                            let emotes2 = built.1.insert(b, base_map);
                            (spec_from_decl(v, emotes2, files), emotes2)
                        }
                    }
                }
            }
        },
    }
}

/// Recursively builds the emote named `name`: a declared base is built
/// first and made available to the lookup.  Cyclic base references run
/// out of `fuel` and fail.
pub fn construct_emote(
    name: &str,
    declaration: &crate::decl::Declaration,
    emotes: &mut Dict<Emote>,
    files: &Dict<String>,
    fuel: u64,
) -> (r: Option<Emote>)
    requires
        forall|i: int, j: int|
            0 <= i < declaration.variants.deep_view().len() && 0 <= j < (
            #[trigger] declaration.variants.deep_view()[i]).1.assets.len() ==> (
            #[trigger] declaration.variants.deep_view()[i].1.assets[j]).1 is Some,
    ensures
        final(emotes)@ == spec_construct(
            declaration.variants.deep_view(),
            old(emotes)@,
            files@,
            name@,
            fuel as nat,
        ).1,
        match r {
            Some(em) => spec_construct(
                declaration.variants.deep_view(),
                old(emotes)@,
                files@,
                name@,
                fuel as nat,
            ).0 == Some(em.assets@),
            None => spec_construct(
                declaration.variants.deep_view(),
                old(emotes)@,
                files@,
                name@,
                fuel as nat,
            ).0 is None,
        },
    decreases fuel,
{
    let vd = match crate::decl::find_variant_pub(&declaration.variants, name) {
        Some(v) => v,
        None => {
            return None;
        }
    };
    proof {
        let i = choose|i: int|
            0 <= i < declaration.variants.deep_view().len()
                && declaration.variants.deep_view()[i].0 == name@ && crate::decl::assoc_get(
                declaration.variants.deep_view(),
                name@,
            ) == Some(declaration.variants.deep_view()[i].1);
        assert(vd.deep_view().assets =~= declaration.variants.deep_view()[i].1.assets);
    }
    match &vd.base {
        Some(b) => {
            if fuel == 0 {
                return None;
            }
            let bname = b.clone();
            let built = construct_emote(bname.as_str(), declaration, emotes, files, fuel - 1);
            match built {
                Some(base_emote) => {
                    emotes.insert(bname, base_emote);
                }
                None => {
                    return None;
                }
            }
            Emote::from_decl(vd, emotes, files)
        }
        None => Emote::from_decl(vd, emotes, files),
    }
}


} // verus!
