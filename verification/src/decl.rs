//! Declarations for assembling emotes from named assets: a named unit with
//! a variant table, merged with an inherited parent chain by appending the
//! parent's assets and overwrites and filling unset fields.

use vstd::prelude::*;
use vstd::string::*;
use crate::text::{contains_str, str_eq};

verus! {

pub struct Declaration {
    pub name: String,
    pub base: Option<String>,
    pub variants: Vec<(String, Variant)>,
}

pub struct Variant {
    pub base: Option<String>,
    /// Loads every asset from one drawing file.
    pub src: Option<String>,
    /// Loads individual assets.
    pub assets: Vec<Asset>,
    /// Operations on assets.
    pub overwrites: Vec<Overwrite>,
}

pub struct Asset {
    pub name: String,
    pub src: Option<String>,
}

pub struct Overwrite {
    /// The element to modify.
    pub id: String,
    pub fill: Option<u32>,
    pub stroke: Option<u32>,
    pub remove: bool,
}

#[verifier::ext_equal]
pub struct VariantV {
    pub base: Option<Seq<char>>,
    pub src: Option<Seq<char>>,
    pub assets: Seq<(Seq<char>, Option<Seq<char>>)>,
    pub overwrites: Seq<(Seq<char>, Option<u32>, Option<u32>, bool)>,
}

impl DeepView for Asset {
    type V = (Seq<char>, Option<Seq<char>>);

    open spec fn deep_view(&self) -> (Seq<char>, Option<Seq<char>>) {
        (self.name@, self.src.deep_view())
    }
}

impl DeepView for Overwrite {
    type V = (Seq<char>, Option<u32>, Option<u32>, bool);

    open spec fn deep_view(&self) -> (Seq<char>, Option<u32>, Option<u32>, bool) {
        (self.id@, self.fill, self.stroke, self.remove)
    }
}

impl DeepView for Variant {
    type V = VariantV;

    open spec fn deep_view(&self) -> VariantV {
        VariantV {
            base: self.base.deep_view(),
            src: self.src.deep_view(),
            assets: self.assets.deep_view(),
            overwrites: self.overwrites.deep_view(),
        }
    }
}

/// The first variant bound to `k`, if any.
pub open spec fn assoc_get(ps: Seq<(Seq<char>, VariantV)>, k: Seq<char>) -> Option<VariantV>
    decreases ps.len(),
{
    if ps.len() == 0 {
        None
    } else if ps.first().0 == k {
        Some(ps.first().1)
    } else {
        assoc_get(ps.drop_first(), k)
    }
}

pub open spec fn assoc_has(ps: Seq<(Seq<char>, VariantV)>, k: Seq<char>) -> bool {
    exists|i: int| 0 <= i < ps.len() && ps[i].0 == k
}

/// A variant merged with its namesake from the parent: asset and overwrite
/// lists are appended, unset fields fall back to the parent's.
pub open spec fn variant_join(c: VariantV, p: VariantV) -> VariantV {
    VariantV {
        assets: c.assets + p.assets,
        overwrites: c.overwrites + p.overwrites,
        base: if c.base is None {
            p.base
        } else {
            c.base
        },
        src: if c.src is None {
            p.src
        } else {
            c.src
        },
    }
}

/// The child's entries, each merged with the parent's namesake if one
/// exists.
pub open spec fn merge_child(
    child: Seq<(Seq<char>, VariantV)>,
    parent: Seq<(Seq<char>, VariantV)>,
) -> Seq<(Seq<char>, VariantV)>
    decreases child.len(),
{
    if child.len() == 0 {
        Seq::empty()
    } else {
        merge_child(child.drop_last(), parent) + seq![
            match assoc_get(parent, child.last().0) {
                Some(pv) => (child.last().0, variant_join(child.last().1, pv)),
                None => child.last(),
            },
        ]
    }
}

/// The parent's entries whose names the child does not declare, in order.
pub open spec fn parent_only(
    child: Seq<(Seq<char>, VariantV)>,
    parent: Seq<(Seq<char>, VariantV)>,
) -> Seq<(Seq<char>, VariantV)>
    decreases parent.len(),
{
    if parent.len() == 0 {
        Seq::empty()
    } else {
        parent_only(child, parent.drop_last()) + (if assoc_has(child, parent.last().0) {
            Seq::empty()
        } else {
            seq![parent.last()]
        })
    }
}

pub open spec fn join_pairs(
    child: Seq<(Seq<char>, VariantV)>,
    parent: Seq<(Seq<char>, VariantV)>,
) -> Seq<(Seq<char>, VariantV)> {
    merge_child(child, parent) + parent_only(child, parent)
}

fn clone_opt_string(s: &Option<String>) -> (r: Option<String>)
    ensures
        r.deep_view() == s.deep_view(),
{
    match s {
        Some(v) => Some(v.clone()),
        None => None,
    }
}

impl Asset {
    pub fn duplicate(&self) -> (r: Asset)
        ensures
            r.deep_view() == self.deep_view(),
    {
        Asset { name: self.name.clone(), src: clone_opt_string(&self.src) }
    }

    /// Turns a path relative to the declaration file into one relative to
    /// the working directory.
    pub fn canonicalize(&mut self, dir: &str)
        ensures
            final(self).deep_view() == ((old(self).deep_view().0, match old(
                self,
            ).deep_view().1 {
                Some(p) => Some(crate::emote::joined_path(dir@, p)),
                None => None::<Seq<char>>,
            })),
    {
        match &self.src {
            Some(p) => {
                let np = crate::emote::join_path(dir, p.as_str());
                self.src = Some(np);
            }
            None => {}
        }
    }
}

impl Overwrite {
    pub fn duplicate(&self) -> (r: Overwrite)
        ensures
            r.deep_view() == self.deep_view(),
    {
        Overwrite { id: self.id.clone(), fill: self.fill, stroke: self.stroke, remove: self.remove }
    }
}

fn clone_assets(v: &Vec<Asset>) -> (r: Vec<Asset>)
    ensures
        r.deep_view() == v.deep_view(),
{
    let mut out: Vec<Asset> = Vec::new();
    let n = v.len();
    let mut i: usize = 0;
    while i < n
        invariant
            0 <= i <= n,
            n == v@.len(),
            out.deep_view() =~= v.deep_view().take(i as int),
        decreases n - i,
    {
        let ghost pre = out.deep_view();
        out.push(v[i].duplicate());
        proof {
            assert(out.deep_view() =~= pre.push(v@[i as int].deep_view()));
            assert(out.deep_view() =~= v.deep_view().take(i as int + 1));
        }
        i += 1;
    }
    proof {
        assert(v.deep_view().take(n as int) =~= v.deep_view());
    }
    out
}

fn clone_overwrites(v: &Vec<Overwrite>) -> (r: Vec<Overwrite>)
    ensures
        r.deep_view() == v.deep_view(),
{
    let mut out: Vec<Overwrite> = Vec::new();
    let n = v.len();
    let mut i: usize = 0;
    while i < n
        invariant
            0 <= i <= n,
            n == v@.len(),
            out.deep_view() =~= v.deep_view().take(i as int),
        decreases n - i,
    {
        let ghost pre = out.deep_view();
        out.push(v[i].duplicate());
        proof {
            assert(out.deep_view() =~= pre.push(v@[i as int].deep_view()));
            assert(out.deep_view() =~= v.deep_view().take(i as int + 1));
        }
        i += 1;
    }
    proof {
        assert(v.deep_view().take(n as int) =~= v.deep_view());
    }
    out
}

impl Variant {
    pub fn duplicate(&self) -> (r: Variant)
        ensures
            r.deep_view() == self.deep_view(),
    {
        let r = Variant {
            base: clone_opt_string(&self.base),
            src: clone_opt_string(&self.src),
            assets: clone_assets(&self.assets),
            overwrites: clone_overwrites(&self.overwrites),
        };
        proof {
            assert(r.deep_view() =~~= self.deep_view());
        }
        r
    }

    /// Merges the parent's namesake variant into this one.
    pub fn join(&mut self, parent: Variant)
        ensures
            final(self).deep_view() == variant_join(old(self).deep_view(), parent.deep_view()),
    {
        let ghost c = self.deep_view();
        let ghost p = parent.deep_view();
        let Variant { base: pbase, src: psrc, assets: mut passets, overwrites: mut poverwrites } =
            parent;
        let ghost a0 = self.assets.deep_view();
        self.assets.append(&mut passets);
        proof {
            assert forall|t: int|
                0 <= t < self.assets.deep_view().len() implies self.assets.deep_view()[t] == (a0
                + p.assets)[t] by {
                assert(self.assets.deep_view()[t] == self.assets@[t].deep_view());
            }
            assert(self.assets.deep_view() =~= c.assets + p.assets);
        }
        let ghost o0 = self.overwrites.deep_view();
        self.overwrites.append(&mut poverwrites);
        proof {
            assert forall|t: int|
                0 <= t < self.overwrites.deep_view().len() implies self.overwrites.deep_view()[t]
                == (o0 + p.overwrites)[t] by {
                assert(self.overwrites.deep_view()[t] == self.overwrites@[t].deep_view());
            }
            assert(self.overwrites.deep_view() =~= c.overwrites + p.overwrites);
        }
        if self.base.is_none() {
            self.base = pbase;
        }
        if self.src.is_none() {
            self.src = psrc;
        }
        proof {
            assert(self.deep_view() =~~= variant_join(c, p));
        }
    }

    /// Turns paths relative to the declaration file into paths relative to
    /// the working directory.
    pub fn canonicalize(&mut self, dir: &str)
        ensures
            final(self).deep_view() == (VariantV {
                src: match old(self).deep_view().src {
                    Some(p) => Some(crate::emote::joined_path(dir@, p)),
                    None => None::<Seq<char>>,
                },
                assets: old(self).deep_view().assets.map_values(
                    |a: (Seq<char>, Option<Seq<char>>)|
                        (a.0, match a.1 {
                            Some(p) => Some(crate::emote::joined_path(dir@, p)),
                            None => None::<Seq<char>>,
                        }),
                ),
                ..old(self).deep_view()
            }),
    {
        let ghost v0 = self.deep_view();
        match &self.src {
            Some(p) => {
                let np = crate::emote::join_path(dir, p.as_str());
                self.src = Some(np);
            }
            None => {}
        }
        let n = self.assets.len();
        let mut i: usize = 0;
        while i < n
            invariant
                0 <= i <= n,
                n == self.assets@.len(),
                self.base.deep_view() == v0.base,
                self.src.deep_view() == (match v0.src {
                    Some(p) => Some(crate::emote::joined_path(dir@, p)),
                    None => None::<Seq<char>>,
                }),
                self.overwrites.deep_view() == v0.overwrites,
                self.assets@.len() == v0.assets.len(),
                forall|t: int|
                    i <= t < n ==> self.assets@[t].deep_view() == v0.assets[t],
                forall|t: int|
                    0 <= t < i ==> self.assets@[t].deep_view() == (
                    (v0.assets[t].0, match v0.assets[t].1 {
                        Some(p) => Some(crate::emote::joined_path(dir@, p)),
                        None => None::<Seq<char>>,
                    })),
            decreases n - i,
        {
            let mut a = self.assets.remove(i);
            a.canonicalize(dir);
            self.assets.insert(i, a);
            i += 1;
        }
        proof {
            assert forall|t: int|
                0 <= t < n implies self.assets.deep_view()[t] == v0.assets.map_values(
                |a: (Seq<char>, Option<Seq<char>>)|
                    (a.0, match a.1 {
                        Some(p) => Some(crate::emote::joined_path(dir@, p)),
                        None => None::<Seq<char>>,
                    }),
            )[t] by {
                assert(self.assets.deep_view()[t] == self.assets@[t].deep_view());
            }
            assert(self.assets.deep_view() =~= v0.assets.map_values(
                |a: (Seq<char>, Option<Seq<char>>)|
                    (a.0, match a.1 {
                        Some(p) => Some(crate::emote::joined_path(dir@, p)),
                        None => None::<Seq<char>>,
                    }),
            ));
            assert(self.deep_view() =~~= VariantV {
                src: match v0.src {
                    Some(p) => Some(crate::emote::joined_path(dir@, p)),
                    None => None::<Seq<char>>,
                },
                assets: v0.assets.map_values(
                    |a: (Seq<char>, Option<Seq<char>>)|
                        (a.0, match a.1 {
                            Some(p) => Some(crate::emote::joined_path(dir@, p)),
                            None => None::<Seq<char>>,
                        }),
                ),
                ..v0
            });
        }
    }
}

impl Declaration {
    /// Merges an inherited parent declaration into this one: shared variant
    /// names are joined entry-wise, the parent's other variants are
    /// adopted, and the parent's own base is carried on.
    pub fn join(self, parent: Declaration) -> (r: Declaration)
        ensures
            r.name@ == self.name@,
            r.base.deep_view() == parent.base.deep_view(),
            r.variants.deep_view() == join_pairs(
                self.variants.deep_view(),
                parent.variants.deep_view(),
            ),
    {
        let ghost cv = self.variants.deep_view();
        let ghost pv = parent.variants.deep_view();
        let Declaration { name, base: _, variants: child_variants } = self;
        let Declaration { name: _, base: pbase, variants: parent_variants } = parent;
        let mut out: Vec<(String, Variant)> = Vec::new();
        let mut child_keys: Vec<String> = Vec::new();
        let mut rest = child_variants;
        while rest.len() > 0
            invariant
                rest.deep_view() =~= cv.skip(cv.len() - rest@.len()),
                out.deep_view() =~= merge_child(cv.take(cv.len() - rest@.len()), pv),
                child_keys.deep_view() =~= cv.take(cv.len() - rest@.len()).map_values(
                    |p: (Seq<char>, VariantV)| p.0,
                ),
                pv == parent_variants.deep_view(),
                rest@.len() <= cv.len(),
            decreases rest@.len(),
        {
            let ghost k = cv.len() - rest@.len();
            let ghost pre_dv = rest.deep_view();
            let ghost outpre = out.deep_view();
            let ghost keyspre = child_keys.deep_view();
            let (vname, mut variant) = rest.remove(0);
            proof {
                assert(rest.deep_view() =~= pre_dv.drop_first());
                assert((vname@, variant.deep_view()) == pre_dv.first());
                assert(pre_dv.first() == cv[k]);
                assert(rest.deep_view() =~= cv.skip(k + 1));
            }
            match find_variant(&parent_variants, vname.as_str()) {
                Some(pvar) => {
                    variant.join(pvar);
                }
                None => {}
            }
            child_keys.push(vname.clone());
            out.push((vname, variant));
            proof {
                assert(out.deep_view() =~= outpre.push(
                    match assoc_get(pv, cv[k].0) {
                        Some(x) => (cv[k].0, variant_join(cv[k].1, x)),
                        None => cv[k],
                    },
                ));
                assert(cv.take(k + 1).drop_last() =~= cv.take(k));
                assert(cv.take(k + 1).last() == cv[k]);
                assert(out.deep_view() =~= merge_child(cv.take(k + 1), pv));
                assert(child_keys.deep_view() =~= keyspre.push(cv[k].0));
                assert(child_keys.deep_view() =~= cv.take(k + 1).map_values(
                    |p: (Seq<char>, VariantV)| p.0,
                ));
            }
        }
        proof {
            assert(cv.take(cv.len() as int) =~= cv);
            assert(cv.take(cv.len() - rest@.len()) =~= cv);
        }
        // the parent's variants the child does not declare
        let mut prest = parent_variants;
        while prest.len() > 0
            invariant
                child_keys.deep_view() =~= cv.map_values(|p: (Seq<char>, VariantV)| p.0),
                prest.deep_view() =~= pv.skip(pv.len() - prest@.len()),
                out.deep_view() =~= merge_child(cv, pv) + parent_only(
                    cv,
                    pv.take(pv.len() - prest@.len()),
                ),
                prest@.len() <= pv.len(),
            decreases prest@.len(),
        {
            let ghost k = pv.len() - prest@.len();
            let ghost pre_dv = prest.deep_view();
            let ghost outpre = out.deep_view();
            let (vname, variant) = prest.remove(0);
            proof {
                assert(prest.deep_view() =~= pre_dv.drop_first());
                assert((vname@, variant.deep_view()) == pre_dv.first());
                assert(pre_dv.first() == pv[k]);
                assert(prest.deep_view() =~= pv.skip(k + 1));
            }
            let seen = contains_str(&child_keys, vname.as_str());
            proof {
                assert(seen == assoc_has(cv, pv[k].0)) by {
                    if seen {
                        let i = choose|i: int|
                            0 <= i < child_keys.deep_view().len() && child_keys.deep_view()[i]
                                == vname@;
                        assert(cv[i].0 == vname@);
                    }
                    if assoc_has(cv, pv[k].0) {
                        let i = choose|i: int| 0 <= i < cv.len() && cv[i].0 == pv[k].0;
                        assert(child_keys.deep_view()[i] == vname@);
                    }
                }
            }
            if !seen {
                out.push((vname, variant));
            }
            proof {
                assert(pv.take(k + 1).drop_last() =~= pv.take(k));
                assert(pv.take(k + 1).last() == pv[k]);
                if !seen {
                    assert(out.deep_view() =~= outpre.push(pv[k]));
                }
                assert(out.deep_view() =~= merge_child(cv, pv) + parent_only(
                    cv,
                    pv.take(k + 1),
                ));
            }
        }
        proof {
            assert(pv.take(pv.len() - prest@.len()) =~= pv);
        }
        Declaration { name, base: pbase, variants: out }
    }
}

/// A variant with its paths resolved against a directory.
pub open spec fn canon_variant(v: VariantV, dir: Seq<char>) -> VariantV {
    VariantV {
        src: match v.src {
            Some(p) => Some(crate::emote::joined_path(dir, p)),
            None => None::<Seq<char>>,
        },
        assets: v.assets.map_values(
            |a: (Seq<char>, Option<Seq<char>>)|
                (a.0, match a.1 {
                    Some(p) => Some(crate::emote::joined_path(dir, p)),
                    None => None::<Seq<char>>,
                }),
        ),
        ..v
    }
}

impl Declaration {
    /// Replaces every path relative to the declaration file with one
    /// relative to the working directory.
    pub fn canonicalize(&mut self, path: &str)
        ensures
            final(self).name@ == old(self).name@,
            final(self).base.deep_view() == old(self).base.deep_view(),
            final(self).variants.deep_view() == old(self).variants.deep_view().map_values(
                (|p: (Seq<char>, VariantV)| (p.0, canon_variant(p.1, crate::emote::dir_of(path@)))),
            ),
    {
        let ghost v0 = self.variants.deep_view();
        let dir = crate::emote::parent_dir(path);
        let n = self.variants.len();
        let mut i: usize = 0;
        while i < n
            invariant
                0 <= i <= n,
                n == self.variants@.len(),
                dir@ == crate::emote::dir_of(path@),
                self.name@ == old(self).name@,
                self.base.deep_view() == old(self).base.deep_view(),
                self.variants@.len() == v0.len(),
                forall|t: int|
                    i <= t < n ==> (self.variants@[t].0@, self.variants@[t].1.deep_view())
                        == v0[t],
                forall|t: int|
                    0 <= t < i ==> (self.variants@[t].0@, self.variants@[t].1.deep_view()) == (
                    v0[t].0, canon_variant(v0[t].1, dir@)),
            decreases n - i,
        {
            let (name, mut v) = self.variants.remove(i);
            v.canonicalize(dir.as_str());
            proof {
                assert(v.deep_view() =~~= canon_variant(v0[i as int].1, dir@));
            }
            self.variants.insert(i, (name, v));
            i += 1;
        }
        proof {
            assert forall|t: int|
                0 <= t < n implies self.variants.deep_view()[t] == v0.map_values(
                (|p: (Seq<char>, VariantV)| (p.0, canon_variant(p.1, crate::emote::dir_of(
                    path@,
                )))),
            )[t] by {
                assert(self.variants.deep_view()[t] == (self.variants@[t].0@, self.variants@[
                    t].1.deep_view()));
            }
            assert(self.variants.deep_view() =~= v0.map_values(
                (|p: (Seq<char>, VariantV)| (p.0, canon_variant(p.1, crate::emote::dir_of(
                    path@,
                )))),
            ));
        }
    }
}

/// The first parent variant named `k`, copied out.
pub fn find_variant_pub(ps: &Vec<(String, Variant)>, k: &str) -> (r: Option<Variant>)
    ensures
        match r {
            Some(v) => assoc_get(ps.deep_view(), k@) == Some(v.deep_view()) && exists|i: int|
                0 <= i < ps.deep_view().len() && (#[trigger] ps.deep_view()[i]).0 == k@
                    && assoc_get(ps.deep_view(), k@) == Some(ps.deep_view()[i].1),
            None => assoc_get(ps.deep_view(), k@) is None,
        },
{
    let r = find_variant(ps, k);
    proof {
        if r is Some {
            lemma_assoc_get_witness(ps.deep_view(), k@);
        }
    }
    r
}

proof fn lemma_assoc_get_witness(ps: Seq<(Seq<char>, VariantV)>, k: Seq<char>)
    requires
        assoc_get(ps, k) is Some,
    ensures
        exists|i: int|
            0 <= i < ps.len() && (#[trigger] ps[i]).0 == k && assoc_get(ps, k) == Some(ps[i].1),
    decreases ps.len(),
{
    if ps.len() > 0 {
        if ps.first().0 == k {
            assert(ps[0].0 == k && assoc_get(ps, k) == Some(ps[0].1));
        } else {
            lemma_assoc_get_witness(ps.drop_first(), k);
            let i = choose|i: int|
                0 <= i < ps.drop_first().len() && (#[trigger] ps.drop_first()[i]).0 == k
                    && assoc_get(ps.drop_first(), k) == Some(ps.drop_first()[i].1);
            assert(ps[i + 1].0 == k && assoc_get(ps, k) == Some(ps[i + 1].1));
        }
    }
}

fn find_variant(ps: &Vec<(String, Variant)>, k: &str) -> (r: Option<Variant>)
    ensures
        match r {
            Some(v) => assoc_get(ps.deep_view(), k@) == Some(v.deep_view()),
            None => assoc_get(ps.deep_view(), k@) is None,
        },
{
    let n = ps.len();
    let mut i: usize = 0;
    proof {
        assert(ps.deep_view().skip(0) =~= ps.deep_view());
    }
    while i < n
        invariant
            0 <= i <= n,
            n == ps@.len(),
            assoc_get(ps.deep_view(), k@) == assoc_get(ps.deep_view().skip(i as int), k@),
        decreases n - i,
    {
        proof {
            assert(ps.deep_view()[i as int] == (ps@[i as int].0@, ps@[i as int].1.deep_view()));
            assert(ps.deep_view().skip(i as int).first() == ps.deep_view()[i as int]);
            assert(ps.deep_view().skip(i as int).drop_first() =~= ps.deep_view().skip(
                i as int + 1,
            ));
        }
        if str_eq(ps[i].0.as_str(), k) {
            return Some(ps[i].1.duplicate());
        }
        i += 1;
    }
    proof {
        assert(ps.deep_view().skip(n as int) =~= Seq::<(Seq<char>, VariantV)>::empty());
    }
    None
}

} // verus!
