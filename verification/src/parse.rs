//! The declaration of one inheritable collection ("species"): its name,
//! variant tags, substitution variables and file indices, with the rules
//! for adopting an already-loaded parent declaration.
//!
//! Reading descriptor files and scanning directories is input/output and
//! stays outside the library; what is verified here is the merge itself.

use vstd::prelude::*;
use vstd::string::*;
use crate::dict::Dict;
use crate::text::{find_at, lemma_find_at, spec_split, spec_trim, split_all, split_once,
    trim_spaces};

verus! {

pub struct SpeciesDecl {
    /// Name of the species.
    pub name: String,
    /// Relative path of the parent declaration, if one is named.
    pub base: Option<String>,
    /// Variant name to its list of tag strings.
    pub variants: Dict<Vec<String>>,
    /// Literal substitution values for templates.
    pub vars: Dict<String>,
    /// Template name to file path.
    pub template_paths: Dict<String>,
    /// Variant name to file path.
    pub variant_paths: Dict<String>,
    /// Asset name to file path.
    pub asset_paths: Dict<String>,
    /// The resolved parent declaration.
    pub parent: Option<Box<SpeciesDecl>>,
}

#[verifier::ext_equal]
pub struct SpeciesV {
    pub name: Seq<char>,
    pub base: Option<Seq<char>>,
    pub variants: Map<Seq<char>, Seq<Seq<char>>>,
    pub vars: Map<Seq<char>, Seq<char>>,
    pub template_paths: Map<Seq<char>, Seq<char>>,
    pub variant_paths: Map<Seq<char>, Seq<char>>,
    pub asset_paths: Map<Seq<char>, Seq<char>>,
    pub parent: Option<Box<SpeciesV>>,
}

pub open spec fn species_view(d: SpeciesDecl) -> SpeciesV
    decreases d,
{
    SpeciesV {
        name: d.name@,
        base: d.base.deep_view(),
        variants: d.variants@,
        vars: d.vars@,
        template_paths: d.template_paths@,
        variant_paths: d.variant_paths@,
        asset_paths: d.asset_paths@,
        parent: match d.parent {
            Some(b) => Some(Box::new(species_view(*b))),
            None => None,
        },
    }
}

impl DeepView for SpeciesDecl {
    type V = SpeciesV;

    open spec fn deep_view(&self) -> SpeciesV {
        species_view(*self)
    }
}

impl SpeciesDecl {
    /// A declaration with the given name and nothing else.
    pub fn empty(name: String) -> (r: SpeciesDecl)
        ensures
            r.deep_view() == (SpeciesV {
                name: name@,
                base: None,
                variants: Map::empty(),
                vars: Map::empty(),
                template_paths: Map::empty(),
                variant_paths: Map::empty(),
                asset_paths: Map::empty(),
                parent: None,
            }),
    {
        let r = SpeciesDecl {
            name,
            base: None,
            variants: Dict::new(),
            vars: Dict::new(),
            template_paths: Dict::new(),
            variant_paths: Dict::new(),
            asset_paths: Dict::new(),
            parent: None,
        };
        proof {
            assert(r.deep_view() =~~= SpeciesV {
                name: r.name@,
                base: None,
                variants: Map::empty(),
                vars: Map::empty(),
                template_paths: Map::empty(),
                variant_paths: Map::empty(),
                asset_paths: Map::empty(),
                parent: None,
            });
        }
        r
    }

    /// Adopts an already-loaded parent declaration.
    ///
    /// Path indices: a name present in both resolves to the child's entry.
    /// Vars: the child's value is kept where present, the parent's fills the
    /// gaps.  Variant tags: the parent's mapping is adopted whole when the
    /// child declares none; a child that declares any keeps its own mapping
    /// whole (replace, not per-entry merge).
    pub fn adopt_parent(self, parent: SpeciesDecl) -> (r: SpeciesDecl)
        ensures
            r.deep_view().name == self.deep_view().name,
            r.deep_view().base == self.deep_view().base,
            r.deep_view().variants == if self.deep_view().variants == Map::<
                Seq<char>,
                Seq<Seq<char>>,
            >::empty() {
                parent.deep_view().variants
            } else {
                self.deep_view().variants
            },
            r.deep_view().vars == parent.deep_view().vars.union_prefer_right(
                self.deep_view().vars,
            ),
            r.deep_view().template_paths == parent.deep_view().template_paths.union_prefer_right(
                self.deep_view().template_paths,
            ),
            r.deep_view().variant_paths == parent.deep_view().variant_paths.union_prefer_right(
                self.deep_view().variant_paths,
            ),
            r.deep_view().asset_paths == parent.deep_view().asset_paths.union_prefer_right(
                self.deep_view().asset_paths,
            ),
            r.deep_view().parent == Some(Box::new(parent.deep_view())),
    {
        let SpeciesDecl {
            name,
            base,
            variants,
            vars,
            template_paths,
            variant_paths,
            asset_paths,
            parent: _,
        } = self;
        let variants = if variants.is_empty() {
            parent.variants.duplicate()
        } else {
            variants
        };
        let vars = Dict::merged_over(vars, parent.vars.duplicate());
        let template_paths = Dict::merged_over(template_paths, parent.template_paths.duplicate());
        let variant_paths = Dict::merged_over(variant_paths, parent.variant_paths.duplicate());
        let asset_paths = Dict::merged_over(asset_paths, parent.asset_paths.duplicate());
        SpeciesDecl {
            name,
            base,
            variants,
            vars,
            template_paths,
            variant_paths,
            asset_paths,
            parent: Some(Box::new(parent)),
        }
    }
}

// ---------------------------------------------------------------------------
// Inline style rules
// ---------------------------------------------------------------------------

/// The `name: value` rule read from one `;`-field, if it holds a colon:
/// the name is trimmed, the value kept as written.
pub open spec fn rule_of(piece: Seq<char>) -> Option<(Seq<char>, Seq<char>)> {
    match find_at(piece, 0, ':') {
        Some(i) => Some(
            (spec_trim(piece.subrange(0, i)), piece.subrange(i + 1, piece.len() as int)),
        ),
        None => None,
    }
}

pub open spec fn rules_of(pieces: Seq<Seq<char>>) -> Seq<(Seq<char>, Seq<char>)>
    decreases pieces.len(),
{
    if pieces.len() == 0 {
        Seq::empty()
    } else {
        rules_of(pieces.drop_last()) + match rule_of(pieces.last()) {
            Some(r) => seq![r],
            None => Seq::empty(),
        }
    }
}

/// The rules of an inline style string: `;`-separated fields, each split at
/// its first `:`; fields without a colon are dropped.
pub open spec fn css_rules(s: Seq<char>) -> Seq<(Seq<char>, Seq<char>)> {
    rules_of(spec_split(s, ';'))
}

/// Parses an inline CSS style string into its `(name, value)` rules.
pub fn parse_css(css: &str) -> (r: Vec<(String, String)>)
    ensures
        r.deep_view() == css_rules(css@),
{
    let pieces = split_all(css, ';');
    let mut out: Vec<(String, String)> = Vec::new();
    let n = pieces.len();
    let mut i: usize = 0;
    while i < n
        invariant
            0 <= i <= n,
            n == pieces@.len(),
            pieces.deep_view() == spec_split(css@, ';'),
            out.deep_view() =~= rules_of(pieces.deep_view().take(i as int)),
        decreases n - i,
    {
        let ghost pre = out.deep_view();
        let ghost pv = pieces.deep_view();
        proof {
            assert(pv[i as int] == pieces@[i as int]@);
            assert(pv.take(i as int + 1).drop_last() =~= pv.take(i as int));
            assert(pv.take(i as int + 1).last() == pv[i as int]);
        }
        match split_once(pieces[i].as_str(), ':') {
            Some(pair) => {
                let name = trim_spaces(pair.0.as_str());
                out.push((name, pair.1));
                proof {
                    assert(rule_of(pv[i as int]) is Some);
                    assert(out.deep_view() =~= pre.push(
                        (out@.last().0@, out@.last().1@),
                    ));
                    assert(out.deep_view() =~= rules_of(pv.take(i as int + 1)));
                }
            }
            None => {
                proof {
                    assert(rule_of(pv[i as int]) is None);
                    assert(out.deep_view() =~= rules_of(pv.take(i as int + 1)));
                }
            }
        }
        i += 1;
    }
    proof {
        assert(pieces.deep_view().take(n as int) =~= pieces.deep_view());
    }
    out
}

} // verus!
