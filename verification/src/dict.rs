//! A string-keyed table with last-insert-wins lookup.
//!
//! The table is a plain list of pairs; its abstract value is a
//! `Map<Seq<char>, _>` in which a later pair shadows an earlier one with the
//! same key.  Inserting is appending, so `insert` and `merged_over` have
//! almost definitional contracts.

use vstd::prelude::*;
use crate::text::str_eq;

verus! {

/// Abstract content of a pair list: later pairs shadow earlier ones.
pub open spec fn map_of<V: DeepView>(pairs: Seq<(String, V)>) -> Map<Seq<char>, V::V>
    decreases pairs.len(),
{
    if pairs.len() == 0 {
        Map::empty()
    } else {
        map_of(pairs.drop_last()).insert(pairs.last().0@, pairs.last().1.deep_view())
    }
}

/// Entries at positions `i..` never mention `k`, so the content at `k`
/// is decided by the prefix.
proof fn lemma_map_of_skip<V: DeepView>(pairs: Seq<(String, V)>, i: int, k: Seq<char>)
    requires
        0 <= i <= pairs.len(),
        forall|j: int| i <= j < pairs.len() ==> pairs[j].0@ != k,
    ensures
        map_of(pairs).contains_key(k) == map_of(pairs.take(i)).contains_key(k),
        map_of(pairs).contains_key(k) ==> map_of(pairs)[k] == map_of(pairs.take(i))[k],
    decreases pairs.len() - i,
{
    if i < pairs.len() {
        let shorter = pairs.drop_last();
        assert(pairs.take(pairs.len() as int - 1) =~= shorter);
        lemma_map_of_skip(shorter, i, k);
        assert(shorter.take(i) =~= pairs.take(i));
    } else {
        assert(pairs.take(i) =~= pairs);
    }
}

pub struct Dict<V> {
    pairs: Vec<(String, V)>,
}

impl<V: DeepView> View for Dict<V> {
    type V = Map<Seq<char>, V::V>;

    closed spec fn view(&self) -> Map<Seq<char>, V::V> {
        map_of(self.pairs@)
    }
}

impl<V: DeepView> DeepView for Dict<V> {
    type V = Map<Seq<char>, V::V>;

    open spec fn deep_view(&self) -> Map<Seq<char>, V::V> {
        self.view()
    }
}

impl<V: DeepView> Dict<V> {
    pub fn new() -> (r: Self)
        ensures
            r@ == Map::<Seq<char>, V::V>::empty(),
    {
        Dict { pairs: Vec::new() }
    }

    /// Binds `k` to `v`, shadowing any earlier binding of `k`.
    pub fn insert(&mut self, k: String, v: V)
        ensures
            final(self)@ == old(self)@.insert(k@, v.deep_view()),
    {
        let ghost pre = self.pairs@;
        self.pairs.push((k, v));
        proof {
            assert(self.pairs@.drop_last() =~= pre);
        }
    }

    /// The value bound to `k`, if any: the latest inserted one.
    pub fn get(&self, k: &str) -> (r: Option<&V>)
        ensures
            match r {
                Some(v) => self@.contains_key(k@) && v.deep_view() == self@[k@],
                None => !self@.contains_key(k@),
            },
    {
        let mut i: usize = self.pairs.len();
        while i > 0
            invariant
                0 <= i <= self.pairs.len(),
                forall|j: int| i <= j < self.pairs@.len() ==> self.pairs@[j].0@ != k@,
            decreases i,
        {
            if str_eq(self.pairs[i - 1].0.as_str(), k) {
                proof {
                    lemma_map_of_skip(self.pairs@, i as int, k@);
                    let prefix = self.pairs@.take(i as int);
                    assert(prefix.last() == self.pairs@[i - 1]);
                    assert(map_of(prefix) == map_of(prefix.drop_last()).insert(
                        prefix.last().0@,
                        prefix.last().1.deep_view(),
                    ));
                }
                return Some(&self.pairs[i - 1].1);
            }
            i -= 1;
        }
        proof {
            lemma_map_of_skip(self.pairs@, 0, k@);
            assert(self.pairs@.take(0) =~= Seq::<(String, V)>::empty());
        }
        None
    }

    pub fn is_empty(&self) -> (r: bool)
        ensures
            r == (self@ == Map::<Seq<char>, V::V>::empty()),
    {
        let r = self.pairs.len() == 0;
        proof {
            if self.pairs@.len() == 0 {
                assert(self@ =~= Map::<Seq<char>, V::V>::empty());
            } else {
                assert(self@.contains_key(self.pairs@.last().0@));
            }
        }
        r
    }

    pub fn contains_key(&self, k: &str) -> (r: bool)
        ensures
            r == self@.contains_key(k@),
    {
        self.get(k).is_some()
    }

    /// `child` laid over `parent`: a key present in both resolves to
    /// `child`'s value.
    pub fn merged_over(child: Self, parent: Self) -> (r: Self)
        ensures
            r@ == parent@.union_prefer_right(child@),
    {
        let mut out = parent;
        let mut rest = child;
        proof {
            lemma_concat_map_of(out.pairs@, rest.pairs@);
        }
        out.pairs.append(&mut rest.pairs);
        out
    }
}

/// Pair lists with equal keys and equal value views have equal content.
proof fn lemma_map_of_pointwise<V: DeepView>(a: Seq<(String, V)>, b: Seq<(String, V)>)
    requires
        a.len() == b.len(),
        forall|i: int|
            0 <= i < a.len() ==> a[i].0@ == b[i].0@ && a[i].1.deep_view() == b[i].1.deep_view(),
    ensures
        map_of(a) == map_of(b),
    decreases a.len(),
{
    if a.len() > 0 {
        lemma_map_of_pointwise(a.drop_last(), b.drop_last());
        assert(map_of(a) =~= map_of(b));
    } else {
        assert(map_of(a) =~= map_of(b));
    }
}

/// Clones a vector of strings, keeping its view.
fn clone_strings(v: &Vec<String>) -> (r: Vec<String>)
    ensures
        r.deep_view() == v.deep_view(),
{
    let mut out: Vec<String> = Vec::new();
    let n = v.len();
    let mut i: usize = 0;
    while i < n
        invariant
            0 <= i <= n,
            n == v@.len(),
            out.deep_view() =~= v.deep_view().take(i as int),
        decreases n - i,
    {
        let ghost pre = out.deep_view();
        out.push(v[i].clone());
        proof {
            assert(out.deep_view() =~= pre.push(v@[i as int]@));
            assert(out.deep_view() =~= v.deep_view().take(i as int + 1));
        }
        i += 1;
    }
    proof {
        assert(v.deep_view().take(n as int) =~= v.deep_view());
    }
    out
}

impl Dict<String> {
    /// An independent copy with the same content.
    pub fn duplicate(&self) -> (r: Self)
        ensures
            r@ == self@,
    {
        let mut pairs: Vec<(String, String)> = Vec::new();
        let n = self.pairs.len();
        let mut i: usize = 0;
        while i < n
            invariant
                0 <= i <= n,
                n == self.pairs@.len(),
                pairs@.len() == i,
                forall|j: int|
                    0 <= j < i ==> pairs@[j].0@ == self.pairs@[j].0@ && pairs@[j].1@
                        == self.pairs@[j].1@,
            decreases n - i,
        {
            pairs.push((self.pairs[i].0.clone(), self.pairs[i].1.clone()));
            i += 1;
        }
        let r = Dict { pairs };
        proof {
            lemma_map_of_pointwise(r.pairs@, self.pairs@);
        }
        r
    }
}

impl Dict<Vec<String>> {
    /// An independent copy with the same content.
    pub fn duplicate(&self) -> (r: Self)
        ensures
            r@ == self@,
    {
        let mut pairs: Vec<(String, Vec<String>)> = Vec::new();
        let n = self.pairs.len();
        let mut i: usize = 0;
        while i < n
            invariant
                0 <= i <= n,
                n == self.pairs@.len(),
                pairs@.len() == i,
                forall|j: int|
                    0 <= j < i ==> pairs@[j].0@ == self.pairs@[j].0@ && pairs@[j].1.deep_view()
                        == self.pairs@[j].1.deep_view(),
            decreases n - i,
        {
            let vals = clone_strings(&self.pairs[i].1);
            pairs.push((self.pairs[i].0.clone(), vals));
            i += 1;
        }
        let r = Dict { pairs };
        proof {
            lemma_map_of_pointwise(r.pairs@, self.pairs@);
        }
        r
    }
}

/// An independent copy of an emote's asset table.
pub fn duplicate_assets(d: &Dict<crate::emote::Asset>) -> (r: Dict<crate::emote::Asset>)
    ensures
        r@ == d@,
{
    let mut pairs: Vec<(String, crate::emote::Asset)> = Vec::new();
    let n = d.pairs.len();
    let mut i: usize = 0;
    while i < n
        invariant
            0 <= i <= n,
            n == d.pairs@.len(),
            pairs@.len() == i,
            forall|j: int|
                0 <= j < i ==> pairs@[j].0@ == d.pairs@[j].0@ && pairs@[j].1.deep_view()
                    == d.pairs@[j].1.deep_view(),
        decreases n - i,
    {
        pairs.push((d.pairs[i].0.clone(), d.pairs[i].1.duplicate()));
        i += 1;
    }
    let r = Dict { pairs };
    proof {
        lemma_map_of_pointwise(r.pairs@, d.pairs@);
    }
    r
}

/// Concatenation lays the right-hand entries over the left-hand ones.
proof fn lemma_concat_map_of<V: DeepView>(a: Seq<(String, V)>, b: Seq<(String, V)>)
    ensures
        map_of(a + b) == map_of(a).union_prefer_right(map_of(b)),
    decreases b.len(),
{
    if b.len() == 0 {
        assert(a + b =~= a);
        assert(map_of(a).union_prefer_right(map_of(b)) =~= map_of(a));
    } else {
        lemma_concat_map_of(a, b.drop_last());
        assert((a + b).drop_last() =~= a + b.drop_last());
        assert(map_of(a).union_prefer_right(map_of(b)) =~= map_of(a).union_prefer_right(
            map_of(b.drop_last()),
        ).insert(b.last().0@, b.last().1.deep_view()));
    }
}

} // verus!
