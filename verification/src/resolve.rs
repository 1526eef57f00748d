//! The provides-reduction resolver: deduplicates features with equal
//! requirement signatures, folds pass-through features into the
//! package that satisfies them, and emits the surviving package set
//! with its provides-map; with a collapse fallback that merges the
//! whole graph into the base package.

use vstd::prelude::*;
use crate::feature_graph::{
    FeatureEntry, FeatureGraph, graph_names, idx_of, name_in, SpecFeature, lemma_sorted_unique,
    lemma_idx_of_self, sorted_names,
};
use crate::strutil::{clone_string_vec, push_owned, str_eq};

verus! {

/// The mathematical shape of one provides-map entry: the surviving
/// feature and the features its package also satisfies.
#[verifier::ext_equal]
pub struct SpecProvides {
    pub name: Seq<char>,
    pub provides: Seq<Seq<char>>,
}

/// One entry of the provides-map.
#[derive(Debug, Clone)]
pub struct FeatureProvides {
    pub feature: String,
    pub provides: Vec<String>,
}

impl View for FeatureProvides {
    type V = SpecProvides;

    open spec fn view(&self) -> SpecProvides {
        SpecProvides { name: self.feature@, provides: self.provides.deep_view() }
    }
}

/// The provides-map as mathematical values.
pub open spec fn fp_view(v: Seq<FeatureProvides>) -> Seq<SpecProvides> {
    v.map_values(|p: FeatureProvides| p@)
}

/// Two features have the same requirement signature.
pub open spec fn same_sig(a: SpecFeature, b: SpecFeature) -> bool {
    a.reqs == b.reqs && a.deps == b.deps
}

/// The first index at or after `j`, below `i`, with the same
/// signature as entry `i`.
pub open spec fn dup_scan(g: Seq<SpecFeature>, i: int, j: int) -> Option<int>
    decreases i - j,
{
    if j < 0 || j >= i {
        None
    } else if same_sig(g[j], g[i]) {
        Some(j)
    } else {
        dup_scan(g, i, j + 1)
    }
}

/// The earliest earlier entry with the same signature, if any: the
/// group representative every later member is rewritten to.
pub open spec fn dup_of(g: Seq<SpecFeature>, i: int) -> Option<int> {
    dup_scan(g, i, 0)
}

/// One entry after signature deduplication: a later group member
/// becomes a pure pass-through of its representative.
pub open spec fn dedup_entry(g: Seq<SpecFeature>, i: int) -> SpecFeature {
    match dup_of(g, i) {
        Some(j) => SpecFeature {
            name: g[i].name,
            reqs: seq![g[j].name],
            deps: Seq::<Seq<char>>::empty(),
        },
        None => g[i],
    }
}

/// The graph after signature deduplication.
pub open spec fn dedup_graph(g: Seq<SpecFeature>) -> Seq<SpecFeature> {
    Seq::new(g.len(), |i: int| dedup_entry(g, i))
}

/// A pass-through feature: no external dependencies and exactly one
/// required feature; its package is not emitted.
pub open spec fn is_pass(e: SpecFeature) -> bool {
    e.deps.len() == 0 && e.reqs.len() == 1
}

/// Follows pass-through entries to the surviving feature that ends
/// the chain, giving up when the fuel runs out or a link is missing.
pub open spec fn chain_end(d: Seq<SpecFeature>, i: int, fuel: nat) -> Option<int>
    decreases fuel,
{
    if !(0 <= i < d.len()) {
        None
    } else if !is_pass(d[i]) {
        Some(i)
    } else if fuel == 0 {
        None
    } else if name_in(d, d[i].reqs[0]) {
        chain_end(d, idx_of(d, d[i].reqs[0]), (fuel - 1) as nat)
    } else {
        None
    }
}

/// The original indices whose features survive the reduction.
pub open spec fn idx_seq(n: int) -> Seq<int> {
    Seq::new(n as nat, |i: int| i)
}

/// The reduced graph: the deduplicated entries that are not
/// pass-throughs, in their original order.
pub open spec fn reduced_spec(g: Seq<SpecFeature>) -> Seq<SpecFeature> {
    dedup_graph(g).filter(|e: SpecFeature| !is_pass(e))
}

/// The names assigned to the survivor at original index `si`: every
/// pass-through whose chain ends there, in graph order.
pub open spec fn assigned(g: Seq<SpecFeature>, si: int) -> Seq<Seq<char>> {
    idx_seq(g.len() as int).filter(
        |j: int| is_pass(dedup_entry(g, j)) && chain_end(dedup_graph(g), j, g.len()) == Some(si),
    ).map_values(|j: int| g[j].name)
}

/// The whole provides-map: one entry per survivor, carrying the
/// features folded into it.
pub open spec fn provides_spec(g: Seq<SpecFeature>) -> Seq<SpecProvides> {
    idx_seq(g.len() as int).filter(|i: int| !is_pass(dedup_entry(g, i))).map_values(
        |i: int| SpecProvides { name: g[i].name, provides: assigned(g, i) },
    )
}

fn sig_eq(a: &FeatureEntry, b: &FeatureEntry) -> (r: bool)
    ensures
        r == same_sig(a@, b@),
{
    let ar = &a.features_required;
    let br = &b.features_required;
    if ar.len() != br.len() {
        proof {
            assert(a@.reqs.len() != b@.reqs.len());
        }
        return false;
    }
    let mut i: usize = 0;
    let n = ar.len();
    while i < n
        invariant
            i <= n,
            n == ar.len(),
            n == br.len(),
            ar.deep_view() == a@.reqs,
            br.deep_view() == b@.reqs,
            forall|j: int| 0 <= j < i ==> a@.reqs[j] == b@.reqs[j],
        decreases n - i,
    {
        if !str_eq(ar[i].as_str(), br[i].as_str()) {
            proof {
                assert(a@.reqs[i as int] != b@.reqs[i as int]);
            }
            return false;
        }
        i = i + 1;
    }
    let ad = &a.external_deps;
    let bd = &b.external_deps;
    if ad.len() != bd.len() {
        proof {
            assert(a@.deps.len() != b@.deps.len());
        }
        return false;
    }
    let m = ad.len();
    let mut k: usize = 0;
    while k < m
        invariant
            k <= m,
            m == ad.len(),
            m == bd.len(),
            n == ar.len(),
            n == br.len(),
            ad.deep_view() == a@.deps,
            bd.deep_view() == b@.deps,
            forall|j: int| 0 <= j < n ==> a@.reqs[j] == b@.reqs[j],
            forall|j: int| 0 <= j < k ==> a@.deps[j] == b@.deps[j],
        decreases m - k,
    {
        if !str_eq(ad[k].as_str(), bd[k].as_str()) {
            proof {
                assert(a@.deps[k as int] != b@.deps[k as int]);
            }
            return false;
        }
        k = k + 1;
    }
    proof {
        assert(a@.reqs =~= b@.reqs);
        assert(a@.deps =~= b@.deps);
    }
    true
}

impl FeatureGraph {
    /// The signature-deduplicated graph: every feature whose
    /// requirements equal an earlier feature's becomes a pure
    /// pass-through of that first feature.
    fn dedup(&self) -> (r: FeatureGraph)
        requires
            self.wf(),
        ensures
            r@ == dedup_graph(self@),
            r.wf(),
    {
        let ghost g = self@;
        let n = self.entries.len();
        let mut out: Vec<FeatureEntry> = Vec::new();
        let mut i: usize = 0;
        while i < n
            invariant
                i <= n,
                n == g.len(),
                g == self@,
                out@.len() == i,
                forall|t: int| 0 <= t < i ==> #[trigger] out@[t]@ == dedup_entry(g, t),
            decreases n - i,
        {
            let mut j: usize = 0;
            let mut found: Option<usize> = None;
            while j < i && found.is_none()
                invariant
                    j <= i,
                    i < n,
                    n == g.len(),
                    g == self@,
                    (match found {
                        None => dup_of(g, i as int) == dup_scan(g, i as int, j as int),
                        Some(j0) => dup_of(g, i as int) == Some(j0 as int) && j0 < i,
                    }),
                decreases i - j, (if found is None { 1int } else { 0int }),
            {
                if sig_eq(&self.entries[j], &self.entries[i]) {
                    found = Some(j);
                } else {
                    j = j + 1;
                }
            }
            proof {
                if found is None {
                    assert(j == i);
                    assert(dup_scan(g, i as int, i as int) is None);
                }
            }
            let entry = match found {
                Some(j0) => {
                    proof {
                        assert(dup_of(g, i as int) == Some(j0 as int));
                    }
                    let mut fr: Vec<String> = Vec::new();
                    push_owned(&mut fr, self.entries[j0].name.as_str().to_owned());
                    let ed: Vec<String> = Vec::new();
                    proof {
                        assert(fr.deep_view() =~= seq![g[j0 as int].name]);
                        assert(ed.deep_view() =~= Seq::<Seq<char>>::empty());
                    }
                    FeatureEntry {
                        name: self.entries[i].name.as_str().to_owned(),
                        features_required: fr,
                        external_deps: ed,
                    }
                },
                None => {
                    proof {
                        assert(dup_of(g, i as int) is None);
                    }
                    FeatureEntry {
                        name: self.entries[i].name.as_str().to_owned(),
                        features_required: clone_string_vec(&self.entries[i].features_required),
                        external_deps: clone_string_vec(&self.entries[i].external_deps),
                    }
                },
            };
            proof {
                assert(entry@ == dedup_entry(g, i as int));
            }
            out.push(entry);
            i = i + 1;
        }
        let r = FeatureGraph { entries: out };
        proof {
            assert(r@ =~= dedup_graph(g));
            lemma_dedup_wf(g);
        }
        r
    }

    /// Whether the deduplicated entry at an index is a pass-through.
    fn entry_is_pass(&self, i: usize) -> (r: bool)
        requires
            i < self@.len(),
        ensures
            r == is_pass(self@[i as int]),
    {
        self.entries[i].external_deps.len() == 0 && self.entries[i].features_required.len() == 1
    }

    /// Follows pass-through links from an index to the survivor that
    /// ends the chain, giving up after as many steps as the graph has
    /// features.
    fn follow_chain(&self, start: usize) -> (r: Option<usize>)
        requires
            self.wf(),
            start < self@.len(),
        ensures
            match r {
                Some(e) => chain_end(self@, start as int, self@.len()) == Some(e as int) && e
                    < self@.len(),
                None => chain_end(self@, start as int, self@.len()) is None,
            },
    {
        let ghost d = self@;
        let n = self.entries.len();
        let mut cur: usize = start;
        let mut fuel: usize = n;
        while fuel > 0
            invariant
                n == d.len(),
                d == self@,
                self.wf(),
                cur < n,
                fuel <= n,
                chain_end(d, start as int, n as nat) == chain_end(d, cur as int, fuel as nat),
            decreases fuel,
        {
            if !self.entry_is_pass(cur) {
                proof {
                    assert(chain_end(d, cur as int, fuel as nat) == Some(cur as int));
                }
                return Some(cur);
            }
            let target = &self.entries[cur].features_required[0];
            proof {
                assert(d[cur as int].reqs[0] == target@);
            }
            match self.lookup_idx(target.as_str()) {
                Some(next) => {
                    proof {
                        assert(name_in(d, target@));
                        lemma_idx_of_self(d, next as int);
                        let ix = idx_of(d, target@);
                        assert(0 <= ix < d.len() && d[ix].name == target@);
                        lemma_sorted_unique(d, ix, next as int);
                        assert(chain_end(d, cur as int, fuel as nat) == chain_end(
                            d,
                            next as int,
                            (fuel - 1) as nat,
                        ));
                    }
                    cur = next;
                },
                None => {
                    proof {
                        assert(!name_in(d, target@));
                        assert(chain_end(d, cur as int, fuel as nat) is None);
                    }
                    return None;
                },
            }
            fuel = fuel - 1;
        }
        if !self.entry_is_pass(cur) {
            proof {
                assert(chain_end(d, cur as int, 0) == Some(cur as int));
            }
            Some(cur)
        } else {
            proof {
                assert(chain_end(d, cur as int, 0) is None);
            }
            None
        }
    }

    /// Reduces the graph: features with identical signatures are
    /// deduplicated onto their first member, pass-through features are
    /// folded into the package that carries them, and each survivor
    /// keeps the full, transitively expanded list of features its
    /// package provides. A pass-through whose chain never reaches a
    /// survivor (which an acyclic graph cannot produce) is assigned to
    /// no entry.
    pub fn reduce_provides(&self) -> (r: (Vec<FeatureProvides>, FeatureGraph))
        requires
            self.wf(),
        ensures
            fp_view(r.0@) == provides_spec(self@),
            r.1@ == reduced_spec(self@),
            r.0@.len() == r.1@.len(),
            forall|i: int| 0 <= i < r.0@.len() ==> #[trigger] r.0@[i]@.name == r.1@[i].name,
    {
        let ghost g = self@;
        let d = self.dedup();
        let n = self.entries.len();
        proof {
            assert(d@.len() == n);
        }
        // the survivor each pass-through chain reaches, per index
        let mut ends: Vec<Option<usize>> = Vec::new();
        let mut j: usize = 0;
        while j < n
            invariant
                j <= n,
                n == g.len(),
                g == self@,
                d@ == dedup_graph(g),
                d.wf(),
                ends@.len() == j,
                forall|t: int|
                    0 <= t < j ==> (match #[trigger] ends@[t] {
                        Some(e) => chain_end(d@, t, n as nat) == Some(e as int),
                        None => chain_end(d@, t, n as nat) is None,
                    }),
            decreases n - j,
        {
            let e = d.follow_chain(j);
            ends.push(e);
            j = j + 1;
        }
        let ghost passp = |i: int| !is_pass(dedup_entry(g, i));
        let ghost pmap = |i: int| SpecProvides { name: g[i].name, provides: assigned(g, i) };
        let mut out_p: Vec<FeatureProvides> = Vec::new();
        let mut out_g: Vec<FeatureEntry> = Vec::new();
        let mut i: usize = 0;
        proof {
            reveal(Seq::filter);
            assert(idx_seq(n as int).take(0) =~= Seq::<int>::empty());
            assert(fp_view(out_p@) =~= idx_seq(n as int).take(0).filter(passp).map_values(pmap));
            assert(Seq::new(out_g@.len(), |t: int| out_g@[t]@) =~= dedup_graph(g).take(0).filter(
                |e: SpecFeature| !is_pass(e),
            ));
        }
        while i < n
            invariant
                i <= n,
                n == g.len(),
                g == self@,
                d@ == dedup_graph(g),
                d.wf(),
                d@.len() == n,
                ends@.len() == n,
                forall|t: int|
                    0 <= t < n ==> (match #[trigger] ends@[t] {
                        Some(e) => chain_end(d@, t, n as nat) == Some(e as int),
                        None => chain_end(d@, t, n as nat) is None,
                    }),
                passp == (|i: int| !is_pass(dedup_entry(g, i))),
                pmap == (|i: int| SpecProvides { name: g[i].name, provides: assigned(g, i) }),
                fp_view(out_p@) == idx_seq(n as int).take(i as int).filter(passp).map_values(
                    pmap,
                ),
                Seq::new(out_g@.len(), |t: int| out_g@[t]@) == dedup_graph(g).take(
                    i as int,
                ).filter(|e: SpecFeature| !is_pass(e)),
            decreases n - i,
        {
            proof {
                reveal(Seq::filter);
                assert(idx_seq(n as int).take(i + 1).drop_last() =~= idx_seq(n as int).take(
                    i as int,
                ));
                assert(idx_seq(n as int).take(i + 1).last() == i as int);
                assert(dedup_graph(g).take(i + 1).drop_last() =~= dedup_graph(g).take(i as int));
                assert(dedup_graph(g).take(i + 1).last() == dedup_entry(g, i as int));
            }
            if !d.entry_is_pass(i) {
                // survivor: gather everything assigned to it
                let mut plist: Vec<String> = Vec::new();
                let ghost asg_pred = |j: int| is_pass(dedup_entry(g, j)) && chain_end(
                    dedup_graph(g),
                    j,
                    g.len(),
                ) == Some(i as int);
                let mut j2: usize = 0;
                proof {
                    reveal(Seq::filter);
                    assert(idx_seq(n as int).take(0) =~= Seq::<int>::empty());
                    assert(plist.deep_view() =~= idx_seq(n as int).take(0).filter(
                        asg_pred,
                    ).map_values(|j: int| g[j].name));
                }
                while j2 < n
                    invariant
                        j2 <= n,
                        i < n,
                        n == g.len(),
                        g == self@,
                        d@ == dedup_graph(g),
                        d@.len() == n,
                        ends@.len() == n,
                        forall|t: int|
                            0 <= t < n ==> (match #[trigger] ends@[t] {
                                Some(e) => chain_end(d@, t, n as nat) == Some(e as int),
                                None => chain_end(d@, t, n as nat) is None,
                            }),
                        asg_pred == (|j: int| is_pass(dedup_entry(g, j)) && chain_end(
                            dedup_graph(g),
                            j,
                            g.len(),
                        ) == Some(i as int)),
                        plist.deep_view() == idx_seq(n as int).take(j2 as int).filter(
                            asg_pred,
                        ).map_values(|j: int| g[j].name),
                    decreases n - j2,
                {
                    proof {
                        reveal(Seq::filter);
                        assert(idx_seq(n as int).take(j2 + 1).drop_last() =~= idx_seq(
                            n as int,
                        ).take(j2 as int));
                        assert(idx_seq(n as int).take(j2 + 1).last() == j2 as int);
                    }
                    let is_p = d.entry_is_pass(j2);
                    let matches_me = if is_p {
                        match ends[j2] {
                            Some(e) => e == i,
                            None => false,
                        }
                    } else {
                        false
                    };
                    if matches_me {
                        push_owned(&mut plist, self.entries[j2].name.as_str().to_owned());
                        proof {
                            assert(asg_pred(j2 as int));
                            assert(plist.deep_view() =~= idx_seq(n as int).take(j2 + 1).filter(
                                asg_pred,
                            ).map_values(|j: int| g[j].name));
                        }
                    } else {
                        proof {
                            assert(!asg_pred(j2 as int));
                            assert(plist.deep_view() =~= idx_seq(n as int).take(j2 + 1).filter(
                                asg_pred,
                            ).map_values(|j: int| g[j].name));
                        }
                    }
                    j2 = j2 + 1;
                }
                proof {
                    assert(idx_seq(n as int).take(n as int) =~= idx_seq(n as int));
                    assert(plist.deep_view() == assigned(g, i as int));
                }
                let fp = FeatureProvides {
                    feature: self.entries[i].name.as_str().to_owned(),
                    provides: plist,
                };
                let ghost fpv = fp@;
                let ghost outp0 = out_p@;
                out_p.push(fp);
                let ge = FeatureEntry {
                    name: d.entries[i].name.as_str().to_owned(),
                    features_required: clone_string_vec(&d.entries[i].features_required),
                    external_deps: clone_string_vec(&d.entries[i].external_deps),
                };
                let ghost outg0 = out_g@;
                out_g.push(ge);
                proof {
                    reveal(Seq::filter);
                    assert(passp(i as int));
                    assert(g[i as int].name == dedup_entry(g, i as int).name);
                    assert(fpv =~= pmap(i as int));
                    let flt0 = idx_seq(n as int).take(i as int).filter(passp);
                    let flt1 = idx_seq(n as int).take(i + 1).filter(passp);
                    assert(flt1 == flt0.push(i as int));
                    assert(flt1.map_values(pmap) =~= flt0.map_values(pmap).push(pmap(i as int)));
                    assert(fp_view(out_p@) =~= fp_view(outp0).push(fpv));
                    assert(fp_view(out_p@) == flt1.map_values(pmap));
                    assert(Seq::new(out_g@.len(), |t: int| out_g@[t]@) =~= dedup_graph(g).take(
                        i + 1,
                    ).filter(|e: SpecFeature| !is_pass(e)));
                }
            } else {
                proof {
                    reveal(Seq::filter);
                    assert(!passp(i as int));
                    assert(idx_seq(n as int).take(i + 1).filter(passp) == idx_seq(n as int).take(
                        i as int,
                    ).filter(passp));
                    assert(fp_view(out_p@) == idx_seq(n as int).take(i + 1).filter(
                        passp,
                    ).map_values(pmap));
                    assert(Seq::new(out_g@.len(), |t: int| out_g@[t]@) =~= dedup_graph(g).take(
                        i + 1,
                    ).filter(|e: SpecFeature| !is_pass(e)));
                }
            }
            i = i + 1;
        }
        let rg = FeatureGraph { entries: out_g };
        proof {
            assert(idx_seq(n as int).take(n as int) =~= idx_seq(n as int));
            assert(dedup_graph(g).take(n as int) =~= dedup_graph(g));
            assert(provides_spec(g) == idx_seq(n as int).filter(passp).map_values(pmap));
            assert(fp_view(out_p@) == provides_spec(g));
            assert(rg@ =~= reduced_spec(g));
            lemma_provides_reduced_align(g);
            assert(out_p@.len() == fp_view(out_p@).len());
            assert forall|t: int| 0 <= t < out_p@.len() implies #[trigger] out_p@[t]@.name
                == rg@[t].name by {
                assert(fp_view(out_p@)[t] == out_p@[t]@);
                assert(provides_spec(g)[t].name == reduced_spec(g)[t].name);
            }
        }
        (out_p, rg)
    }

    /// The collapse fallback: the whole graph becomes one base
    /// package, whose external dependencies are every feature's in
    /// order, and which provides every non-base feature.
    pub fn collapse_features(&self) -> (r: (Vec<FeatureProvides>, FeatureGraph))
        ensures
            fp_view(r.0@) == collapse_provides_spec(self@),
            r.0@.len() == 1,
            r.0@[0]@.name == Seq::<char>::empty(),
            r.0@[0]@.provides == nonbase_names(self@),
            r.1@.len() == 1,
            r.1@[0].name == Seq::<char>::empty(),
            r.1@[0].reqs == Seq::<Seq<char>>::empty(),
            r.1@[0].deps == all_deps(self@),
    {
        let ghost g = self@;
        let n = self.entries.len();
        let mut provides: Vec<String> = Vec::new();
        let mut deps: Vec<String> = Vec::new();
        let ghost nonbase = nonbase_pred();
        let mut i: usize = 0;
        proof {
            reveal(Seq::filter);
            assert(graph_names(g).take(0) =~= Seq::<Seq<char>>::empty());
            assert(provides.deep_view() =~= graph_names(g).take(0).filter(nonbase));
            assert(g.take(0) =~= Seq::<SpecFeature>::empty());
            assert(deps.deep_view() =~= all_deps(g.take(0)));
        }
        while i < n
            invariant
                i <= n,
                n == g.len(),
                g == self@,
                nonbase == nonbase_pred(),
                provides.deep_view() == graph_names(g).take(i as int).filter(nonbase),
                deps.deep_view() == all_deps(g.take(i as int)),
            decreases n - i,
        {
            proof {
                reveal(Seq::filter);
                assert(graph_names(g).take(i + 1).drop_last() =~= graph_names(g).take(i as int));
                assert(graph_names(g).take(i + 1).last() == g[i as int].name);
                assert(g.take(i + 1).drop_last() =~= g.take(i as int));
                assert(g.take(i + 1).last() == g[i as int]);
            }
            if self.entries[i].name.as_str().unicode_len() > 0 {
                push_owned(&mut provides, self.entries[i].name.as_str().to_owned());
                proof {
                    assert(provides.deep_view() =~= graph_names(g).take(i + 1).filter(nonbase));
                }
            } else {
                proof {
                    assert(provides.deep_view() =~= graph_names(g).take(i + 1).filter(nonbase));
                }
            }
            let nd = self.entries[i].external_deps.len();
            let mut k: usize = 0;
            let ghost dep0 = deps.deep_view();
            while k < nd
                invariant
                    k <= nd,
                    i < n,
                    n == g.len(),
                    g == self@,
                    nd == g[i as int].deps.len(),
                    deps.deep_view() == dep0 + g[i as int].deps.take(k as int),
                decreases nd - k,
            {
                push_owned(&mut deps, self.entries[i].external_deps[k].as_str().to_owned());
                proof {
                    assert(deps.deep_view() =~= dep0 + g[i as int].deps.take(k + 1));
                }
                k = k + 1;
            }
            proof {
                assert(g[i as int].deps.take(nd as int) =~= g[i as int].deps);
                assert(deps.deep_view() =~= all_deps(g.take(i + 1)));
            }
            i = i + 1;
        }
        proof {
            assert(graph_names(g).take(n as int) =~= graph_names(g));
            assert(g.take(n as int) =~= g);
        }
        let fp = FeatureProvides { feature: String::new(), provides };
        let base = FeatureEntry {
            name: String::new(),
            features_required: Vec::new(),
            external_deps: deps,
        };
        let out_p: Vec<FeatureProvides> = {
            let mut v: Vec<FeatureProvides> = Vec::new();
            v.push(fp);
            v
        };
        let out_g = FeatureGraph {
            entries: {
                let mut v: Vec<FeatureEntry> = Vec::new();
                v.push(base);
                v
            },
        };
        proof {
            assert(out_g@[0].reqs =~= Seq::<Seq<char>>::empty());
            assert(fp_view(out_p@) =~= collapse_provides_spec(g));
        }
        (out_p, out_g)
    }
}

/// Deduplication keeps the names, so it keeps well-formedness.
pub proof fn lemma_dedup_wf(g: Seq<SpecFeature>)
    requires
        sorted_names(g),
        crate::feature_graph::closed_graph(g),
    ensures
        sorted_names(dedup_graph(g)),
        crate::feature_graph::closed_graph(dedup_graph(g)),
{
    let d = dedup_graph(g);
    assert forall|i: int| 0 <= i < d.len() implies #[trigger] d[i].name == g[i].name by {
        assert(dedup_entry(g, i).name == g[i].name);
    }
    assert forall|i: int, j: int| 0 <= i < j < d.len() implies crate::strutil::chars_lt(
        #[trigger] d[i].name,
        #[trigger] d[j].name,
    ) by {
        assert(crate::strutil::chars_lt(g[i].name, g[j].name));
    }
    assert forall|i: int, k: int|
        0 <= i < d.len() && 0 <= k < d[i].reqs.len() implies name_in(
        d,
        #[trigger] d[i].reqs[k],
    ) by {
        let nm = d[i].reqs[k];
        if dup_of(g, i) is Some {
            let j = dup_of(g, i)->0;
            lemma_dup_scan_bounds(g, i, 0);
            assert(nm == g[j].name);
            assert(d[j].name == nm);
        } else {
            assert(d[i] == g[i]);
            assert(name_in(g, nm));
            let jj = choose|jj: int| 0 <= jj < g.len() && g[jj].name == nm;
            assert(d[jj].name == nm);
        }
    }
}

/// A signature match found by the scan lies in range.
proof fn lemma_dup_scan_bounds(g: Seq<SpecFeature>, i: int, j: int)
    requires
        0 <= j,
    ensures
        dup_scan(g, i, j) matches Some(j0) ==> j <= j0 < i,
    decreases i - j,
{
    if j < i && !same_sig(g[j], g[i]) {
        lemma_dup_scan_bounds(g, i, j + 1);
    }
}

/// The predicate selecting non-base feature names.
pub open spec fn nonbase_pred() -> spec_fn(Seq<char>) -> bool {
    |nm: Seq<char>| nm.len() > 0
}

/// Every feature name but the base, in graph order.
pub open spec fn nonbase_names(g: Seq<SpecFeature>) -> Seq<Seq<char>> {
    graph_names(g).filter(nonbase_pred())
}

/// The provides-map of the collapse fallback: one entry, the base,
/// carrying every non-base feature name.
pub open spec fn collapse_provides_spec(g: Seq<SpecFeature>) -> Seq<SpecProvides> {
    seq![SpecProvides { name: Seq::<char>::empty(), provides: nonbase_names(g) }]
}

/// Every name of the provides-map, key or list entry, is a key of the
/// graph.
pub proof fn lemma_provides_spec_names(g: Seq<SpecFeature>)
    ensures
        forall|t: int| 0 <= t < provides_spec(g).len() ==> name_in(
            g,
            (#[trigger] provides_spec(g)[t]).name,
        ),
        forall|t: int, u: int|
            0 <= t < provides_spec(g).len() && 0 <= u < provides_spec(g)[t].provides.len()
                ==> name_in(g, #[trigger] provides_spec(g)[t].provides[u]),
{
    let n = g.len() as int;
    let ppred = |i: int| !is_pass(dedup_entry(g, i));
    let pmap = |i: int| SpecProvides { name: g[i].name, provides: assigned(g, i) };
    let flt = idx_seq(n).filter(ppred);
    assert forall|t: int| 0 <= t < provides_spec(g).len() implies name_in(
        g,
        (#[trigger] provides_spec(g)[t]).name,
    ) by {
        crate::feature_graph::lemma_filter_mem(idx_seq(n), ppred, t);
        let j = flt[t];
        assert(idx_seq(n).contains(j));
        let k = choose|k: int| 0 <= k < idx_seq(n).len() && idx_seq(n)[k] == j;
        assert(0 <= j < n);
        assert(provides_spec(g)[t] == pmap(j));
    }
    assert forall|t: int, u: int|
        0 <= t < provides_spec(g).len() && 0 <= u < provides_spec(g)[t].provides.len() implies name_in(
        g,
        #[trigger] provides_spec(g)[t].provides[u],
    ) by {
        crate::feature_graph::lemma_filter_mem(idx_seq(n), ppred, t);
        let j = flt[t];
        let k0 = choose|k: int| 0 <= k < idx_seq(n).len() && idx_seq(n)[k] == j;
        assert(0 <= j < n);
        assert(provides_spec(g)[t] == pmap(j));
        lemma_assigned_names(g, j, u);
    }
}

/// Every name assigned to a survivor is a key of the graph.
proof fn lemma_assigned_names(g: Seq<SpecFeature>, si: int, u: int)
    requires
        0 <= u < assigned(g, si).len(),
    ensures
        name_in(g, assigned(g, si)[u]),
{
    let n = g.len() as int;
    let apred = |j: int| is_pass(dedup_entry(g, j)) && chain_end(dedup_graph(g), j, g.len())
        == Some(si);
    let flt = idx_seq(n).filter(apred);
    crate::feature_graph::lemma_filter_mem(idx_seq(n), apred, u);
    let j = flt[u];
    let k = choose|k: int| 0 <= k < idx_seq(n).len() && idx_seq(n)[k] == j;
    assert(0 <= j < n);
    assert(assigned(g, si)[u] == g[j].name);
}

/// Every name of the collapse fallback's provides-list is a key.
pub proof fn lemma_nonbase_names_in(g: Seq<SpecFeature>)
    ensures
        forall|u: int| 0 <= u < nonbase_names(g).len() ==> name_in(
            g,
            #[trigger] nonbase_names(g)[u],
        ),
{
    assert forall|u: int| 0 <= u < nonbase_names(g).len() implies name_in(
        g,
        #[trigger] nonbase_names(g)[u],
    ) by {
        crate::feature_graph::lemma_filter_mem(graph_names(g), nonbase_pred(), u);
        let nm = nonbase_names(g)[u];
        let k = choose|k: int| 0 <= k < graph_names(g).len() && graph_names(g)[k] == nm;
        assert(g[k].name == nm);
    }
}

/// The external dependencies of every feature, concatenated in graph
/// order.
pub open spec fn all_deps(g: Seq<SpecFeature>) -> Seq<Seq<char>>
    decreases g.len(),
{
    if g.len() == 0 {
        Seq::<Seq<char>>::empty()
    } else {
        all_deps(g.drop_last()) + g.last().deps
    }
}

/// The provides-map and the reduced graph list the same survivors in
/// the same order.
pub proof fn lemma_provides_reduced_align(g: Seq<SpecFeature>)
    ensures
        provides_spec(g).len() == reduced_spec(g).len(),
        forall|i: int| 0 <= i < provides_spec(g).len() ==> #[trigger] provides_spec(g)[i].name
            == reduced_spec(g)[i].name,
{
    lemma_align_rec(g, g.len() as int);
    assert(idx_seq(g.len() as int).take(g.len() as int) =~= idx_seq(g.len() as int));
    assert(dedup_graph(g).take(g.len() as int) =~= dedup_graph(g));
}

proof fn lemma_align_rec(g: Seq<SpecFeature>, i: int)
    requires
        0 <= i <= g.len(),
    ensures
        ({
            let p = idx_seq(g.len() as int).take(i).filter(
                |j: int| !is_pass(dedup_entry(g, j)),
            ).map_values(|j: int| SpecProvides { name: g[j].name, provides: assigned(g, j) });
            let r = dedup_graph(g).take(i).filter(|e: SpecFeature| !is_pass(e));
            p.len() == r.len() && (forall|t: int| 0 <= t < p.len() ==> #[trigger] p[t].name
                == r[t].name)
        }),
    decreases i,
{
    reveal(Seq::filter);
    let pmap = |j: int| SpecProvides { name: g[j].name, provides: assigned(g, j) };
    let ppred = |j: int| !is_pass(dedup_entry(g, j));
    let rpred = |e: SpecFeature| !is_pass(e);
    if i == 0 {
        assert(idx_seq(g.len() as int).take(0) =~= Seq::<int>::empty());
        assert(dedup_graph(g).take(0) =~= Seq::<SpecFeature>::empty());
    } else {
        lemma_align_rec(g, i - 1);
        assert(idx_seq(g.len() as int).take(i).drop_last() =~= idx_seq(g.len() as int).take(
            i - 1,
        ));
        assert(idx_seq(g.len() as int).take(i).last() == i - 1);
        assert(dedup_graph(g).take(i).drop_last() =~= dedup_graph(g).take(i - 1));
        assert(dedup_graph(g).take(i).last() == dedup_entry(g, i - 1));
        assert(dedup_entry(g, i - 1).name == g[i - 1].name);
        let p_prev = idx_seq(g.len() as int).take(i - 1).filter(ppred).map_values(pmap);
        let r_prev = dedup_graph(g).take(i - 1).filter(rpred);
        let p = idx_seq(g.len() as int).take(i).filter(ppred).map_values(pmap);
        let r = dedup_graph(g).take(i).filter(rpred);
        if ppred(i - 1) {
            assert(idx_seq(g.len() as int).take(i).filter(ppred) == idx_seq(
                g.len() as int,
            ).take(i - 1).filter(ppred).push(i - 1));
            assert(p =~= p_prev.push(pmap(i - 1)));
            assert(r =~= r_prev.push(dedup_entry(g, i - 1)));
            assert(p[p.len() - 1].name == r[r.len() - 1].name);
        } else {
            assert(p =~= p_prev);
            assert(r =~= r_prev);
        }
    }
}

} // verus!
