//! The optional-feature graph of one source package, and the
//! reflexive-transitive closure over it.

use vstd::prelude::*;
use crate::strutil::{chars_lt, str_eq};

verus! {

/// The mathematical shape of one feature: its name, the features it
/// requires, and its opaque external-dependency tokens.
pub struct SpecFeature {
    pub name: Seq<char>,
    pub reqs: Seq<Seq<char>>,
    pub deps: Seq<Seq<char>>,
}

/// One feature of the graph: the features it requires and the opaque
/// external dependencies it pulls in.
#[derive(Debug, Clone)]
pub struct FeatureEntry {
    pub name: String,
    pub features_required: Vec<String>,
    pub external_deps: Vec<String>,
}

impl View for FeatureEntry {
    type V = SpecFeature;

    open spec fn view(&self) -> SpecFeature {
        SpecFeature {
            name: self.name@,
            reqs: self.features_required.deep_view(),
            deps: self.external_deps.deep_view(),
        }
    }
}

/// The feature graph: an ordered mapping from feature name to its
/// requirements, sorted by name so iteration is canonical.
#[derive(Debug, Clone)]
pub struct FeatureGraph {
    pub entries: Vec<FeatureEntry>,
}

impl View for FeatureGraph {
    type V = Seq<SpecFeature>;

    open spec fn view(&self) -> Seq<SpecFeature> {
        Seq::new(self.entries@.len(), |i: int| self.entries@[i]@)
    }
}

/// The names of the graph, in their stored order.
pub open spec fn graph_names(g: Seq<SpecFeature>) -> Seq<Seq<char>> {
    g.map_values(|e: SpecFeature| e.name)
}

/// Whether a name is a key of the graph.
pub open spec fn name_in(g: Seq<SpecFeature>, n: Seq<char>) -> bool {
    exists|i: int| 0 <= i < g.len() && g[i].name == n
}

/// The index of a key in the graph.
pub open spec fn idx_of(g: Seq<SpecFeature>, n: Seq<char>) -> int {
    choose|i: int| 0 <= i < g.len() && g[i].name == n
}

/// Whether the feature named `a` directly requires the feature
/// named `b`.
pub open spec fn edge(g: Seq<SpecFeature>, a: Seq<char>, b: Seq<char>) -> bool {
    exists|i: int| 0 <= i < g.len() && g[i].name == a && g[i].reqs.contains(b)
}

/// Whether `to` is reachable from `from` along requirement edges in at
/// most `k` steps.
pub open spec fn reach_k(g: Seq<SpecFeature>, from: Seq<char>, to: Seq<char>, k: nat) -> bool
    decreases k,
{
    from == to || (k > 0 && exists|m: Seq<char>|
        #[trigger] edge(g, from, m) && reach_k(g, m, to, (k - 1) as nat))
}

/// Whether `to` is reachable from `from` along requirement edges.
pub open spec fn reachable(g: Seq<SpecFeature>, from: Seq<char>, to: Seq<char>) -> bool {
    exists|k: nat| reach_k(g, from, to, k)
}

/// A walk through the graph: at least one node, every node a key, and
/// an edge between each adjacent pair.
pub open spec fn is_path(g: Seq<SpecFeature>, p: Seq<Seq<char>>) -> bool {
    &&& p.len() >= 1
    &&& (forall|t: int| 0 <= t < p.len() ==> name_in(g, #[trigger] p[t]))
    &&& (forall|t: int| 0 <= t < p.len() - 1 ==> edge(g, #[trigger] p[t], p[t + 1]))
}

/// The graph has no cycle of requirement edges.
pub open spec fn acyclic(g: Seq<SpecFeature>) -> bool {
    forall|p: Seq<Seq<char>>|
        #[trigger] is_path(g, p) ==> !(p.len() >= 2 && p[0] == p[p.len() - 1])
}

/// The graph's keys are strictly sorted by name (so also unique).
pub open spec fn sorted_names(g: Seq<SpecFeature>) -> bool {
    forall|i: int, j: int| 0 <= i < j < g.len() ==> chars_lt(#[trigger] g[i].name, #[trigger] g[j].name)
}

/// Every required feature is itself a key of the graph.
pub open spec fn closed_graph(g: Seq<SpecFeature>) -> bool {
    forall|i: int, k: int|
        0 <= i < g.len() && 0 <= k < g[i].reqs.len() ==> name_in(g, #[trigger] g[i].reqs[k])
}

/// Sorted names give unique keys.
pub proof fn lemma_sorted_unique(g: Seq<SpecFeature>, i: int, j: int)
    requires
        sorted_names(g),
        0 <= i < g.len(),
        0 <= j < g.len(),
        g[i].name == g[j].name,
    ensures
        i == j,
{
    if i < j {
        assert(chars_lt(g[i].name, g[j].name));
        lemma_lt_irrefl(g[i].name);
    } else if j < i {
        assert(chars_lt(g[j].name, g[i].name));
        lemma_lt_irrefl(g[i].name);
    }
}

/// The order on names is irreflexive.
pub proof fn lemma_lt_irrefl(a: Seq<char>)
    ensures
        !chars_lt(a, a),
    decreases a.len(),
{
    if a.len() > 0 {
        lemma_lt_irrefl(a.skip(1));
    }
}

/// The keys reachable from a start key, in the graph's stored order.
pub open spec fn reachable_names(g: Seq<SpecFeature>, start: Seq<char>) -> Seq<Seq<char>> {
    graph_names(g).filter(|n: Seq<char>| reachable(g, start, n))
}

/// The requirement list of the entry that carries a name.
pub open spec fn feature_reqs(g: Seq<SpecFeature>, n: Seq<char>) -> Seq<Seq<char>> {
    g[idx_of(g, n)].reqs
}

/// The external dependencies of the entry that carries a name.
pub open spec fn feature_deps(g: Seq<SpecFeature>, n: Seq<char>) -> Seq<Seq<char>> {
    g[idx_of(g, n)].deps
}

/// Appends the elements of `xs` that are not yet present, in order.
pub open spec fn dedup_append(acc: Seq<Seq<char>>, xs: Seq<Seq<char>>) -> Seq<Seq<char>>
    decreases xs.len(),
{
    if xs.len() == 0 {
        acc
    } else {
        dedup_append(
            if acc.contains(xs[0]) {
                acc
            } else {
                acc.push(xs[0])
            },
            xs.skip(1),
        )
    }
}

/// The union of the external dependencies of the listed features, in
/// first-seen order with duplicates dropped.
pub open spec fn deps_fold(g: Seq<SpecFeature>, feats: Seq<Seq<char>>) -> Seq<Seq<char>>
    decreases feats.len(),
{
    if feats.len() == 0 {
        Seq::<Seq<char>>::empty()
    } else {
        dedup_append(deps_fold(g, feats.drop_last()), feature_deps(g, feats.last()))
    }
}

spec fn count_true(s: Seq<bool>) -> nat
    decreases s.len(),
{
    if s.len() == 0 {
        0
    } else {
        count_true(s.drop_last()) + (if s.last() {
            1nat
        } else {
            0nat
        })
    }
}

proof fn lemma_count_true_le(s: Seq<bool>)
    ensures
        count_true(s) <= s.len(),
    decreases s.len(),
{
    if s.len() > 0 {
        lemma_count_true_le(s.drop_last());
    }
}

proof fn lemma_count_true_update(s: Seq<bool>, i: int)
    requires
        0 <= i < s.len(),
        !s[i],
    ensures
        count_true(s.update(i, true)) == count_true(s) + 1,
    decreases s.len(),
{
    if i == s.len() - 1 {
        assert(s.update(i, true).drop_last() =~= s.drop_last());
        assert(s.update(i, true).last());
    } else {
        assert(s.update(i, true).drop_last() =~= s.drop_last().update(i, true));
        assert(s.update(i, true).last() == s.last());
        lemma_count_true_update(s.drop_last(), i);
    }
}

impl FeatureGraph {
    /// A graph is well formed when its keys are strictly sorted and
    /// every requirement names a key.
    pub open spec fn wf(&self) -> bool {
        sorted_names(self@) && closed_graph(self@)
    }

    /// The graph holds a base entry: the empty key, first by the sort
    /// order, which requires no features.
    pub open spec fn has_base(&self) -> bool {
        self@.len() > 0 && self@[0].name.len() == 0 && self@[0].reqs.len() == 0
    }

    /// The index of the entry carrying a name, if any.
    pub fn lookup_idx(&self, name: &str) -> (r: Option<usize>)
        ensures
            match r {
                Some(i) => i < self@.len() && self@[i as int].name == name@,
                None => !name_in(self@, name@),
            },
    {
        let n = self.entries.len();
        let mut i: usize = 0;
        while i < n
            invariant
                i <= n,
                n == self.entries.len(),
                forall|j: int| 0 <= j < i ==> self@[j].name != name@,
            decreases n - i,
        {
            if str_eq(self.entries[i].name.as_str(), name) {
                return Some(i);
            }
            i = i + 1;
        }
        proof {
            if name_in(self@, name@) {
                let j = choose|j: int| 0 <= j < self@.len() && self@[j].name == name@;
                assert(false);
            }
        }
        None
    }

    /// The reflexive-transitive closure of one feature: every feature
    /// reachable from it (itself included), in the graph's canonical
    /// order, and the union of the external dependencies of those
    /// features, first occurrence first.
    pub fn transitive_deps(&self, feature: &str) -> (r: (Vec<String>, Vec<String>))
        requires
            self.wf(),
            name_in(self@, feature@),
        ensures
            r.0.deep_view() == reachable_names(self@, feature@),
            r.1.deep_view() == deps_fold(self@, reachable_names(self@, feature@)),
            r.0.deep_view().contains(feature@),
    {
        let ghost g = self@;
        let n = self.entries.len();
        let start: usize = match self.lookup_idx(feature) {
            Some(i) => i,
            None => {
                proof {
                    assert(false);
                }
                vstd::pervasive::unreached()
            },
        };
        let mut marks: Vec<bool> = Vec::new();
        let mut z: usize = 0;
        while z < n
            invariant
                z <= n,
                marks@.len() == z,
                forall|j: int| 0 <= j < z ==> !marks@[j],
            decreases n - z,
        {
            marks.push(false);
            z = z + 1;
        }
        let mut wl: Vec<usize> = Vec::new();
        wl.push(start);
        let mut c: usize = 0;
        let mut marked_count: usize = 0;
        proof {
            lemma_count_all_false(marks@);
            assert(reach_k(g, feature@, g[start as int].name, 0));
            assert(reachable(g, feature@, g[start as int].name));
            assert(wl@[0] == start);
            assert(exists|t: int| 0 <= t < wl@.len() && wl@[t] == start);
        }
        while c < wl.len()
            invariant
                n == g.len(),
                g == self@,
                self.wf(),
                start < n,
                g[start as int].name == feature@,
                marks@.len() == n,
                marked_count == count_true(marks@),
                c <= wl@.len(),
                forall|t: int|
                    0 <= t < wl@.len() ==> #[trigger] wl@[t] < n && reachable(
                        g,
                        feature@,
                        g[wl@[t] as int].name,
                    ),
                forall|j: int| 0 <= j < n && #[trigger] marks@[j] ==> reachable(
                    g,
                    feature@,
                    g[j].name,
                ),
                marks@[start as int] || (exists|t: int|
                    c <= t < wl@.len() && wl@[t] == start),
                forall|j: int, k: int|
                    0 <= j < n && marks@[j] && 0 <= k < g[j].reqs.len() ==> marked_or_listed(
                        g,
                        marks@,
                        wl@,
                        c as int,
                        #[trigger] g[j].reqs[k],
                    ),
            decreases n - marked_count, wl@.len() - c,
        {
            let q = wl[c];
            proof {
                lemma_count_true_le(marks@);
            }
            if !marks[q] {
                let ghost pre = marks@;
                marks.set(q, true);
                proof {
                    lemma_count_true_update(pre, q as int);
                    assert(marks@ =~= pre.update(q as int, true));
                    assert(count_true(marks@) == marked_count + 1);
                    lemma_count_true_le(marks@);
                    assert forall|j: int, kk: int|
                        0 <= j < n && marks@[j] && 0 <= kk < g[j].reqs.len() && j != q as int
                            implies marked_or_listed(
                        g,
                        marks@,
                        wl@,
                        c as int,
                        #[trigger] g[j].reqs[kk],
                    ) by {
                        assert(pre[j]);
                        lemma_mol_more_marks(g, pre, marks@, wl@, c as int, g[j].reqs[kk]);
                    }
                }
                marked_count = marked_count + 1;
                let nr = self.entries[q].features_required.len();
                let mut k: usize = 0;
                while k < nr
                    invariant
                        n == g.len(),
                        g == self@,
                        self.wf(),
                        q < n,
                        start < n,
                        c < wl@.len(),
                        wl@[c as int] == q,
                        g[start as int].name == feature@,
                        nr == g[q as int].reqs.len(),
                        k <= nr,
                        marks@.len() == n,
                        marked_count == count_true(marks@),
                        marks@[q as int],
                        forall|t: int|
                            0 <= t < wl@.len() ==> #[trigger] wl@[t] < n && reachable(
                                g,
                                feature@,
                                g[wl@[t] as int].name,
                            ),
                        forall|j: int| 0 <= j < n && #[trigger] marks@[j] ==> reachable(
                            g,
                            feature@,
                            g[j].name,
                        ),
                        marks@[start as int] || (exists|t: int|
                            c <= t < wl@.len() && wl@[t] == start),
                        forall|j: int, kk: int|
                            0 <= j < n && marks@[j] && 0 <= kk < g[j].reqs.len() && !(j
                                == q as int && k <= kk) ==> marked_or_listed(
                                g,
                                marks@,
                                wl@,
                                c as int,
                                #[trigger] g[j].reqs[kk],
                            ),
                    decreases nr - k,
                {
                    let req = &self.entries[q].features_required[k];
                    proof {
                        assert(g[q as int].reqs[k as int] == req@);
                        assert(name_in(g, req@));
                    }
                    let ri: usize = match self.lookup_idx(req.as_str()) {
                        Some(i) => i,
                        None => {
                            proof {
                                assert(false);
                            }
                            vstd::pervasive::unreached()
                        },
                    };
                    proof {
                        assert(edge(g, g[q as int].name, g[ri as int].name)) by {
                            assert(g[q as int].reqs[k as int] == req@);
                            assert(g[q as int].reqs.contains(req@));
                        }
                        lemma_reachable_step(g, feature@, g[q as int].name, g[ri as int].name);
                    }
                    let ghost wl0 = wl@;
                    wl.push(ri);
                    proof {
                        assert(wl@ =~= wl0.push(ri));
                        assert forall|j: int, kk: int|
                            0 <= j < n && marks@[j] && 0 <= kk < g[j].reqs.len() && !(j
                                == q as int && k + 1 <= kk) implies marked_or_listed(
                            g,
                            marks@,
                            wl@,
                            c as int,
                            #[trigger] g[j].reqs[kk],
                        ) by {
                            if j == q as int && kk == k {
                                assert(g[ri as int].name == g[j].reqs[kk]);
                                assert(wl@[wl@.len() - 1] as int == ri as int);
                                lemma_mol_intro(
                                    g,
                                    marks@,
                                    wl@,
                                    c as int,
                                    g[j].reqs[kk],
                                    ri as int,
                                    wl@.len() - 1,
                                );
                            } else {
                                assert(marked_or_listed(g, marks@, wl0, c as int, g[j].reqs[kk]));
                                lemma_mol_push(g, marks@, wl0, ri, c as int, g[j].reqs[kk]);
                            }
                        }
                        if !marks@[start as int] {
                            let t = choose|t: int| c <= t < wl0.len() && wl0[t] == start;
                            assert(wl@[t] == start);
                        }
                    }
                    k = k + 1;
                }
                proof {
                    assert forall|j: int, kk: int|
                        0 <= j < n && marks@[j] && 0 <= kk < g[j].reqs.len() implies marked_or_listed(
                        g,
                        marks@,
                        wl@,
                        c + 1,
                        #[trigger] g[j].reqs[kk],
                    ) by {
                        assert(marked_or_listed(g, marks@, wl@, c as int, g[j].reqs[kk]));
                        lemma_mol_advance(g, marks@, wl@, c as int, g[j].reqs[kk]);
                    }
                    if !marks@[start as int] {
                        let t = choose|t: int| c <= t < wl@.len() && wl@[t] == start;
                        assert(t != c) by {
                            if t == c {
                                assert(start == q);
                            }
                        }
                    }
                }
            } else {
                proof {
                    assert forall|j: int, kk: int|
                        0 <= j < n && marks@[j] && 0 <= kk < g[j].reqs.len() implies marked_or_listed(
                        g,
                        marks@,
                        wl@,
                        c + 1,
                        #[trigger] g[j].reqs[kk],
                    ) by {
                        assert(marked_or_listed(g, marks@, wl@, c as int, g[j].reqs[kk]));
                        lemma_mol_advance(g, marks@, wl@, c as int, g[j].reqs[kk]);
                    }
                    if !marks@[start as int] {
                        let t = choose|t: int| c <= t < wl@.len() && wl@[t] == start;
                        assert(t != c) by {
                            if t == c {
                                assert(start == q);
                            }
                        }
                    }
                }
            }
            c = c + 1;
        }
        proof {
            assert(marks@[start as int]);
            assert forall|j: int, k: int|
                0 <= j < n && marks@[j] && 0 <= k < g[j].reqs.len() implies exists|
                jj: int,
            |
                0 <= jj < g.len() && g[jj].name == #[trigger] g[j].reqs[k] && marks@[jj] by {
                assert(marked_or_listed(g, marks@, wl@, c as int, g[j].reqs[k]));
                let jj = lemma_mol_elim(g, marks@, wl@, c as int, g[j].reqs[k]);
                if !marks@[jj] {
                    let t = lemma_listed_elim(wl@, c as int, jj);
                    assert(false);
                }
                assert(marks@[jj]);
            }
        }
        let ghost marksv = marks@;
        proof {
            assert forall|j: int| 0 <= j < n implies marksv[j] == reachable(
                g,
                feature@,
                g[j].name,
            ) by {
                if marksv[j] {
                } else {
                    if reachable(g, feature@, g[j].name) {
                        let k = choose|k: nat| reach_k(g, feature@, g[j].name, k);
                        lemma_closed_marks(g, marksv, feature@, g[j].name, k, start as int);
                        let jj = choose|jj: int|
                            0 <= jj < g.len() && g[jj].name == g[j].name && marksv[jj];
                        lemma_sorted_unique(g, j, jj);
                        assert(false);
                    }
                }
            }
        }
        // collect the reachable names in order, and fold their deps
        let mut feats: Vec<String> = Vec::new();
        let mut deps: Vec<String> = Vec::new();
        let ghost pred = |nm: Seq<char>| reachable(g, feature@, nm);
        let mut i: usize = 0;
        proof {
            reveal(Seq::filter);
            assert(graph_names(g).take(0) =~= Seq::<Seq<char>>::empty());
            assert(feats.deep_view() =~= graph_names(g).take(0).filter(pred));
        }
        while i < n
            invariant
                i <= n,
                n == g.len(),
                g == self@,
                self.wf(),
                marks@ == marksv,
                marks@.len() == n,
                forall|j: int| 0 <= j < n ==> marksv[j] == reachable(g, feature@, #[trigger] g[j].name),
                pred == (|nm: Seq<char>| reachable(g, feature@, nm)),
                feats.deep_view() == graph_names(g).take(i as int).filter(pred),
                deps.deep_view() == deps_fold(g, feats.deep_view()),
            decreases n - i,
        {
            proof {
                reveal(Seq::filter);
                assert(graph_names(g).take(i + 1).drop_last() =~= graph_names(g).take(i as int));
                assert(graph_names(g).take(i + 1).last() == g[i as int].name);
            }
            if marks[i] {
                let ghost feats0 = feats.deep_view();
                crate::strutil::push_owned(&mut feats, self.entries[i].name.as_str().to_owned());
                proof {
                    assert(feats.deep_view() =~= graph_names(g).take(i + 1).filter(pred));
                    assert(feats.deep_view().drop_last() =~= feats0);
                    assert(feats.deep_view().last() == g[i as int].name);
                    lemma_idx_of_self(g, i as int);
                    assert(feature_deps(g, g[i as int].name) == g[i as int].deps);
                }
                // fold in this feature's external deps, keeping first occurrences
                let nd = self.entries[i].external_deps.len();
                let mut d: usize = 0;
                let ghost target = deps_fold(g, feats.deep_view());
                proof {
                    assert(target == dedup_append(deps_fold(g, feats0), g[i as int].deps));
                    assert(g[i as int].deps.skip(0) =~= g[i as int].deps);
                }
                while d < nd
                    invariant
                        d <= nd,
                        n == g.len(),
                        g == self@,
                        i < n,
                        nd == g[i as int].deps.len(),
                        target == dedup_append(
                            deps.deep_view(),
                            g[i as int].deps.skip(d as int),
                        ),
                    decreases nd - d,
                {
                    proof {
                        assert(g[i as int].deps.skip(d as int)[0] == g[i as int].deps[d as int]);
                        assert(g[i as int].deps.skip(d as int).skip(1) =~= g[i as int].deps.skip(
                            d + 1,
                        ));
                    }
                    let dep = &self.entries[i].external_deps[d];
                    proof {
                        assert(g[i as int].deps[d as int] == dep@);
                    }
                    if !string_vec_contains(&deps, dep.as_str()) {
                        let ghost acc0 = deps.deep_view();
                        crate::strutil::push_owned(&mut deps, dep.as_str().to_owned());
                        proof {
                            assert(!acc0.contains(dep@));
                            assert(deps.deep_view() == acc0.push(dep@));
                            assert(dedup_append(acc0, g[i as int].deps.skip(d as int))
                                == dedup_append(deps.deep_view(), g[i as int].deps.skip(d + 1)));
                        }
                    } else {
                        proof {
                            assert(deps.deep_view().contains(dep@));
                            assert(dedup_append(deps.deep_view(), g[i as int].deps.skip(d as int))
                                == dedup_append(deps.deep_view(), g[i as int].deps.skip(d + 1)));
                        }
                    }
                    d = d + 1;
                }
                proof {
                    assert(g[i as int].deps.skip(nd as int).len() == 0);
                    assert(dedup_append(deps.deep_view(), g[i as int].deps.skip(nd as int))
                        == deps.deep_view());
                    assert(deps.deep_view() == target);
                }
            } else {
                proof {
                    assert(feats.deep_view() =~= graph_names(g).take(i + 1).filter(pred));
                }
            }
            i = i + 1;
        }
        proof {
            assert(graph_names(g).take(n as int) =~= graph_names(g));
            assert(reach_k(g, feature@, feature@, 0));
            assert(reachable(g, feature@, feature@));
            assert(graph_names(g)[start as int] == feature@);
            assert(pred(graph_names(g)[start as int]));
            assert(feats.deep_view().contains(feature@)) by {
                Seq::lemma_filter_contains(graph_names(g), pred, start as int);
            }
        }
        (feats, deps)
    }
}

/// Whether the key named `nm` is already marked or still waiting in
/// the unprocessed tail of the worklist.
/// Whether the index `j` still sits in the unprocessed tail of the
/// worklist.
pub open spec fn listed_from(wl: Seq<usize>, c: int, j: int) -> bool {
    exists|t: int| c <= t < wl.len() && #[trigger] wl[t] as int == j
}

pub open spec fn marked_or_listed(
    g: Seq<SpecFeature>,
    marks: Seq<bool>,
    wl: Seq<usize>,
    c: int,
    nm: Seq<char>,
) -> bool {
    exists|j: int| 0 <= j < g.len() && #[trigger] g[j].name == nm && (marks[j] || listed_from(wl, c, j))
}

proof fn lemma_mol_intro(
    g: Seq<SpecFeature>,
    marks: Seq<bool>,
    wl: Seq<usize>,
    c: int,
    nm: Seq<char>,
    jj: int,
    t: int,
)
    requires
        0 <= jj < g.len(),
        g[jj].name == nm,
        marks[jj] || (c <= t < wl.len() && wl[t] as int == jj),
    ensures
        marked_or_listed(g, marks, wl, c, nm),
{
    if marks[jj] {
        assert(0 <= jj < g.len() && g[jj].name == nm && marks[jj]);
    } else {
        assert(wl[t] as int == jj);
        assert(listed_from(wl, c, jj));
    }
}

proof fn lemma_mol_elim(
    g: Seq<SpecFeature>,
    marks: Seq<bool>,
    wl: Seq<usize>,
    c: int,
    nm: Seq<char>,
) -> (jj: int)
    requires
        marked_or_listed(g, marks, wl, c, nm),
    ensures
        0 <= jj < g.len(),
        g[jj].name == nm,
        marks[jj] || listed_from(wl, c, jj),
{
    choose|jj: int|
        0 <= jj < g.len() && #[trigger] g[jj].name == nm && (marks[jj] || listed_from(wl, c, jj))
}

proof fn lemma_listed_elim(wl: Seq<usize>, c: int, j: int) -> (t: int)
    requires
        0 <= c,
        listed_from(wl, c, j),
    ensures
        c <= t < wl.len(),
        wl[t] as int == j,
{
    choose|t: int| c <= t < wl.len() && #[trigger] wl[t] as int == j
}

proof fn lemma_mol_push(
    g: Seq<SpecFeature>,
    marks: Seq<bool>,
    wl: Seq<usize>,
    x: usize,
    c: int,
    nm: Seq<char>,
)
    requires
        0 <= c,
        marked_or_listed(g, marks, wl, c, nm),
    ensures
        marked_or_listed(g, marks, wl.push(x), c, nm),
{
    let jj = lemma_mol_elim(g, marks, wl, c, nm);
    if marks[jj] {
        lemma_mol_intro(g, marks, wl.push(x), c, nm, jj, 0);
    } else {
        let t = lemma_listed_elim(wl, c, jj);
        assert(wl.push(x)[t] as int == jj);
        lemma_mol_intro(g, marks, wl.push(x), c, nm, jj, t);
    }
}

proof fn lemma_mol_more_marks(
    g: Seq<SpecFeature>,
    marks0: Seq<bool>,
    marks1: Seq<bool>,
    wl: Seq<usize>,
    c: int,
    nm: Seq<char>,
)
    requires
        0 <= c,
        marked_or_listed(g, marks0, wl, c, nm),
        marks0.len() == marks1.len(),
        forall|x: int| 0 <= x < marks0.len() && marks0[x] ==> marks1[x],
        g.len() <= marks0.len(),
    ensures
        marked_or_listed(g, marks1, wl, c, nm),
{
    let jj = lemma_mol_elim(g, marks0, wl, c, nm);
    if marks0[jj] {
        lemma_mol_intro(g, marks1, wl, c, nm, jj, 0);
    } else {
        let t = lemma_listed_elim(wl, c, jj);
        lemma_mol_intro(g, marks1, wl, c, nm, jj, t);
    }
}

proof fn lemma_mol_advance(
    g: Seq<SpecFeature>,
    marks: Seq<bool>,
    wl: Seq<usize>,
    c: int,
    nm: Seq<char>,
)
    requires
        marked_or_listed(g, marks, wl, c, nm),
        0 <= c < wl.len(),
        wl[c] < marks.len(),
        marks[wl[c] as int],
        g.len() <= marks.len(),
    ensures
        marked_or_listed(g, marks, wl, c + 1, nm),
{
    let jj = lemma_mol_elim(g, marks, wl, c, nm);
    if marks[jj] {
        lemma_mol_intro(g, marks, wl, c + 1, nm, jj, 0);
    } else {
        let t = lemma_listed_elim(wl, c, jj);
        if t == c {
            assert(marks[jj]);
            lemma_mol_intro(g, marks, wl, c + 1, nm, jj, 0);
        } else {
            lemma_mol_intro(g, marks, wl, c + 1, nm, jj, t);
        }
    }
}

proof fn lemma_count_all_false(s: Seq<bool>)
    requires
        forall|j: int| 0 <= j < s.len() ==> !s[j],
    ensures
        count_true(s) == 0,
    decreases s.len(),
{
    if s.len() > 0 {
        lemma_count_all_false(s.drop_last());
    }
}

/// A step along an edge extends reachability.
pub proof fn lemma_reachable_step(g: Seq<SpecFeature>, start: Seq<char>, a: Seq<char>, b: Seq<char>)
    requires
        reachable(g, start, a),
        edge(g, a, b),
    ensures
        reachable(g, start, b),
{
    let k = choose|k: nat| reach_k(g, start, a, k);
    lemma_reach_k_extend(g, start, a, b, k);
}

proof fn lemma_reach_k_extend(
    g: Seq<SpecFeature>,
    start: Seq<char>,
    a: Seq<char>,
    b: Seq<char>,
    k: nat,
)
    requires
        reach_k(g, start, a, k),
        edge(g, a, b),
    ensures
        reach_k(g, start, b, k + 1),
    decreases k,
{
    if start == a {
        let kk: nat = k + 1;
        assert(kk > 0);
        assert(reach_k(g, b, b, (kk - 1) as nat));
        assert(reach_k(g, start, b, kk));
    } else {
        assert(k > 0);
        let m = choose|m: Seq<char>| #[trigger] edge(g, start, m) && reach_k(g, m, a, (k - 1) as nat);
        lemma_reach_k_extend(g, m, a, b, (k - 1) as nat);
        assert(((k - 1) as nat) + 1 == k);
        assert(edge(g, start, m) && reach_k(g, m, b, k));
        let kk: nat = k + 1;
        assert(kk > 0);
        assert(reach_k(g, m, b, (kk - 1) as nat));
        assert(reach_k(g, start, b, kk));
    }
}

proof fn lemma_closed_marks(
    g: Seq<SpecFeature>,
    marks: Seq<bool>,
    start: Seq<char>,
    to: Seq<char>,
    k: nat,
    si: int,
)
    requires
        marks.len() == g.len(),
        sorted_names(g),
        0 <= si < g.len(),
        g[si].name == start,
        marks[si],
        reach_k(g, start, to, k),
        forall|j: int, kk: int|
            0 <= j < g.len() && marks[j] && 0 <= kk < g[j].reqs.len() ==> exists|jj: int|
                0 <= jj < g.len() && g[jj].name == #[trigger] g[j].reqs[kk] && marks[jj],
    ensures
        exists|j: int| 0 <= j < g.len() && g[j].name == to && marks[j],
    decreases k,
{
    if start == to {
    } else {
        let m = choose|m: Seq<char>| #[trigger] edge(g, start, m) && reach_k(g, m, to, (k - 1) as nat);
        let ei = choose|i: int| 0 <= i < g.len() && g[i].name == start && g[i].reqs.contains(m);
        lemma_sorted_unique(g, ei, si);
        let kk = choose|kk: int| 0 <= kk < g[ei].reqs.len() && g[ei].reqs[kk] == m;
        assert(marks[ei]);
        let jj = choose|jj: int| 0 <= jj < g.len() && g[jj].name == g[ei].reqs[kk] && marks[jj];
        lemma_closed_marks(g, marks, m, to, (k - 1) as nat, jj);
    }
}

/// The entry at an index is the one its own name selects, when names
/// are unique.
pub proof fn lemma_idx_of_self(g: Seq<SpecFeature>, i: int)
    requires
        sorted_names(g),
        0 <= i < g.len(),
    ensures
        idx_of(g, g[i].name) == i,
{
    let j = idx_of(g, g[i].name);
    assert(0 <= j < g.len() && g[j].name == g[i].name);
    lemma_sorted_unique(g, i, j);
}

/// An element of a filtered sequence comes from the sequence.
pub proof fn lemma_filter_mem<A>(s: Seq<A>, pred: spec_fn(A) -> bool, t: int)
    requires
        0 <= t < s.filter(pred).len(),
    ensures
        s.contains(s.filter(pred)[t]),
    decreases s.len(),
{
    reveal(Seq::filter);
    if s.len() > 0 {
        let prev = s.drop_last().filter(pred);
        if pred(s.last()) {
            if t < prev.len() {
                lemma_filter_mem(s.drop_last(), pred, t);
                let k = choose|k: int| 0 <= k < s.drop_last().len() && s.drop_last()[k] == prev[t];
                assert(s[k] == prev[t]);
            } else {
                assert(s.filter(pred)[t] == s.last());
                assert(s[s.len() - 1] == s.last());
            }
        } else {
            lemma_filter_mem(s.drop_last(), pred, t);
            let k = choose|k: int| 0 <= k < s.drop_last().len() && s.drop_last()[k] == prev[t];
            assert(s[k] == prev[t]);
        }
    }
}

/// Whether a vector of strings holds the given characters.
pub fn string_vec_contains(v: &Vec<String>, s: &str) -> (r: bool)
    ensures
        r == v.deep_view().contains(s@),
{
    let n = v.len();
    let mut i: usize = 0;
    while i < n
        invariant
            i <= n,
            n == v.len(),
            forall|k: int| 0 <= k < i ==> v.deep_view()[k] != s@,
        decreases n - i,
    {
        if str_eq(v[i].as_str(), s) {
            proof {
                assert(v.deep_view()[i as int] == s@);
            }
            return true;
        }
        i = i + 1;
    }
    proof {
        if v.deep_view().contains(s@) {
            let k = choose|k: int| 0 <= k < v.deep_view().len() && v.deep_view()[k] == s@;
            assert(false);
        }
    }
    false
}

} // verus!
