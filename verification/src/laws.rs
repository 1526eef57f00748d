//! The stated laws of the resolver and the reconciler, proved over
//! the same spec functions their contracts use.

use vstd::prelude::*;
use crate::changelog::{bump_spec, reconcile_spec, SpecEntry, ver_bump_spec, version_parts_spec};
use crate::feature_graph::{lemma_sorted_unique, name_in, sorted_names, SpecFeature};
use crate::resolve::{
    all_deps, assigned, chain_end, dedup_entry, dedup_graph, dup_of, dup_scan, idx_seq, is_pass,
    provides_spec, reduced_spec, SpecProvides,
};
use crate::strutil::{dec_str, digits_val, is_dec_digit, last_index_of, lemma_dec_str_val};

verus! {

/// Resolving the same feature graph twice yields the same
/// provides-map and the same reduced graph: the resolver's contract
/// pins its whole result, so two runs cannot differ.
pub proof fn lemma_resolver_deterministic(
    g: Seq<SpecFeature>,
    p1: Seq<SpecProvides>,
    r1: Seq<SpecFeature>,
    p2: Seq<SpecProvides>,
    r2: Seq<SpecFeature>,
)
    requires
        p1 == provides_spec(g),
        r1 == reduced_spec(g),
        p2 == provides_spec(g),
        r2 == reduced_spec(g),
    ensures
        p1 == p2,
        r1 == r2,
{
}

/// Reconciling the same history with the same inputs twice yields
/// byte-identical output: the reconciler's contract pins the whole
/// rewritten file.
pub proof fn lemma_reconcile_deterministic(
    data: Seq<char>,
    source_name: Seq<char>,
    dv: Seq<char>,
    crate_name: Seq<char>,
    crate_version: Seq<char>,
    crate_src: Seq<char>,
    debcargo_version: Seq<char>,
    author: Seq<char>,
    date_now: Seq<char>,
    uploaders: Seq<Seq<char>>,
    o1: Option<Seq<char>>,
    o2: Option<Seq<char>>,
)
    requires
        o1 == reconcile_spec(
            data,
            source_name,
            dv,
            crate_name,
            crate_version,
            crate_src,
            debcargo_version,
            author,
            date_now,
            uploaders,
        ),
        o2 == reconcile_spec(
            data,
            source_name,
            dv,
            crate_name,
            crate_version,
            crate_src,
            debcargo_version,
            author,
            date_now,
            uploaders,
        ),
    ensures
        o1 == o2,
{
}

/// The revision bump law: when the previous top entry's version is
/// the same upstream version `V` with a plain numeric revision `n`,
/// the next revision is `n + 1`; a different upstream version resets
/// the revision, and the caller then uses `1`.
pub proof fn lemma_revision_bump(prev: SpecEntry, upstream: Seq<char>, n: u64)
    requires
        n < u64::MAX,
        !upstream.contains('-'),
        prev.version == upstream + "-"@ + dec_str(n),
    ensures
        ver_bump_spec(Some(prev), upstream) == Some(Some(dec_str((n + 1) as u64))),
{
    reveal_strlit("-");
    let sep = "-"@;
    assert(sep.len() == 1 && sep[0] == '-');
    let v = prev.version;
    lemma_dec_str_val(n);
    lemma_last_dash(upstream, dec_str(n), v);
    assert(version_parts_spec(v).0 =~= upstream);
    assert(version_parts_spec(v).1 =~= dec_str(n));
    let suf = version_parts_spec(v).1;
    lemma_tds_all_digits(suf);
    assert(crate::changelog::trailing_digits_start(suf) == 0);
    assert(suf.skip(0) =~= suf);
    assert(suf.take(0) =~= Seq::<char>::empty());
    assert(digits_val(suf) == n);
    assert(bump_spec(v) == Some(Seq::<char>::empty() + dec_str((n + 1) as u64)));
    assert(Seq::<char>::empty() + dec_str((n + 1) as u64) =~= dec_str((n + 1) as u64));
}

/// A different upstream version resets the revision.
pub proof fn lemma_revision_reset(prev: SpecEntry, upstream: Seq<char>)
    requires
        version_parts_spec(prev.version).0 != upstream,
    ensures
        ver_bump_spec(Some(prev), upstream) == Some(None::<Seq<char>>),
{
}

/// In `a + "-" + b` with a dash-free `a` and digit-only `b`, the last
/// dash is the separator.
proof fn lemma_last_dash(a: Seq<char>, b: Seq<char>, v: Seq<char>)
    requires
        v == a + "-"@ + b,
        !a.contains('-'),
        forall|i: int| 0 <= i < b.len() ==> is_dec_digit(#[trigger] b[i]),
        "-"@.len() == 1 && "-"@[0] == '-',
    ensures
        last_index_of(v, '-') == Some(a.len() as int),
        v.take(a.len() as int) == a,
        v.skip(a.len() as int + 1) == b,
    decreases b.len(),
{
    if b.len() == 0 {
        assert(v.last() == '-');
        assert(last_index_of(v, '-') == Some(v.len() - 1));
        assert(v.len() - 1 == a.len());
    } else {
        assert(v.last() == b.last());
        assert(!is_dec_digit('-'));
        assert(v.last() != '-');
        assert(v.drop_last() =~= a + "-"@ + b.drop_last());
        lemma_last_dash(a, b.drop_last(), v.drop_last());
        assert(last_index_of(v, '-') == last_index_of(v.drop_last(), '-'));
        assert(v.take(a.len() as int) =~= v.drop_last().take(a.len() as int));
        assert(v.skip(a.len() as int + 1) =~= v.drop_last().skip(a.len() as int + 1) + seq![b.last()]);
        assert(v.drop_last().skip(a.len() as int + 1) + seq![b.last()] =~= b);
    }
    assert(v.take(a.len() as int) =~= a);
}

/// A digit-only suffix's trailing digit run is the whole suffix.
proof fn lemma_tds_all_digits(s: Seq<char>)
    requires
        forall|i: int| 0 <= i < s.len() ==> is_dec_digit(#[trigger] s[i]),
    ensures
        crate::changelog::trailing_digits_start(s) == 0,
    decreases s.len(),
{
    if s.len() > 0 {
        lemma_tds_all_digits(s.drop_last());
    }
}

/// The collapse fallback's dependency list holds a token exactly when
/// some feature of the original graph held it: its sequence is the
/// union of every feature's external dependencies.
pub proof fn lemma_collapse_union(g: Seq<SpecFeature>, d: Seq<char>)
    ensures
        all_deps(g).contains(d) <==> (exists|i: int|
            0 <= i < g.len() && #[trigger] g[i].deps.contains(d)),
    decreases g.len(),
{
    if g.len() == 0 {
    } else {
        lemma_collapse_union(g.drop_last(), d);
        if all_deps(g).contains(d) {
            let k = choose|k: int| 0 <= k < all_deps(g).len() && all_deps(g)[k] == d;
            if k < all_deps(g.drop_last()).len() {
                assert(all_deps(g.drop_last())[k] == d);
                assert(all_deps(g.drop_last()).contains(d));
                let i = choose|i: int|
                    0 <= i < g.drop_last().len() && #[trigger] g.drop_last()[i].deps.contains(d);
                assert(g[i].deps.contains(d));
            } else {
                assert(g.last().deps[k - all_deps(g.drop_last()).len()] == d);
                assert(g.last().deps.contains(d));
                assert(g[g.len() - 1].deps.contains(d));
            }
        }
        if exists|i: int| 0 <= i < g.len() && #[trigger] g[i].deps.contains(d) {
            let i = choose|i: int| 0 <= i < g.len() && #[trigger] g[i].deps.contains(d);
            let k = choose|k: int| 0 <= k < g[i].deps.len() && g[i].deps[k] == d;
            if i < g.len() - 1 {
                assert(g.drop_last()[i].deps.contains(d));
                assert(all_deps(g.drop_last()).contains(d));
                let k2 = choose|k2: int|
                    0 <= k2 < all_deps(g.drop_last()).len() && all_deps(g.drop_last())[k2] == d;
                assert(all_deps(g)[k2] == d);
                assert(all_deps(g).contains(d));
            } else {
                assert(g.last().deps.contains(d));
                assert(all_deps(g)[all_deps(g.drop_last()).len() + k] == d);
                assert(all_deps(g).contains(d));
            }
        }
    }
}

/// The partition law of the resolver's output, in the parts that hold
/// of every graph: the surviving keys and every assigned name come
/// from the original key set; the keys are no pass-throughs while
/// every assigned name is one, so the two sides never overlap; and no
/// name is assigned to two survivors, nor twice to one.
pub proof fn lemma_partition(g: Seq<SpecFeature>)
    requires
        sorted_names(g),
    ensures
        forall|t: int| 0 <= t < provides_spec(g).len() ==> name_in(
            g,
            (#[trigger] provides_spec(g)[t]).name,
        ),
        forall|t: int, u: int|
            0 <= t < provides_spec(g).len() && 0 <= u < provides_spec(g)[t].provides.len()
                ==> name_in(g, #[trigger] provides_spec(g)[t].provides[u]),
        forall|t: int, u: int|
            0 <= t < provides_spec(g).len() && 0 <= u < provides_spec(g)[t].provides.len()
                ==> (#[trigger] provides_spec(g)[t]).name != #[trigger] provides_spec(
                g,
            )[t].provides[u],
        forall|t1: int, u1: int, t2: int, u2: int|
            0 <= t1 < provides_spec(g).len() && 0 <= u1 < provides_spec(g)[t1].provides.len() && 0
                <= t2 < provides_spec(g).len() && 0 <= u2 < provides_spec(
                g,
            )[t2].provides.len() && (#[trigger] provides_spec(g)[t1].provides[u1])
                == (#[trigger] provides_spec(g)[t2].provides[u2]) ==> t1 == t2 && u1 == u2,
{
    crate::resolve::lemma_provides_spec_names(g);
    let n = g.len() as int;
    let ppred = |i: int| !is_pass(dedup_entry(g, i));
    let pmap = |i: int| SpecProvides { name: g[i].name, provides: assigned(g, i) };
    let flt = idx_seq(n).filter(ppred);
    assert forall|t: int, u: int|
        0 <= t < provides_spec(g).len() && 0 <= u < provides_spec(g)[t].provides.len() implies (
    #[trigger] provides_spec(g)[t]).name != #[trigger] provides_spec(g)[t].provides[u] by {
        crate::feature_graph::lemma_filter_mem(idx_seq(n), ppred, t);
        Seq::lemma_filter_pred(idx_seq(n), ppred, t);
        let si = flt[t];
        let kk = choose|k: int| 0 <= k < idx_seq(n).len() && idx_seq(n)[k] == si;
        assert(0 <= si < n);
        assert(provides_spec(g)[t] == pmap(si));
        let (j, uu) = lemma_assigned_elem(g, si, u);
        if g[si].name == g[j].name {
            lemma_sorted_unique(g, si, j);
            assert(is_pass(dedup_entry(g, si)));
            assert(!is_pass(dedup_entry(g, si)));
        }
    }
    assert forall|t1: int, u1: int, t2: int, u2: int|
        0 <= t1 < provides_spec(g).len() && 0 <= u1 < provides_spec(g)[t1].provides.len() && 0
            <= t2 < provides_spec(g).len() && 0 <= u2 < provides_spec(g)[t2].provides.len() && (
    #[trigger] provides_spec(g)[t1].provides[u1]) == (#[trigger] provides_spec(
        g,
    )[t2].provides[u2]) implies t1 == t2 && u1 == u2 by {
        crate::feature_graph::lemma_filter_mem(idx_seq(n), ppred, t1);
        Seq::lemma_filter_pred(idx_seq(n), ppred, t1);
        crate::feature_graph::lemma_filter_mem(idx_seq(n), ppred, t2);
        Seq::lemma_filter_pred(idx_seq(n), ppred, t2);
        let s1 = flt[t1];
        let k1 = choose|k: int| 0 <= k < idx_seq(n).len() && idx_seq(n)[k] == s1;
        let s2 = flt[t2];
        let k2 = choose|k: int| 0 <= k < idx_seq(n).len() && idx_seq(n)[k] == s2;
        assert(0 <= s1 < n && 0 <= s2 < n);
        assert(provides_spec(g)[t1] == pmap(s1));
        assert(provides_spec(g)[t2] == pmap(s2));
        let (j1, v1) = lemma_assigned_elem(g, s1, u1);
        let (j2, v2) = lemma_assigned_elem(g, s2, u2);
        lemma_sorted_unique(g, j1, j2);
        assert(chain_end(dedup_graph(g), j1, g.len()) == Some(s1));
        assert(chain_end(dedup_graph(g), j1, g.len()) == Some(s2));
        assert(s1 == s2);
        lemma_filter_idx_unique(g, s1, v1, v2);
        assert(u1 == u2) by {
            assert(v1 == v2);
        }
        lemma_flt_injective(idx_seq(n), ppred, t1, t2);
    }
}

/// One pass-through link of the deduplicated graph: `a` is a
/// pass-through whose single requirement names `b`.
pub open spec fn chain_step(g: Seq<SpecFeature>, a: int, b: int) -> bool {
    &&& 0 <= a < g.len()
    &&& 0 <= b < g.len()
    &&& is_pass(dedup_graph(g)[a])
    &&& dedup_graph(g)[a].reqs[0] == g[b].name
}

/// A cyclic run of pass-through links.
pub open spec fn chain_cycle(g: Seq<SpecFeature>, c: Seq<int>) -> bool {
    &&& c.len() >= 1
    &&& (forall|t: int| 0 <= t < c.len() - 1 ==> chain_step(g, #[trigger] c[t], c[t + 1]))
    &&& chain_step(g, c[c.len() - 1], c[0])
}

/// A found duplicate lies strictly earlier and has the same
/// signature.
proof fn lemma_dup_props(g: Seq<SpecFeature>, i: int, j: int)
    requires
        0 <= j,
        dup_scan(g, i, j) is Some,
    ensures
        j <= dup_scan(g, i, j)->0 < i,
        crate::resolve::same_sig(g[dup_scan(g, i, j)->0], g[i]),
    decreases i - j,
{
    if j < i && !crate::resolve::same_sig(g[j], g[i]) {
        lemma_dup_props(g, i, j + 1);
    }
}

/// In a strictly descending run the last element is below the first.
proof fn lemma_strict_desc(s: Seq<int>)
    requires
        s.len() >= 2,
        forall|t: int| 0 <= t < s.len() - 1 ==> s[t + 1] < #[trigger] s[t],
    ensures
        s[s.len() - 1] < s[0],
    decreases s.len(),
{
    if s.len() > 2 {
        lemma_strict_desc(s.drop_last());
        assert(s.drop_last()[s.len() - 2] == s[s.len() - 2]);
        assert(s[s.len() - 1] < s[s.len() - 2]);
    }
}

/// Walking a rotated chain cycle whose first link is an untouched
/// pass-through: there is always a real requirement path from the
/// second node to something with the current node's original
/// signature.
proof fn lemma_walk(g: Seq<SpecFeature>, r: Seq<int>, t: int) -> (res: (Seq<Seq<char>>, int))
    requires
        sorted_names(g),
        chain_cycle(g, r),
        r.len() >= 2,
        dup_of(g, r[0]) is None,
        1 <= t < r.len(),
    ensures
        ({
            let (p, x) = res;
            &&& crate::feature_graph::is_path(g, p)
            &&& p.len() >= 1
            &&& p[0] == g[r[1]].name
            &&& 0 <= x < g.len()
            &&& p[p.len() - 1] == g[x].name
            &&& crate::resolve::same_sig(g[x], g[r[t]])
        }),
    decreases t,
{
    if t == 1 {
        let p = seq![g[r[1]].name];
        assert(crate::feature_graph::is_path(g, p)) by {
            assert(name_in(g, p[0]));
        }
        (p, r[1])
    } else {
        let (p, x) = lemma_walk(g, r, t - 1);
        lemma_step_translate(g, r[t - 1], r[t], p, x)
    }
}

/// Pushes one chain link through the signature correspondence: an
/// untouched link is a real requirement edge from the stand-in node,
/// a rewritten link only moves the signature.
proof fn lemma_step_translate(
    g: Seq<SpecFeature>,
    a: int,
    b: int,
    p: Seq<Seq<char>>,
    x: int,
) -> (res: (Seq<Seq<char>>, int))
    requires
        sorted_names(g),
        chain_step(g, a, b),
        crate::feature_graph::is_path(g, p),
        p.len() >= 1,
        0 <= x < g.len(),
        p[p.len() - 1] == g[x].name,
        crate::resolve::same_sig(g[x], g[a]),
    ensures
        ({
            let (p2, x2) = res;
            &&& crate::feature_graph::is_path(g, p2)
            &&& p2.len() >= p.len()
            &&& p2[0] == p[0]
            &&& 0 <= x2 < g.len()
            &&& p2[p2.len() - 1] == g[x2].name
            &&& crate::resolve::same_sig(g[x2], g[b])
        }),
{
    let d = dedup_graph(g);
    if dup_of(g, a) is Some {
        // rewritten: the link target is the representative, which
        // shares the original signature
        lemma_dup_props(g, a, 0);
        let j0 = dup_of(g, a)->0;
        assert(d[a].reqs == seq![g[j0].name]);
        assert(g[b].name == g[j0].name);
        lemma_sorted_unique(g, b, j0);
        (p, x)
    } else {
        // untouched: the original entry of `a` is the pass-through,
        // so the stand-in has the same single requirement
        assert(d[a] == g[a]);
        assert(g[a].reqs == seq![g[b].name]) by {
            assert(g[a].reqs.len() == 1);
            assert(g[a].reqs[0] == g[b].name);
            assert(g[a].reqs =~= seq![g[b].name]);
        }
        assert(g[x].reqs == g[a].reqs);
        assert(crate::feature_graph::edge(g, g[x].name, g[b].name)) by {
            assert(g[x].reqs.contains(g[b].name));
        }
        let p2 = p.push(g[b].name);
        assert(crate::feature_graph::is_path(g, p2)) by {
            assert(forall|u: int| 0 <= u < p.len() ==> p2[u] == #[trigger] p[u]);
            assert(name_in(g, g[b].name));
            assert forall|u: int| 0 <= u < p2.len() - 1 implies crate::feature_graph::edge(
                g,
                #[trigger] p2[u],
                p2[u + 1],
            ) by {
                if u < p.len() - 1 {
                    assert(crate::feature_graph::edge(g, p[u], p[u + 1]));
                } else {
                    assert(p2[u] == g[x].name && p2[u + 1] == g[b].name);
                }
            }
        }
        (p2, b)
    }
}

/// No cyclic run of pass-through links exists over an acyclic graph.
#[verifier::rlimit(100)]
proof fn lemma_no_chain_cycle(g: Seq<SpecFeature>, cyc: Seq<int>)
    requires
        sorted_names(g),
        crate::feature_graph::acyclic(g),
    ensures
        !chain_cycle(g, cyc),
{
    if chain_cycle(g, cyc) {
        lemma_chain_cycle_contradiction(g, cyc);
    }
}

/// Derives the contradiction from an assumed cyclic run.
#[verifier::rlimit(100)]
proof fn lemma_chain_cycle_contradiction(g: Seq<SpecFeature>, cyc: Seq<int>)
    requires
        sorted_names(g),
        crate::feature_graph::acyclic(g),
        chain_cycle(g, cyc),
    ensures
        !chain_cycle(g, cyc),
{
    let n = cyc.len();
    if forall|t: int| 0 <= t < n ==> dup_of(g, #[trigger] cyc[t]) is Some {
        // every link is a rewrite, so indices descend strictly around
        // the cycle, which cannot close
        assert forall|t: int| 0 <= t < n - 1 implies cyc[t + 1] < #[trigger] cyc[t] by {
            lemma_dup_props(g, cyc[t], 0);
            let j0 = dup_of(g, cyc[t])->0;
            assert(dedup_graph(g)[cyc[t]].reqs == seq![g[j0].name]);
            assert(g[cyc[t + 1]].name == g[j0].name);
            lemma_sorted_unique(g, cyc[t + 1], j0);
        }
        lemma_dup_props(g, cyc[n - 1], 0);
        let j0 = dup_of(g, cyc[n - 1])->0;
        assert(dedup_graph(g)[cyc[n - 1]].reqs == seq![g[j0].name]);
        assert(g[cyc[0]].name == g[j0].name);
        lemma_sorted_unique(g, cyc[0], j0);
        assert(cyc[0] < cyc[n - 1]);
        if n == 1 {
            assert(false);
        } else {
            lemma_strict_desc(cyc);
            assert(false);
        }
    } else {
        let tstar = choose|t: int| 0 <= t < n && !(dup_of(g, #[trigger] cyc[t]) is Some);
        // rotate the cycle so the untouched link comes first
        let r = cyc.subrange(tstar, n as int) + cyc.subrange(0, tstar);
        assert(r.len() == n);
        assert(r[0] == cyc[tstar]);
        assert forall|t: int| 0 <= t < n - 1 implies chain_step(g, #[trigger] r[t], r[t + 1]) by {
            if t < n - tstar - 1 {
                assert(r[t] == cyc[tstar + t] && r[t + 1] == cyc[tstar + t + 1]);
            } else if t == n - tstar - 1 {
                assert(r[t] == cyc[n - 1] && r[t + 1] == cyc[0]);
            } else {
                assert(r[t] == cyc[t - (n - tstar)] && r[t + 1] == cyc[t - (n - tstar) + 1]);
            }
        }
        assert(chain_step(g, r[n - 1], r[0])) by {
            if tstar == 0 {
                assert(r[n - 1] == cyc[n - 1] && r[0] == cyc[0]);
            } else {
                assert(r[n - 1] == cyc[tstar - 1] && r[0] == cyc[tstar]);
            }
        }
        assert(chain_cycle(g, r));
        if n == 1 {
            // a self-loop of an untouched pass-through is a direct
            // requirement cycle
            let a = r[0];
            assert(dedup_graph(g)[a] == g[a]);
            assert(g[a].reqs[0] == g[a].name);
            let p = seq![g[a].name, g[a].name];
            assert(crate::feature_graph::is_path(g, p)) by {
                assert(name_in(g, g[a].name));
                assert(crate::feature_graph::edge(g, g[a].name, g[a].name)) by {
                    assert(g[a].reqs.contains(g[a].name));
                }
                assert(forall|t: int| 0 <= t < p.len() ==> name_in(g, #[trigger] p[t]));
            }
            assert(p[0] == p[p.len() - 1]);
            assert(false);
        } else {
            let (p, x) = lemma_walk(g, r, n - 1);
            // close the cycle: the wrap link moves the signature onto
            // the first node, whose untouched link is a real edge
            let (p2, x2) = lemma_step_translate(g, r[n - 1], r[0], p, x);
            assert(crate::resolve::same_sig(g[x2], g[r[0]]));
            assert(dedup_graph(g)[r[0]] == g[r[0]]);
            assert(g[r[0]].reqs[0] == g[r[1]].name);
            assert(is_pass(g[r[0]]));
            assert(g[x2].reqs == g[r[0]].reqs);
            assert(crate::feature_graph::edge(g, g[x2].name, g[r[1]].name)) by {
                assert(g[x2].reqs.contains(g[r[1]].name)) by {
                    assert(g[x2].reqs[0] == g[r[1]].name);
                }
            }
            let p3 = p2.push(g[r[1]].name);
            assert(crate::feature_graph::is_path(g, p3)) by {
                assert(forall|u: int| 0 <= u < p2.len() ==> p3[u] == #[trigger] p2[u]);
                assert(name_in(g, g[r[1]].name));
                assert forall|u: int| 0 <= u < p3.len() - 1 implies crate::feature_graph::edge(
                    g,
                    #[trigger] p3[u],
                    p3[u + 1],
                ) by {
                    if u < p2.len() - 1 {
                        assert(crate::feature_graph::edge(g, p2[u], p2[u + 1]));
                    } else {
                        assert(p3[u] == g[x2].name && p3[u + 1] == g[r[1]].name);
                    }
                }
            }
            assert(p3[0] == g[r[1]].name && p3[p3.len() - 1] == g[r[1]].name);
            assert(p3.len() >= 2);
            assert(false);
        }
    }
}

/// A run of distinct indices below `n` has at most `n` entries.
proof fn lemma_distinct_bounded(s: Seq<int>, n: int)
    requires
        s.no_duplicates(),
        forall|t: int| 0 <= t < s.len() ==> 0 <= #[trigger] s[t] < n,
        0 <= n,
    ensures
        s.len() <= n,
{
    s.unique_seq_to_set();
    vstd::set_lib::lemma_int_range(0, n);
    assert(s.to_set().subset_of(vstd::set_lib::set_int_range(0, n))) by {
        assert forall|x: int| s.to_set().contains(x) implies vstd::set_lib::set_int_range(
            0,
            n,
        ).contains(x) by {
            assert(s.contains(x));
        }
    }
    vstd::set_lib::lemma_len_subset(s.to_set(), vstd::set_lib::set_int_range(0, n));
}

/// Following pass-through links from any index reaches a survivor
/// within the step budget, once the graph is acyclic: the ghost trail
/// of visited links stays distinct, so it cannot outgrow the graph.
proof fn lemma_chain_some(g: Seq<SpecFeature>, i: int, fuel: nat, visited: Seq<int>)
    requires
        sorted_names(g),
        crate::feature_graph::closed_graph(g),
        crate::feature_graph::acyclic(g),
        0 <= i < g.len(),
        forall|t: int| 0 <= t < visited.len() ==> 0 <= #[trigger] visited[t] < g.len(),
        forall|t: int|
            0 <= t < visited.len() - 1 ==> chain_step(g, #[trigger] visited[t], visited[t + 1]),
        visited.len() > 0 ==> chain_step(g, visited[visited.len() - 1], i),
        visited.no_duplicates(),
        !visited.contains(i),
        fuel >= g.len() - visited.len(),
    ensures
        chain_end(dedup_graph(g), i, fuel) is Some,
    decreases fuel,
{
    let d = dedup_graph(g);
    crate::resolve::lemma_dedup_wf(g);
    if !is_pass(d[i]) {
        assert(chain_end(d, i, fuel) == Some(i));
    } else {
        let visited2 = visited.push(i);
        assert(visited2.no_duplicates());
        assert(forall|t: int| 0 <= t < visited2.len() ==> 0 <= #[trigger] visited2[t] < g.len());
        lemma_distinct_bounded(visited2, g.len() as int);
        assert(visited.len() + 1 <= g.len());
        assert(fuel >= 1);
        let nm = d[i].reqs[0];
        assert(name_in(d, nm)) by {
            assert(crate::feature_graph::closed_graph(d));
            assert(0 < d[i].reqs.len());
        }
        assert(name_in(g, nm)) by {
            let k = choose|k: int| 0 <= k < d.len() && d[k].name == nm;
            assert(g[k].name == nm);
        }
        let pn = crate::feature_graph::idx_of(d, nm);
        assert(0 <= pn < d.len() && d[pn].name == nm);
        assert(g[pn].name == nm);
        assert(chain_step(g, i, pn));
        assert(forall|t: int|
            0 <= t < visited2.len() - 1 ==> chain_step(g, #[trigger] visited2[t], visited2[t + 1]));
        assert(chain_step(g, visited2[visited2.len() - 1], pn));
        if visited2.contains(pn) {
            // a repeat closes a cycle of pass-through links
            let k = choose|k: int| 0 <= k < visited2.len() && visited2[k] == pn;
            let cyc = visited2.subrange(k, visited2.len() as int);
            assert(cyc.len() >= 1);
            assert(forall|t: int|
                0 <= t < cyc.len() - 1 ==> chain_step(g, #[trigger] cyc[t], cyc[t + 1]));
            assert(cyc[cyc.len() - 1] == i);
            assert(cyc[0] == pn);
            assert(chain_step(g, cyc[cyc.len() - 1], cyc[0]));
            assert(chain_cycle(g, cyc));
            lemma_no_chain_cycle(g, cyc);
            assert(false);
        }
        lemma_chain_some(g, pn, (fuel - 1) as nat, visited2);
        assert(chain_end(d, i, fuel) == chain_end(d, pn, (fuel - 1) as nat));
    }
}

/// On an acyclic, well-formed graph the resolver assigns every
/// pass-through feature: each one's chain ends at a survivor. With
/// the disjointness above this completes the partition: the surviving
/// keys and the provides-lists cover the original key set exactly.
pub proof fn lemma_partition_total(g: Seq<SpecFeature>)
    requires
        sorted_names(g),
        crate::feature_graph::closed_graph(g),
        crate::feature_graph::acyclic(g),
    ensures
        forall|j: int|
            0 <= j < g.len() && is_pass(dedup_entry(g, j)) ==> exists|t: int, u: int|
                0 <= t < provides_spec(g).len() && 0 <= u < provides_spec(g)[t].provides.len()
                    && provides_spec(g)[t].provides[u] == g[j].name,
        forall|i: int|
            0 <= i < g.len() && !is_pass(dedup_entry(g, i)) ==> exists|t: int|
                0 <= t < provides_spec(g).len() && provides_spec(g)[t].name == g[i].name,
{
    let n = g.len() as int;
    let ppred = |i: int| !is_pass(dedup_entry(g, i));
    let pmap = |i: int| SpecProvides { name: g[i].name, provides: assigned(g, i) };
    assert forall|i: int|
        0 <= i < g.len() && !is_pass(dedup_entry(g, i)) implies exists|t: int|
        0 <= t < provides_spec(g).len() && provides_spec(g)[t].name == g[i].name by {
        assert(idx_seq(n)[i] == i);
        assert(ppred(idx_seq(n)[i]));
        Seq::lemma_filter_contains(idx_seq(n), ppred, i);
        let t = choose|t: int|
            0 <= t < idx_seq(n).filter(ppred).len() && idx_seq(n).filter(ppred)[t] == i;
        assert(provides_spec(g)[t] == pmap(i));
    }
    assert forall|j: int|
        0 <= j < g.len() && is_pass(dedup_entry(g, j)) implies exists|t: int, u: int|
        0 <= t < provides_spec(g).len() && 0 <= u < provides_spec(g)[t].provides.len()
            && provides_spec(g)[t].provides[u] == g[j].name by {
        assert(dedup_graph(g)[j] == dedup_entry(g, j));
        lemma_chain_some(g, j, g.len(), Seq::<int>::empty());
        let si = chain_end(dedup_graph(g), j, g.len())->0;
        lemma_chain_end_survivor(g, j, g.len());
        assert(0 <= si < n && !is_pass(dedup_entry(g, si)));
        // the survivor's provides-list picks j up
        let apred = |jj: int| is_pass(dedup_entry(g, jj)) && chain_end(
            dedup_graph(g),
            jj,
            g.len(),
        ) == Some(si);
        assert(idx_seq(n)[j] == j);
        assert(apred(idx_seq(n)[j]));
        Seq::lemma_filter_contains(idx_seq(n), apred, j);
        let u = choose|u: int|
            0 <= u < idx_seq(n).filter(apred).len() && idx_seq(n).filter(apred)[u] == j;
        assert(assigned(g, si)[u] == g[j].name);
        // and the survivor itself sits in the provides-map
        assert(ppred(idx_seq(n)[si]));
        Seq::lemma_filter_contains(idx_seq(n), ppred, si);
        let t = choose|t: int|
            0 <= t < idx_seq(n).filter(ppred).len() && idx_seq(n).filter(ppred)[t] == si;
        assert(provides_spec(g)[t] == pmap(si));
        assert(provides_spec(g)[t].provides[u] == g[j].name);
    }
}

/// A chain that ends, ends at a survivor.
proof fn lemma_chain_end_survivor(g: Seq<SpecFeature>, i: int, fuel: nat)
    requires
        chain_end(dedup_graph(g), i, fuel) is Some,
    ensures
        ({
            let e = chain_end(dedup_graph(g), i, fuel)->0;
            0 <= e < g.len() && !is_pass(dedup_entry(g, e))
        }),
    decreases fuel,
{
    let d = dedup_graph(g);
    if 0 <= i < d.len() && is_pass(d[i]) && fuel > 0 && name_in(d, d[i].reqs[0]) {
        lemma_chain_end_survivor(g, crate::feature_graph::idx_of(d, d[i].reqs[0]), (fuel - 1) as nat);
    }
}

/// The index and filter position behind one assigned name.
proof fn lemma_assigned_elem(g: Seq<SpecFeature>, si: int, u: int) -> (r: (int, int))
    requires
        0 <= u < assigned(g, si).len(),
    ensures
        ({
            let (j, v) = r;
            &&& 0 <= j < g.len()
            &&& v == u
            &&& assigned(g, si)[u] == g[j].name
            &&& is_pass(dedup_entry(g, j))
            &&& chain_end(dedup_graph(g), j, g.len()) == Some(si)
            &&& idx_seq(g.len() as int).filter(
                |jj: int| is_pass(dedup_entry(g, jj)) && chain_end(
                    dedup_graph(g),
                    jj,
                    g.len(),
                ) == Some(si),
            )[u] == j
        }),
{
    let n = g.len() as int;
    let apred = |jj: int| is_pass(dedup_entry(g, jj)) && chain_end(dedup_graph(g), jj, g.len())
        == Some(si);
    let flt = idx_seq(n).filter(apred);
    crate::feature_graph::lemma_filter_mem(idx_seq(n), apred, u);
    Seq::lemma_filter_pred(idx_seq(n), apred, u);
    let j = flt[u];
    let k = choose|k: int| 0 <= k < idx_seq(n).len() && idx_seq(n)[k] == j;
    assert(0 <= j < n);
    (j, u)
}

/// Within one survivor's list, positions with equal underlying
/// indices coincide.
proof fn lemma_filter_idx_unique(g: Seq<SpecFeature>, si: int, v1: int, v2: int)
    requires
        ({
            let n = g.len() as int;
            let apred = |jj: int| is_pass(dedup_entry(g, jj)) && chain_end(
                dedup_graph(g),
                jj,
                g.len(),
            ) == Some(si);
            let flt = idx_seq(n).filter(apred);
            &&& 0 <= v1 < flt.len()
            &&& 0 <= v2 < flt.len()
            &&& flt[v1] == flt[v2]
        }),
    ensures
        v1 == v2,
{
    let n = g.len() as int;
    let apred = |jj: int| is_pass(dedup_entry(g, jj)) && chain_end(dedup_graph(g), jj, g.len())
        == Some(si);
    lemma_flt_injective(idx_seq(n), apred, v1, v2);
}

/// A filter of a strictly increasing index sequence is injective.
proof fn lemma_flt_injective(s: Seq<int>, pred: spec_fn(int) -> bool, v1: int, v2: int)
    requires
        forall|a: int, b: int| 0 <= a < b < s.len() ==> s[a] < s[b],
        0 <= v1 < s.filter(pred).len(),
        0 <= v2 < s.filter(pred).len(),
        s.filter(pred)[v1] == s.filter(pred)[v2],
    ensures
        v1 == v2,
    decreases s.len(),
{
    reveal(Seq::filter);
    if s.len() > 0 {
        let prev = s.drop_last().filter(pred);
        assert(forall|a: int, b: int|
            0 <= a < b < s.drop_last().len() ==> s.drop_last()[a] < s.drop_last()[b]);
        if pred(s.last()) {
            if v1 < prev.len() && v2 < prev.len() {
                lemma_flt_injective(s.drop_last(), pred, v1, v2);
            } else if v1 == prev.len() && v2 == prev.len() {
            } else {
                let vsmall = if v1 < v2 {
                    v1
                } else {
                    v2
                };
                assert(vsmall < prev.len());
                crate::feature_graph::lemma_filter_mem(s.drop_last(), pred, vsmall);
                let k = choose|k: int|
                    0 <= k < s.drop_last().len() && s.drop_last()[k] == prev[vsmall];
                assert(s[k] == prev[vsmall]);
                assert(s[k] < s[s.len() - 1]);
                assert(false);
            }
        } else {
            lemma_flt_injective(s.drop_last(), pred, v1, v2);
        }
    }
}

} // verus!
