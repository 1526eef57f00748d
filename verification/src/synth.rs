//! The package and test-matrix synthesizer: turns the reduced feature
//! set into package stanzas and an integration-test matrix, and folds
//! the per-feature "known broken" overrides through the graph with
//! conflict detection.

use vstd::prelude::*;
use crate::config::Config;
use crate::control::{deb_dep_add_nocheck, Package, PkgTest, Source};
use crate::deb_info::DebInfo;
use crate::errors::Error;
use crate::feature_graph::{
    feature_reqs, FeatureGraph, name_in, reachable_names, SpecFeature, string_vec_contains,
};
use crate::resolve::{fp_view, provides_spec, reduced_spec};
use crate::strutil::{clone_string_vec, push_owned, str_eq};

verus! {

/// What folding the "known broken" overrides through a feature's
/// requirements produces: a consistent value, a conflict at a named
/// feature, or no answer within the step budget (which an acyclic
/// graph never causes).
pub enum BrokenOutcome {
    Val(Option<bool>),
    ConflictAt(Seq<char>, bool, bool),
    Spin,
}

/// The explicit override for a feature's tests, if any.
pub open spec fn own_flag(cfg: Config, f: Seq<char>) -> Option<bool> {
    match cfg.package_rules(f) {
        Some(o) => o.test_is_broken,
        None => None,
    }
}

/// Combines two folded values: conflicts and exhaustion propagate,
/// absent values defer, and two present values must agree or the
/// named feature is reported.
pub open spec fn combine_broken(
    a: BrokenOutcome,
    b: BrokenOutcome,
    who: Seq<char>,
) -> BrokenOutcome {
    match a {
        BrokenOutcome::ConflictAt(c, v, w) => BrokenOutcome::ConflictAt(c, v, w),
        BrokenOutcome::Spin => BrokenOutcome::Spin,
        BrokenOutcome::Val(x) => match b {
            BrokenOutcome::ConflictAt(c, v, w) => BrokenOutcome::ConflictAt(c, v, w),
            BrokenOutcome::Spin => BrokenOutcome::Spin,
            BrokenOutcome::Val(y) => match x {
                None => BrokenOutcome::Val(y),
                Some(xv) => match y {
                    None => BrokenOutcome::Val(x),
                    Some(yv) => if xv == yv {
                        BrokenOutcome::Val(x)
                    } else {
                        BrokenOutcome::ConflictAt(who, xv, yv)
                    },
                },
            },
        },
    }
}

/// The effective "known broken" value of one feature: its own
/// override folded with the effective values of everything it
/// requires.
pub open spec fn broken_eval(g: Seq<SpecFeature>, cfg: Config, f: Seq<char>, fuel: nat) -> BrokenOutcome
    decreases fuel, 0nat,
{
    if fuel == 0 {
        BrokenOutcome::Spin
    } else {
        let own = BrokenOutcome::Val(own_flag(cfg, f));
        let parents = if name_in(g, f) {
            broken_list(g, cfg, feature_reqs(g, f), (fuel - 1) as nat, f)
        } else {
            BrokenOutcome::Val(None)
        };
        combine_broken(own, parents, f)
    }
}

/// The combined effective value of a list of features.
pub open spec fn broken_list(
    g: Seq<SpecFeature>,
    cfg: Config,
    names: Seq<Seq<char>>,
    fuel: nat,
    who: Seq<char>,
) -> BrokenOutcome
    decreases fuel, names.len() + 1,
{
    if names.len() == 0 {
        BrokenOutcome::Val(None)
    } else {
        combine_broken(
            broken_list(g, cfg, names.drop_last(), fuel, who),
            broken_eval(g, cfg, names.last(), fuel),
            who,
        )
    }
}

/// The executable carrier of a fold result.
pub enum BrokenRes {
    Val(Option<bool>),
    ConflictAt(String, bool, bool),
    Spin,
}

fn broken_rec(graph: &FeatureGraph, cfg: &Config, f: &str, fuel: usize) -> (r: BrokenRes)
    requires
        graph.wf(),
    ensures
        (match r {
            BrokenRes::Val(v) => broken_eval(graph@, *cfg, f@, fuel as nat)
                == BrokenOutcome::Val(v),
            BrokenRes::ConflictAt(c, v, w) => broken_eval(graph@, *cfg, f@, fuel as nat)
                == BrokenOutcome::ConflictAt(c@, v, w),
            BrokenRes::Spin => broken_eval(graph@, *cfg, f@, fuel as nat) == BrokenOutcome::Spin,
        }),
    decreases fuel,
{
    if fuel == 0 {
        return BrokenRes::Spin;
    }
    let ghost g = graph@;
    let own: Option<bool> = cfg.package_test_is_broken(f);
    proof {
        assert(own == own_flag(*cfg, f@));
    }
    let parents: BrokenRes = match graph.lookup_idx(f) {
        None => {
            proof {
                assert(!name_in(g, f@));
            }
            BrokenRes::Val(None)
        },
        Some(idx) => {
            proof {
                crate::feature_graph::lemma_idx_of_self(g, idx as int);
            }
            let reqs = &graph.entries[idx].features_required;
            let ghost reqv = feature_reqs(g, f@);
            proof {
                assert(reqs.deep_view() == reqv);
            }
            let n = reqs.len();
            let mut acc = BrokenRes::Val(None);
            let mut k: usize = 0;
            proof {
                assert(reqv.take(0) =~= Seq::<Seq<char>>::empty());
            }
            while k < n
                invariant
                    k <= n,
                    graph.wf(),
                    g == graph@,
                    n == reqs.len(),
                    reqs.deep_view() == reqv,
                    fuel >= 1,
                    (match acc {
                        BrokenRes::Val(v) => broken_list(g, *cfg, reqv.take(k as int), (fuel
                            - 1) as nat, f@) == BrokenOutcome::Val(v),
                        BrokenRes::ConflictAt(c, v, w) => broken_list(
                            g,
                            *cfg,
                            reqv.take(k as int),
                            (fuel - 1) as nat,
                            f@,
                        ) == BrokenOutcome::ConflictAt(c@, v, w),
                        BrokenRes::Spin => broken_list(
                            g,
                            *cfg,
                            reqv.take(k as int),
                            (fuel - 1) as nat,
                            f@,
                        ) == BrokenOutcome::Spin,
                    }),
                decreases n - k,
            {
                let sub = broken_rec(graph, cfg, reqs[k].as_str(), fuel - 1);
                proof {
                    assert(reqv.take(k + 1).drop_last() =~= reqv.take(k as int));
                    assert(reqv.take(k + 1).last() == reqv[k as int]);
                    assert(reqv[k as int] == reqs.deep_view()[k as int]);
                }
                acc = combine_exec(acc, sub, f);
                k = k + 1;
            }
            proof {
                assert(reqv.take(n as int) =~= reqv);
            }
            acc
        },
    };
    let own_res = BrokenRes::Val(own);
    let combined = combine_exec(own_res, parents, f);
    proof {
        assert(broken_eval(g, *cfg, f@, fuel as nat) == combine_broken(
            BrokenOutcome::Val(own_flag(*cfg, f@)),
            (if name_in(g, f@) {
                broken_list(g, *cfg, feature_reqs(g, f@), (fuel - 1) as nat, f@)
            } else {
                BrokenOutcome::Val(None)
            }),
            f@,
        ));
    }
    combined
}

fn combine_exec(a: BrokenRes, b: BrokenRes, who: &str) -> (r: BrokenRes)
    ensures
        forall|sa: BrokenOutcome, sb: BrokenOutcome|
            broken_res_is(a, sa) && broken_res_is(b, sb) ==> broken_res_is(
                r,
                #[trigger] combine_broken(sa, sb, who@),
            ),
{
    match a {
        BrokenRes::ConflictAt(c, v, w) => BrokenRes::ConflictAt(c, v, w),
        BrokenRes::Spin => BrokenRes::Spin,
        BrokenRes::Val(x) => match b {
            BrokenRes::ConflictAt(c, v, w) => BrokenRes::ConflictAt(c, v, w),
            BrokenRes::Spin => BrokenRes::Spin,
            BrokenRes::Val(y) => match x {
                None => BrokenRes::Val(y),
                Some(xv) => match y {
                    None => BrokenRes::Val(Some(xv)),
                    Some(yv) => if xv == yv {
                        BrokenRes::Val(Some(xv))
                    } else {
                        BrokenRes::ConflictAt(who.to_owned(), xv, yv)
                    },
                },
            },
        },
    }
}

/// Whether an executable fold result stands for a mathematical one.
pub open spec fn broken_res_is(r: BrokenRes, s: BrokenOutcome) -> bool {
    match r {
        BrokenRes::Val(v) => s == BrokenOutcome::Val(v),
        BrokenRes::ConflictAt(c, v, w) => s == BrokenOutcome::ConflictAt(c@, v, w),
        BrokenRes::Spin => s == BrokenOutcome::Spin,
    }
}

/// The effective "known broken" flag of a feature's tests: the fold
/// of its own override with everything it requires, defaulting to
/// not-broken; a conflict anywhere is a fatal configuration error.
/// The step budget covers any acyclic graph.
pub fn test_is_broken(graph: &FeatureGraph, cfg: &Config, f: &str) -> (r: Result<bool, Error>)
    requires
        graph.wf(),
        graph@.len() < usize::MAX,
    ensures
        (match r {
            Ok(b) => broken_eval(graph@, *cfg, f@, (graph@.len() + 1) as nat)
                == BrokenOutcome::Val(Some(b)) || (b == false && broken_eval(
                graph@,
                *cfg,
                f@,
                (graph@.len() + 1) as nat,
            ) == BrokenOutcome::Val(None)),
            Err(e) => (match broken_eval(graph@, *cfg, f@, (graph@.len() + 1) as nat) {
                BrokenOutcome::Val(_) => false,
                BrokenOutcome::ConflictAt(c, v, w) => e == (Error::BrokenFlagConflict {
                    feature: err_feature(e),
                    values: Some((v, w)),
                }) && err_feature(e)@ == c,
                BrokenOutcome::Spin => e == (Error::BrokenFlagConflict {
                    feature: err_feature(e),
                    values: None,
                }) && err_feature(e)@ == f@,
            }),
        }),
{
    let fuel = graph.entries.len() + 1;
    match broken_rec(graph, cfg, f, fuel) {
        BrokenRes::Val(v) => match v {
            Some(b) => Ok(b),
            None => Ok(false),
        },
        BrokenRes::ConflictAt(c, v, w) => Err(
            Error::BrokenFlagConflict { feature: c, values: Some((v, w)) },
        ),
        BrokenRes::Spin => Err(Error::BrokenFlagConflict { feature: f.to_owned(), values: None }),
    }
}

/// The feature a flag-conflict error names.
pub open spec fn err_feature(e: Error) -> String {
    match e {
        Error::BrokenFlagConflict { feature, .. } => feature,
        Error::MalformedChangelog { text } => text,
        Error::MissingIdentity { hint } => hint,
    }
}

/// The activation arguments for testing one feature: defaults stay
/// on exactly when `default` is reachable from it, and the feature is
/// selected explicitly unless it is the base or `default` itself.
pub open spec fn test_args_spec(g: Seq<SpecFeature>, f: Seq<char>) -> Seq<Seq<char>> {
    let keep_defaults = f == "default"@ || reachable_names(g, f).contains("default"@);
    (if keep_defaults {
        Seq::<Seq<char>>::empty()
    } else {
        seq!["--no-default-features"@]
    }) + (if f.len() > 0 && f != "default"@ {
        seq!["--features"@, f]
    } else {
        Seq::<Seq<char>>::empty()
    })
}

/// Builds the test-matrix entry for one feature of a package: the
/// activation arguments by the rule above, the configured extra test
/// dependencies of the feature and everything it reaches, the shared
/// development dependencies, and the flaky marker exactly when the
/// folded broken flag is set.
pub fn feature_test(
    graph: &FeatureGraph,
    cfg: &Config,
    package: &str,
    crate_name: &str,
    version: &str,
    f: &str,
    dev_depends: &Vec<String>,
) -> (r: Result<PkgTest, Error>)
    requires
        graph.wf(),
        graph@.len() < usize::MAX,
        name_in(graph@, f@),
    ensures
        (match r {
            Ok(t) => {
                &&& t.package@ == package@
                &&& t.crate_name@ == crate_name@
                &&& t.version@ == version@
                &&& t.feature@ == f@
                &&& t.args.deep_view() == test_args_spec(graph@, f@)
                &&& t.depends.deep_view() == test_depends_spec(
                    graph@,
                    *cfg,
                    f@,
                    dev_depends.deep_view(),
                )
                &&& (broken_eval(graph@, *cfg, f@, (graph@.len() + 1) as nat)
                    == BrokenOutcome::Val(Some(true)) ==> t.restricts.deep_view() == seq![(
                    "flaky")@])
                &&& (broken_eval(graph@, *cfg, f@, (graph@.len() + 1) as nat)
                    == BrokenOutcome::Val(Some(false)) || broken_eval(
                    graph@,
                    *cfg,
                    f@,
                    (graph@.len() + 1) as nat,
                ) == BrokenOutcome::Val(None) ==> t.restricts.deep_view()
                    == Seq::<Seq<char>>::empty())
            },
            Err(e) => !(broken_eval(graph@, *cfg, f@, (graph@.len() + 1) as nat)
                matches BrokenOutcome::Val(_)) && (e matches Error::BrokenFlagConflict { .. }),
        }),
{
    let closure = graph.transitive_deps(f);
    let feature_deps = closure.0;
    let reaches_default = string_vec_contains(&feature_deps, "default");
    let is_default = str_eq(f, "default");
    let mut args: Vec<&str> = Vec::new();
    if !(is_default || reaches_default) {
        args.push("--no-default-features");
    }
    let f_len = f.unicode_len();
    if f_len > 0 && !is_default {
        args.push("--features");
        args.push(f);
    }
    proof {
        assert(args.deep_view() =~= test_args_spec(graph@, f@));
    }
    // extra test dependencies of the feature itself and everything
    // it reaches, then the shared development dependencies
    let mut test_depends: Vec<String> = Vec::new();
    append_test_depends(&mut test_depends, cfg, f);
    let ghost own_extra = config_test_depends(*cfg, f@);
    let ghost reach = reachable_names(graph@, f@);
    let nf = feature_deps.len();
    let mut i: usize = 0;
    proof {
        assert(feature_deps.deep_view() == reach);
        assert(test_depends.deep_view() =~= own_extra + features_test_depends(
            *cfg,
            reach.take(0),
        ));
    }
    while i < nf
        invariant
            i <= nf,
            nf == feature_deps.len(),
            feature_deps.deep_view() == reach,
            own_extra == config_test_depends(*cfg, f@),
            test_depends.deep_view() == own_extra + features_test_depends(
                *cfg,
                reach.take(i as int),
            ),
        decreases nf - i,
    {
        append_test_depends(&mut test_depends, cfg, feature_deps[i].as_str());
        proof {
            assert(reach.take(i + 1).drop_last() =~= reach.take(i as int));
            assert(reach.take(i + 1).last() == reach[i as int]);
            assert(test_depends.deep_view() =~= own_extra + features_test_depends(
                *cfg,
                reach.take(i + 1),
            ));
        }
        i = i + 1;
    }
    let ghost half = own_extra + features_test_depends(*cfg, reach);
    let nd = dev_depends.len();
    let mut j: usize = 0;
    proof {
        assert(reach.take(nf as int) =~= reach);
        assert(test_depends.deep_view() =~= half + dev_depends.deep_view().take(0));
    }
    while j < nd
        invariant
            j <= nd,
            nd == dev_depends.len(),
            test_depends.deep_view() == half + dev_depends.deep_view().take(j as int),
        decreases nd - j,
    {
        push_owned(&mut test_depends, dev_depends[j].as_str().to_owned());
        proof {
            assert(test_depends.deep_view() =~= half + dev_depends.deep_view().take(j + 1));
        }
        j = j + 1;
    }
    proof {
        assert(dev_depends.deep_view().take(nd as int) =~= dev_depends.deep_view());
        assert(test_depends.deep_view() == test_depends_spec(
            graph@,
            *cfg,
            f@,
            dev_depends.deep_view(),
        ));
    }
    let broken = match test_is_broken(graph, cfg, f) {
        Ok(b) => b,
        Err(e) => {
            return Err(e);
        },
    };
    let restricts: Vec<&str> = if broken {
        let mut v: Vec<&str> = Vec::new();
        v.push("flaky");
        proof {
            assert(v.deep_view() =~= seq![("flaky")@]);
        }
        v
    } else {
        Vec::new()
    };
    proof {
        if !broken {
            assert(restricts.deep_view() =~= Seq::<Seq<char>>::empty());
        }
    }
    let t = PkgTest::new(package, crate_name, f, version, args, &test_depends, restricts);
    Ok(t)
}

/// Appends the configured extra test dependencies of one feature.
fn append_test_depends(out: &mut Vec<String>, cfg: &Config, f: &str)
    ensures
        final(out).deep_view() == old(out).deep_view() + config_test_depends(*cfg, f@),
{
    match cfg.package_test_depends(f) {
        Some(extra) => {
            let ghost base = out.deep_view();
            let n = extra.len();
            let mut i: usize = 0;
            proof {
                assert(out.deep_view() =~= base + extra.deep_view().take(0));
            }
            while i < n
                invariant
                    i <= n,
                    n == extra.len(),
                    out.deep_view() == base + extra.deep_view().take(i as int),
                decreases n - i,
            {
                push_owned(out, extra[i].as_str().to_owned());
                proof {
                    assert(out.deep_view() =~= base + extra.deep_view().take(i + 1));
                }
                i = i + 1;
            }
            proof {
                assert(extra.deep_view().take(n as int) =~= extra.deep_view());
                assert(extra.deep_view() == config_test_depends(*cfg, f@));
            }
        },
        None => {
            proof {
                assert(out.deep_view() =~= old(out).deep_view() + config_test_depends(
                    *cfg,
                    f@,
                ));
            }
        },
    }
}

/// The package base name with the semver suffix attached, when one is
/// in use.
pub open spec fn base_with_suffix(info: &DebInfo) -> Seq<char> {
    info.base_package_name@ + (match info.name_suffix {
        Some(s) => s@,
        None => Seq::<char>::empty(),
    })
}

/// Whether any explicit configuration override marks the whole run
/// ("@") or some feature's tests broken.
pub open spec fn any_explicit_broken(g: Seq<SpecFeature>, cfg: Config) -> bool {
    own_flag(cfg, "@"@) == Some(true) || (exists|i: int|
        0 <= i < g.len() && own_flag(cfg, #[trigger] g[i].name) == Some(true))
}

/// The shape of the all-features test row: the whole-run pseudo
/// feature, the one activation argument, and the flaky marker exactly
/// when some explicit override is set.
pub open spec fn at_test_row(
    t: PkgTest,
    g: Seq<SpecFeature>,
    cfg: Config,
    crate_name: Seq<char>,
    version: Seq<char>,
    src_name: Seq<char>,
) -> bool {
    &&& t.feature@ == "@"@
    &&& t.args.deep_view() == seq![("--all-features")@]
    &&& t.crate_name@ == crate_name
    &&& t.version@ == version
    &&& t.package@ == src_name
    &&& (any_explicit_broken(g, cfg) ==> t.restricts.deep_view() == seq![("flaky")@])
    &&& (!any_explicit_broken(g, cfg) ==> t.restricts.deep_view() == Seq::<Seq<char>>::empty())
}

/// The reduced graph of the collapse fallback: the single base entry
/// carrying every external dependency.
pub open spec fn collapsed_reduced_spec(g: Seq<SpecFeature>) -> Seq<SpecFeature> {
    seq![SpecFeature {
        name: Seq::<char>::empty(),
        reqs: Seq::<Seq<char>>::empty(),
        deps: crate::resolve::all_deps(g),
    }]
}

/// The summary a package is built with, before overrides.
pub open spec fn built_summary(
    deb_info: &DebInfo,
    crate_summary: Option<&String>,
    nm: Seq<char>,
) -> Seq<char> {
    crate::control::package_summary_chars(
        base_with_suffix(deb_info),
        match crate_summary {
            Some(sm) => Some(sm@),
            None => None,
        },
        if nm.len() == 0 {
            None
        } else {
            Some(nm)
        },
    )
}

/// The wrapped description a package is built with, before overrides.
pub open spec fn built_description(crate_description: Option<&String>) -> Seq<char> {
    crate::strutil::filled(
        match crate_description {
            Some(d) => d@,
            None => Seq::<char>::empty(),
        },
        79,
    )
}

/// The wrapped boilerplate paragraph of a package.
pub open spec fn built_boilerplate(deb_info: &DebInfo, nm: Seq<char>) -> Seq<char> {
    crate::strutil::filled(
        crate::control::package_boilerplate_chars(
            deb_info.upstream_name@,
            if nm.len() == 0 {
                None
            } else {
                Some(nm)
            },
        ),
        79,
    )
}

/// A built text field after the per-package override: replaced only
/// by a non-empty configured value.
pub open spec fn overridden_text(configured: Option<Option<String>>, base: Seq<char>) -> Seq<
    char,
> {
    match configured {
        Some(o) => match o {
            Some(sm) => if sm@.len() > 0 {
                sm@
            } else {
                base
            },
            None => base,
        },
        None => base,
    }
}

/// The configured summary override of a package, if the table has an
/// entry for it.
pub open spec fn summary_override(cfg: Config, name: Seq<char>) -> Option<Option<String>> {
    match cfg.package_rules(name) {
        Some(o) => Some(o.summary),
        None => None,
    }
}

/// The configured description override of a package, if the table has
/// an entry for it.
pub open spec fn description_override(cfg: Config, name: Seq<char>) -> Option<Option<String>> {
    match cfg.package_rules(name) {
        Some(o) => Some(o.description),
        None => None,
    }
}

/// The extra test dependencies the configuration attaches to one
/// key.
pub open spec fn config_test_depends(cfg: Config, key: Seq<char>) -> Seq<Seq<char>> {
    match cfg.package_rules(key) {
        Some(o) => match o.test_depends {
            Some(d) => d.deep_view(),
            None => Seq::<Seq<char>>::empty(),
        },
        None => Seq::<Seq<char>>::empty(),
    }
}

/// The configured extra test dependencies of a run of features,
/// concatenated in order.
pub open spec fn features_test_depends(cfg: Config, feats: Seq<Seq<char>>) -> Seq<Seq<char>>
    decreases feats.len(),
{
    if feats.len() == 0 {
        Seq::<Seq<char>>::empty()
    } else {
        features_test_depends(cfg, feats.drop_last()) + config_test_depends(cfg, feats.last())
    }
}

/// The dependency list of one feature's test: the feature's own
/// configured extras, those of everything it reaches, then the shared
/// development dependencies.
pub open spec fn test_depends_spec(
    g: Seq<SpecFeature>,
    cfg: Config,
    f: Seq<char>,
    dev: Seq<Seq<char>>,
) -> Seq<Seq<char>> {
    config_test_depends(cfg, f) + features_test_depends(cfg, reachable_names(g, f)) + dev
}

/// The dependency list of the all-features test: the whole-run key,
/// then every feature's configured extras, then the shared
/// development dependencies.
pub open spec fn at_depends_spec(g: Seq<SpecFeature>, cfg: Config, dev: Seq<Seq<char>>) -> Seq<
    Seq<char>,
> {
    config_test_depends(cfg, "@"@) + features_test_depends(
        cfg,
        crate::feature_graph::graph_names(g),
    ) + dev
}

/// Selects the non-base provides-map entries.
pub open spec fn nonbase_entry_pred() -> spec_fn(crate::resolve::SpecProvides) -> bool {
    |e: crate::resolve::SpecProvides| e.name.len() > 0
}

/// The override line calming the linter about an empty package that
/// only declares provides.
pub open spec fn lintian_of(base: Seq<char>) -> spec_fn(crate::resolve::SpecProvides) -> Seq<
    char,
> {
    |e: crate::resolve::SpecProvides|
        crate::control::deb_feature_name_chars(base, e.name)
            + " binary: empty-rust-library-declares-provides *"@
}

/// One override line per emitted feature package, in order.
pub open spec fn lintian_spec(
    base: Seq<char>,
    pv: Seq<crate::resolve::SpecProvides>,
) -> Seq<Seq<char>> {
    pv.filter(nonbase_entry_pred()).map_values(lintian_of(base))
}

/// The extra dependencies the configuration attaches to one key.
pub open spec fn config_extra_depends(cfg: Config, key: Seq<char>) -> Seq<Seq<char>> {
    match cfg.package_rules(key) {
        Some(o) => match o.depends {
            Some(d) => d.deep_view(),
            None => Seq::<Seq<char>>::empty(),
        },
        None => Seq::<Seq<char>>::empty(),
    }
}

/// The configured extra dependencies of a run of features,
/// concatenated in order.
pub open spec fn features_extra_depends(cfg: Config, feats: Seq<Seq<char>>) -> Seq<Seq<char>>
    decreases feats.len(),
{
    if feats.len() == 0 {
        Seq::<Seq<char>>::empty()
    } else {
        features_extra_depends(cfg, feats.drop_last()) + config_extra_depends(cfg, feats.last())
    }
}

/// Marks a dependency skippable when tests are not run.
pub open spec fn nocheck_of() -> spec_fn(Seq<char>) -> Seq<char> {
    |d: Seq<char>| d + " <!nocheck>"@
}

/// The assembled build dependencies, before the source overrides: the
/// fixed tools, then the toolchain, the default feature set's
/// external dependencies, and the configured extras for the default
/// set, each extra marked skippable for a pure library.
pub open spec fn build_deps_pre(
    g: Seq<SpecFeature>,
    cfg: Config,
    with_bins: bool,
) -> Seq<Seq<char>> {
    let extras = seq![("cargo:native")@, ("rustc:native")@, ("libstd-rust-dev")@]
        + crate::feature_graph::deps_fold(g, reachable_names(g, "default"@))
        + config_extra_depends(cfg, "default"@) + features_extra_depends(
        cfg,
        reachable_names(g, "default"@),
    );
    seq![("debhelper (>= 12)")@, ("dh-cargo (>= 25)")@] + (if with_bins {
        extras
    } else {
        extras.map_values(nocheck_of())
    })
}

/// Selects the provides-map entries whose feature is, or is subsumed
/// by, the default feature set.
pub open spec fn rec_pred() -> spec_fn(crate::resolve::SpecProvides) -> bool {
    |e: crate::resolve::SpecProvides|
        e.name.len() > 0 && (e.name == "default"@ || e.provides.contains("default"@))
}

/// Selects the remaining non-base provides-map entries.
pub open spec fn sug_pred() -> spec_fn(crate::resolve::SpecProvides) -> bool {
    |e: crate::resolve::SpecProvides|
        e.name.len() > 0 && !(e.name == "default"@ || e.provides.contains("default"@))
}

/// The name of a provides-map entry.
pub open spec fn name_of() -> spec_fn(crate::resolve::SpecProvides) -> Seq<char> {
    |e: crate::resolve::SpecProvides| e.name
}

/// The features classified as recommended: each one is, or is
/// subsumed by, the default feature set.
pub open spec fn recommended_features(pv: Seq<crate::resolve::SpecProvides>) -> Seq<Seq<char>> {
    pv.filter(rec_pred()).map_values(name_of())
}

/// The features classified as only suggested.
pub open spec fn suggested_features(pv: Seq<crate::resolve::SpecProvides>) -> Seq<Seq<char>> {
    pv.filter(sug_pred()).map_values(name_of())
}

/// The flaky marker of a test row follows the folded broken flag of
/// its feature: present exactly when the fold says broken.
pub open spec fn restricts_by_flag(g: Seq<SpecFeature>, cfg: Config, t: PkgTest) -> bool {
    &&& (broken_eval(g, cfg, t.feature@, (g.len() + 1) as nat) == BrokenOutcome::Val(Some(true))
        ==> t.restricts.deep_view() == seq![("flaky")@])
    &&& (broken_eval(g, cfg, t.feature@, (g.len() + 1) as nat) == BrokenOutcome::Val(Some(false))
        || broken_eval(g, cfg, t.feature@, (g.len() + 1) as nat) == BrokenOutcome::Val(None)
        ==> t.restricts.deep_view() == Seq::<Seq<char>>::empty())
}

/// The shape of the binary package: the chosen name, the fixed
/// architecture fields, the crate texts with their overrides, and no
/// feature relationships.
pub open spec fn bin_package_ok(
    p: Package,
    deb_info: &DebInfo,
    cfg: Config,
    lib: bool,
    crate_name: Seq<char>,
    crate_summary: Option<&String>,
    crate_description: Option<&String>,
) -> bool {
    &&& p.name@ == (if cfg.bin_name@ == "<default>"@ {
        crate::strutil::dashed(crate_name)
    } else {
        cfg.bin_name@
    })
    &&& p.arch@ == "any"@
    &&& p.multi_arch@ == "allowed"@
    &&& (match cfg.package_rules(p.name@) {
        Some(o) => match o.section {
            Some(sec) => p.section is Some && p.section->0@ == sec@,
            None => bin_section_ok(p, lib),
        },
        None => bin_section_ok(p, lib),
    })
    &&& p.summary@ == overridden_text(
        summary_override(cfg, p.name@),
        match crate_summary {
            Some(sm) => sm@,
            None => "Binaries built from the Rust "@ + deb_info.upstream_name@ + " crate"@,
        },
    )
    &&& p.description@ == overridden_text(
        description_override(cfg, p.name@),
        match crate_description {
            Some(d) => d@,
            None => Seq::<char>::empty(),
        },
    )
    &&& p.boilerplate@ == Seq::<char>::empty()
    &&& p.depends.deep_view() == seq![("${misc:Depends}")@, ("${shlibs:Depends}")@]
        + config_extra_depends(cfg, p.name@)
    &&& p.provides@.len() == 0
    &&& p.recommended@.len() == 0
    &&& p.suggests@.len() == 0
}

/// The binary package's section before overrides: a placeholder for a
/// library, nothing when the source section is already one.
pub open spec fn bin_section_ok(p: Package, lib: bool) -> bool {
    if lib {
        p.section is Some && p.section->0@ == ("FIXME-(packages.\"(name)\".section)")@
    } else {
        p.section is None
    }
}

/// Everything the control-file writer needs from one synthesis run.
#[derive(Debug)]
pub struct ControlOutput {
    pub source: Source,
    pub packages: Vec<Package>,
    pub pkg_tests: Vec<PkgTest>,
    pub lintian_overrides: Vec<String>,
    pub has_dev_depends: bool,
    pub default_test_broken: bool,
}

/// The number of features bundled across the provides-map: each
/// survivor plus everything it provides.
pub open spec fn total_bundled(pv: Seq<crate::resolve::SpecProvides>) -> int
    decreases pv.len(),
{
    if pv.len() == 0 {
        0
    } else {
        total_bundled(pv.drop_last()) + 1 + pv.last().provides.len()
    }
}

/// Every bundled feature in test-emission order: per survivor, first
/// what it provides, then the survivor itself.
pub open spec fn bundled_features(pv: Seq<crate::resolve::SpecProvides>) -> Seq<Seq<char>>
    decreases pv.len(),
{
    if pv.len() == 0 {
        Seq::<Seq<char>>::empty()
    } else {
        bundled_features(pv.drop_last()) + pv.last().provides + seq![pv.last().name]
    }
}

/// A name a survivor provides is bundled.
proof fn lemma_bundled_contains_provides(pv: Seq<crate::resolve::SpecProvides>, t: int, u: int)
    requires
        0 <= t < pv.len(),
        0 <= u < pv[t].provides.len(),
    ensures
        bundled_features(pv).contains(pv[t].provides[u]),
    decreases pv.len(),
{
    if t == pv.len() - 1 {
        assert(bundled_features(pv)[bundled_features(pv.drop_last()).len() + u]
            == pv[t].provides[u]);
    } else {
        lemma_bundled_contains_provides(pv.drop_last(), t, u);
        let k = choose|k: int|
            0 <= k < bundled_features(pv.drop_last()).len() && bundled_features(pv.drop_last())[k]
                == pv.drop_last()[t].provides[u];
        assert(bundled_features(pv)[k] == pv[t].provides[u]);
    }
}

/// A survivor's own name is bundled.
proof fn lemma_bundled_contains_name(pv: Seq<crate::resolve::SpecProvides>, t: int)
    requires
        0 <= t < pv.len(),
    ensures
        bundled_features(pv).contains(pv[t].name),
    decreases pv.len(),
{
    if t == pv.len() - 1 {
        assert(bundled_features(pv)[bundled_features(pv).len() - 1] == pv[t].name);
    } else {
        lemma_bundled_contains_name(pv.drop_last(), t);
        let k = choose|k: int|
            0 <= k < bundled_features(pv.drop_last()).len() && bundled_features(pv.drop_last())[k]
                == pv.drop_last()[t].name;
        assert(bundled_features(pv)[k] == pv[t].name);
    }
}

/// The two bundle measures agree.
proof fn lemma_bundled_len(pv: Seq<crate::resolve::SpecProvides>)
    ensures
        bundled_features(pv).len() == total_bundled(pv),
    decreases pv.len(),
{
    if pv.len() > 0 {
        lemma_bundled_len(pv.drop_last());
    }
}

/// Synthesizes the whole control output for one crate: the source
/// stanza with its build dependencies, one package stanza per
/// surviving feature (or one collapsed package), the binary package
/// when wanted, and the test matrix with one entry per bundled
/// feature plus the all-features run.
#[verifier::rlimit(100)]
pub fn prepare_debian_control(
    deb_info: &DebInfo,
    graph: &FeatureGraph,
    config: &Config,
    lib: bool,
    bins: &Vec<String>,
    dev_depends: &Vec<String>,
    crate_name: &str,
    crate_summary: Option<&String>,
    crate_description: Option<&String>,
    homepage: &str,
    author: &str,
) -> (r: Result<ControlOutput, Error>)
    requires
        graph.wf(),
        graph.has_base(),
        graph@.len() < usize::MAX,
        name_in(graph@, "default"@),
    ensures
        (match r {
            Ok(out) => {
                let pv = if config.collapse_features {
                    crate::resolve::collapse_provides_spec(graph@)
                } else {
                    provides_spec(graph@)
                };
                let rd = if config.collapse_features {
                    collapsed_reduced_spec(graph@)
                } else {
                    reduced_spec(graph@)
                };
                let bin_count: int = if lib && bins@.len() > 0 && !config.bin {
                    0
                } else if bins@.len() > 0 {
                    1
                } else {
                    0
                };
                &&& out.has_dev_depends == (dev_depends@.len() > 0)
                &&& out.source.name@ == "rust-"@ + base_with_suffix(deb_info)
                &&& out.source.priority@ == "optional"@
                &&& out.source.maintainer@ == crate::control::RUST_MAINT@
                &&& out.source.uploaders.deep_view() == seq![author@]
                &&& out.source.version@ == deb_info.debian_version@ + "-1"@
                &&& out.source.section@ == (match config.section_spec() {
                    Some(sec) => sec,
                    None => if lib {
                        ("rust")@
                    } else {
                        ("FIXME-(source.section)")@
                    },
                })
                &&& out.source.standards@ == (match config.policy_spec() {
                    Some(pol) => pol,
                    None => ("4.1.4")@,
                })
                &&& out.source.homepage@ == (match config.homepage_spec() {
                    Some(h) => h,
                    None => homepage@,
                })
                &&& out.source.vcs_git@ == (match config.vcs_git_spec() {
                    Some(v) => v,
                    None => crate::control::VCS_ALL@ + ".git"@,
                })
                &&& out.source.vcs_browser@ == (match config.vcs_browser_spec() {
                    Some(v) => v,
                    None => crate::control::VCS_ALL@,
                })
                &&& out.source.x_cargo@ == (if crate::strutil::dashed(deb_info.upstream_name@)
                    == deb_info.upstream_name@ {
                    Seq::<char>::empty()
                } else {
                    deb_info.upstream_name@
                })
                &&& out.source.build_deps.deep_view() == (build_deps_pre(
                    graph@,
                    *config,
                    (if lib && bins@.len() > 0 && !config.bin {
                        false
                    } else {
                        bins@.len() > 0
                    }),
                ) + config.build_depends_spec()).filter(
                    crate::control::not_in(config.build_depends_excludes_spec()),
                )
                &&& (lib && !config.collapse_features ==> out.packages@.len() == reduced_spec(
                    graph@,
                ).len() + bin_count)
                &&& (lib ==> (forall|t: int|
                    0 <= t < pv.len() ==> (#[trigger] out.packages@[t]).name@ == (if pv[t].name.len()
                        == 0 {
                        crate::control::deb_name_chars(base_with_suffix(deb_info))
                    } else {
                        crate::control::deb_feature_name_chars(
                            base_with_suffix(deb_info),
                            pv[t].name,
                        )
                    })))
                &&& (lib ==> (forall|t: int|
                    0 <= t < pv.len() ==> (#[trigger] out.packages@[t]).provides.deep_view().len()
                        == pv[t].provides.len()))
                &&& (lib ==> (forall|t: int, u: int|
                    0 <= t < pv.len() && 0 <= u < pv[t].provides.len()
                        ==> (#[trigger] out.packages@[t]).provides.deep_view()[u]
                        == crate::control::deb_feature_ref_chars(
                        base_with_suffix(deb_info),
                        #[trigger] pv[t].provides[u],
                    )))
                &&& (lib ==> (forall|t: int|
                    0 <= t < pv.len() && pv[t].name.len() == 0
                        ==> (#[trigger] out.packages@[t]).recommended.deep_view()
                        == crate::control::filtered_refs(
                        base_with_suffix(deb_info),
                        recommended_features(pv),
                        pv[t].provides,
                    ) && out.packages@[t].suggests.deep_view() == crate::control::filtered_refs(
                        base_with_suffix(deb_info),
                        suggested_features(pv),
                        pv[t].provides,
                    )))
                &&& (lib ==> (forall|t: int|
                    0 <= t < pv.len() && pv[t].name.len() > 0
                        ==> (#[trigger] out.packages@[t]).recommended.deep_view()
                        == Seq::<Seq<char>>::empty() && out.packages@[t].suggests.deep_view()
                        == Seq::<Seq<char>>::empty()))
                &&& (lib ==> (forall|t: int|
                    0 <= t < pv.len() ==> (#[trigger] out.packages@[t]).depends.deep_view()
                        == seq![("${misc:Depends}")@] + crate::control::feature_refs(
                        base_with_suffix(deb_info),
                        rd[t].reqs,
                    ) + rd[t].deps + config_extra_depends(*config, out.packages@[t].name@)))
                &&& (lib ==> (forall|t: int|
                    0 <= t < pv.len() ==> (#[trigger] out.packages@[t]).summary@
                        == overridden_text(
                        summary_override(*config, out.packages@[t].name@),
                        built_summary(deb_info, crate_summary, pv[t].name),
                    )))
                &&& (lib ==> (forall|t: int|
                    0 <= t < pv.len() ==> (#[trigger] out.packages@[t]).description@
                        == overridden_text(
                        description_override(*config, out.packages@[t].name@),
                        built_description(crate_description),
                    )))
                &&& (lib ==> (forall|t: int|
                    0 <= t < pv.len() ==> (#[trigger] out.packages@[t]).boilerplate@
                        == built_boilerplate(deb_info, pv[t].name)))
                &&& (lib ==> out.lintian_overrides.deep_view() == lintian_spec(
                    base_with_suffix(deb_info),
                    pv,
                ))
                &&& (!lib ==> out.lintian_overrides.deep_view() == Seq::<Seq<char>>::empty())
                &&& (lib && config.collapse_features ==> out.packages@.len() == 1 + bin_count)
                &&& (!lib ==> out.packages@.len() == bin_count && out.pkg_tests@.len() == 0)
                &&& (lib && !config.collapse_features ==> out.pkg_tests@.len() == 1
                    + total_bundled(provides_spec(graph@)))
                &&& (lib ==> out.pkg_tests@.len() == 1 + bundled_features(pv).len())
                &&& (lib ==> (forall|k: int|
                    1 <= k < out.pkg_tests@.len() ==> (#[trigger] out.pkg_tests@[k]).feature@
                        == bundled_features(pv)[k - 1]))
                &&& (lib ==> out.pkg_tests@.len() >= 1)
                &&& (lib ==> at_test_row(
                    out.pkg_tests@[0],
                    graph@,
                    *config,
                    crate_name@,
                    deb_info.debian_version@,
                    out.source.name@,
                ))
                &&& (lib ==> (forall|k: int|
                    1 <= k < out.pkg_tests@.len() ==> restricts_by_flag(
                        graph@,
                        *config,
                        #[trigger] out.pkg_tests@[k],
                    )))
                &&& (lib ==> out.pkg_tests@[0].depends.deep_view() == at_depends_spec(
                    graph@,
                    *config,
                    dev_depends.deep_view(),
                ))
                &&& (lib ==> (forall|k: int|
                    1 <= k < out.pkg_tests@.len()
                        ==> (#[trigger] out.pkg_tests@[k]).depends.deep_view()
                        == test_depends_spec(
                        graph@,
                        *config,
                        out.pkg_tests@[k].feature@,
                        dev_depends.deep_view(),
                    )))
                &&& (lib ==> (forall|k: int|
                    0 <= k < out.pkg_tests@.len() ==> (#[trigger] out.pkg_tests@[k]).crate_name@
                        == crate_name@ && out.pkg_tests@[k].version@
                        == deb_info.debian_version@))
                &&& (bin_count == 1 ==> bin_package_ok(
                    out.packages@[out.packages@.len() - 1],
                    deb_info,
                    *config,
                    lib,
                    crate_name@,
                    crate_summary,
                    crate_description,
                ))
                &&& (broken_eval(graph@, *config, "default"@, (graph@.len() + 1) as nat)
                    == BrokenOutcome::Val(Some(out.default_test_broken)) || (
                out.default_test_broken == false && broken_eval(
                    graph@,
                    *config,
                    "default"@,
                    (graph@.len() + 1) as nat,
                ) == BrokenOutcome::Val(None)))
                &&& (forall|k: int|
                    1 <= k < out.pkg_tests@.len() ==> (#[trigger] out.pkg_tests@[k]).args.deep_view()
                        == test_args_spec(graph@, out.pkg_tests@[k].feature@))
            },
            Err(e) => {
                let pv = if config.collapse_features {
                    crate::resolve::collapse_provides_spec(graph@)
                } else {
                    provides_spec(graph@)
                };
                &&& e matches Error::BrokenFlagConflict { .. }
                &&& exists|f: Seq<char>|
                    (f == "default"@ || (lib && bundled_features(pv).contains(f))) && !(
                    #[trigger] broken_eval(graph@, *config, f, (graph@.len() + 1) as nat)
                        matches BrokenOutcome::Val(_))
            },
        }),
{
    let ghost g = graph@;
    // binary targets are kept only when wanted
    let effective_bins: Vec<String> = if lib && bins.len() > 0 && !config.build_bin_package() {
        Vec::new()
    } else {
        clone_string_vec(bins)
    };
    let default_bin_name = crate::strutil::dash_name(crate_name);
    let bin_name: String = if str_eq(config.bin_name.as_str(), "<default>") {
        default_bin_name
    } else {
        config.bin_name.as_str().to_owned()
    };
    let debian_version = deb_info.debian_version();
    let base_pkgname = deb_info.base_package_name();
    let upstream_name = deb_info.upstream_name();
    let mut basename_full = base_pkgname.to_owned();
    match deb_info.name_suffix() {
        Some(suf) => basename_full.append(suf),
        None => {
            proof {
                assert(basename_full@ + Seq::<char>::empty() =~= basename_full@);
            }
        },
    }
    proof {
        assert(basename_full@ == base_with_suffix(deb_info));
    }
    // build dependencies: the fixed tools, then what the default
    // feature set needs, marked skippable for a pure library
    let (default_features, default_deps) = graph.transitive_deps("default");
    let ghost reach = reachable_names(g, "default"@);
    let mut build_deps: Vec<String> = Vec::new();
    push_owned(&mut build_deps, "debhelper (>= 12)".to_owned());
    push_owned(&mut build_deps, "dh-cargo (>= 25)".to_owned());
    let ghost fixed = seq![("debhelper (>= 12)")@, ("dh-cargo (>= 25)")@];
    proof {
        assert(build_deps.deep_view() =~= fixed);
    }
    let mut build_deps_extra: Vec<String> = Vec::new();
    push_owned(&mut build_deps_extra, "cargo:native".to_owned());
    push_owned(&mut build_deps_extra, "rustc:native".to_owned());
    push_owned(&mut build_deps_extra, "libstd-rust-dev".to_owned());
    let ghost tools = seq![("cargo:native")@, ("rustc:native")@, ("libstd-rust-dev")@];
    let ndd = default_deps.len();
    let mut di: usize = 0;
    proof {
        assert(build_deps_extra.deep_view() =~= tools + default_deps.deep_view().take(0));
    }
    while di < ndd
        invariant
            di <= ndd,
            ndd == default_deps.len(),
            tools == seq![("cargo:native")@, ("rustc:native")@, ("libstd-rust-dev")@],
            build_deps_extra.deep_view() == tools + default_deps.deep_view().take(di as int),
        decreases ndd - di,
    {
        push_owned(&mut build_deps_extra, default_deps[di].as_str().to_owned());
        proof {
            assert(build_deps_extra.deep_view() =~= tools + default_deps.deep_view().take(
                di + 1,
            ));
        }
        di = di + 1;
    }
    proof {
        assert(default_deps.deep_view().take(ndd as int) =~= default_deps.deep_view());
    }
    // configured extra dependencies for the default feature set
    append_pkg_depends(&mut build_deps_extra, config, "default");
    let ghost base4 = tools + default_deps.deep_view() + config_extra_depends(
        *config,
        "default"@,
    );
    let nfd = default_features.len();
    let mut fi: usize = 0;
    proof {
        assert(build_deps_extra.deep_view() =~= base4 + features_extra_depends(
            *config,
            default_features.deep_view().take(0),
        ));
    }
    while fi < nfd
        invariant
            fi <= nfd,
            nfd == default_features.len(),
            build_deps_extra.deep_view() == base4 + features_extra_depends(
                *config,
                default_features.deep_view().take(fi as int),
            ),
        decreases nfd - fi,
    {
        append_pkg_depends(&mut build_deps_extra, config, default_features[fi].as_str());
        proof {
            let dv = default_features.deep_view();
            assert(dv.take(fi + 1).drop_last() =~= dv.take(fi as int));
            assert(dv.take(fi + 1).last() == dv[fi as int]);
            assert(build_deps_extra.deep_view() =~= base4 + features_extra_depends(
                *config,
                dv.take(fi + 1),
            ));
        }
        fi = fi + 1;
    }
    proof {
        assert(default_features.deep_view().take(nfd as int) =~= default_features.deep_view());
        assert(default_features.deep_view() == reach);
        assert(default_deps.deep_view() == crate::feature_graph::deps_fold(g, reach));
    }
    let ghost extras = tools + crate::feature_graph::deps_fold(g, reach) + config_extra_depends(
        *config,
        "default"@,
    ) + features_extra_depends(*config, reach);
    let with_bins = effective_bins.len() > 0;
    let nbe = build_deps_extra.len();
    let mut bi: usize = 0;
    proof {
        assert(build_deps_extra.deep_view() == extras);
        assert(extras.take(0) =~= Seq::<Seq<char>>::empty());
        if with_bins {
            assert(build_deps.deep_view() =~= fixed + extras.take(0));
        } else {
            assert(build_deps.deep_view() =~= fixed + extras.take(0).map_values(nocheck_of()));
        }
    }
    while bi < nbe
        invariant
            bi <= nbe,
            nbe == build_deps_extra.len(),
            build_deps_extra.deep_view() == extras,
            build_deps.deep_view() == fixed + (if with_bins {
                extras.take(bi as int)
            } else {
                extras.take(bi as int).map_values(nocheck_of())
            }),
        decreases nbe - bi,
    {
        if with_bins {
            push_owned(&mut build_deps, build_deps_extra[bi].as_str().to_owned());
            proof {
                assert(build_deps.deep_view() =~= fixed + extras.take(bi + 1));
            }
        } else {
            let marked = deb_dep_add_nocheck(build_deps_extra[bi].as_str());
            push_owned(&mut build_deps, marked);
            proof {
                assert(build_deps.deep_view() =~= fixed + extras.take(bi + 1).map_values(
                    nocheck_of(),
                ));
            }
        }
        bi = bi + 1;
    }
    proof {
        assert(extras.take(nbe as int) =~= extras);
        assert(build_deps.deep_view() == build_deps_pre(g, *config, with_bins));
    }
    let mut source = Source::new(
        upstream_name,
        basename_full.as_str(),
        debian_version,
        homepage,
        lib,
        build_deps,
        author.to_owned(),
    );
    source.apply_overrides(config);
    let mut packages: Vec<Package> = Vec::new();
    let mut pkg_tests: Vec<PkgTest> = Vec::new();
    let mut lintian_overrides: Vec<String> = Vec::new();
    let default_test_broken = match test_is_broken(graph, config, "default") {
        Ok(b) => b,
        Err(e) => {
            proof {
                assert(!(broken_eval(g, *config, "default"@, (g.len() + 1) as nat)
                    matches BrokenOutcome::Val(_)));
            }
            return Err(e);
        },
    };
    if lib {
        // the all-features test: flaky when any explicit override in
        // the configuration marks a feature (or the whole run) broken
        let mut all_broken = match config.package_test_is_broken("@") {
            Some(b) => b,
            None => false,
        };
        proof {
            assert(all_broken == (own_flag(*config, "@"@) == Some(true)));
        }
        let mut all_test_depends: Vec<String> = Vec::new();
        append_test_depends(&mut all_test_depends, config, "@");
        let ghost at_extra = config_test_depends(*config, "@"@);
        let ghost gnames = crate::feature_graph::graph_names(g);
        let ng = graph.entries.len();
        let mut gi: usize = 0;
        proof {
            assert(all_test_depends.deep_view() =~= at_extra + features_test_depends(
                *config,
                gnames.take(0),
            ));
        }
        while gi < ng
            invariant
                gi <= ng,
                g == graph@,
                ng == graph.entries.len(),
                gnames == crate::feature_graph::graph_names(g),
                at_extra == config_test_depends(*config, "@"@),
                all_broken == (own_flag(*config, "@"@) == Some(true) || (exists|t: int|
                    0 <= t < gi && own_flag(*config, #[trigger] g[t].name) == Some(true))),
                all_test_depends.deep_view() == at_extra + features_test_depends(
                    *config,
                    gnames.take(gi as int),
                ),
            decreases ng - gi,
        {
            let fname = graph.entries[gi].name.as_str();
            match config.package_test_is_broken(fname) {
                Some(true) => {
                    proof {
                        assert(own_flag(*config, g[gi as int].name) == Some(true));
                    }
                    all_broken = true;
                },
                _ => {},
            }
            append_test_depends(&mut all_test_depends, config, fname);
            proof {
                assert(gnames.take(gi + 1).drop_last() =~= gnames.take(gi as int));
                assert(gnames.take(gi + 1).last() == gnames[gi as int]);
                assert(gnames[gi as int] == g[gi as int].name);
                assert(all_test_depends.deep_view() =~= at_extra + features_test_depends(
                    *config,
                    gnames.take(gi + 1),
                ));
            }
            gi = gi + 1;
        }
        proof {
            assert(gnames.take(ng as int) =~= gnames);
        }
        proof {
            assert(all_broken == any_explicit_broken(g, *config));
        }
        let ghost at_half = at_extra + features_test_depends(*config, gnames);
        let ndv = dev_depends.len();
        let mut dvi: usize = 0;
        proof {
            assert(all_test_depends.deep_view() =~= at_half + dev_depends.deep_view().take(0));
        }
        while dvi < ndv
            invariant
                dvi <= ndv,
                ndv == dev_depends.len(),
                all_test_depends.deep_view() == at_half + dev_depends.deep_view().take(
                    dvi as int,
                ),
            decreases ndv - dvi,
        {
            push_owned(&mut all_test_depends, dev_depends[dvi].as_str().to_owned());
            proof {
                assert(all_test_depends.deep_view() =~= at_half + dev_depends.deep_view().take(
                    dvi + 1,
                ));
            }
            dvi = dvi + 1;
        }
        proof {
            assert(dev_depends.deep_view().take(ndv as int) =~= dev_depends.deep_view());
            assert(all_test_depends.deep_view() == at_depends_spec(
                g,
                *config,
                dev_depends.deep_view(),
            ));
        }
        let mut all_args: Vec<&str> = Vec::new();
        all_args.push("--all-features");
        proof {
            assert(all_args.deep_view() =~= seq![("--all-features")@]);
        }
        let all_restricts: Vec<&str> = if all_broken {
            let mut v: Vec<&str> = Vec::new();
            v.push("flaky");
            proof {
                assert(v.deep_view() =~= seq![("flaky")@]);
            }
            v
        } else {
            Vec::new()
        };
        proof {
            if !all_broken {
                assert(all_restricts.deep_view() =~= Seq::<Seq<char>>::empty());
            }
        }
        let at_test = PkgTest::new(
            source.name(),
            crate_name,
            "@",
            debian_version,
            all_args,
            &all_test_depends,
            all_restricts,
        );
        proof {
            assert(at_test_row(
                at_test,
                g,
                *config,
                crate_name@,
                deb_info.debian_version@,
                source.name@,
            ));
        }
        pkg_tests.push(at_test);
        // reduce (or collapse) the graph and emit one package per
        // surviving feature, with its tests
        let (provides, reduced) = if config.collapse_features {
            graph.collapse_features()
        } else {
            graph.reduce_provides()
        };
        proof {
            if !config.collapse_features {
                crate::resolve::lemma_provides_reduced_align(g);
                crate::resolve::lemma_provides_spec_names(g);
                assert forall|t: int| 0 <= t < provides@.len() implies name_in(
                    g,
                    (#[trigger] provides@[t])@.name,
                ) by {
                    assert(fp_view(provides@)[t] == provides@[t]@);
                    assert(provides_spec(g)[t].name == provides@[t]@.name);
                }
                assert forall|t: int, u: int|
                    0 <= t < provides@.len() && 0 <= u < provides@[t]@.provides.len() implies name_in(
                    g,
                    #[trigger] provides@[t]@.provides[u],
                ) by {
                    assert(fp_view(provides@)[t] == provides@[t]@);
                    assert(provides_spec(g)[t].provides == provides@[t]@.provides);
                }
            } else {
                crate::resolve::lemma_nonbase_names_in(g);
                assert(g[0].name.len() == 0);
                assert(g[0].name =~= Seq::<char>::empty());
                assert(name_in(g, provides@[0]@.name));
                assert forall|u: int|
                    0 <= u < provides@[0]@.provides.len() implies name_in(
                    g,
                    #[trigger] provides@[0]@.provides[u],
                ) by {
                    assert(provides@[0]@.provides == crate::resolve::nonbase_names(g));
                }
                assert forall|t: int| 0 <= t < provides@.len() implies name_in(
                    g,
                    (#[trigger] provides@[t])@.name,
                ) by {
                    assert(t == 0);
                }
            }
        }
        // classification: a feature package is recommended exactly
        // when it is, or is subsumed by, the default feature set
        let ghost pv = fp_view(provides@);
        let mut recommended_feats: Vec<String> = Vec::new();
        let mut suggested_feats: Vec<String> = Vec::new();
        let np = provides.len();
        let mut pi: usize = 0;
        proof {
            reveal(Seq::filter);
            assert(pv.take(0) =~= Seq::<crate::resolve::SpecProvides>::empty());
            assert(recommended_feats.deep_view() =~= recommended_features(pv.take(0)));
            assert(suggested_feats.deep_view() =~= suggested_features(pv.take(0)));
        }
        while pi < np
            invariant
                pi <= np,
                np == provides.len(),
                pv == fp_view(provides@),
                np == pv.len(),
                recommended_feats.deep_view() == recommended_features(pv.take(pi as int)),
                suggested_feats.deep_view() == suggested_features(pv.take(pi as int)),
            decreases np - pi,
        {
            proof {
                reveal(Seq::filter);
                assert(pv[pi as int] == provides@[pi as int]@);
                assert(pv.take(pi + 1).drop_last() =~= pv.take(pi as int));
                assert(pv.take(pi + 1).last() == pv[pi as int]);
            }
            let feature = provides[pi].feature.as_str();
            let reaches_default = str_eq(feature, "default") || string_vec_contains(
                &provides[pi].provides,
                "default",
            );
            proof {
                reveal_strlit("default");
                assert(reaches_default == (pv[pi as int].name == "default"@
                    || pv[pi as int].provides.contains("default"@)));
            }
            if feature.unicode_len() == 0 {
                proof {
                    assert(!rec_pred()(pv[pi as int]) && !sug_pred()(pv[pi as int]));
                    assert(recommended_feats.deep_view() =~= recommended_features(
                        pv.take(pi + 1),
                    ));
                    assert(suggested_feats.deep_view() =~= suggested_features(pv.take(pi + 1)));
                }
            } else if reaches_default {
                push_owned(&mut recommended_feats, feature.to_owned());
                proof {
                    assert(rec_pred()(pv[pi as int]) && !sug_pred()(pv[pi as int]));
                    assert(recommended_feats.deep_view() =~= recommended_features(
                        pv.take(pi + 1),
                    ));
                    assert(suggested_feats.deep_view() =~= suggested_features(pv.take(pi + 1)));
                }
            } else {
                push_owned(&mut suggested_feats, feature.to_owned());
                proof {
                    assert(!rec_pred()(pv[pi as int]) && sug_pred()(pv[pi as int]));
                    assert(recommended_feats.deep_view() =~= recommended_features(
                        pv.take(pi + 1),
                    ));
                    assert(suggested_feats.deep_view() =~= suggested_features(pv.take(pi + 1)));
                }
            }
            pi = pi + 1;
        }
        proof {
            assert(pv.take(np as int) =~= pv);
        }
        let nr = reduced.entries.len();
        proof {
            assert(nr == reduced@.len());
            reveal(Seq::filter);
            assert(fp_view(provides@).take(0) =~= Seq::<crate::resolve::SpecProvides>::empty());
            assert(lintian_overrides.deep_view() =~= lintian_spec(
                basename_full@,
                fp_view(provides@).take(0),
            ));
        }
        let mut ri: usize = 0;
        while ri < nr
            invariant
                ri <= nr,
                g == graph@,
                graph.wf(),
                graph.has_base(),
                g.len() < usize::MAX,
                name_in(g, "default"@),
                lib,
                upstream_name@ == deb_info.upstream_name@,
                debian_version@ == deb_info.debian_version@,
                nr == reduced.entries.len(),
                nr == provides.len(),
                pv == fp_view(provides@),
                pv == (if config.collapse_features {
                    crate::resolve::collapse_provides_spec(g)
                } else {
                    provides_spec(g)
                }),
                reduced@ == (if config.collapse_features {
                    collapsed_reduced_spec(g)
                } else {
                    reduced_spec(g)
                }),
                forall|t: int, u: int|
                    0 <= t < nr && 0 <= u < provides@[t]@.provides.len() ==> name_in(
                        g,
                        #[trigger] provides@[t]@.provides[u],
                    ),
                forall|t: int| 0 <= t < nr ==> name_in(g, (#[trigger] provides@[t])@.name),
                packages@.len() == ri,
                basename_full@ == base_with_suffix(deb_info),
                forall|t: int|
                    0 <= t < ri ==> (#[trigger] packages@[t]).name@ == (if pv[t].name.len() == 0 {
                        crate::control::deb_name_chars(basename_full@)
                    } else {
                        crate::control::deb_feature_name_chars(basename_full@, pv[t].name)
                    }),
                forall|t: int|
                    0 <= t < ri ==> (#[trigger] packages@[t]).provides.deep_view().len()
                        == pv[t].provides.len(),
                forall|t: int, u: int|
                    0 <= t < ri && 0 <= u < pv[t].provides.len()
                        ==> (#[trigger] packages@[t]).provides.deep_view()[u]
                        == crate::control::deb_feature_ref_chars(
                        basename_full@,
                        #[trigger] pv[t].provides[u],
                    ),
                recommended_feats.deep_view() == recommended_features(pv),
                suggested_feats.deep_view() == suggested_features(pv),
                forall|t: int|
                    0 <= t < ri && pv[t].name.len() == 0
                        ==> (#[trigger] packages@[t]).recommended.deep_view()
                        == crate::control::filtered_refs(
                        basename_full@,
                        recommended_features(pv),
                        pv[t].provides,
                    ) && packages@[t].suggests.deep_view() == crate::control::filtered_refs(
                        basename_full@,
                        suggested_features(pv),
                        pv[t].provides,
                    ),
                forall|t: int|
                    0 <= t < ri && pv[t].name.len() > 0
                        ==> (#[trigger] packages@[t]).recommended.deep_view()
                        == Seq::<Seq<char>>::empty() && packages@[t].suggests.deep_view()
                        == Seq::<Seq<char>>::empty(),
                forall|t: int|
                    0 <= t < ri ==> (#[trigger] packages@[t]).depends.deep_view() == seq![(
                    "${misc:Depends}")@] + crate::control::feature_refs(
                        basename_full@,
                        reduced@[t].reqs,
                    ) + reduced@[t].deps + config_extra_depends(
                        *config,
                        packages@[t].name@,
                    ),
                forall|t: int|
                    0 <= t < ri ==> (#[trigger] packages@[t]).summary@ == overridden_text(
                        summary_override(*config, packages@[t].name@),
                        built_summary(deb_info, crate_summary, pv[t].name),
                    ),
                forall|t: int|
                    0 <= t < ri ==> (#[trigger] packages@[t]).description@ == overridden_text(
                        description_override(*config, packages@[t].name@),
                        built_description(crate_description),
                    ),
                forall|t: int|
                    0 <= t < ri ==> (#[trigger] packages@[t]).boilerplate@ == built_boilerplate(
                        deb_info,
                        pv[t].name,
                    ),
                lintian_overrides.deep_view() == lintian_spec(
                    basename_full@,
                    pv.take(ri as int),
                ),
                pkg_tests@.len() == 1 + total_bundled(pv.take(ri as int)),
                pkg_tests@.len() == 1 + bundled_features(pv.take(ri as int)).len(),
                forall|k: int|
                    1 <= k < pkg_tests@.len() ==> (#[trigger] pkg_tests@[k]).feature@
                        == bundled_features(pv.take(ri as int))[k - 1],
                forall|k: int|
                    1 <= k < pkg_tests@.len() ==> (#[trigger] pkg_tests@[k]).args.deep_view()
                        == test_args_spec(g, pkg_tests@[k].feature@),
                at_test_row(
                    pkg_tests@[0],
                    g,
                    *config,
                    crate_name@,
                    deb_info.debian_version@,
                    source.name@,
                ),
                pkg_tests@[0].depends.deep_view() == at_depends_spec(
                    g,
                    *config,
                    dev_depends.deep_view(),
                ),
                forall|k: int|
                    1 <= k < pkg_tests@.len() ==> restricts_by_flag(
                        g,
                        *config,
                        #[trigger] pkg_tests@[k],
                    ),
                forall|k: int|
                    1 <= k < pkg_tests@.len() ==> (#[trigger] pkg_tests@[k]).depends.deep_view()
                        == test_depends_spec(
                        g,
                        *config,
                        pkg_tests@[k].feature@,
                        dev_depends.deep_view(),
                    ),
                forall|k: int|
                    0 <= k < pkg_tests@.len() ==> (#[trigger] pkg_tests@[k]).crate_name@
                        == crate_name@ && pkg_tests@[k].version@ == deb_info.debian_version@,
            decreases nr - ri,
        {
            let entry = &reduced.entries[ri];
            let fp = &provides[ri];
            let feature = fp.feature.as_str();
            let feature_opt: Option<&str> = if feature.unicode_len() == 0 {
                None
            } else {
                Some(feature)
            };
            let mut f_deps: Vec<&str> = Vec::new();
            let nfr = entry.features_required.len();
            let mut fri: usize = 0;
            proof {
                assert(f_deps.deep_view() =~= entry.features_required.deep_view().take(0));
            }
            while fri < nfr
                invariant
                    fri <= nfr,
                    nfr == entry.features_required.len(),
                    f_deps.deep_view() == entry.features_required.deep_view().take(fri as int),
                decreases nfr - fri,
            {
                crate::strutil::push_ref(&mut f_deps, entry.features_required[fri].as_str());
                proof {
                    assert(f_deps.deep_view() =~= entry.features_required.deep_view().take(
                        fri + 1,
                    ));
                }
                fri = fri + 1;
            }
            proof {
                assert(entry.features_required.deep_view().take(nfr as int)
                    =~= entry.features_required.deep_view());
            }
            let o_deps = clone_string_vec(&entry.external_deps);
            let mut f_provides: Vec<&str> = Vec::new();
            let nfp = fp.provides.len();
            let mut fpi: usize = 0;
            proof {
                assert(f_provides.deep_view() =~= fp.provides.deep_view().take(0));
            }
            while fpi < nfp
                invariant
                    fpi <= nfp,
                    nfp == fp.provides.len(),
                    f_provides.deep_view() == fp.provides.deep_view().take(fpi as int),
                decreases nfp - fpi,
            {
                crate::strutil::push_ref(&mut f_provides, fp.provides[fpi].as_str());
                proof {
                    assert(f_provides.deep_view() =~= fp.provides.deep_view().take(fpi + 1));
                }
                fpi = fpi + 1;
            }
            proof {
                assert(fp.provides.deep_view().take(nfp as int) =~= fp.provides.deep_view());
            }
            let mut f_recommends: Vec<&str> = Vec::new();
            let mut f_suggests: Vec<&str> = Vec::new();
            if feature_opt.is_none() {
                let nrec = recommended_feats.len();
                let mut rci: usize = 0;
                proof {
                    assert(f_recommends.deep_view() =~= recommended_feats.deep_view().take(0));
                }
                while rci < nrec
                    invariant
                        rci <= nrec,
                        nrec == recommended_feats.len(),
                        f_recommends.deep_view() == recommended_feats.deep_view().take(
                            rci as int,
                        ),
                    decreases nrec - rci,
                {
                    crate::strutil::push_ref(&mut f_recommends, recommended_feats[rci].as_str());
                    proof {
                        assert(f_recommends.deep_view() =~= recommended_feats.deep_view().take(
                            rci + 1,
                        ));
                    }
                    rci = rci + 1;
                }
                let nsg = suggested_feats.len();
                let mut sgi: usize = 0;
                proof {
                    assert(recommended_feats.deep_view().take(nrec as int)
                        =~= recommended_feats.deep_view());
                    assert(f_suggests.deep_view() =~= suggested_feats.deep_view().take(0));
                }
                while sgi < nsg
                    invariant
                        sgi <= nsg,
                        nsg == suggested_feats.len(),
                        f_recommends.deep_view() == recommended_feats.deep_view(),
                        f_suggests.deep_view() == suggested_feats.deep_view().take(sgi as int),
                    decreases nsg - sgi,
                {
                    crate::strutil::push_ref(&mut f_suggests, suggested_feats[sgi].as_str());
                    proof {
                        assert(f_suggests.deep_view() =~= suggested_feats.deep_view().take(
                            sgi + 1,
                        ));
                    }
                    sgi = sgi + 1;
                }
                proof {
                    assert(suggested_feats.deep_view().take(nsg as int)
                        =~= suggested_feats.deep_view());
                }
            } else {
                proof {
                    assert(f_recommends.deep_view() =~= Seq::<Seq<char>>::empty());
                    assert(f_suggests.deep_view() =~= Seq::<Seq<char>>::empty());
                }
            }
            let mut package = Package::new(
                basename_full.as_str(),
                upstream_name,
                crate_summary,
                crate_description,
                feature_opt,
                f_deps,
                o_deps,
                f_provides,
                f_recommends,
                f_suggests,
            );
            package.apply_overrides(config);
            if feature.unicode_len() > 0 {
                let mut ov = package.name.as_str().to_owned();
                ov.append(" binary: empty-rust-library-declares-provides *");
                push_owned(&mut lintian_overrides, ov);
                proof {
                    reveal(Seq::filter);
                    assert(pv.take(ri + 1).drop_last() =~= pv.take(ri as int));
                    assert(pv.take(ri + 1).last() == pv[ri as int]);
                    assert(nonbase_entry_pred()(pv[ri as int]));
                    assert(lintian_overrides.deep_view() =~= lintian_spec(
                        basename_full@,
                        pv.take(ri + 1),
                    ));
                }
            } else {
                proof {
                    reveal(Seq::filter);
                    assert(pv.take(ri + 1).drop_last() =~= pv.take(ri as int));
                    assert(pv.take(ri + 1).last() == pv[ri as int]);
                    assert(!nonbase_entry_pred()(pv[ri as int]));
                    assert(lintian_overrides.deep_view() =~= lintian_spec(
                        basename_full@,
                        pv.take(ri + 1),
                    ));
                }
            }
            // one test per feature bundled under this package
            let pkg_name = package.name.as_str().to_owned();
            let ghost pkg = package;
            packages.push(package);
            proof {
                assert(packages@[ri as int] == pkg);
                assert(fp@.name == pv[ri as int].name);
                assert(fp@.provides == pv[ri as int].provides);
                if pv[ri as int].name.len() == 0 {
                    assert(pkg.recommended.deep_view() == crate::control::filtered_refs(
                        basename_full@,
                        recommended_features(pv),
                        pv[ri as int].provides,
                    ));
                    assert(pkg.suggests.deep_view() == crate::control::filtered_refs(
                        basename_full@,
                        suggested_features(pv),
                        pv[ri as int].provides,
                    ));
                } else {
                    assert(pkg.recommended.deep_view() =~= Seq::<Seq<char>>::empty());
                    assert(pkg.suggests.deep_view() =~= Seq::<Seq<char>>::empty());
                }
                assert(entry@ == reduced@[ri as int]);
                assert(pkg.depends.deep_view() =~= seq![("${misc:Depends}")@]
                    + crate::control::feature_refs(basename_full@, reduced@[ri as int].reqs)
                    + reduced@[ri as int].deps + config_extra_depends(*config, pkg.name@));
                assert(pkg.summary@ == overridden_text(
                    summary_override(*config, pkg.name@),
                    built_summary(deb_info, crate_summary, pv[ri as int].name),
                ));
                assert(pkg.description@ == overridden_text(
                    description_override(*config, pkg.name@),
                    built_description(crate_description),
                ));
                assert(pkg.boilerplate@ == built_boilerplate(deb_info, pv[ri as int].name));
                assert(pkg.provides.deep_view().len() == pv[ri as int].provides.len());
                assert forall|u: int| 0 <= u < pv[ri as int].provides.len() implies
                    pkg.provides.deep_view()[u] == crate::control::deb_feature_ref_chars(
                    basename_full@,
                    #[trigger] pv[ri as int].provides[u],
                ) by {
                    assert(f_provides.deep_view()[u] == fp.provides.deep_view()[u]);
                }
            }
            let ghost tests0 = pkg_tests@.len() as int;
            let mut ci: usize = 0;
            while ci < nfp
                invariant
                    ci <= nfp,
                    g == graph@,
                    graph.wf(),
                    g.len() < usize::MAX,
                    ri < nr,
                    nr == provides.len(),
                    nfp == fp.provides.len(),
                    lib,
                    debian_version@ == deb_info.debian_version@,
                    *fp == provides@[ri as int],
                    pv == fp_view(provides@),
                    pv == (if config.collapse_features {
                        crate::resolve::collapse_provides_spec(g)
                    } else {
                        provides_spec(g)
                    }),
                    forall|u: int| 0 <= u < provides@[ri as int]@.provides.len() ==> name_in(
                        g,
                        #[trigger] provides@[ri as int]@.provides[u],
                    ),
                    pkg_tests@.len() == tests0 + ci,
                    tests0 == 1 + total_bundled(pv.take(ri as int)),
                    tests0 == 1 + bundled_features(pv.take(ri as int)).len(),

                    forall|k: int|
                        1 <= k < tests0 ==> (#[trigger] pkg_tests@[k]).feature@
                            == bundled_features(pv.take(ri as int))[k - 1],
                    forall|k: int|
                        tests0 <= k < pkg_tests@.len() ==> (#[trigger] pkg_tests@[k]).feature@
                            == pv[ri as int].provides[k - tests0],
                    forall|k: int|
                        1 <= k < pkg_tests@.len() ==> (#[trigger] pkg_tests@[k]).args.deep_view()
                            == test_args_spec(g, pkg_tests@[k].feature@),
                    at_test_row(
                        pkg_tests@[0],
                        g,
                        *config,
                        crate_name@,
                        deb_info.debian_version@,
                        source.name@,
                    ),
                    pkg_tests@[0].depends.deep_view() == at_depends_spec(
                        g,
                        *config,
                        dev_depends.deep_view(),
                    ),
                    forall|k: int|
                        1 <= k < pkg_tests@.len() ==> restricts_by_flag(
                            g,
                            *config,
                            #[trigger] pkg_tests@[k],
                        ),
                    forall|k: int|
                        1 <= k < pkg_tests@.len()
                            ==> (#[trigger] pkg_tests@[k]).depends.deep_view()
                            == test_depends_spec(
                            g,
                            *config,
                            pkg_tests@[k].feature@,
                            dev_depends.deep_view(),
                        ),
                    forall|k: int|
                        0 <= k < pkg_tests@.len() ==> (#[trigger] pkg_tests@[k]).crate_name@
                            == crate_name@ && pkg_tests@[k].version@
                            == deb_info.debian_version@,
                decreases nfp - ci,
            {
                proof {
                    assert(provides@[ri as int]@.provides[ci as int] == fp.provides.deep_view()[ci as int]);
                }
                let t = match feature_test(
                    graph,
                    config,
                    pkg_name.as_str(),
                    crate_name,
                    debian_version,
                    fp.provides[ci].as_str(),
                    dev_depends,
                ) {
                    Ok(t) => t,
                    Err(e) => {
                        proof {
                            let w = fp.provides.deep_view()[ci as int];
                            assert(w == pv[ri as int].provides[ci as int]);
                            lemma_bundled_contains_provides(pv, ri as int, ci as int);
                            assert(bundled_features(pv).contains(w));
                            assert(!(broken_eval(g, *config, w, (g.len() + 1) as nat)
                                matches BrokenOutcome::Val(_)));
                        }
                        return Err(e);
                    },
                };
                pkg_tests.push(t);
                ci = ci + 1;
            }
            proof {
                assert(name_in(g, provides@[ri as int]@.name));
                assert(fp.feature@ == provides@[ri as int]@.name);
            }
            let t = match feature_test(
                graph,
                config,
                pkg_name.as_str(),
                crate_name,
                debian_version,
                feature,
                dev_depends,
            ) {
                Ok(t) => t,
                Err(e) => {
                    proof {
                        let w = fp.feature@;
                        assert(w == pv[ri as int].name);
                        lemma_bundled_contains_name(pv, ri as int);
                        assert(bundled_features(pv).contains(w));
                        assert(!(broken_eval(g, *config, w, (g.len() + 1) as nat)
                            matches BrokenOutcome::Val(_)));
                    }
                    return Err(e);
                },
            };
            pkg_tests.push(t);
            proof {
                assert(pv.take(ri + 1).drop_last() =~= pv.take(ri as int));
                assert(pv.take(ri + 1).last() == pv[ri as int]);
                assert(pv[ri as int].provides.len() == nfp as int);
                assert(pkg_tests@.len() == 1 + total_bundled(pv.take(ri + 1)));
                let b0 = bundled_features(pv.take(ri as int));
                let b1 = bundled_features(pv.take(ri + 1));
                assert(b1 == b0 + pv[ri as int].provides + seq![pv[ri as int].name]);
                assert(pkg_tests@.len() == 1 + b1.len());
                assert forall|k: int|
                    1 <= k < pkg_tests@.len() implies (#[trigger] pkg_tests@[k]).feature@
                    == b1[k - 1] by {
                    if k < tests0 {
                        assert(pkg_tests@[k].feature@ == b0[k - 1]);
                        assert(b1[k - 1] == b0[k - 1]);
                    } else if k < tests0 + nfp {
                        assert(pkg_tests@[k].feature@ == pv[ri as int].provides[k - tests0]);
                        assert(b1[k - 1] == pv[ri as int].provides[k - 1 - b0.len()]);
                    } else {
                        assert(k == tests0 + nfp);
                        assert(pkg_tests@[k].feature@ == pv[ri as int].name);
                        assert(b1[k - 1] == pv[ri as int].name);
                    }
                }
            }
            ri = ri + 1;
        }
        proof {
            assert(pv.take(nr as int) =~= pv);
            lemma_total_bundled_nonneg(pv);
            lemma_bundled_len(pv);
            assert(pkg_tests@.len() >= 1);
        }
    }
    if effective_bins.len() > 0 {
        let section_opt: Option<&str> = if !lib {
            None
        } else {
            Some("FIXME-(packages.\"(name)\".section)")
        };
        let summary_owned: Option<String> = match crate_summary {
            Some(s) => Some(s.as_str().to_owned()),
            None => None,
        };
        let description_owned: Option<String> = match crate_description {
            Some(d) => Some(d.as_str().to_owned()),
            None => None,
        };
        let mut bin_pkg = Package::new_bin(
            upstream_name,
            bin_name.as_str(),
            section_opt,
            &summary_owned,
            &description_owned,
            "",
        );
        bin_pkg.apply_overrides(config);
        proof {
            reveal_strlit("");
            assert((("")@).len() == 0);
            assert(bin_pkg.boilerplate@ =~= Seq::<char>::empty());
            assert(bin_pkg.depends.deep_view() =~= seq![("${misc:Depends}")@, (
            "${shlibs:Depends}")@] + config_extra_depends(*config, bin_pkg.name@));
            assert(bin_package_ok(
                bin_pkg,
                deb_info,
                *config,
                lib,
                crate_name@,
                crate_summary,
                crate_description,
            ));
        }
        packages.push(bin_pkg);
    }
    let has_dev_depends = dev_depends.len() > 0;
    proof {
        let bc: int = if lib && bins@.len() > 0 && !config.bin {
            0int
        } else if bins@.len() > 0 {
            1int
        } else {
            0int
        };
        assert(has_dev_depends == (dev_depends@.len() > 0));
        if lib && !config.collapse_features {
            assert(packages@.len() == reduced_spec(g).len() + bc);
            assert(pkg_tests@.len() == 1 + total_bundled(provides_spec(g)));
        }
        if lib && config.collapse_features {
            assert(packages@.len() == 1 + bc);
        }
        if !lib {
            assert(packages@.len() == bc);
            assert(pkg_tests@.len() == 0);
        }
        lemma_total_bundled_nonneg(
            if config.collapse_features {
                Seq::<crate::resolve::SpecProvides>::empty()
            } else {
                provides_spec(g)
            },
        );
        lemma_total_bundled_nonneg(provides_spec(g));
        if lib {
            assert(pkg_tests@.len() >= 1);
        }
    }
    Ok(
        ControlOutput {
            source,
            packages,
            pkg_tests,
            lintian_overrides,
            has_dev_depends,
            default_test_broken,
        },
    )
}

/// Bundled feature counts are never negative.
proof fn lemma_total_bundled_nonneg(pv: Seq<crate::resolve::SpecProvides>)
    ensures
        total_bundled(pv) >= 0,
    decreases pv.len(),
{
    if pv.len() > 0 {
        lemma_total_bundled_nonneg(pv.drop_last());
    }
}

/// Appends the configured extra dependencies of one package key.
fn append_pkg_depends(out: &mut Vec<String>, cfg: &Config, key: &str)
    ensures
        final(out).deep_view() == old(out).deep_view() + config_extra_depends(*cfg, key@),
{
    match cfg.package_depends(key) {
        Some(extra) => {
            let ghost base = out.deep_view();
            let n = extra.len();
            let mut i: usize = 0;
            proof {
                assert(out.deep_view() =~= base + extra.deep_view().take(0));
            }
            while i < n
                invariant
                    i <= n,
                    n == extra.len(),
                    out.deep_view() == base + extra.deep_view().take(i as int),
                decreases n - i,
            {
                push_owned(out, extra[i].as_str().to_owned());
                proof {
                    assert(out.deep_view() =~= base + extra.deep_view().take(i + 1));
                }
                i = i + 1;
            }
            proof {
                assert(extra.deep_view().take(n as int) =~= extra.deep_view());
                assert(extra.deep_view() == config_extra_depends(*cfg, key@));
            }
        },
        None => {
            proof {
                assert(out.deep_view() =~= old(out).deep_view() + config_extra_depends(
                    *cfg,
                    key@,
                ));
            }
        },
    }
}

/// The content of the build-rules file: tests are skipped entirely
/// when development dependencies would be needed, and tolerated when
/// the default feature's tests are known broken. This reads the flag
/// of the feature named `default` itself; a different feature that
/// happens to provide the default set is not consulted, a known
/// limitation kept as observed.
pub fn rules_content(has_dev_depends: bool, default_test_broken: bool) -> (r: String)
    ensures
        has_dev_depends ==> r@ == "#!/usr/bin/make -f\n%:\n\tdh $@ --buildsystem cargo\n"@,
        !has_dev_depends && default_test_broken ==> r@
            == "#!/usr/bin/make -f\n%:\n\tdh $@ --buildsystem cargo\n\noverride_dh_auto_test:\n\tdh_auto_test -- test --all || true\n"@,
        !has_dev_depends && !default_test_broken ==> r@
            == "#!/usr/bin/make -f\n%:\n\tdh $@ --buildsystem cargo\n\noverride_dh_auto_test:\n\tdh_auto_test -- test --all\n"@,
{
    if has_dev_depends {
        "#!/usr/bin/make -f\n%:\n\tdh $@ --buildsystem cargo\n".to_owned()
    } else if default_test_broken {
        "#!/usr/bin/make -f\n%:\n\tdh $@ --buildsystem cargo\n\noverride_dh_auto_test:\n\tdh_auto_test -- test --all || true\n".to_owned()
    } else {
        "#!/usr/bin/make -f\n%:\n\tdh $@ --buildsystem cargo\n\noverride_dh_auto_test:\n\tdh_auto_test -- test --all\n".to_owned()
    }
}

/// Whether an archive member path is the crate's top-level manifest:
/// exactly two components, the second being the manifest name.
pub fn is_toplevel_manifest(parts: &Vec<String>) -> (r: bool)
    ensures
        r == (parts.deep_view().len() == 2 && parts.deep_view()[1] == "Cargo.toml"@),
{
    if parts.len() != 2 {
        return false;
    }
    str_eq(parts[1].as_str(), "Cargo.toml")
}

} // verus!
