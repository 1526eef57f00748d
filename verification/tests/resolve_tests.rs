use debcargo::feature_graph::{FeatureEntry, FeatureGraph};

fn entry(name: &str, reqs: &[&str], deps: &[&str]) -> FeatureEntry {
    FeatureEntry {
        name: name.to_string(),
        features_required: reqs.iter().map(|s| s.to_string()).collect(),
        external_deps: deps.iter().map(|s| s.to_string()).collect(),
    }
}

fn graph(entries: Vec<FeatureEntry>) -> FeatureGraph {
    FeatureGraph { entries }
}

#[test]
fn reduce_keeps_base_and_std_when_std_requires_base() {
    // the base never vanishes, and a feature with its own external
    // deps survives while a pure pass-through folds into it
    let g = graph(vec![
        entry("", &[], &["libc"]),
        entry("default", &["std"], &[]),
        entry("std", &[""], &["libc"]),
    ]);
    let (provides, reduced) = g.reduce_provides();
    let keys: Vec<&str> = reduced.entries.iter().map(|e| e.name.as_str()).collect();
    assert_eq!(keys, vec!["", "std"]);
    assert_eq!(provides.len(), 2);
    assert_eq!(provides[0].feature, "");
    assert!(provides[0].provides.is_empty());
    assert_eq!(provides[1].feature, "std");
    assert_eq!(provides[1].provides, vec!["default".to_string()]);
}

#[test]
fn reduce_collapses_identical_signatures_into_the_first() {
    // with identical signatures the base is the representative, so
    // everything chains into it
    let g = graph(vec![
        entry("", &[], &["libc"]),
        entry("default", &["std"], &[]),
        entry("std", &[], &["libc"]),
    ]);
    let (provides, reduced) = g.reduce_provides();
    let keys: Vec<&str> = reduced.entries.iter().map(|e| e.name.as_str()).collect();
    assert_eq!(keys, vec![""]);
    assert_eq!(provides.len(), 1);
    assert_eq!(provides[0].feature, "");
    assert_eq!(
        provides[0].provides,
        vec!["default".to_string(), "std".to_string()]
    );
}

#[test]
fn duplicate_signatures_fold_through_the_lexicographic_first() {
    // "a" and "b" share a signature; "b" becomes a pass-through of
    // "a", and both end up provided by what "a" passes through to
    let g = graph(vec![
        entry("", &[], &[]),
        entry("a", &["x"], &[]),
        entry("b", &["x"], &[]),
        entry("x", &[], &["dep-of-x"]),
    ]);
    let (provides, reduced) = g.reduce_provides();
    let keys: Vec<&str> = reduced.entries.iter().map(|e| e.name.as_str()).collect();
    assert_eq!(keys, vec!["", "x"]);
    assert_eq!(provides[1].feature, "x");
    assert_eq!(
        provides[1].provides,
        vec!["a".to_string(), "b".to_string()]
    );
}

#[test]
fn reduce_twice_gives_identical_output() {
    let g = graph(vec![
        entry("", &[], &["libc"]),
        entry("default", &["std"], &[]),
        entry("extra", &[""], &["serde"]),
        entry("std", &[""], &["libc"]),
    ]);
    let (p1, r1) = g.reduce_provides();
    let (p2, r2) = g.reduce_provides();
    let k1: Vec<String> = r1.entries.iter().map(|e| e.name.clone()).collect();
    let k2: Vec<String> = r2.entries.iter().map(|e| e.name.clone()).collect();
    assert_eq!(k1, k2);
    for (a, b) in p1.iter().zip(p2.iter()) {
        assert_eq!(a.feature, b.feature);
        assert_eq!(a.provides, b.provides);
    }
}

#[test]
fn partition_of_original_features() {
    // every original feature is either a surviving key or in exactly
    // one provides list
    let g = graph(vec![
        entry("", &[], &["libc"]),
        entry("default", &["std"], &[]),
        entry("extra", &[""], &["serde"]),
        entry("fast", &["extra"], &[]),
        entry("std", &[""], &["libc"]),
    ]);
    let (provides, reduced) = g.reduce_provides();
    let mut seen: Vec<String> = Vec::new();
    for e in reduced.entries.iter() {
        seen.push(e.name.clone());
    }
    for p in provides.iter() {
        for f in p.provides.iter() {
            seen.push(f.clone());
        }
    }
    seen.sort();
    let mut all: Vec<String> = g.entries.iter().map(|e| e.name.clone()).collect();
    all.sort();
    assert_eq!(seen, all);
}

#[test]
fn collapse_merges_everything_into_the_base() {
    // the fallback keeps one package: the base, carrying every
    // feature and the union of all external deps
    let g = graph(vec![
        entry("", &[], &["libc"]),
        entry("default", &["std"], &[]),
        entry("std", &[""], &["libc"]),
    ]);
    let (provides, reduced) = g.collapse_features();
    assert_eq!(provides.len(), 1);
    assert_eq!(provides[0].feature, "");
    assert_eq!(
        provides[0].provides,
        vec!["default".to_string(), "std".to_string()]
    );
    assert_eq!(reduced.entries.len(), 1);
    assert_eq!(reduced.entries[0].name, "");
    assert!(reduced.entries[0].features_required.is_empty());
    assert_eq!(
        reduced.entries[0].external_deps,
        vec!["libc".to_string(), "libc".to_string()]
    );
}

#[test]
fn transitive_deps_reaches_everything() {
    let g = graph(vec![
        entry("", &[], &["base-dep"]),
        entry("a", &["b", ""], &["dep-a"]),
        entry("b", &[""], &["dep-b"]),
        entry("c", &[""], &["dep-c"]),
    ]);
    let (feats, deps) = g.transitive_deps("a");
    assert_eq!(feats, vec!["".to_string(), "a".to_string(), "b".to_string()]);
    assert_eq!(
        deps,
        vec!["base-dep".to_string(), "dep-a".to_string(), "dep-b".to_string()]
    );
}

#[test]
fn transitive_deps_of_base_is_itself() {
    let g = graph(vec![entry("", &[], &["base-dep"]), entry("x", &[""], &[])]);
    let (feats, deps) = g.transitive_deps("");
    assert_eq!(feats, vec!["".to_string()]);
    assert_eq!(deps, vec!["base-dep".to_string()]);
}
