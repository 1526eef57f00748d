use debcargo::config::{Config, PackageEntry, PackageOverride};
use debcargo::control::Version;
use debcargo::deb_info::DebInfo;
use debcargo::feature_graph::{FeatureEntry, FeatureGraph};
use debcargo::synth::{is_toplevel_manifest, prepare_debian_control, rules_content, test_is_broken};

fn entry(name: &str, reqs: &[&str], deps: &[&str]) -> FeatureEntry {
    FeatureEntry {
        name: name.to_string(),
        features_required: reqs.iter().map(|s| s.to_string()).collect(),
        external_deps: deps.iter().map(|s| s.to_string()).collect(),
    }
}

fn demo_graph() -> FeatureGraph {
    FeatureGraph {
        entries: vec![
            entry("", &[], &["librust-libc-dev"]),
            entry("default", &["std"], &[]),
            entry("extra", &[""], &["librust-serde-dev"]),
            entry("std", &[""], &["librust-libc-dev"]),
        ],
    }
}

fn broken_config(key: &str, broken: bool) -> Config {
    let mut rules = PackageOverride::empty();
    rules.test_is_broken = Some(broken);
    let mut config = Config::default();
    config.packages = Some(vec![PackageEntry {
        key: key.to_string(),
        rules,
    }]);
    config
}

#[test]
fn broken_flag_is_inherited_from_required_features() {
    let g = demo_graph();
    let config = broken_config("std", true);
    // "default" requires "std", so it inherits the broken flag
    assert_eq!(test_is_broken(&g, &config, "default").unwrap(), true);
    assert_eq!(test_is_broken(&g, &config, "extra").unwrap(), false);
    assert_eq!(test_is_broken(&g, &config, "std").unwrap(), true);
}

#[test]
fn conflicting_broken_flags_are_fatal() {
    let g = demo_graph();
    let mut own = PackageOverride::empty();
    own.test_is_broken = Some(false);
    let mut parent = PackageOverride::empty();
    parent.test_is_broken = Some(true);
    let mut config = Config::default();
    config.packages = Some(vec![
        PackageEntry { key: "default".to_string(), rules: own },
        PackageEntry { key: "std".to_string(), rules: parent },
    ]);
    let r = test_is_broken(&g, &config, "default");
    let msg = r.unwrap_err().message();
    assert!(msg.contains("inconsistent test_is_broken values"));
    assert!(msg.contains("default"));
    // the two disagreeing configured values are reported
    assert!(msg.contains("(false vs true)"));
}

fn demo_deb_info() -> DebInfo {
    DebInfo::new(
        "demo",
        "1",
        &Version { major: 1, minor: 2, patch: 3, pre: vec![] },
        true,
        false,
        "2.6.0",
        false,
    )
}

#[test]
fn control_output_has_one_package_per_survivor() {
    let g = demo_graph();
    let config = Config::default();
    let info = demo_deb_info();
    let out = prepare_debian_control(
        &info,
        &g,
        &config,
        true,
        &vec![],
        &vec![],
        "demo",
        None,
        None,
        "",
        "Alice Example <alice@example.org>",
    )
    .unwrap();
    // survivors: "", "extra", "std" ("default" folds into "std")
    let names: Vec<&str> = out.packages.iter().map(|p| p.name.as_str()).collect();
    assert_eq!(
        names,
        vec!["librust-demo-dev", "librust-demo+extra-dev", "librust-demo+std-dev"]
    );
    assert_eq!(out.source.name(), "rust-demo");
    assert!(!out.has_dev_depends);
    assert!(!out.default_test_broken);
    // std provides default, so it is recommended; extra is suggested
    let base = &out.packages[0];
    assert_eq!(
        base.recommended,
        vec!["librust-demo+std-dev (= ${binary:Version})".to_string()]
    );
    assert_eq!(
        base.suggests,
        vec!["librust-demo+extra-dev (= ${binary:Version})".to_string()]
    );
    // the std package carries the default feature
    let std_pkg = &out.packages[2];
    assert_eq!(
        std_pkg.provides,
        vec!["librust-demo+default-dev (= ${binary:Version})".to_string()]
    );
    // the all-features test plus one per bundled feature
    assert_eq!(out.pkg_tests.len(), 1 + 4);
    assert_eq!(out.pkg_tests[0].feature, "@");
    assert_eq!(out.pkg_tests[0].args, vec!["--all-features".to_string()]);
    // testing "extra" must switch defaults off and select it
    let extra_test = out
        .pkg_tests
        .iter()
        .find(|t| t.feature == "extra")
        .unwrap();
    assert_eq!(
        extra_test.args,
        vec![
            "--no-default-features".to_string(),
            "--features".to_string(),
            "extra".to_string(),
        ]
    );
    // testing "default" passes neither flag
    let default_test = out
        .pkg_tests
        .iter()
        .find(|t| t.feature == "default")
        .unwrap();
    assert!(default_test.args.is_empty());
    // testing "std" selects it but keeps defaults off ("default" is
    // not reachable from "std")
    let std_test = out.pkg_tests.iter().find(|t| t.feature == "std").unwrap();
    assert_eq!(
        std_test.args,
        vec![
            "--no-default-features".to_string(),
            "--features".to_string(),
            "std".to_string(),
        ]
    );
    // a lintian override per feature package
    assert_eq!(out.lintian_overrides.len(), 2);
    assert!(out.lintian_overrides[0]
        .contains("binary: empty-rust-library-declares-provides *"));
}

#[test]
fn collapsed_control_output_is_one_package() {
    let g = demo_graph();
    let mut config = Config::default();
    config.collapse_features = true;
    let info = demo_deb_info();
    let out = prepare_debian_control(
        &info,
        &g,
        &config,
        true,
        &vec![],
        &vec![],
        "demo",
        None,
        None,
        "",
        "Alice Example <alice@example.org>",
    )
    .unwrap();
    assert_eq!(out.packages.len(), 1);
    assert_eq!(out.packages[0].name, "librust-demo-dev");
    // the one package provides every feature
    assert_eq!(
        out.packages[0].provides,
        vec![
            "librust-demo+default-dev (= ${binary:Version})".to_string(),
            "librust-demo+extra-dev (= ${binary:Version})".to_string(),
            "librust-demo+std-dev (= ${binary:Version})".to_string(),
        ]
    );
}

#[test]
fn a_feature_providing_default_does_not_mark_default_broken() {
    // the rules file consults the flag of the feature named
    // "default" itself; marking the feature that provides it broken
    // leaves the default flag alone (the recorded limitation)
    let g = demo_graph();
    let config = broken_config("extra", true);
    let info = demo_deb_info();
    let out = prepare_debian_control(
        &info,
        &g,
        &config,
        true,
        &vec![],
        &vec![],
        "demo",
        None,
        None,
        "",
        "Alice Example <alice@example.org>",
    )
    .unwrap();
    assert!(!out.default_test_broken);
    let extra_test = out
        .pkg_tests
        .iter()
        .find(|t| t.feature == "extra")
        .unwrap();
    assert_eq!(extra_test.restricts, vec!["flaky".to_string()]);
    // an explicit override anywhere makes the all-features run flaky
    assert_eq!(out.pkg_tests[0].restricts, vec!["flaky".to_string()]);
}

#[test]
fn test_stanzas_render() {
    let g = demo_graph();
    let config = Config::default();
    let info = demo_deb_info();
    let out = prepare_debian_control(
        &info,
        &g,
        &config,
        true,
        &vec![],
        &vec![],
        "demo",
        None,
        None,
        "",
        "Alice Example <alice@example.org>",
    )
    .unwrap();
    let at = out.pkg_tests[0].render();
    assert!(at.starts_with(
        "Test-Command: /usr/share/cargo/bin/cargo-auto-test demo 1.2.3 --all-targets --all-features
"
    ));
    assert!(at.contains("Features: test-name=rust-demo:@
"));
    assert!(at.contains("Restrictions: allow-stderr, skippable
"));
    let extra = out
        .pkg_tests
        .iter()
        .find(|t| t.feature == "extra")
        .unwrap()
        .render();
    assert!(extra.contains("--all-targets --no-default-features --features extra
"));
    assert!(extra.contains("Features: test-name=librust-demo+extra-dev:extra
"));
}

#[test]
fn rules_skip_tests_with_dev_depends() {
    assert_eq!(
        rules_content(true, false),
        "#!/usr/bin/make -f\n%:\n\tdh $@ --buildsystem cargo\n"
    );
    assert!(rules_content(false, true).ends_with("dh_auto_test -- test --all || true\n"));
    assert!(rules_content(false, false).ends_with("dh_auto_test -- test --all\n"));
}

#[test]
fn toplevel_manifest_detection() {
    let yes = vec!["demo-1.2.3".to_string(), "Cargo.toml".to_string()];
    assert!(is_toplevel_manifest(&yes));
    let nested = vec![
        "demo-1.2.3".to_string(),
        "sub".to_string(),
        "Cargo.toml".to_string(),
    ];
    assert!(!is_toplevel_manifest(&nested));
    let other = vec!["demo-1.2.3".to_string(), "README.md".to_string()];
    assert!(!is_toplevel_manifest(&other));
}
