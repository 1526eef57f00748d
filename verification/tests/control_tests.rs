use debcargo::config::{Config, PackageEntry, PackageOverride, SourceOverride};
use debcargo::control::{
    deb_feature_name, deb_name, deb_version, get_deb_author, Package, Source, Version,
};
use debcargo::deb_info::DebInfo;

fn v(major: u64, minor: u64, patch: u64, pre: &[&str]) -> Version {
    Version {
        major,
        minor,
        patch,
        pre: pre.iter().map(|s| s.to_string()).collect(),
    }
}

#[test]
fn deb_version_plain() {
    assert_eq!(deb_version(&v(1, 2, 3, &[])), "1.2.3");
    assert_eq!(deb_version(&v(0, 10, 0, &[])), "0.10.0");
}

#[test]
fn deb_version_prerelease_gets_a_tilde() {
    // the ~ makes the prerelease sort before the release
    assert_eq!(deb_version(&v(1, 0, 0, &["alpha", "1"])), "1.0.0~alpha.1");
    assert_eq!(deb_version(&v(2, 5, 1, &["rc1"])), "2.5.1~rc1");
}

#[test]
fn deb_name_replaces_underscores() {
    assert_eq!(deb_name("my_crate"), "librust-my-crate-dev");
    assert_eq!(deb_name("plain"), "librust-plain-dev");
}

#[test]
fn deb_feature_name_lowercases_the_feature() {
    // exercises the case folding: an uppercase feature must come out
    // lowercase, not unchanged
    assert_eq!(
        deb_feature_name("my_crate", "Serde_Feature"),
        "librust-my-crate+serde-feature-dev"
    );
    assert_eq!(deb_feature_name("a", "std"), "librust-a+std-dev");
}

#[test]
fn author_needs_name_and_email() {
    let ok = get_deb_author(Some("Jane Doe".to_string()), Some("jane@example.org".to_string()));
    assert_eq!(ok.unwrap(), "Jane Doe <jane@example.org>");
    let no_name = get_deb_author(None, Some("jane@example.org".to_string()));
    assert!(no_name.is_err());
    let msg = no_name.unwrap_err().message();
    assert!(msg.contains("DEBFULLNAME"));
    let no_email = get_deb_author(Some("Jane Doe".to_string()), None);
    assert!(no_email.unwrap_err().message().contains("DEBEMAIL"));
}

#[test]
fn source_stanza_renders_every_field() {
    let source = Source::new(
        "my_crate",
        "my-crate",
        "1.2.3",
        "https://example.org",
        true,
        vec!["debhelper (>= 12)".to_string(), "dh-cargo (>= 25)".to_string()],
        "Jane Doe <jane@example.org>".to_string(),
    );
    assert_eq!(source.srcname(), "rust-my-crate");
    assert_eq!(source.version(), "1.2.3-1");
    assert_eq!(source.main_uploader(), "Jane Doe <jane@example.org>");
    let text = source.render();
    assert!(text.starts_with("Source: rust-my-crate\n"));
    assert!(text.contains("Section: rust\n"));
    assert!(text.contains("Priority: optional\n"));
    assert!(text.contains("Build-Depends: debhelper (>= 12),\n dh-cargo (>= 25)\n"));
    assert!(text.contains("Standards-Version: 4.1.4\n"));
    assert!(text.contains("Homepage: https://example.org\n"));
    // the crate name carries an underscore, so the stanza records it
    assert!(text.contains("X-Cargo-Crate: my_crate\n"));
}

#[test]
fn source_overrides_replace_and_extend() {
    let mut source = Source::new(
        "plain",
        "plain",
        "0.1.0",
        "",
        true,
        vec!["debhelper (>= 12)".to_string(), "old-dep".to_string()],
        "Jane Doe <jane@example.org>".to_string(),
    );
    let mut so = SourceOverride::empty();
    so.policy = Some("4.5.1".to_string());
    so.build_depends = Some(vec!["extra-dep".to_string()]);
    so.build_depends_excludes = Some(vec!["old-dep".to_string()]);
    let mut config = Config::default();
    config.source = Some(so);
    source.apply_overrides(&config);
    assert_eq!(source.standards, "4.5.1");
    assert_eq!(
        source.build_deps,
        vec!["debhelper (>= 12)".to_string(), "extra-dep".to_string()]
    );
}

#[test]
fn package_for_a_feature() {
    let p = Package::new(
        "serde",
        "serde",
        Some(&"Serialization framework".to_string()),
        Some(&"A framework for serializing Rust data structures.".to_string()),
        Some("derive"),
        vec![""],
        vec!["librust-serde-derive-1+default-dev".to_string()],
        vec!["alloc"],
        vec![],
        vec![],
    );
    assert_eq!(p.name, "librust-serde+derive-dev");
    assert_eq!(p.summary, "Serialization framework - feature \"derive\"");
    assert_eq!(
        p.depends,
        vec![
            "${misc:Depends}".to_string(),
            "librust-serde-dev (= ${binary:Version})".to_string(),
            "librust-serde-derive-1+default-dev".to_string(),
        ]
    );
    assert_eq!(
        p.provides,
        vec!["librust-serde+alloc-dev (= ${binary:Version})".to_string()]
    );
    let text = p.render();
    assert!(text.starts_with("Package: librust-serde+derive-dev\n"));
    assert!(text.contains("Architecture: any\n"));
    assert!(text.contains("Multi-Arch: same\n"));
    assert!(text.contains("Description: Serialization framework - feature \"derive\"\n"));
}

#[test]
fn base_package_filters_provided_features_from_recommends() {
    let p = Package::new(
        "demo",
        "demo",
        None,
        None,
        None,
        vec![],
        vec![],
        vec!["default"],
        vec!["default", "extra"],
        vec!["other"],
    );
    // "default" is already provided, so only "extra" is recommended
    assert_eq!(
        p.recommended,
        vec!["librust-demo+extra-dev (= ${binary:Version})".to_string()]
    );
    assert_eq!(
        p.suggests,
        vec!["librust-demo+other-dev (= ${binary:Version})".to_string()]
    );
    assert_eq!(p.summary, "Rust source code for crate \"demo\"");
}

#[test]
fn long_description_is_wrapped() {
    // the description runs through the text filler: a single long
    // line must come back broken into shorter ones
    let long = "This description is deliberately written to be much longer than seventy nine columns so that the filler has to break it into several lines.";
    let p = Package::new(
        "demo",
        "demo",
        None,
        Some(&long.to_string()),
        None,
        vec![],
        vec![],
        vec![],
        vec![],
        vec![],
    );
    assert!(p.description.contains('\n'));
    for line in p.description.lines() {
        assert!(line.len() <= 79);
    }
}

#[test]
fn package_overrides_apply_by_name() {
    let mut p = Package::new(
        "demo", "demo", None, None, None, vec![], vec![], vec![], vec![], vec![],
    );
    let mut rules = PackageOverride::empty();
    rules.summary = Some("Overridden summary".to_string());
    rules.depends = Some(vec!["extra-runtime-dep".to_string()]);
    let mut config = Config::default();
    config.packages = Some(vec![PackageEntry {
        key: "librust-demo-dev".to_string(),
        rules,
    }]);
    p.apply_overrides(&config);
    assert_eq!(p.summary, "Overridden summary");
    assert!(p.depends.contains(&"extra-runtime-dep".to_string()));
}

#[test]
fn deb_info_without_suffix() {
    let info = DebInfo::new("my_crate", "1", &v(1, 2, 3, &[]), true, false, "2.6.0", false);
    assert_eq!(info.upstream_name(), "my_crate");
    assert_eq!(info.base_package_name(), "my-crate");
    assert!(info.name_suffix().is_none());
    assert_eq!(info.package_name(), "my-crate");
    assert_eq!(info.debian_version(), "1.2.3");
    assert_eq!(info.debcargo_version(), "2.6.0");
    assert_eq!(info.package_source_dir(), "rust-my-crate-1.2.3");
    assert_eq!(info.orig_tarball_path(), "rust-my-crate_1.2.3.orig.tar.gz");
}

#[test]
fn deb_info_with_semver_suffix() {
    let info = DebInfo::new("Widget_Lib", "0.4", &v(0, 4, 7, &[]), true, false, "2.6.0", true);
    assert_eq!(info.base_package_name(), "widget-lib");
    assert_eq!(info.name_suffix(), Some("-0.4"));
    assert_eq!(info.package_name(), "widget-lib-0.4");
    assert_eq!(info.package_source_dir(), "rust-widget-lib-0.4-0.4.7");
}

#[test]
fn pure_binary_crate_gets_an_empty_suffix() {
    let info = DebInfo::new("tool", "1", &v(1, 0, 0, &[]), false, true, "2.6.0", true);
    assert_eq!(info.name_suffix(), Some(""));
    assert_eq!(info.package_name(), "tool");
}
