//! The override configuration, exposed to the core as typed accessor
//! queries.
//!
//! Parsing the user-supplied configuration text is a collaborator's
//! job; the core only reads the already-typed values through the
//! accessors below.

use vstd::prelude::*;
use crate::strutil::str_eq;

verus! {

/// Overrides that apply to the source stanza.
#[derive(Debug, Clone)]
pub struct SourceOverride {
    pub section: Option<String>,
    pub policy: Option<String>,
    pub homepage: Option<String>,
    pub vcs_git: Option<String>,
    pub vcs_browser: Option<String>,
    pub build_depends: Option<Vec<String>>,
    pub build_depends_excludes: Option<Vec<String>>,
}

/// Overrides that apply to one binary package or to one feature's
/// tests; the entry key names the package or feature.
#[derive(Debug, Clone)]
pub struct PackageOverride {
    pub summary: Option<String>,
    pub description: Option<String>,
    pub section: Option<String>,
    pub depends: Option<Vec<String>>,
    pub test_is_broken: Option<bool>,
    pub test_depends: Option<Vec<String>>,
}

/// One keyed entry of the per-package override table.
#[derive(Debug, Clone)]
pub struct PackageEntry {
    pub key: String,
    pub rules: PackageOverride,
}

/// The whole override configuration.
#[derive(Debug, Clone)]
pub struct Config {
    pub bin: bool,
    pub bin_name: String,
    pub overlay: Option<String>,
    pub overlay_write_back: bool,
    pub allow_prerelease_deps: bool,
    pub maintainer: String,
    pub uploaders: Option<Vec<String>>,
    pub collapse_features: bool,
    pub source: Option<SourceOverride>,
    pub packages: Option<Vec<PackageEntry>>,
}

impl SourceOverride {
    /// An override record with nothing set.
    pub fn empty() -> (r: SourceOverride)
        ensures
            r.section is None,
            r.policy is None,
            r.homepage is None,
            r.vcs_git is None,
            r.vcs_browser is None,
            r.build_depends is None,
            r.build_depends_excludes is None,
    {
        SourceOverride {
            section: None,
            policy: None,
            homepage: None,
            vcs_git: None,
            vcs_browser: None,
            build_depends: None,
            build_depends_excludes: None,
        }
    }
}

impl PackageOverride {
    /// An override record with nothing set.
    pub fn empty() -> (r: PackageOverride)
        ensures
            r.summary is None,
            r.description is None,
            r.section is None,
            r.depends is None,
            r.test_is_broken is None,
            r.test_depends is None,
    {
        PackageOverride {
            summary: None,
            description: None,
            section: None,
            depends: None,
            test_is_broken: None,
            test_depends: None,
        }
    }
}

/// The first override record whose key has the given characters.
pub open spec fn lookup_spec(entries: Seq<PackageEntry>, name: Seq<char>) -> Option<
    PackageOverride,
>
    decreases entries.len(),
{
    if entries.len() == 0 {
        None
    } else if entries[0].key@ == name {
        Some(entries[0].rules)
    } else {
        lookup_spec(entries.skip(1), name)
    }
}

impl Config {
    /// The overridden source section, as characters.
    pub open spec fn section_spec(&self) -> Option<Seq<char>> {
        if self.source is Some && self.source->0.section is Some {
            Some(self.source->0.section->0@)
        } else {
            None
        }
    }

    /// The overridden standards version, as characters.
    pub open spec fn policy_spec(&self) -> Option<Seq<char>> {
        if self.source is Some && self.source->0.policy is Some {
            Some(self.source->0.policy->0@)
        } else {
            None
        }
    }

    /// The overridden homepage, as characters.
    pub open spec fn homepage_spec(&self) -> Option<Seq<char>> {
        if self.source is Some && self.source->0.homepage is Some {
            Some(self.source->0.homepage->0@)
        } else {
            None
        }
    }

    /// The overridden Vcs-Git location, as characters.
    pub open spec fn vcs_git_spec(&self) -> Option<Seq<char>> {
        if self.source is Some && self.source->0.vcs_git is Some {
            Some(self.source->0.vcs_git->0@)
        } else {
            None
        }
    }

    /// The overridden Vcs-Browser location, as characters.
    pub open spec fn vcs_browser_spec(&self) -> Option<Seq<char>> {
        if self.source is Some && self.source->0.vcs_browser is Some {
            Some(self.source->0.vcs_browser->0@)
        } else {
            None
        }
    }

    /// The configured extra build dependencies, empty when unset.
    pub open spec fn build_depends_spec(&self) -> Seq<Seq<char>> {
        if self.source is Some && self.source->0.build_depends is Some {
            self.source->0.build_depends->0.deep_view()
        } else {
            Seq::empty()
        }
    }

    /// The configured excluded build dependencies, empty when unset.
    pub open spec fn build_depends_excludes_spec(&self) -> Seq<Seq<char>> {
        if self.source is Some && self.source->0.build_depends_excludes is Some {
            self.source->0.build_depends_excludes->0.deep_view()
        } else {
            Seq::empty()
        }
    }

    /// The per-package override table as a sequence, empty when the
    /// configuration has none.
    pub open spec fn packages_seq(&self) -> Seq<PackageEntry> {
        if self.packages is Some {
            self.packages->0@
        } else {
            Seq::empty()
        }
    }

    /// The override record for the named package or feature, if any.
    pub open spec fn package_rules(&self, name: Seq<char>) -> Option<PackageOverride> {
        lookup_spec(self.packages_seq(), name)
    }

    fn lookup(&self, name: &str) -> (r: Option<&PackageOverride>)
        ensures
            match r {
                Some(o) => self.package_rules(name@) == Some(*o),
                None => self.package_rules(name@) is None,
            },
    {
        if self.packages.is_none() {
            return None;
        }
        {
            let entries: &Vec<PackageEntry> = self.packages.as_ref().unwrap();
            {
                let n = entries.len();
                let mut i: usize = 0;
                proof {
                    assert(entries@.skip(0) =~= entries@);
                }
                while i < n
                    invariant
                        i <= n,
                        n == entries.len(),
                        self.packages_seq() == entries@,
                        lookup_spec(entries@, name@) == lookup_spec(
                            entries@.skip(i as int),
                            name@,
                        ),
                    decreases n - i,
                {
                    proof {
                        assert(entries@.skip(i as int)[0] == entries@[i as int]);
                        assert(entries@.skip(i as int).skip(1) =~= entries@.skip(i + 1));
                    }
                    if str_eq(entries[i].key.as_str(), name) {
                        proof {
                            assert(lookup_spec(entries@.skip(i as int), name@) == Some(
                                entries@[i as int].rules,
                            ));
                        }
                        return Some(&entries[i].rules);
                    }
                    i = i + 1;
                }
                proof {
                    assert(entries@.skip(n as int).len() == 0);
                }
                None
            }
        }
    }

    /// Whether a source-stanza override section is present.
    pub fn is_source_present(&self) -> (r: bool)
        ensures
            r == (self.source is Some),
    {
        self.source.is_some()
    }

    /// Whether a per-package override table is present.
    pub fn is_packages_present(&self) -> (r: bool)
        ensures
            r == (self.packages is Some),
    {
        self.packages.is_some()
    }

    /// The overridden standards version, if any.
    pub fn policy_version(&self) -> (r: Option<&str>)
        ensures
            match r {
                Some(p) => self.source is Some && self.source->0.policy is Some && p@
                    == self.source->0.policy->0@,
                None => self.source is None || self.source->0.policy is None,
            },
    {
        if let Some(s) = &self.source {
            if let Some(policy) = &s.policy {
                return Some(policy.as_str());
            }
        }
        None
    }

    /// The overridden homepage, if any.
    pub fn homepage(&self) -> (r: Option<&str>)
        ensures
            match r {
                Some(p) => self.source is Some && self.source->0.homepage is Some && p@
                    == self.source->0.homepage->0@,
                None => self.source is None || self.source->0.homepage is None,
            },
    {
        if let Some(s) = &self.source {
            if let Some(homepage) = &s.homepage {
                return Some(homepage.as_str());
            }
        }
        None
    }

    /// The extra build dependencies from the source override, if any.
    pub fn build_depends(&self) -> (r: Option<&Vec<String>>)
        ensures
            match r {
                Some(d) => self.source is Some && self.source->0.build_depends is Some && d@
                    == self.source->0.build_depends->0@ && d.deep_view()
                    == self.build_depends_spec(),
                None => (self.source is None || self.source->0.build_depends is None)
                    && self.build_depends_spec() == Seq::<Seq<char>>::empty(),
            },
    {
        if let Some(s) = &self.source {
            if let Some(bdeps) = &s.build_depends {
                return Some(bdeps);
            }
        }
        None
    }

    /// The build dependencies excluded by the source override, if any.
    pub fn build_depends_excludes(&self) -> (r: Option<&Vec<String>>)
        ensures
            match r {
                Some(d) => self.source is Some && self.source->0.build_depends_excludes is Some
                    && d@ == self.source->0.build_depends_excludes->0@ && d.deep_view()
                    == self.build_depends_excludes_spec(),
                None => (self.source is None || self.source->0.build_depends_excludes is None)
                    && self.build_depends_excludes_spec() == Seq::<Seq<char>>::empty(),
            },
    {
        if let Some(s) = &self.source {
            if let Some(ex) = &s.build_depends_excludes {
                return Some(ex);
            }
        }
        None
    }

    /// The overridden source section, if any.
    pub fn section(&self) -> (r: Option<&str>)
        ensures
            match r {
                Some(p) => self.source is Some && self.source->0.section is Some && p@
                    == self.source->0.section->0@,
                None => self.source is None || self.source->0.section is None,
            },
    {
        if let Some(s) = &self.source {
            if let Some(section) = &s.section {
                return Some(section.as_str());
            }
        }
        None
    }

    /// The overridden Vcs-Git location, if any.
    pub fn vcs_git(&self) -> (r: Option<&str>)
        ensures
            match r {
                Some(p) => self.source is Some && self.source->0.vcs_git is Some && p@
                    == self.source->0.vcs_git->0@,
                None => self.source is None || self.source->0.vcs_git is None,
            },
    {
        if let Some(s) = &self.source {
            if let Some(vcs_git) = &s.vcs_git {
                return Some(vcs_git.as_str());
            }
        }
        None
    }

    /// The overridden Vcs-Browser location, if any.
    pub fn vcs_browser(&self) -> (r: Option<&str>)
        ensures
            match r {
                Some(p) => self.source is Some && self.source->0.vcs_browser is Some && p@
                    == self.source->0.vcs_browser->0@,
                None => self.source is None || self.source->0.vcs_browser is None,
            },
    {
        if let Some(s) = &self.source {
            if let Some(vcs_browser) = &s.vcs_browser {
                return Some(vcs_browser.as_str());
            }
        }
        None
    }

    /// The overridden summary and description for a package; a field
    /// that the override leaves unset comes back empty.
    pub fn package_summary(&self, pkgname: &str) -> (r: Option<(&str, &str)>)
        ensures
            match r {
                Some(sd) => {
                    &&& self.package_rules(pkgname@) is Some
                    &&& sd.0@ == (match self.package_rules(pkgname@)->0.summary {
                        Some(s) => s@,
                        None => Seq::<char>::empty(),
                    })
                    &&& sd.1@ == (match self.package_rules(pkgname@)->0.description {
                        Some(d) => d@,
                        None => Seq::<char>::empty(),
                    })
                },
                None => self.package_rules(pkgname@) is None,
            },
    {
        match self.lookup(pkgname) {
            None => None,
            Some(rules) => {
                let s = match &rules.summary {
                    Some(s) => s.as_str(),
                    None => "",
                };
                let d = match &rules.description {
                    Some(d) => d.as_str(),
                    None => "",
                };
                proof {
                    reveal_strlit("");
                    assert(""@ =~= Seq::<char>::empty());
                }
                Some((s, d))
            },
        }
    }

    /// The overridden section for a package, if any.
    pub fn package_section(&self, pkgname: &str) -> (r: Option<&str>)
        ensures
            match r {
                Some(p) => self.package_rules(pkgname@) is Some && self.package_rules(
                    pkgname@,
                )->0.section is Some && p@ == self.package_rules(pkgname@)->0.section->0@,
                None => self.package_rules(pkgname@) is None || self.package_rules(
                    pkgname@,
                )->0.section is None,
            },
    {
        match self.lookup(pkgname) {
            None => None,
            Some(rules) => match &rules.section {
                Some(s) => Some(s.as_str()),
                None => None,
            },
        }
    }

    /// The extra dependencies configured for a package, if any.
    pub fn package_depends(&self, pkgname: &str) -> (r: Option<&Vec<String>>)
        ensures
            match r {
                Some(d) => self.package_rules(pkgname@) is Some && self.package_rules(
                    pkgname@,
                )->0.depends is Some && d@ == self.package_rules(pkgname@)->0.depends->0@,
                None => self.package_rules(pkgname@) is None || self.package_rules(
                    pkgname@,
                )->0.depends is None,
            },
    {
        match self.lookup(pkgname) {
            None => None,
            Some(rules) => match &rules.depends {
                Some(d) => Some(d),
                None => None,
            },
        }
    }

    /// The explicit "known broken" override for a feature's tests,
    /// if any.
    pub fn package_test_is_broken(&self, feature: &str) -> (r: Option<bool>)
        ensures
            r == (match self.package_rules(feature@) {
                Some(o) => o.test_is_broken,
                None => None,
            }),
    {
        match self.lookup(feature) {
            None => None,
            Some(rules) => rules.test_is_broken,
        }
    }

    /// The extra test dependencies configured for a feature, if any.
    pub fn package_test_depends(&self, feature: &str) -> (r: Option<&Vec<String>>)
        ensures
            match r {
                Some(d) => self.package_rules(feature@) is Some && self.package_rules(
                    feature@,
                )->0.test_depends is Some && d@ == self.package_rules(feature@)->0.test_depends->0@,
                None => self.package_rules(feature@) is None || self.package_rules(
                    feature@,
                )->0.test_depends is None,
            },
    {
        match self.lookup(feature) {
            None => None,
            Some(rules) => match &rules.test_depends {
                Some(d) => Some(d),
                None => None,
            },
        }
    }

    /// The maintainer identity.
    pub fn maintainer(&self) -> (r: &str)
        ensures
            r@ == self.maintainer@,
    {
        self.maintainer.as_str()
    }

    /// The declared co-maintainers, if any.
    pub fn uploaders(&self) -> (r: Option<&Vec<String>>)
        ensures
            match r {
                Some(u) => self.uploaders is Some && u@ == self.uploaders->0@,
                None => self.uploaders is None,
            },
    {
        self.uploaders.as_ref()
    }

    /// Whether a binary package is wanted for the crate's binary
    /// targets.
    pub fn build_bin_package(&self) -> (r: bool)
        ensures
            r == self.bin,
    {
        self.bin
    }
}

impl Default for Config {
    /// The configuration used when no override file is given.
    fn default() -> (r: Config)
        ensures
            r.bin == true,
            r.bin_name@ == "<default>"@,
            r.overlay is None,
            r.overlay_write_back == true,
            r.allow_prerelease_deps == false,
            r.maintainer@ == Seq::<char>::empty(),
            r.uploaders is None,
            r.collapse_features == false,
            r.source is None,
            r.packages is None,
    {
        Config {
            bin: true,
            bin_name: "<default>".to_owned(),
            overlay: None,
            overlay_write_back: true,
            allow_prerelease_deps: false,
            maintainer: String::new(),
            uploaders: None,
            collapse_features: false,
            source: None,
            packages: None,
        }
    }
}

} // verus!
