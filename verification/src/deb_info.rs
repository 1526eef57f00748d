//! The derived names and paths for one packaging run of a crate.

use vstd::prelude::*;
use crate::control::{deb_version, deb_version_chars, Version};
use crate::strutil::{dash_name, dashed, lower_of, lowercase};

verus! {

/// The names a packaging run derives once from the crate's name,
/// version and targets, and then uses everywhere.
#[derive(Debug, Clone)]
pub struct DebInfo {
    pub upstream_name: String,
    pub base_package_name: String,
    /// Present exactly when a semver suffix was asked for; the empty
    /// suffix differs from no suffix.
    pub name_suffix: Option<String>,
    pub uscan_version_pattern: Option<String>,
    pub package_name: String,
    pub debian_version: String,
    pub debcargo_version: String,
    pub package_source_dir: String,
    pub orig_tarball_path: String,
}

/// The base package name: the crate name with dashes, folded to
/// lowercase.
pub open spec fn base_name_chars(name: Seq<char>) -> Seq<char> {
    lower_of(dashed(name))
}

/// The version pattern handed to the watch-file machinery when a
/// semver suffix is in use.
pub open spec fn uscan_pattern_chars(semver: Seq<char>) -> Seq<char> {
    "[-_]?("@ + semver + "\\.\\d[\\-+\\.:\\~\\da-zA-Z]*)"@
}

impl DebInfo {
    /// Derives every name of a packaging run. With `semver_suffix`
    /// the package name carries the truncated version, except for a
    /// pure binary crate, whose suffix is empty; without it there is
    /// no suffix at all.
    pub fn new(
        name: &str,
        semver: &str,
        version: &Version,
        is_lib: bool,
        has_binary_targets: bool,
        debcargo_version: &str,
        semver_suffix: bool,
    ) -> (r: DebInfo)
        ensures
            r.upstream_name@ == name@,
            r.base_package_name@ == base_name_chars(name@),
            r.name_suffix matches Some(s) ==> semver_suffix,
            semver_suffix ==> r.name_suffix is Some && r.name_suffix->0@ == (if !is_lib
                && has_binary_targets {
                Seq::<char>::empty()
            } else {
                "-"@ + semver@
            }),
            !semver_suffix ==> r.name_suffix is None && r.uscan_version_pattern is None,
            semver_suffix ==> r.uscan_version_pattern is Some && r.uscan_version_pattern->0@
                == uscan_pattern_chars(semver@),
            r.package_name@ == base_name_chars(name@) + (if semver_suffix {
                r.name_suffix->0@
            } else {
                Seq::<char>::empty()
            }),
            r.debian_version@ == deb_version_chars(*version),
            r.debcargo_version@ == debcargo_version@,
            r.package_source_dir@ == "rust-"@ + r.package_name@ + "-"@ + r.debian_version@,
            r.orig_tarball_path@ == "rust-"@ + r.package_name@ + "_"@ + r.debian_version@
                + ".orig.tar.gz"@,
    {
        let upstream = name.to_owned();
        let name_dashed = dash_name(name);
        let base_package_name = lowercase(name_dashed.as_str());
        let (name_suffix, uscan_version_pattern, package_name): (
            Option<String>,
            Option<String>,
            String,
        ) = if semver_suffix {
            let suffix = if !is_lib && has_binary_targets {
                String::new()
            } else {
                let mut s = "-".to_owned();
                s.append(semver);
                s
            };
            let mut uscan = "[-_]?(".to_owned();
            uscan.append(semver);
            uscan.append("\\.\\d[\\-+\\.:\\~\\da-zA-Z]*)");
            let mut pkgname = base_package_name.as_str().to_owned();
            pkgname.append(suffix.as_str());
            (Some(suffix), Some(uscan), pkgname)
        } else {
            (None, None, base_package_name.as_str().to_owned())
        };
        let debian_version = deb_version(version);
        let mut debian_source = "rust-".to_owned();
        debian_source.append(package_name.as_str());
        let mut package_source_dir = debian_source.as_str().to_owned();
        package_source_dir.append("-");
        package_source_dir.append(debian_version.as_str());
        let mut orig_tarball_path = debian_source.as_str().to_owned();
        orig_tarball_path.append("_");
        orig_tarball_path.append(debian_version.as_str());
        orig_tarball_path.append(".orig.tar.gz");
        DebInfo {
            upstream_name: upstream,
            base_package_name,
            name_suffix,
            uscan_version_pattern,
            package_name,
            debian_version,
            debcargo_version: debcargo_version.to_owned(),
            package_source_dir,
            orig_tarball_path,
        }
    }

    /// The crate's own name, unchanged.
    pub fn upstream_name(&self) -> (r: &str)
        ensures
            r@ == self.upstream_name@,
    {
        self.upstream_name.as_str()
    }

    /// The lowercased, dashed package base name.
    pub fn base_package_name(&self) -> (r: &str)
        ensures
            r@ == self.base_package_name@,
    {
        self.base_package_name.as_str()
    }

    /// The semver suffix, when one was asked for.
    pub fn name_suffix(&self) -> (r: Option<&str>)
        ensures
            match r {
                Some(s) => self.name_suffix is Some && s@ == self.name_suffix->0@,
                None => self.name_suffix is None,
            },
    {
        match self.name_suffix.as_ref() {
            Some(s) => Some(s.as_str()),
            None => None,
        }
    }

    /// The package name, suffix included.
    pub fn package_name(&self) -> (r: &str)
        ensures
            r@ == self.package_name@,
    {
        self.package_name.as_str()
    }

    /// The downstream rendering of the upstream version.
    pub fn debian_version(&self) -> (r: &str)
        ensures
            r@ == self.debian_version@,
    {
        self.debian_version.as_str()
    }

    /// The version of this tool, recorded in generated entries.
    pub fn debcargo_version(&self) -> (r: &str)
        ensures
            r@ == self.debcargo_version@,
    {
        self.debcargo_version.as_str()
    }

    /// The directory the unpacked source goes into.
    pub fn package_source_dir(&self) -> (r: &str)
        ensures
            r@ == self.package_source_dir@,
    {
        self.package_source_dir.as_str()
    }

    /// The file name of the repacked upstream tarball.
    pub fn orig_tarball_path(&self) -> (r: &str)
        ensures
            r@ == self.orig_tarball_path@,
    {
        self.orig_tarball_path.as_str()
    }
}

} // verus!
