//! The source and binary package stanzas, and the naming rules for
//! downstream packages.

use vstd::prelude::*;
use crate::config::Config;
use crate::errors::Error;
use crate::strutil::{
    dash_name, dashed, dec_str, fill_text, filled, join_chars, join_strs, lower_of, lowercase,
    str_eq, trim, trimmed, u64_to_dec, split_lines, split_lines_of,
};

verus! {

/// The maintainer of last resort for every generated source package.
pub const RUST_MAINT: &'static str =
    "Rust Maintainers <pkg-rust-maintainers@alioth-lists.debian.net>";

/// The shared packaging repository.
pub const VCS_ALL: &'static str = "https://salsa.debian.org/rust-team/debcargo-conf";

/// An upstream version: the numeric triple and any prerelease
/// identifiers, which is all the downstream version rendering reads.
#[derive(Debug, Clone)]
pub struct Version {
    pub major: u64,
    pub minor: u64,
    pub patch: u64,
    pub pre: Vec<String>,
}

/// The prerelease identifiers rendered with a leading `~` and `.`
/// between the rest, so the whole compares earlier than the release.
pub open spec fn pre_chars(pre: Seq<Seq<char>>, first: bool) -> Seq<char>
    decreases pre.len(),
{
    if pre.len() == 0 {
        Seq::<char>::empty()
    } else {
        (if first {
            seq!['~']
        } else {
            seq!['.']
        }) + pre[0] + pre_chars(pre.skip(1), false)
    }
}

/// The downstream rendering of an upstream version: the dotted triple,
/// then the prerelease identifiers behind a tilde.
pub open spec fn deb_version_chars(v: Version) -> Seq<char> {
    dec_str(v.major) + seq!['.'] + dec_str(v.minor) + seq!['.'] + dec_str(v.patch) + pre_chars(
        v.pre.deep_view(),
        true,
    )
}

/// Translates an upstream version into a downstream version string.
/// Build metadata is omitted, and a `~` goes before the prerelease
/// part so it compares earlier than the subsequent release.
pub fn deb_version(v: &Version) -> (r: String)
    ensures
        r@ == deb_version_chars(*v),
{
    let mut s = u64_to_dec(v.major);
    s.append(".");
    let minor = u64_to_dec(v.minor);
    s.append(minor.as_str());
    s.append(".");
    let patch = u64_to_dec(v.patch);
    s.append(patch.as_str());
    proof {
        reveal_strlit(".");
        assert((".")@ =~= seq!['.']);
    }
    let n = v.pre.len();
    let mut i: usize = 0;
    proof {
        assert(v.pre.deep_view().skip(0) =~= v.pre.deep_view());
        assert(s@ + Seq::<char>::empty() =~= s@);
    }
    while i < n
        invariant
            i <= n,
            n == v.pre.len(),
            s@ + pre_chars(v.pre.deep_view().skip(i as int), i == 0) == deb_version_chars(*v),
        decreases n - i,
    {
        if i == 0 {
            s.append("~");
        } else {
            s.append(".");
        }
        s.append(v.pre[i].as_str());
        proof {
            reveal_strlit("~");
            reveal_strlit(".");
            assert(("~")@ =~= seq!['~']);
            assert((".")@ =~= seq!['.']);
            let pv = v.pre.deep_view();
            assert(pv.skip(i as int)[0] == pv[i as int]);
            assert(pv.skip(i as int).skip(1) =~= pv.skip(i + 1));
        }
        i = i + 1;
    }
    proof {
        assert(v.pre.deep_view().skip(n as int).len() == 0);
        assert(s@ + Seq::<char>::empty() =~= s@);
    }
    s
}

/// The downstream package name for a crate's base library package.
pub open spec fn deb_name_chars(name: Seq<char>) -> Seq<char> {
    "librust-"@ + dashed(name) + "-dev"@
}

/// The library package name for a crate: underscores become dashes.
pub fn deb_name(name: &str) -> (r: String)
    ensures
        r@ == deb_name_chars(name@),
{
    let mut s = "librust-".to_owned();
    let d = dash_name(name);
    s.append(d.as_str());
    s.append("-dev");
    s
}

/// The downstream package name for one feature of a crate.
pub open spec fn deb_feature_name_chars(name: Seq<char>, feature: Seq<char>) -> Seq<char> {
    "librust-"@ + dashed(name) + "+"@ + lower_of(dashed(feature)) + "-dev"@
}

/// The feature package name for a crate: underscores become dashes
/// and the feature is folded to lowercase.
pub fn deb_feature_name(name: &str, feature: &str) -> (r: String)
    ensures
        r@ == deb_feature_name_chars(name@, feature@),
{
    let mut s = "librust-".to_owned();
    let d = dash_name(name);
    s.append(d.as_str());
    s.append("+");
    let f = dash_name(feature);
    let fl = lowercase(f.as_str());
    s.append(fl.as_str());
    s.append("-dev");
    s
}

/// The source package stanza.
#[derive(Debug, Clone)]
pub struct Source {
    pub name: String,
    pub section: String,
    pub priority: String,
    pub maintainer: String,
    pub uploaders: Vec<String>,
    pub standards: String,
    pub build_deps: Vec<String>,
    pub vcs_git: String,
    pub vcs_browser: String,
    pub homepage: String,
    pub x_cargo: String,
    pub version: String,
}

impl Source {
    /// Builds the source stanza for a crate. The resolved author
    /// becomes the sole initial uploader.
    pub fn new(
        upstream_name: &str,
        basename: &str,
        version: &str,
        home: &str,
        lib: bool,
        build_deps: Vec<String>,
        author: String,
    ) -> (r: Source)
        ensures
            r.name@ == "rust-"@ + basename@,
            r.section@ == (if lib {
                "rust"@
            } else {
                "FIXME-(source.section)"@
            }),
            r.priority@ == "optional"@,
            r.maintainer@ == RUST_MAINT@,
            r.uploaders.deep_view() =~= seq![author@],
            r.standards@ == "4.1.4"@,
            r.build_deps == build_deps,
            r.vcs_browser@ == VCS_ALL@,
            r.vcs_git@ == VCS_ALL@ + ".git"@,
            r.homepage@ == home@,
            r.x_cargo@ == (if dashed(upstream_name@) == upstream_name@ {
                Seq::<char>::empty()
            } else {
                upstream_name@
            }),
            r.version@ == version@ + "-1"@,
    {
        let mut source = "rust-".to_owned();
        source.append(basename);
        let section = if lib {
            "rust"
        } else {
            "FIXME-(source.section)"
        };
        let vcs_browser = VCS_ALL.to_owned();
        let mut vcs_git = VCS_ALL.to_owned();
        vcs_git.append(".git");
        let dash = dash_name(upstream_name);
        let cargo_crate = if !str_eq(upstream_name, dash.as_str()) {
            upstream_name.to_owned()
        } else {
            String::new()
        };
        let mut uploaders: Vec<String> = Vec::new();
        uploaders.push(author);
        let mut full_version = version.to_owned();
        full_version.append("-1");
        Source {
            name: source,
            section: section.to_owned(),
            priority: "optional".to_owned(),
            maintainer: RUST_MAINT.to_owned(),
            uploaders,
            standards: "4.1.4".to_owned(),
            build_deps,
            vcs_git,
            vcs_browser,
            homepage: home.to_owned(),
            x_cargo: cargo_crate,
            version: full_version,
        }
    }

    /// The source package name.
    pub fn srcname(&self) -> (r: &String)
        ensures
            r@ == self.name@,
    {
        &self.name
    }

    /// Alias for the source package name used by stanza consumers.
    pub fn name(&self) -> (r: &str)
        ensures
            r@ == self.name@,
    {
        self.name.as_str()
    }

    /// The full downstream version recorded in the stanza.
    pub fn version(&self) -> (r: &String)
        ensures
            r@ == self.version@,
    {
        &self.version
    }

    /// The first uploader; the stanza is always built with one.
    pub fn main_uploader(&self) -> (r: &str)
        requires
            self.uploaders@.len() >= 1,
        ensures
            r@ == self.uploaders@[0]@,
    {
        self.uploaders[0].as_str()
    }

    /// Applies the source-stanza overrides from the configuration:
    /// replaced fields take the configured value, the extra build
    /// dependencies are appended, and the excluded ones dropped.
    pub fn apply_overrides(&mut self, config: &Config)
        ensures
            final(self).name == old(self).name,
            final(self).priority == old(self).priority,
            final(self).maintainer == old(self).maintainer,
            final(self).uploaders == old(self).uploaders,
            final(self).x_cargo == old(self).x_cargo,
            final(self).version == old(self).version,
            final(self).section@ == (match config.section_spec() {
                Some(s) => s,
                None => old(self).section@,
            }),
            final(self).standards@ == (match config.policy_spec() {
                Some(s) => s,
                None => old(self).standards@,
            }),
            final(self).homepage@ == (match config.homepage_spec() {
                Some(s) => s,
                None => old(self).homepage@,
            }),
            final(self).vcs_git@ == (match config.vcs_git_spec() {
                Some(s) => s,
                None => old(self).vcs_git@,
            }),
            final(self).vcs_browser@ == (match config.vcs_browser_spec() {
                Some(s) => s,
                None => old(self).vcs_browser@,
            }),
            final(self).build_deps.deep_view() == (old(self).build_deps.deep_view()
                + config.build_depends_spec()).filter(
                not_in(config.build_depends_excludes_spec()),
            ),
    {
        if let Some(section) = config.section() {
            self.section = section.to_owned();
        }
        if let Some(policy) = config.policy_version() {
            self.standards = policy.to_owned();
        }
        let mut deps: Vec<String> = Vec::new();
        let ghost extended = old(self).build_deps.deep_view() + config.build_depends_spec();
        let ghost keep = not_in(config.build_depends_excludes_spec());
        proof {
            reveal(Seq::filter);
            assert(extended.take(0) =~= Seq::<Seq<char>>::empty());
            assert(extended.take(0).filter(keep) =~= Seq::<Seq<char>>::empty());
        }
        let n0 = self.build_deps.len();
        let mut i: usize = 0;
        while i < n0
            invariant
                i <= n0,
                n0 == old(self).build_deps.len(),
                self.build_deps == old(self).build_deps,
                extended == old(self).build_deps.deep_view() + config.build_depends_spec(),
                keep == not_in(config.build_depends_excludes_spec()),
                deps.deep_view() == extended.take(i as int).filter(keep),
            decreases n0 - i,
        {
            proof {
                reveal(Seq::filter);
                assert(extended.take(i + 1).drop_last() =~= extended.take(i as int));
                assert(extended.take(i + 1).last() == old(self).build_deps.deep_view()[i as int]);
            }
            if !excluded(config, self.build_deps[i].as_str()) {
                let d = self.build_deps[i].as_str().to_owned();
                deps.push(d);
                proof {
                    assert(deps.deep_view() =~= extended.take(i + 1).filter(keep));
                }
            } else {
                proof {
                    assert(deps.deep_view() =~= extended.take(i + 1).filter(keep));
                }
            }
            i = i + 1;
        }
        let extra = match config.build_depends() {
            Some(b) => crate::strutil::clone_string_vec(b),
            None => Vec::new(),
        };
        let n1 = extra.len();
        let mut j: usize = 0;
        proof {
            assert(extra.deep_view() =~= config.build_depends_spec());
            assert(extended.take(n0 as int) =~= old(self).build_deps.deep_view());
        }
        while j < n1
            invariant
                j <= n1,
                n0 == old(self).build_deps.len(),
                n1 == extra.len(),
                extra.deep_view() == config.build_depends_spec(),
                extended == old(self).build_deps.deep_view() + config.build_depends_spec(),
                keep == not_in(config.build_depends_excludes_spec()),
                deps.deep_view() == extended.take(n0 + j).filter(keep),
            decreases n1 - j,
        {
            proof {
                reveal(Seq::filter);
                assert(extended.take(n0 + j + 1).drop_last() =~= extended.take(n0 + j));
                assert(extended.take(n0 + j + 1).last() == extra.deep_view()[j as int]);
            }
            if !excluded(config, extra[j].as_str()) {
                let d = extra[j].clone();
                deps.push(d);
                proof {
                    assert(deps.deep_view() =~= extended.take(n0 + j + 1).filter(keep));
                }
            } else {
                proof {
                    assert(deps.deep_view() =~= extended.take(n0 + j + 1).filter(keep));
                }
            }
            j = j + 1;
        }
        proof {
            assert(extended.take(n0 + n1) =~= extended);
        }
        self.build_deps = deps;
        if let Some(homepage) = config.homepage() {
            self.homepage = homepage.to_owned();
        }
        if let Some(vcs_git) = config.vcs_git() {
            self.vcs_git = vcs_git.to_owned();
        }
        if let Some(vcs_browser) = config.vcs_browser() {
            self.vcs_browser = vcs_browser.to_owned();
        }
    }

    /// The text of the stanza: one field per line, the dependency and
    /// uploader lists folded with continuation lines, and the homepage
    /// and crate-name fields only when present.
    pub fn render(&self) -> (r: String)
        ensures
            r@ == source_render_chars(*self),
    {
        let mut out = "Source: ".to_owned();
        out.append(self.name.as_str());
        out.append("\nSection: ");
        out.append(self.section.as_str());
        out.append("\nPriority: ");
        out.append(self.priority.as_str());
        out.append("\nBuild-Depends: ");
        let bd = join_strs(&self.build_deps, ",\n ");
        out.append(bd.as_str());
        out.append("\nMaintainer: ");
        out.append(self.maintainer.as_str());
        out.append("\nUploaders: ");
        let up = join_strs(&self.uploaders, ",\n ");
        out.append(up.as_str());
        out.append("\nStandards-Version: ");
        out.append(self.standards.as_str());
        out.append("\nVcs-Git: ");
        out.append(self.vcs_git.as_str());
        out.append("\nVcs-Browser: ");
        out.append(self.vcs_browser.as_str());
        out.append("\n");
        if self.homepage.as_str().unicode_len() > 0 {
            out.append("Homepage: ");
            out.append(self.homepage.as_str());
            out.append("\n");
        }
        if self.x_cargo.as_str().unicode_len() > 0 {
            out.append("X-Cargo-Crate: ");
            out.append(self.x_cargo.as_str());
            out.append("\n");
        }
        out
    }
}

/// The rendered form of the source stanza.
pub open spec fn source_render_chars(s: Source) -> Seq<char> {
    "Source: "@ + s.name@ + "\nSection: "@ + s.section@ + "\nPriority: "@ + s.priority@
        + "\nBuild-Depends: "@ + join_chars(s.build_deps.deep_view(), ",\n "@) + "\nMaintainer: "@
        + s.maintainer@ + "\nUploaders: "@ + join_chars(s.uploaders.deep_view(), ",\n "@)
        + "\nStandards-Version: "@ + s.standards@ + "\nVcs-Git: "@ + s.vcs_git@
        + "\nVcs-Browser: "@ + s.vcs_browser@ + "\n"@ + (if s.homepage@.len() > 0 {
        "Homepage: "@ + s.homepage@ + "\n"@
    } else {
        Seq::<char>::empty()
    }) + (if s.x_cargo@.len() > 0 {
        "X-Cargo-Crate: "@ + s.x_cargo@ + "\n"@
    } else {
        Seq::<char>::empty()
    })
}

/// Whether the configuration excludes a build dependency.
fn excluded(config: &Config, dep: &str) -> (r: bool)
    ensures
        r == config.build_depends_excludes_spec().contains(dep@),
{
    match config.build_depends_excludes() {
        None => {
            proof {
                assert(config.build_depends_excludes_spec().len() == 0);
            }
            false
        },
        Some(ex) => {
            let n = ex.len();
            let mut i: usize = 0;
            while i < n
                invariant
                    i <= n,
                    n == ex.len(),
                    ex.deep_view() == config.build_depends_excludes_spec(),
                    forall|k: int| 0 <= k < i ==> ex.deep_view()[k] != dep@,
                decreases n - i,
            {
                if str_eq(ex[i].as_str(), dep) {
                    proof {
                        assert(ex.deep_view()[i as int] == dep@);
                    }
                    return true;
                }
                i = i + 1;
            }
            proof {
                if config.build_depends_excludes_spec().contains(dep@) {
                    let k = choose|k: int|
                        0 <= k < ex.deep_view().len() && ex.deep_view()[k] == dep@;
                    assert(false);
                }
            }
            false
        },
    }
}

/// A reference to the package that carries a feature, pinned to the
/// exact binary version.
pub open spec fn deb_feature_ref_chars(basename: Seq<char>, f: Seq<char>) -> Seq<char> {
    (if f.len() == 0 {
        deb_name_chars(basename)
    } else {
        deb_feature_name_chars(basename, f)
    }) + " (= ${binary:Version})"@
}

fn deb_feature_ref(basename: &str, f: &str) -> (r: String)
    ensures
        r@ == deb_feature_ref_chars(basename@, f@),
{
    let mut s = if f.unicode_len() == 0 {
        deb_name(basename)
    } else {
        deb_feature_name(basename, f)
    };
    s.append(" (= ${binary:Version})");
    s
}

/// The reference-building map for one crate's feature packages.
pub open spec fn ref_of(basename: Seq<char>) -> spec_fn(Seq<char>) -> Seq<char> {
    |f: Seq<char>| deb_feature_ref_chars(basename, f)
}

/// The predicate keeping features that are not in an exclusion list.
pub open spec fn not_in(excl: Seq<Seq<char>>) -> spec_fn(Seq<char>) -> bool {
    |f: Seq<char>| !excl.contains(f)
}

/// The feature references of a list of features.
pub open spec fn feature_refs(basename: Seq<char>, fs: Seq<Seq<char>>) -> Seq<Seq<char>> {
    fs.map_values(ref_of(basename))
}

/// The feature references of a list, dropping the excluded ones.
pub open spec fn filtered_refs(
    basename: Seq<char>,
    fs: Seq<Seq<char>>,
    excl: Seq<Seq<char>>,
) -> Seq<Seq<char>> {
    fs.filter(not_in(excl)).map_values(ref_of(basename))
}

fn str_slice_vec_contains(v: &Vec<&str>, s: &str) -> (r: bool)
    ensures
        r == v.deep_view().contains(s@),
{
    let n = v.len();
    let mut i: usize = 0;
    while i < n
        invariant
            i <= n,
            n == v.len(),
            forall|k: int| 0 <= k < i ==> v.deep_view()[k] != s@,
        decreases n - i,
    {
        if str_eq(v[i], s) {
            proof {
                assert(v.deep_view()[i as int] == s@);
            }
            return true;
        }
        i = i + 1;
    }
    proof {
        if v.deep_view().contains(s@) {
            let k = choose|k: int| 0 <= k < v.deep_view().len() && v.deep_view()[k] == s@;
            assert(false);
        }
    }
    false
}

fn map_feature_refs(basename: &str, fs: &Vec<&str>) -> (r: Vec<String>)
    ensures
        r.deep_view() == feature_refs(basename@, fs.deep_view()),
{
    let g = Ghost(ref_of(basename@));
    let n = fs.len();
    let mut r: Vec<String> = Vec::new();
    let mut i: usize = 0;
    while i < n
        invariant
            i <= n,
            n == fs.len(),
            r.deep_view() == fs.deep_view().take(i as int).map_values(g@),
            g@ == ref_of(basename@),
        decreases n - i,
    {
        let x = deb_feature_ref(basename, fs[i]);
        crate::strutil::push_owned(&mut r, x);
        proof {
            assert(r.deep_view() =~= fs.deep_view().take(i + 1).map_values(g@));
        }
        i = i + 1;
    }
    proof {
        assert(fs.deep_view().take(n as int) =~= fs.deep_view());
    }
    r
}

fn map_feature_refs_excluding(basename: &str, fs: &Vec<&str>, excl: &Vec<&str>) -> (r: Vec<
    String,
>)
    ensures
        r.deep_view() == filtered_refs(basename@, fs.deep_view(), excl.deep_view()),
{
    let keep = Ghost(not_in(excl.deep_view()));
    let g = Ghost(ref_of(basename@));
    let n = fs.len();
    let mut r: Vec<String> = Vec::new();
    let mut i: usize = 0;
    proof {
        reveal(Seq::filter);
        assert(fs.deep_view().take(0) =~= Seq::<Seq<char>>::empty());
    }
    while i < n
        invariant
            i <= n,
            n == fs.len(),
            r.deep_view() == fs.deep_view().take(i as int).filter(keep@).map_values(g@),
            keep@ == not_in(excl.deep_view()),
            g@ == ref_of(basename@),
        decreases n - i,
    {
        proof {
            reveal(Seq::filter);
            assert(fs.deep_view().take(i + 1).drop_last() =~= fs.deep_view().take(i as int));
            assert(fs.deep_view().take(i + 1).last() == fs.deep_view()[i as int]);
        }
        if !str_slice_vec_contains(excl, fs[i]) {
            let x = deb_feature_ref(basename, fs[i]);
            crate::strutil::push_owned(&mut r, x);
            proof {
                assert(r.deep_view() =~= fs.deep_view().take(i + 1).filter(keep@).map_values(
                    g@,
                ));
            }
        } else {
            proof {
                assert(r.deep_view() =~= fs.deep_view().take(i + 1).filter(keep@).map_values(
                    g@,
                ));
            }
        }
        i = i + 1;
    }
    proof {
        assert(fs.deep_view().take(n as int) =~= fs.deep_view());
    }
    r
}

/// One binary package stanza.
#[derive(Debug, Clone)]
pub struct Package {
    pub name: String,
    pub arch: String,
    pub multi_arch: String,
    pub section: Option<String>,
    pub depends: Vec<String>,
    pub recommended: Vec<String>,
    pub suggests: Vec<String>,
    pub provides: Vec<String>,
    pub summary: String,
    pub description: String,
    pub boilerplate: String,
}

/// The one-line summary of a package, from the crate summary and the
/// feature it carries.
pub open spec fn package_summary_chars(
    basename: Seq<char>,
    summary: Option<Seq<char>>,
    feature: Option<Seq<char>>,
) -> Seq<char> {
    match summary {
        None => "Rust source code for crate \""@ + basename + "\""@,
        Some(s) => match feature {
            Some(f) => s + " - feature \""@ + f + "\""@,
            None => s + " - Rust source code"@,
        },
    }
}

/// The fixed closing paragraph of a package description.
pub open spec fn package_boilerplate_chars(
    upstream_name: Seq<char>,
    feature: Option<Seq<char>>,
) -> Seq<char> {
    match feature {
        None => "This package contains the source for the Rust "@ + upstream_name
            + " crate, packaged by debcargo for use with cargo and dh-cargo."@,
        Some(f) => "This metapackage enables feature "@ + f + " for the Rust "@ + upstream_name
            + " crate, by pulling in any additional dependencies needed by that feature."@,
    }
}

impl Package {
    /// Builds the stanza for the package that carries one feature (or
    /// the base package, when `feature` is `None`): its dependencies
    /// are the feature references plus the external dependencies, its
    /// provides the features it subsumes, and its recommends and
    /// suggests only appear on the base package, without the features
    /// it already provides itself.
    pub fn new(
        basename: &str,
        upstream_name: &str,
        summary: Option<&String>,
        description: Option<&String>,
        feature: Option<&str>,
        f_deps: Vec<&str>,
        o_deps: Vec<String>,
        f_provides: Vec<&str>,
        f_recommends: Vec<&str>,
        f_suggests: Vec<&str>,
    ) -> (r: Package)
        ensures
            r.name@ == (match feature {
                None => deb_name_chars(basename@),
                Some(f) => deb_feature_name_chars(basename@, f@),
            }),
            r.arch@ == "any"@,
            r.multi_arch@ == "same"@,
            r.section is None,
            r.depends.deep_view() == seq!["${misc:Depends}"@] + feature_refs(
                basename@,
                f_deps.deep_view(),
            ) + o_deps.deep_view(),
            r.recommended.deep_view() == (match feature {
                None => filtered_refs(
                    basename@,
                    f_recommends.deep_view(),
                    f_provides.deep_view(),
                ),
                Some(_) => Seq::<Seq<char>>::empty(),
            }),
            r.suggests.deep_view() == (match feature {
                None => filtered_refs(basename@, f_suggests.deep_view(), f_provides.deep_view()),
                Some(_) => Seq::<Seq<char>>::empty(),
            }),
            r.provides.deep_view() == feature_refs(basename@, f_provides.deep_view()),
            r.summary@ == package_summary_chars(
                basename@,
                match summary {
                    Some(s) => Some(s@),
                    None => None,
                },
                match feature {
                    Some(f) => Some(f@),
                    None => None,
                },
            ),
            r.description@ == filled(
                match description {
                    Some(d) => d@,
                    None => Seq::<char>::empty(),
                },
                79,
            ),
            r.boilerplate@ == filled(
                package_boilerplate_chars(
                    upstream_name@,
                    match feature {
                        Some(f) => Some(f@),
                        None => None,
                    },
                ),
                79,
            ),
    {
        let (recommended, suggests) = if feature.is_none() {
            (
                map_feature_refs_excluding(basename, &f_recommends, &f_provides),
                map_feature_refs_excluding(basename, &f_suggests, &f_provides),
            )
        } else {
            (Vec::new(), Vec::new())
        };
        let provides = map_feature_refs(basename, &f_provides);
        let mut depends: Vec<String> = Vec::new();
        depends.push("${misc:Depends}".to_owned());
        let f_dep_refs = map_feature_refs(basename, &f_deps);
        let mut k: usize = 0;
        let nf = f_dep_refs.len();
        while k < nf
            invariant
                k <= nf,
                nf == f_dep_refs.len(),
                depends.deep_view() == seq!["${misc:Depends}"@] + f_dep_refs.deep_view().take(
                    k as int,
                ),
            decreases nf - k,
        {
            crate::strutil::push_owned(&mut depends, f_dep_refs[k].as_str().to_owned());
            proof {
                assert(depends.deep_view() =~= seq!["${misc:Depends}"@]
                    + f_dep_refs.deep_view().take(k + 1));
            }
            k = k + 1;
        }
        let no = o_deps.len();
        let mut k2: usize = 0;
        proof {
            assert(f_dep_refs.deep_view().take(nf as int) =~= f_dep_refs.deep_view());
            assert(o_deps.deep_view().take(0) =~= Seq::<Seq<char>>::empty());
            assert(depends.deep_view() =~= seq!["${misc:Depends}"@] + f_dep_refs.deep_view()
                + o_deps.deep_view().take(0));
        }
        while k2 < no
            invariant
                k2 <= no,
                no == o_deps.len(),
                depends.deep_view() == seq!["${misc:Depends}"@] + f_dep_refs.deep_view()
                    + o_deps.deep_view().take(k2 as int),
            decreases no - k2,
        {
            crate::strutil::push_owned(&mut depends, o_deps[k2].as_str().to_owned());
            proof {
                assert(depends.deep_view() =~= seq!["${misc:Depends}"@] + f_dep_refs.deep_view()
                    + o_deps.deep_view().take(k2 + 1));
            }
            k2 = k2 + 1;
        }
        proof {
            assert(o_deps.deep_view().take(no as int) =~= o_deps.deep_view());
        }
        let short_desc = match summary {
            None => {
                let mut s = "Rust source code for crate \"".to_owned();
                s.append(basename);
                s.append("\"");
                s
            },
            Some(sum) => match feature {
                Some(f) => {
                    let mut s = sum.as_str().to_owned();
                    s.append(" - feature \"");
                    s.append(f);
                    s.append("\"");
                    s
                },
                None => {
                    let mut s = sum.as_str().to_owned();
                    s.append(" - Rust source code");
                    s
                },
            },
        };
        let name = match feature {
            None => deb_name(basename),
            Some(f) => deb_feature_name(basename, f),
        };
        let long_desc = match description {
            None => String::new(),
            Some(d) => d.as_str().to_owned(),
        };
        let boilerplate = match feature {
            None => {
                let mut s = "This package contains the source for the Rust ".to_owned();
                s.append(upstream_name);
                s.append(" crate, packaged by debcargo for use with cargo and dh-cargo.");
                s
            },
            Some(f) => {
                let mut s = "This metapackage enables feature ".to_owned();
                s.append(f);
                s.append(" for the Rust ");
                s.append(upstream_name);
                s.append(" crate, by pulling in any additional dependencies needed by that feature.");
                s
            },
        };
        Package {
            name,
            arch: "any".to_owned(),
            multi_arch: "same".to_owned(),
            section: None,
            depends,
            recommended,
            suggests,
            provides,
            summary: short_desc,
            description: fill_text(long_desc.as_str(), 79),
            boilerplate: fill_text(boilerplate.as_str(), 79),
        }
    }

    /// Builds the stanza for the package holding the crate's built
    /// binaries.
    pub fn new_bin(
        upstream_name: &str,
        name: &str,
        section: Option<&str>,
        summary: &Option<String>,
        description: &Option<String>,
        boilerplate: &str,
    ) -> (r: Package)
        ensures
            r.name@ == name@,
            r.arch@ == "any"@,
            r.multi_arch@ == "allowed"@,
            (match section {
                Some(s) => r.section is Some && r.section->0@ == s@,
                None => r.section is None,
            }),
            r.depends.deep_view() =~= seq!["${misc:Depends}"@, "${shlibs:Depends}"@],
            r.recommended@.len() == 0,
            r.suggests@.len() == 0,
            r.provides@.len() == 0,
            r.summary@ == (match *summary {
                None => "Binaries built from the Rust "@ + upstream_name@ + " crate"@,
                Some(s) => s@,
            }),
            r.description@ == (match *description {
                None => Seq::<char>::empty(),
                Some(d) => d@,
            }),
            r.boilerplate@ == boilerplate@,
    {
        let short_desc = match summary {
            None => {
                let mut s = "Binaries built from the Rust ".to_owned();
                s.append(upstream_name);
                s.append(" crate");
                s
            },
            Some(s) => s.as_str().to_owned(),
        };
        let long_desc = match description {
            None => String::new(),
            Some(d) => d.as_str().to_owned(),
        };
        let mut depends: Vec<String> = Vec::new();
        depends.push("${misc:Depends}".to_owned());
        depends.push("${shlibs:Depends}".to_owned());
        proof {
            assert(depends.deep_view() =~= seq!["${misc:Depends}"@, "${shlibs:Depends}"@]);
        }
        Package {
            name: name.to_owned(),
            arch: "any".to_owned(),
            multi_arch: "allowed".to_owned(),
            section: match section {
                Some(s) => Some(s.to_owned()),
                None => None,
            },
            depends,
            recommended: Vec::new(),
            suggests: Vec::new(),
            provides: Vec::new(),
            summary: short_desc,
            description: long_desc,
            boilerplate: boilerplate.to_owned(),
        }
    }

    /// The package's name.
    pub fn name(&self) -> (r: &String)
        ensures
            r@ == self.name@,
    {
        &self.name
    }

    /// Applies the per-package overrides from the configuration: the
    /// section and any non-empty summary or description replace the
    /// built ones, and configured dependencies are appended.
    pub fn apply_overrides(&mut self, config: &Config)
        ensures
            final(self).name == old(self).name,
            final(self).arch == old(self).arch,
            final(self).multi_arch == old(self).multi_arch,
            final(self).recommended == old(self).recommended,
            final(self).suggests == old(self).suggests,
            final(self).provides == old(self).provides,
            final(self).boilerplate == old(self).boilerplate,
            (match config.package_rules(old(self).name@) {
                Some(o) => match o.section {
                    Some(s) => final(self).section is Some && final(self).section->0@ == s@,
                    None => final(self).section == old(self).section,
                },
                None => final(self).section == old(self).section,
            }),
            final(self).summary@ == (match config.package_rules(old(self).name@) {
                Some(o) => match o.summary {
                    Some(s) => if s@.len() > 0 {
                        s@
                    } else {
                        old(self).summary@
                    },
                    None => old(self).summary@,
                },
                None => old(self).summary@,
            }),
            final(self).description@ == (match config.package_rules(old(self).name@) {
                Some(o) => match o.description {
                    Some(d) => if d@.len() > 0 {
                        d@
                    } else {
                        old(self).description@
                    },
                    None => old(self).description@,
                },
                None => old(self).description@,
            }),
            final(self).depends.deep_view() == old(self).depends.deep_view() + (
            match config.package_rules(old(self).name@) {
                Some(o) => match o.depends {
                    Some(d) => d.deep_view(),
                    None => Seq::<Seq<char>>::empty(),
                },
                None => Seq::<Seq<char>>::empty(),
            }),
    {
        let name = self.name.as_str().to_owned();
        if let Some(section) = config.package_section(name.as_str()) {
            self.section = Some(section.to_owned());
        }
        if let Some((s, d)) = config.package_summary(name.as_str()) {
            if s.unicode_len() > 0 {
                self.summary = s.to_owned();
            }
            if d.unicode_len() > 0 {
                self.description = d.to_owned();
            }
        }
        let ghost dep0 = self.depends.deep_view();
        match config.package_depends(name.as_str()) {
            None => {
                proof {
                    assert(self.depends.deep_view() =~= dep0 + Seq::<Seq<char>>::empty());
                }
            },
            Some(extra) => {
                let mut more = crate::strutil::clone_string_vec(&self.depends);
                let nm = extra.len();
                let mut i: usize = 0;
                proof {
                    assert(more.deep_view() =~= dep0 + extra.deep_view().take(0));
                }
                while i < nm
                    invariant
                        i <= nm,
                        nm == extra.len(),
                        more.deep_view() == dep0 + extra.deep_view().take(i as int),
                    decreases nm - i,
                {
                    crate::strutil::push_owned(&mut more, extra[i].as_str().to_owned());
                    proof {
                        assert(more.deep_view() =~= dep0 + extra.deep_view().take(i + 1));
                    }
                    i = i + 1;
                }
                proof {
                    assert(extra.deep_view().take(nm as int) =~= extra.deep_view());
                }
                self.depends = more;
            },
        }
    }
}

/// One line of a package description as the stanza shows it: blank
/// lines become a lone dot, sub-bullets are indented twice, everything
/// else once.
pub open spec fn render_desc_line(l: Seq<char>) -> Seq<char> {
    let t = trimmed(l);
    if t.len() == 0 {
        " .\n"@
    } else if crate::strutil::starts_with(t, "- "@) {
        "  "@ + t + "\n"@
    } else {
        " "@ + t + "\n"@
    }
}

/// The rendering of a whole run of description lines.
pub open spec fn rendered_lines(lines: Seq<Seq<char>>) -> Seq<char>
    decreases lines.len(),
{
    if lines.len() == 0 {
        Seq::<char>::empty()
    } else {
        render_desc_line(lines[0]) + rendered_lines(lines.skip(1))
    }
}

/// The body of a description: the free text and the boilerplate, each
/// trimmed, the empty one dropped, joined by a paragraph break, and
/// every line indented by the stanza rules.
pub open spec fn desc_body_chars(description: Seq<char>, boilerplate: Seq<char>) -> Seq<char> {
    let parts = seq![trimmed(description), trimmed(boilerplate)].filter(
        |p: Seq<char>| p.len() > 0,
    );
    let joined = trimmed(join_chars(parts, "\n\n"@));
    if joined.len() == 0 {
        Seq::<char>::empty()
    } else {
        rendered_lines(split_lines_of(joined))
    }
}

fn render_desc_line_exec(l: &str) -> (r: String)
    ensures
        r@ == render_desc_line(l@),
{
    let t = trim(l);
    if t.as_str().unicode_len() == 0 {
        " .\n".to_owned()
    } else if crate::strutil::str_starts_with(t.as_str(), "- ") {
        let mut s = "  ".to_owned();
        s.append(t.as_str());
        s.append("\n");
        s
    } else {
        let mut s = " ".to_owned();
        s.append(t.as_str());
        s.append("\n");
        s
    }
}

fn desc_body(description: &str, boilerplate: &str) -> (r: String)
    ensures
        r@ == desc_body_chars(description@, boilerplate@),
{
    let d = trim(description);
    let b = trim(boilerplate);
    let ghost pred = |p: Seq<char>| p.len() > 0;
    let mut parts: Vec<String> = Vec::new();
    if d.as_str().unicode_len() > 0 {
        crate::strutil::push_owned(&mut parts, d);
    }
    if b.as_str().unicode_len() > 0 {
        crate::strutil::push_owned(&mut parts, b);
    }
    proof {
        reveal(Seq::filter);
        let dd = trimmed(description@);
        let bb = trimmed(boilerplate@);
        let both = seq![dd, bb];
        let single = seq![dd];
        let none = Seq::<Seq<char>>::empty();
        assert(both.last() == bb);
        assert(both.drop_last() =~= single);
        assert(single.last() == dd);
        assert(single.drop_last() =~= none);
        assert(none.filter(pred) == none);
        assert(single.filter(pred) == (if pred(dd) {
            none.filter(pred).push(dd)
        } else {
            none.filter(pred)
        }));
        assert(both.filter(pred) == (if pred(bb) {
            single.filter(pred).push(bb)
        } else {
            single.filter(pred)
        }));
        if dd.len() > 0 {
            if bb.len() > 0 {
                assert(parts.deep_view() =~= none.push(dd).push(bb));
                assert(both.filter(pred) =~= none.push(dd).push(bb));
            } else {
                assert(parts.deep_view() =~= none.push(dd));
                assert(both.filter(pred) =~= none.push(dd));
            }
        } else {
            if bb.len() > 0 {
                assert(parts.deep_view() =~= none.push(bb));
                assert(both.filter(pred) =~= none.push(bb));
            } else {
                assert(parts.deep_view() =~= none);
                assert(both.filter(pred) =~= none);
            }
        }
        assert(parts.deep_view() == both.filter(pred));
    }
    let joined0 = join_strs(&parts, "\n\n");
    let joined = trim(joined0.as_str());
    if joined.as_str().unicode_len() == 0 {
        String::new()
    } else {
        let lines = split_lines(joined.as_str());
        let n = lines.len();
        let mut out = String::new();
        let mut i: usize = 0;
        proof {
            assert(lines.deep_view().skip(0) =~= lines.deep_view());
        }
        while i < n
            invariant
                i <= n,
                n == lines.len(),
                out@ + rendered_lines(lines.deep_view().skip(i as int)) == rendered_lines(
                    lines.deep_view(),
                ),
            decreases n - i,
        {
            let piece = render_desc_line_exec(lines[i].as_str());
            out.append(piece.as_str());
            proof {
                let dv = lines.deep_view();
                assert(dv.skip(i as int)[0] == dv[i as int]);
                assert(dv.skip(i as int).skip(1) =~= dv.skip(i + 1));
            }
            i = i + 1;
        }
        proof {
            assert(lines.deep_view().skip(n as int).len() == 0);
            assert(out@ + Seq::<char>::empty() =~= out@);
        }
        out
    }
}

impl Package {
    /// The `Description` field: the summary line, then the indented
    /// body built from the free text and the boilerplate.
    pub fn write_description(&self) -> (r: String)
        ensures
            r@ == "Description: "@ + self.summary@ + "\n"@ + desc_body_chars(
                self.description@,
                self.boilerplate@,
            ),
    {
        let mut out = "Description: ".to_owned();
        out.append(self.summary.as_str());
        out.append("\n");
        let body = desc_body(self.description.as_str(), self.boilerplate.as_str());
        out.append(body.as_str());
        out
    }

    /// The text of the whole stanza: the fixed header fields, each
    /// relationship list only when it has entries, and the description.
    pub fn render(&self) -> (r: String)
        ensures
            r@ == package_render_chars(*self),
    {
        let mut out = "Package: ".to_owned();
        out.append(self.name.as_str());
        out.append("\nArchitecture: ");
        out.append(self.arch.as_str());
        out.append("\nMulti-Arch: ");
        out.append(self.multi_arch.as_str());
        out.append("\n");
        match self.section.as_ref() {
            Some(section) => {
                out.append("Section: ");
                out.append(section.as_str());
                out.append("\n");
            },
            None => {},
        }
        let ghost head = out@;
        append_list_field(&mut out, "Depends", &self.depends);
        append_list_field(&mut out, "Recommends", &self.recommended);
        append_list_field(&mut out, "Suggests", &self.suggests);
        append_list_field(&mut out, "Provides", &self.provides);
        let desc = self.write_description();
        out.append(desc.as_str());
        proof {
            assert(out@ == head + list_field_chars("Depends"@, self.depends.deep_view())
                + list_field_chars("Recommends"@, self.recommended.deep_view())
                + list_field_chars("Suggests"@, self.suggests.deep_view())
                + list_field_chars("Provides"@, self.provides.deep_view()) + desc@);
        }
        out
    }
}

/// An optional relationship field: the label, a break, the entries
/// folded with continuation lines; nothing at all when the list is
/// empty.
pub open spec fn list_field_chars(label: Seq<char>, items: Seq<Seq<char>>) -> Seq<char> {
    if items.len() > 0 {
        label + ":\n "@ + join_chars(items, ",\n "@) + "\n"@
    } else {
        Seq::<char>::empty()
    }
}

fn append_list_field(out: &mut String, label: &str, items: &Vec<String>)
    ensures
        final(out)@ == old(out)@ + list_field_chars(label@, items.deep_view()),
{
    if items.len() > 0 {
        out.append(label);
        out.append(":\n ");
        let j = join_strs(items, ",\n ");
        out.append(j.as_str());
        out.append("\n");
    } else {
        proof {
            assert(out@ + Seq::<char>::empty() =~= out@);
        }
    }
}

/// The rendered form of a binary package stanza.
pub open spec fn package_render_chars(p: Package) -> Seq<char> {
    "Package: "@ + p.name@ + "\nArchitecture: "@ + p.arch@ + "\nMulti-Arch: "@ + p.multi_arch@
        + "\n"@ + (match p.section {
        Some(s) => "Section: "@ + s@ + "\n"@,
        None => Seq::<char>::empty(),
    }) + list_field_chars("Depends"@, p.depends.deep_view()) + list_field_chars(
        "Recommends"@,
        p.recommended.deep_view(),
    ) + list_field_chars("Suggests"@, p.suggests.deep_view()) + list_field_chars(
        "Provides"@,
        p.provides.deep_view(),
    ) + "Description: "@ + p.summary@ + "\n"@ + desc_body_chars(p.description@, p.boilerplate@)
}

/// One entry of the integration-test matrix: the feature combination
/// under test, how to activate it, and what the test run needs.
#[derive(Debug, Clone)]
pub struct PkgTest {
    pub package: String,
    pub crate_name: String,
    pub feature: String,
    pub version: String,
    pub args: Vec<String>,
    pub depends: Vec<String>,
    pub restricts: Vec<String>,
}

impl PkgTest {
    /// Records one test of a feature combination for a package.
    pub fn new(
        package: &str,
        crate_name: &str,
        feature: &str,
        version: &str,
        args: Vec<&str>,
        depends: &Vec<String>,
        restricts: Vec<&str>,
    ) -> (r: PkgTest)
        ensures
            r.package@ == package@,
            r.crate_name@ == crate_name@,
            r.feature@ == feature@,
            r.version@ == version@,
            r.args.deep_view() == args.deep_view(),
            r.depends.deep_view() == depends.deep_view(),
            r.restricts.deep_view() == restricts.deep_view(),
    {
        let mut args_owned: Vec<String> = Vec::new();
        let na = args.len();
        let mut i: usize = 0;
        while i < na
            invariant
                i <= na,
                na == args.len(),
                args_owned.deep_view() == args.deep_view().take(i as int),
            decreases na - i,
        {
            crate::strutil::push_owned(&mut args_owned, args[i].to_owned());
            proof {
                assert(args_owned.deep_view() =~= args.deep_view().take(i + 1));
            }
            i = i + 1;
        }
        let mut restricts_owned: Vec<String> = Vec::new();
        let nr = restricts.len();
        let mut j: usize = 0;
        while j < nr
            invariant
                j <= nr,
                nr == restricts.len(),
                restricts_owned.deep_view() == restricts.deep_view().take(j as int),
            decreases nr - j,
        {
            crate::strutil::push_owned(&mut restricts_owned, restricts[j].to_owned());
            proof {
                assert(restricts_owned.deep_view() =~= restricts.deep_view().take(j + 1));
            }
            j = j + 1;
        }
        proof {
            assert(args.deep_view().take(na as int) =~= args.deep_view());
            assert(restricts.deep_view().take(nr as int) =~= restricts.deep_view());
        }
        PkgTest {
            package: package.to_owned(),
            crate_name: crate_name.to_owned(),
            feature: feature.to_owned(),
            version: version.to_owned(),
            args: args_owned,
            depends: crate::strutil::clone_string_vec(depends),
            restricts: restricts_owned,
        }
    }
}

/// Items each preceded by one space.
pub open spec fn spaced_chars(items: Seq<Seq<char>>) -> Seq<char>
    decreases items.len(),
{
    if items.len() == 0 {
        Seq::<char>::empty()
    } else {
        spaced_chars(items.drop_last()) + " "@ + items.last()
    }
}

/// Items each preceded by a comma and a space.
pub open spec fn comma_spaced_chars(items: Seq<Seq<char>>) -> Seq<char>
    decreases items.len(),
{
    if items.len() == 0 {
        Seq::<char>::empty()
    } else {
        comma_spaced_chars(items.drop_last()) + ", "@ + items.last()
    }
}

/// The rendered test stanza: the command with the activation
/// arguments, a name for the run, the dependency list, and the fixed
/// restrictions plus any extra markers.
pub open spec fn pkgtest_render_chars(t: PkgTest) -> Seq<char> {
    "Test-Command: /usr/share/cargo/bin/cargo-auto-test "@ + t.crate_name@ + " "@ + t.version@
        + " --all-targets"@ + spaced_chars(t.args.deep_view()) + "
Features: test-name="@
        + t.package@ + ":"@ + t.feature@ + "
Depends: "@ + join_chars(
        t.depends.deep_view(),
        ", "@,
    ) + "
Restrictions: allow-stderr, skippable"@ + comma_spaced_chars(
        t.restricts.deep_view(),
    ) + "
"@
}

impl PkgTest {
    /// The text of the test stanza.
    pub fn render(&self) -> (r: String)
        ensures
            r@ == pkgtest_render_chars(*self),
    {
        let mut out = "Test-Command: /usr/share/cargo/bin/cargo-auto-test ".to_owned();
        out.append(self.crate_name.as_str());
        out.append(" ");
        out.append(self.version.as_str());
        out.append(" --all-targets");
        let na = self.args.len();
        let mut i: usize = 0;
        let ghost head = out@;
        proof {
            assert(out@ =~= head + spaced_chars(self.args.deep_view().take(0)));
        }
        while i < na
            invariant
                i <= na,
                na == self.args.len(),
                out@ == head + spaced_chars(self.args.deep_view().take(i as int)),
            decreases na - i,
        {
            out.append(" ");
            out.append(self.args[i].as_str());
            proof {
                let av = self.args.deep_view();
                assert(av.take(i + 1).drop_last() =~= av.take(i as int));
                assert(av.take(i + 1).last() == av[i as int]);
            }
            i = i + 1;
        }
        proof {
            assert(self.args.deep_view().take(na as int) =~= self.args.deep_view());
        }
        out.append("
Features: test-name=");
        out.append(self.package.as_str());
        out.append(":");
        out.append(self.feature.as_str());
        out.append("
Depends: ");
        let deps = join_strs(&self.depends, ", ");
        out.append(deps.as_str());
        out.append("
Restrictions: allow-stderr, skippable");
        let nres = self.restricts.len();
        let mut k: usize = 0;
        let ghost head2 = out@;
        proof {
            assert(out@ =~= head2 + comma_spaced_chars(self.restricts.deep_view().take(0)));
        }
        while k < nres
            invariant
                k <= nres,
                nres == self.restricts.len(),
                out@ == head2 + comma_spaced_chars(self.restricts.deep_view().take(k as int)),
            decreases nres - k,
        {
            out.append(", ");
            out.append(self.restricts[k].as_str());
            proof {
                let rv = self.restricts.deep_view();
                assert(rv.take(k + 1).drop_last() =~= rv.take(k as int));
                assert(rv.take(k + 1).last() == rv[k as int]);
            }
            k = k + 1;
        }
        proof {
            assert(self.restricts.deep_view().take(nres as int) =~= self.restricts.deep_view());
        }
        out.append("
");
        out
    }
}

/// Marks a dependency as skippable when tests are not run.
pub fn deb_dep_add_nocheck(dep: &str) -> (r: String)
    ensures
        r@ == dep@ + " <!nocheck>"@,
{
    let mut s = dep.to_owned();
    s.append(" <!nocheck>");
    s
}

/// The author line built from a resolved name and contact.
pub open spec fn author_chars(name: Seq<char>, email: Seq<char>) -> Seq<char> {
    name + " <"@ + email + ">"@
}

/// The remediation guidance a missing-identity error carries.
pub open spec fn identity_hint(e: Error) -> Seq<char> {
    match e {
        Error::MissingIdentity { hint } => hint@,
        Error::BrokenFlagConflict { feature, .. } => feature@,
        Error::MalformedChangelog { text } => text@,
    }
}

/// Determines the author identity from an already-read name and
/// contact; either one missing is fatal, with remediation guidance.
pub fn get_deb_author(name: Option<String>, email: Option<String>) -> (r: Result<String, Error>)
    ensures
        match r {
            Ok(a) => name is Some && email is Some && a@ == author_chars(name->0@, email->0@),
            Err(e) => {
                &&& (name is None || email is None)
                &&& (e matches Error::MissingIdentity { .. })
                &&& identity_hint(e) == (if name is None {
                    ("please set $DEBFULLNAME or $NAME")@
                } else {
                    ("please set $DEBEMAIL or $EMAIL")@
                })
            },
        },
{
    let name = match name {
        Some(n) => n,
        None => {
            return Err(
                Error::MissingIdentity {
                    hint: "please set $DEBFULLNAME or $NAME".to_owned(),
                },
            );
        },
    };
    let email = match email {
        Some(e) => e,
        None => {
            return Err(
                Error::MissingIdentity {
                    hint: "please set $DEBEMAIL or $EMAIL".to_owned(),
                },
            );
        },
    };
    let mut s = name;
    s.append(" <");
    s.append(email.as_str());
    s.append(">");
    Ok(s)
}

} // verus!
