use debcargo::changelog::{
    changelog_first_last, reconcile_changelog, ChangelogEntry, COMMENT_TEAM_UPLOAD, DEFAULT_DIST,
};

fn entry(
    source: &str,
    version: &str,
    dist: &str,
    author: &str,
    date: &str,
    items: &[&str],
) -> ChangelogEntry {
    ChangelogEntry::new(
        source.to_string(),
        version.to_string(),
        dist.to_string(),
        "urgency=medium".to_string(),
        author.to_string(),
        date.to_string(),
        items.iter().map(|s| s.to_string()).collect(),
    )
}

const ALICE: &str = "Alice Example <alice@example.org>";
const BOB: &str = "Bob Builder <bob@example.org>";
const DATE1: &str = "Thu, 02 Jan 2020 10:00:00 +0000";
const DATE2: &str = "Fri, 05 Mar 2021 10:00:00 +0000";

fn uploaders(list: &[&str]) -> Vec<String> {
    list.iter().map(|s| s.to_string()).collect()
}

fn run(data: &str, debian_version: &str, author: &str, ups: &[&str]) -> String {
    reconcile_changelog(
        data,
        "rust-demo",
        debian_version,
        "demo",
        "1.2.3",
        "crates.io",
        "2.6.0",
        author,
        DATE2,
        &uploaders(ups),
    )
    .unwrap()
}

#[test]
fn entry_renders_and_parses_back() {
    let e = entry(
        "rust-demo",
        "1.2.3-1",
        "unstable",
        ALICE,
        DATE1,
        &["  * Initial release."],
    );
    let text = e.render();
    assert_eq!(
        text,
        "rust-demo (1.2.3-1) unstable; urgency=medium\n\n  * Initial release.\n\n -- Alice Example <alice@example.org>  Thu, 02 Jan 2020 10:00:00 +0000\n"
    );
    let lines: Vec<String> = text.split('\n').map(|s| s.to_string()).collect();
    let back = ChangelogEntry::parse_lines(&lines).unwrap();
    assert_eq!(back.source, "rust-demo");
    assert_eq!(back.version, "1.2.3-1");
    assert_eq!(back.distribution, "unstable");
    assert_eq!(back.urgency, "urgency=medium");
    assert_eq!(back.maintainer, ALICE);
    assert_eq!(back.date, DATE1);
    assert_eq!(back.items, vec!["  * Initial release.".to_string()]);
}

#[test]
fn version_parts_split_at_the_last_dash() {
    let e = entry("s", "1.2-rc-3", "unstable", ALICE, DATE1, &[]);
    let (up, suf) = e.version_parts();
    assert_eq!(up, "1.2-rc");
    assert_eq!(suf, "3");
}

#[test]
fn suffix_bump_raises_the_trailing_number() {
    let e = entry("s", "1.2.3-4", "unstable", ALICE, DATE1, &[]);
    assert_eq!(e.deb_version_suffix_bump().unwrap(), "5");
    let e2 = entry("s", "1.2.3-deb10u7", "unstable", ALICE, DATE1, &[]);
    assert_eq!(e2.deb_version_suffix_bump().unwrap(), "deb10u8");
}

#[test]
fn empty_history_gets_a_fresh_entry_with_revision_one() {
    let out = run("", "1.2.3", ALICE, &[ALICE]);
    assert!(out.starts_with("rust-demo (1.2.3-1) UNRELEASED; urgency=medium\n"));
    assert!(out.contains("  * Package demo 1.2.3 from crates.io using debcargo 2.6.0\n"));
    assert!(out.ends_with(&format!(" -- {}  {}\n", ALICE, DATE2)));
}

#[test]
fn same_upstream_version_bumps_the_revision() {
    // previous top entry released with revision 2: the rerun for the
    // same upstream version takes revision 3
    let prev = entry(
        "rust-demo",
        "1.2.3-2",
        "unstable",
        ALICE,
        DATE1,
        &["  * Earlier work."],
    );
    let data = prev.render();
    let out = run(&data, "1.2.3", ALICE, &[ALICE]);
    assert!(out.starts_with("rust-demo (1.2.3-3) UNRELEASED; urgency=medium\n"));
    // the released entry is still there, untouched
    assert!(out.contains("rust-demo (1.2.3-2) unstable; urgency=medium"));
    assert!(out.contains("  * Earlier work."));
}

#[test]
fn different_upstream_version_resets_the_revision() {
    let prev = entry("rust-demo", "1.2.2-5", "unstable", ALICE, DATE1, &["  * Old."]);
    let data = prev.render();
    let out = run(&data, "1.2.3", ALICE, &[ALICE]);
    assert!(out.starts_with("rust-demo (1.2.3-1) UNRELEASED; urgency=medium\n"));
}

#[test]
fn unreleased_entry_of_same_author_replaces_the_generated_item() {
    let prev = entry(
        "rust-demo",
        "1.2.3-1",
        DEFAULT_DIST,
        ALICE,
        DATE1,
        &[
            "  * Package demo 1.2.2 from crates.io using debcargo 2.5.0",
            "  * Hand-written note.",
        ],
    );
    let data = prev.render();
    let out = run(&data, "1.2.3", ALICE, &[ALICE]);
    // replaced in place, not appended
    assert!(out.contains("  * Package demo 1.2.3 from crates.io using debcargo 2.6.0\n"));
    assert!(!out.contains("debcargo 2.5.0"));
    assert!(out.contains("  * Hand-written note."));
    // exactly one generated line
    let count = out
        .lines()
        .filter(|l| l.starts_with("  * Package demo"))
        .count();
    assert_eq!(count, 1);
}

#[test]
fn rerun_on_own_unreleased_entry_is_idempotent() {
    let first = run("", "1.2.3", ALICE, &[ALICE]);
    let second = run(&first, "1.2.3", ALICE, &[ALICE]);
    assert_eq!(first, second);
}

#[test]
fn other_authors_unreleased_items_are_preserved_under_a_heading() {
    // Alice's unreleased entry, rerun by Bob: a new sub-heading for
    // Bob goes above Alice's untouched line-items
    let prev = entry(
        "rust-demo",
        "1.2.3-1",
        DEFAULT_DIST,
        ALICE,
        DATE1,
        &["  * Alice's first change.", "  * Alice's second change."],
    );
    let data = prev.render();
    let out = run(&data, "1.2.3", BOB, &[ALICE, BOB]);
    let item_pos = out
        .find("  * Package demo 1.2.3 from crates.io using debcargo 2.6.0")
        .unwrap();
    let heading_pos = out.find("  [ Alice Example ]").unwrap();
    let alice_first = out.find("  * Alice's first change.").unwrap();
    let alice_second = out.find("  * Alice's second change.").unwrap();
    assert!(item_pos < heading_pos);
    assert!(heading_pos < alice_first);
    assert!(alice_first < alice_second);
    // the merged entry now carries Bob as its author
    assert!(out.contains(&format!(" -- {}  {}", BOB, DATE2)));
}

#[test]
fn outside_author_gets_the_team_upload_marker() {
    let out = run("", "1.2.3", BOB, &[ALICE]);
    let marker_pos = out.find(COMMENT_TEAM_UPLOAD).unwrap();
    let item_pos = out.find("  * Package demo").unwrap();
    assert!(marker_pos < item_pos);
    // a co-maintainer does not get the marker
    let out2 = run("", "1.2.3", ALICE, &[ALICE]);
    assert!(!out2.contains(COMMENT_TEAM_UPLOAD));
}

#[test]
fn malformed_top_entry_is_a_fatal_parse_error() {
    let data = "complete nonsense\nwithout any structure\n -- but a trailer-ish line\n";
    let r = reconcile_changelog(
        data,
        "rust-demo",
        "1.2.3",
        "demo",
        "1.2.3",
        "crates.io",
        "2.6.0",
        ALICE,
        DATE2,
        &uploaders(&[ALICE]),
    );
    let msg = r.unwrap_err().message();
    assert!(msg.contains("malformed changelog entry"));
}

#[test]
fn year_range_comes_from_first_and_last_entries() {
    let newest = entry("rust-demo", "1.2.3-1", "unstable", ALICE, DATE2, &["  * New."]);
    let oldest = entry("rust-demo", "1.0.0-1", "unstable", ALICE, DATE1, &["  * Old."]);
    let data = format!("{}\n{}", newest.render(), oldest.render());
    let (first, last) = changelog_first_last(&data).unwrap();
    assert_eq!(first, 2020);
    assert_eq!(last, 2021);
}

#[test]
fn empty_history_has_no_year_range() {
    let r = changelog_first_last("");
    assert!(r.unwrap_err().message().contains("changelog had no entries"));
}
