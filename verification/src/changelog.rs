//! The change-history reconciler: parses the history file, decides
//! whether to amend the unreleased top entry or prepend a new one,
//! computes the revision bump, and rewrites the content without
//! disturbing older entries.

use vstd::prelude::*;
use crate::errors::Error;
use crate::strutil::{
    dec_str, digits_val, find_last_char, find_sub, first_match, is_dec_digit, join_chars,
    join_strs, match_at, parse_dec, push_owned, split_at_char, split_char_of, split_lines,
    split_lines_of, starts_with, str_eq, str_starts_with, substr, u64_to_dec,
};

verus! {

/// The sentinel distribution of an entry that has not been released;
/// only such an entry may be amended in place.
pub const DEFAULT_DIST: &'static str = "UNRELEASED";

/// The fixed policy annotation inserted when the author is not among
/// the declared co-maintainers.
pub const COMMENT_TEAM_UPLOAD: &'static str = "  * Team upload.";

/// The mathematical shape of one history entry.
#[verifier::ext_equal]
pub struct SpecEntry {
    pub source: Seq<char>,
    pub version: Seq<char>,
    pub distribution: Seq<char>,
    pub urgency: Seq<char>,
    pub maintainer: Seq<char>,
    pub date: Seq<char>,
    pub items: Seq<Seq<char>>,
}

/// One entry of the history file: header fields, the author line,
/// and the ordered text line-items.
#[derive(Debug, Clone)]
pub struct ChangelogEntry {
    pub source: String,
    pub version: String,
    pub distribution: String,
    pub urgency: String,
    pub maintainer: String,
    pub date: String,
    pub items: Vec<String>,
}

impl View for ChangelogEntry {
    type V = SpecEntry;

    open spec fn view(&self) -> SpecEntry {
        SpecEntry {
            source: self.source@,
            version: self.version@,
            distribution: self.distribution@,
            urgency: self.urgency@,
            maintainer: self.maintainer@,
            date: self.date@,
            items: self.items.deep_view(),
        }
    }
}

/// The header fields read from a `source (version) distribution;
/// urgency` line, when the line has that shape.
pub open spec fn parse_header_spec(line: Seq<char>) -> Option<
    (Seq<char>, Seq<char>, Seq<char>, Seq<char>),
> {
    match first_match(line, " ("@, 0) {
        None => None,
        Some(p1) => match first_match(line, ") "@, p1) {
            None => None,
            Some(p2) => match first_match(line, "; "@, p2) {
                None => None,
                Some(p3) => if p1 + 2 <= p2 && p2 + 2 <= p3 && p3 + 2 <= line.len() {
                    Some(
                        (
                            line.take(p1),
                            line.subrange(p1 + 2, p2),
                            line.subrange(p2 + 2, p3),
                            line.skip(p3 + 2),
                        ),
                    )
                } else {
                    None
                },
            },
        },
    }
}

/// Reads the header fields from a header line.
pub fn parse_header(line: &str) -> (r: Option<(String, String, String, String)>)
    ensures
        match r {
            Some(f) => parse_header_spec(line@) == Some((f.0@, f.1@, f.2@, f.3@)),
            None => parse_header_spec(line@) is None,
        },
{
    let n = line.unicode_len();
    let p1 = match find_sub(line, " (", 0) {
        Some(p) => p,
        None => {
            return None;
        },
    };
    let p2 = match find_sub(line, ") ", p1) {
        Some(p) => p,
        None => {
            return None;
        },
    };
    let p3 = match find_sub(line, "; ", p2) {
        Some(p) => p,
        None => {
            return None;
        },
    };
    proof {
        reveal_strlit(" (");
        reveal_strlit(") ");
        reveal_strlit("; ");
        crate::strutil::lemma_first_match_is_match(line@, " ("@, 0);
        crate::strutil::lemma_first_match_is_match(line@, ") "@, p1 as int);
        crate::strutil::lemma_first_match_is_match(line@, "; "@, p2 as int);
    }
    if !(p1 + 2 <= p2 && p2 + 2 <= p3 && p3 + 2 <= n) {
        return None;
    }
    let source = substr(line, 0, p1);
    let version = substr(line, p1 + 2, p2);
    let dist = substr(line, p2 + 2, p3);
    let urgency = substr(line, p3 + 2, n);
    proof {
        assert(line@.take(p1 as int) =~= line@.subrange(0, p1 as int));
        assert(line@.skip(p3 + 2) =~= line@.subrange(p3 + 2, n as int));
    }
    Some((source, version, dist, urgency))
}

/// The author and timestamp read from a trailer line, when the line
/// has that shape.
pub open spec fn parse_trailer_spec(line: Seq<char>) -> Option<(Seq<char>, Seq<char>)> {
    if starts_with(line, " -- "@) {
        match first_match(line, "  "@, 4) {
            Some(q) => if 4 <= q && q + 2 <= line.len() {
                Some((line.subrange(4, q), line.skip(q + 2)))
            } else {
                None
            },
            None => None,
        }
    } else {
        None
    }
}

/// Reads the author and timestamp from a trailer line.
pub fn parse_trailer(line: &str) -> (r: Option<(String, String)>)
    ensures
        match r {
            Some(f) => parse_trailer_spec(line@) == Some((f.0@, f.1@)),
            None => parse_trailer_spec(line@) is None,
        },
{
    if !str_starts_with(line, " -- ") {
        proof {
            reveal_strlit(" -- ");
        }
        return None;
    }
    proof {
        reveal_strlit(" -- ");
    }
    let n = line.unicode_len();
    let q = match find_sub(line, "  ", 4) {
        Some(q) => q,
        None => {
            return None;
        },
    };
    proof {
        reveal_strlit("  ");
        crate::strutil::lemma_first_match_is_match(line@, "  "@, 4);
    }
    if !(q + 2 <= n) {
        return None;
    }
    let maint = substr(line, 4, q);
    let date = substr(line, q + 2, n);
    proof {
        assert(line@.skip(q + 2) =~= line@.subrange(q + 2, n as int));
    }
    Some((maint, date))
}

/// The first trailer line at or after an index.
pub open spec fn first_trailer_idx(lines: Seq<Seq<char>>, from: int) -> Option<int>
    decreases lines.len() - from,
{
    if from < 0 || from >= lines.len() {
        None
    } else if starts_with(lines[from], " -- "@) {
        Some(from)
    } else {
        first_trailer_idx(lines, from + 1)
    }
}

fn find_trailer(lines: &Vec<String>, from: usize) -> (r: Option<usize>)
    ensures
        match r {
            Some(t) => first_trailer_idx(lines.deep_view(), from as int) == Some(t as int) && t
                < lines.len() && from <= t,
            None => first_trailer_idx(lines.deep_view(), from as int) is None,
        },
{
    let n = lines.len();
    let mut i: usize = from;
    while i < n
        invariant
            from <= i,
            n == lines.len(),
            first_trailer_idx(lines.deep_view(), from as int) == first_trailer_idx(
                lines.deep_view(),
                i as int,
            ),
        decreases n - i,
    {
        if str_starts_with(lines[i].as_str(), " -- ") {
            return Some(i);
        }
        i = i + 1;
    }
    None
}

/// Lines without their leading blank ones.
pub open spec fn drop_leading_blanks(ls: Seq<Seq<char>>) -> Seq<Seq<char>>
    decreases ls.len(),
{
    if ls.len() > 0 && ls[0].len() == 0 {
        drop_leading_blanks(ls.skip(1))
    } else {
        ls
    }
}

/// Lines without their trailing blank ones.
pub open spec fn drop_trailing_blanks(ls: Seq<Seq<char>>) -> Seq<Seq<char>>
    decreases ls.len(),
{
    if ls.len() > 0 && ls.last().len() == 0 {
        drop_trailing_blanks(ls.drop_last())
    } else {
        ls
    }
}

/// The entry encoded by the given lines: the header line, the items
/// between the blank separators, and the trailer line.
pub open spec fn parse_entry_spec(lines: Seq<Seq<char>>) -> Option<SpecEntry> {
    if lines.len() == 0 {
        None
    } else {
        match parse_header_spec(lines[0]) {
            None => None,
            Some(h) => match first_trailer_idx(lines, 1) {
                None => None,
                Some(t) => match parse_trailer_spec(lines[t]) {
                    None => None,
                    Some(m) => Some(
                        SpecEntry {
                            source: h.0,
                            version: h.1,
                            distribution: h.2,
                            urgency: h.3,
                            maintainer: m.0,
                            date: m.1,
                            items: drop_trailing_blanks(
                                drop_leading_blanks(lines.subrange(1, t)),
                            ),
                        },
                    ),
                },
            },
        }
    }
}

impl ChangelogEntry {
    /// Builds an entry from its fields.
    pub fn new(
        source: String,
        version: String,
        distribution: String,
        urgency: String,
        maintainer: String,
        date: String,
        items: Vec<String>,
    ) -> (r: ChangelogEntry)
        ensures
            r@ == (SpecEntry {
                source: source@,
                version: version@,
                distribution: distribution@,
                urgency: urgency@,
                maintainer: maintainer@,
                date: date@,
                items: items.deep_view(),
            }),
    {
        ChangelogEntry { source, version, distribution, urgency, maintainer, date, items }
    }

    /// Reads one entry out of its lines; anything not of the entry
    /// shape is a fatal parse error carrying the offending header.
    pub fn parse_lines(lines: &Vec<String>) -> (r: Result<ChangelogEntry, Error>)
        ensures
            match r {
                Ok(e) => parse_entry_spec(lines.deep_view()) == Some(e@),
                Err(er) => parse_entry_spec(lines.deep_view()) is None && (er
                    matches Error::MalformedChangelog { .. }),
            },
    {
        let ghost lv = lines.deep_view();
        if lines.len() == 0 {
            return Err(Error::MalformedChangelog { text: String::new() });
        }
        let h = match parse_header(lines[0].as_str()) {
            Some(h) => h,
            None => {
                return Err(
                    Error::MalformedChangelog { text: lines[0].as_str().to_owned() },
                );
            },
        };
        let t = match find_trailer(lines, 1) {
            Some(t) => t,
            None => {
                return Err(
                    Error::MalformedChangelog { text: lines[0].as_str().to_owned() },
                );
            },
        };
        let m = match parse_trailer(lines[t].as_str()) {
            Some(m) => m,
            None => {
                return Err(
                    Error::MalformedChangelog { text: lines[t].as_str().to_owned() },
                );
            },
        };
        // the item lines sit between the header and the trailer,
        // stripped of the blank separators
        let mut lo: usize = 1;
        let mut hi: usize = t;
        while lo < hi && lines[lo].as_str().unicode_len() == 0
            invariant
                1 <= lo <= hi <= t < lines.len(),
                lv == lines.deep_view(),
                drop_leading_blanks(lv.subrange(1, t as int)) == drop_leading_blanks(
                    lv.subrange(lo as int, hi as int),
                ),
                hi == t,
            decreases hi - lo,
        {
            proof {
                assert(lv.subrange(lo as int, hi as int)[0] == lv[lo as int]);
                assert(lv.subrange(lo as int, hi as int).skip(1) =~= lv.subrange(
                    lo + 1,
                    hi as int,
                ));
            }
            lo = lo + 1;
        }
        proof {
            if lo < hi {
                assert(lv.subrange(lo as int, hi as int)[0] == lv[lo as int]);
                assert(lv.subrange(lo as int, hi as int)[0].len() > 0);
            }
            assert(drop_leading_blanks(lv.subrange(lo as int, hi as int)) == lv.subrange(
                lo as int,
                hi as int,
            ));
        }
        while hi > lo && lines[hi - 1].as_str().unicode_len() == 0
            invariant
                1 <= lo <= hi <= t < lines.len(),
                lv == lines.deep_view(),
                drop_leading_blanks(lv.subrange(1, t as int)) == lv.subrange(
                    lo as int,
                    t as int,
                ),
                drop_trailing_blanks(lv.subrange(lo as int, t as int)) == drop_trailing_blanks(
                    lv.subrange(lo as int, hi as int),
                ),
            decreases hi,
        {
            proof {
                assert(lv.subrange(lo as int, hi as int).last() == lv[hi - 1]);
                assert(lv.subrange(lo as int, hi as int).drop_last() =~= lv.subrange(
                    lo as int,
                    hi - 1,
                ));
            }
            hi = hi - 1;
        }
        proof {
            if hi > lo {
                assert(lv.subrange(lo as int, hi as int).last() == lv[hi - 1]);
                assert(lv.subrange(lo as int, hi as int).last().len() > 0);
            }
            assert(drop_trailing_blanks(lv.subrange(lo as int, hi as int)) == lv.subrange(
                lo as int,
                hi as int,
            ));
        }
        let mut items: Vec<String> = Vec::new();
        let mut k: usize = lo;
        proof {
            assert(items.deep_view() =~= lv.subrange(lo as int, lo as int));
        }
        while k < hi
            invariant
                lo <= k <= hi <= t < lines.len(),
                lv == lines.deep_view(),
                items.deep_view() == lv.subrange(lo as int, k as int),
            decreases hi - k,
        {
            push_owned(&mut items, lines[k].as_str().to_owned());
            proof {
                assert(items.deep_view() =~= lv.subrange(lo as int, k + 1));
            }
            k = k + 1;
        }
        let e = ChangelogEntry {
            source: h.0,
            version: h.1,
            distribution: h.2,
            urgency: h.3,
            maintainer: m.0,
            date: m.1,
            items,
        };
        proof {
            assert(e@ =~= parse_entry_spec(lv)->0);
        }
        Ok(e)
    }

    /// The rendered text of the entry: the header line, a blank line,
    /// the items, a blank line, and the trailer, newline-terminated.
    pub fn render(&self) -> (r: String)
        ensures
            r@ == render_chars(self@),
    {
        let mut out = self.source.as_str().to_owned();
        out.append(" (");
        out.append(self.version.as_str());
        out.append(") ");
        out.append(self.distribution.as_str());
        out.append("; ");
        out.append(self.urgency.as_str());
        out.append("\n\n");
        let body = join_strs(&self.items, "\n");
        out.append(body.as_str());
        out.append("\n\n -- ");
        out.append(self.maintainer.as_str());
        out.append("  ");
        out.append(self.date.as_str());
        out.append("\n");
        out
    }

    /// The upstream component and the revision suffix of the
    /// recorded version, split at the last dash.
    pub fn version_parts(&self) -> (r: (String, String))
        ensures
            (r.0@, r.1@) == version_parts_spec(self@.version),
    {
        match find_last_char(self.version.as_str(), '-') {
            Some(i) => {
                proof {
                    crate::strutil::lemma_last_index_props(self.version@, '-');
                }
                let n = self.version.as_str().unicode_len();
                let up = substr(self.version.as_str(), 0, i);
                let suf = substr(self.version.as_str(), i + 1, n);
                proof {
                    assert(self.version@.take(i as int) =~= self.version@.subrange(0, i as int));
                    assert(self.version@.skip(i + 1) =~= self.version@.subrange(
                        i + 1,
                        n as int,
                    ));
                }
                (up, suf)
            },
            None => {
                let whole = self.version.as_str().to_owned();
                (whole, String::new())
            },
        }
    }

    /// The revision suffix with its trailing number raised by one; a
    /// suffix without digits counts as zero. Fails only when the
    /// number no longer fits in a machine word.
    pub fn deb_version_suffix_bump(&self) -> (r: Option<String>)
        ensures
            match r {
                Some(s) => bump_spec(self@.version) == Some(s@),
                None => bump_spec(self@.version) is None,
            },
    {
        let parts = self.version_parts();
        let suf = parts.1;
        let n = suf.as_str().unicode_len();
        let mut k: usize = n;
        proof {
            assert(suf@.take(n as int) =~= suf@);
        }
        while k > 0 && is_digit_at(suf.as_str(), k - 1)
            invariant
                k <= n,
                n == suf@.len(),
                trailing_digits_start(suf@) == trailing_digits_start(suf@.take(k as int)),
                forall|j: int| k <= j < n ==> is_dec_digit(#[trigger] suf@[j]),
            decreases k,
        {
            proof {
                assert(suf@.take(k as int).last() == suf@[k - 1]);
                assert(suf@.take(k as int).drop_last() =~= suf@.take(k - 1));
            }
            k = k - 1;
        }
        proof {
            if k > 0 {
                assert(suf@.take(k as int).last() == suf@[k - 1]);
            }
            assert(trailing_digits_start(suf@.take(k as int)) == k as int);
            assert(trailing_digits_start(suf@) == k as int);
        }
        let prefix = substr(suf.as_str(), 0, k);
        let run = substr(suf.as_str(), k, n);
        proof {
            assert(run@ =~= suf@.skip(k as int));
            assert(prefix@ =~= suf@.take(k as int));
        }
        let value: u64 = if k == n {
            proof {
                assert(run@.len() == 0);
                assert(digits_val(run@) == 0);
            }
            0
        } else {
            match parse_dec(run.as_str()) {
                Some(v) => v,
                None => {
                    proof {
                        assert(run@.len() > 0);
                        assert(forall|j: int| 0 <= j < run@.len() ==> is_dec_digit(
                            #[trigger] run@[j],
                        )) by {
                            assert(forall|j: int|
                                k <= j < n ==> is_dec_digit(#[trigger] suf@[j]));
                        }
                        assert(digits_val(run@) > u64::MAX);
                    }
                    return None;
                },
            }
        };
        if value == u64::MAX {
            return None;
        }
        let mut out = prefix;
        let num = u64_to_dec(value + 1);
        out.append(num.as_str());
        Some(out)
    }

    /// The plain name in the author line: everything before the
    /// contact.
    pub fn maintainer_name(&self) -> (r: String)
        ensures
            r@ == maintainer_name_spec(self@.maintainer),
    {
        match find_sub(self.maintainer.as_str(), " <", 0) {
            Some(i) => {
                proof {
                    reveal_strlit(" <");
                    crate::strutil::lemma_first_match_is_match(self.maintainer@, " <"@, 0);
                }
                let r = substr(self.maintainer.as_str(), 0, i);
                proof {
                    assert(self.maintainer@.take(i as int) =~= self.maintainer@.subrange(
                        0,
                        i as int,
                    ));
                }
                r
            },
            None => self.maintainer.as_str().to_owned(),
        }
    }
}

fn is_digit_at(s: &str, i: usize) -> (r: bool)
    requires
        i < s@.len(),
    ensures
        r == is_dec_digit(s@[i as int]),
{
    let c = s.get_char(i);
    c == '0' || c == '1' || c == '2' || c == '3' || c == '4' || c == '5' || c == '6' || c == '7'
        || c == '8' || c == '9'
}

/// The rendered text of an entry.
pub open spec fn render_chars(e: SpecEntry) -> Seq<char> {
    e.source + " ("@ + e.version + ") "@ + e.distribution + "; "@ + e.urgency + "\n\n"@
        + join_chars(e.items, "\n"@) + "\n\n -- "@ + e.maintainer + "  "@ + e.date + "\n"@
}

/// A version split at its last dash into upstream part and revision
/// suffix; without a dash the suffix is empty.
pub open spec fn version_parts_spec(v: Seq<char>) -> (Seq<char>, Seq<char>) {
    match crate::strutil::last_index_of(v, '-') {
        Some(i) => (v.take(i), v.skip(i + 1)),
        None => (v, Seq::<char>::empty()),
    }
}

/// Where the trailing digit run of a suffix begins.
pub open spec fn trailing_digits_start(s: Seq<char>) -> int
    decreases s.len(),
{
    if s.len() > 0 && is_dec_digit(s.last()) {
        trailing_digits_start(s.drop_last())
    } else {
        s.len() as int
    }
}

/// The revision suffix of a version with its trailing number raised
/// by one; an absent number counts as zero, and a number that would
/// overflow gives nothing.
pub open spec fn bump_spec(version: Seq<char>) -> Option<Seq<char>> {
    let suf = version_parts_spec(version).1;
    let k = trailing_digits_start(suf);
    let value = digits_val(suf.skip(k));
    if value < u64::MAX {
        Some(suf.take(k) + dec_str((value + 1) as u64))
    } else {
        None
    }
}

/// The name part of an author line.
pub open spec fn maintainer_name_spec(m: Seq<char>) -> Seq<char> {
    match first_match(m, " <"@, 0) {
        Some(i) => m.take(i),
        None => m,
    }
}

/// The middle of an autogenerated line-item: the origin and the tool.
pub open spec fn autogen_needle(src: Seq<char>) -> Seq<char> {
    " from "@ + src + " using debcargo "@
}

/// Whether a line-item is an autogenerated one for the given origin:
/// the fixed lead-in, a crate name and version with a space between,
/// the origin, the tool, and its version.
pub open spec fn is_autogen_item(line: Seq<char>, src: Seq<char>) -> bool {
    starts_with(line, "  * Package "@) && (exists|p: int, q: int|
        12 <= q < p && #[trigger] line[q] == ' ' && #[trigger] match_at(
            line,
            autogen_needle(src),
            p,
        ))
}

/// Whether a line-item matches the autogenerated pattern for the
/// given origin.
pub fn autogen_item_matches(line: &str, src: &str) -> (r: bool)
    ensures
        r == is_autogen_item(line@, src@),
{
    proof {
        reveal_strlit("  * Package ");
        reveal_strlit(" ");
        reveal_strlit(" from ");
        reveal_strlit(" using debcargo ");
    }
    if !str_starts_with(line, "  * Package ") {
        return false;
    }
    let mut needle = " from ".to_owned();
    needle.append(src);
    needle.append(" using debcargo ");
    proof {
        assert(needle@ == autogen_needle(src@));
    }
    let q0 = match find_sub(line, " ", 12) {
        Some(q) => q,
        None => {
            proof {
                reveal_strlit(" ");
                if is_autogen_item(line@, src@) {
                    let (p, q) = choose|p: int, q: int|
                        12 <= q < p && #[trigger] line@[q] == ' ' && #[trigger] match_at(
                            line@,
                            autogen_needle(src@),
                            p,
                        );
                    assert(line@.subrange(q, q + 1) =~= " "@);
                    assert(match_at(line@, " "@, q));
                    crate::strutil::lemma_first_match_exists(line@, " "@, 12, q);
                    assert(false);
                }
            }
            return false;
        },
    };
    proof {
        reveal_strlit(" ");
        crate::strutil::lemma_first_match_is_match(line@, " "@, 12);
        assert((" ")@.len() == 1);
        assert(q0 + 1 <= line@.len());
    }
    let nn = line.unicode_len();
    proof {
        assert(q0 < nn);
    }
    match find_sub(line, needle.as_str(), q0 + 1) {
        Some(p) => {
            proof {
                reveal_strlit(" ");
                crate::strutil::lemma_first_match_is_match(line@, needle@, q0 + 1);
                let pp = first_match(line@, needle@, q0 + 1)->0;
                assert(match_at(line@, " "@, q0 as int));
                assert(line@.subrange(q0 as int, q0 + 1) == " "@);
                assert(line@[q0 as int] == line@.subrange(q0 as int, q0 + 1)[0]);
                assert(line@[q0 as int] == ' ');
                assert(12 <= q0 < pp && line@[q0 as int] == ' ' && match_at(
                    line@,
                    autogen_needle(src@),
                    pp,
                ));
            }
            true
        },
        None => {
            proof {
                reveal_strlit(" ");
                if is_autogen_item(line@, src@) {
                    let (p, q) = choose|p: int, q: int|
                        12 <= q < p && #[trigger] line@[q] == ' ' && #[trigger] match_at(
                            line@,
                            autogen_needle(src@),
                            p,
                        );
                    assert(line@.subrange(q, q + 1) =~= " "@);
                    assert(match_at(line@, " "@, q));
                    if q < q0 {
                        crate::strutil::lemma_first_match_min(line@, " "@, 12, q);
                        assert(false);
                    }
                    assert(q0 <= q);
                    assert(q0 + 1 <= p);
                    crate::strutil::lemma_first_match_exists(
                        line@,
                        autogen_needle(src@),
                        q0 + 1,
                        p,
                    );
                    assert(false);
                }
            }
            false
        },
    }
}

/// The first autogenerated item in a list, if any.
pub open spec fn first_autogen_idx(items: Seq<Seq<char>>, src: Seq<char>, from: int) -> Option<
    int,
>
    decreases items.len() - from,
{
    if from < 0 || from >= items.len() {
        None
    } else if is_autogen_item(items[from], src) {
        Some(from)
    } else {
        first_autogen_idx(items, src, from + 1)
    }
}

/// The autogenerated line-item recording this run.
pub open spec fn autogen_item_chars(
    crate_name: Seq<char>,
    crate_version: Seq<char>,
    crate_src: Seq<char>,
    debcargo_version: Seq<char>,
) -> Seq<char> {
    "  * Package "@ + crate_name + " "@ + crate_version + " from "@ + crate_src
        + " using debcargo "@ + debcargo_version
}

/// The index of the first non-blank line at or after `i`.
pub open spec fn skip_blank_lines(lines: Seq<Seq<char>>, i: int) -> int
    decreases lines.len() - i,
{
    if 0 <= i < lines.len() && lines[i].len() == 0 {
        skip_blank_lines(lines, i + 1)
    } else {
        i
    }
}

/// The items after an amendment by the same author: the first
/// autogenerated item is replaced in place, or the new one appended.
pub open spec fn amended_items_same(
    items: Seq<Seq<char>>,
    item: Seq<char>,
    src: Seq<char>,
) -> Seq<Seq<char>> {
    match first_autogen_idx(items, src, 0) {
        Some(i) => items.update(i, item),
        None => items.push(item),
    }
}

/// The items when another author's unreleased entry is preserved: the
/// new item and a named sub-heading go before their untouched items.
pub open spec fn amended_items_other(
    items: Seq<Seq<char>>,
    item: Seq<char>,
    maintainer: Seq<char>,
) -> Seq<Seq<char>> {
    seq![item, Seq::<char>::empty(), "  [ "@ + maintainer_name_spec(maintainer) + " ]"@] + items
}

/// The fixed team-upload marker goes first when the author is not a
/// declared co-maintainer and it is not already present.
pub open spec fn with_team_marker(
    items: Seq<Seq<char>>,
    author: Seq<char>,
    uploaders: Seq<Seq<char>>,
) -> Seq<Seq<char>> {
    if uploaders.contains(author) || items.contains("  * Team upload."@) {
        items
    } else {
        seq!["  * Team upload."@] + items
    }
}

/// The revision decision from the previous top entry: the bumped
/// suffix when the upstream version is unchanged, nothing when it
/// differs or there was no entry; the outer `None` is the bump
/// overflowing.
pub open spec fn ver_bump_spec(prev: Option<SpecEntry>, dv: Seq<char>) -> Option<
    Option<Seq<char>>,
> {
    match prev {
        None => Some(None),
        Some(e) => if version_parts_spec(e.version).0 == dv {
            match bump_spec(e.version) {
                Some(b) => Some(Some(b)),
                None => None,
            }
        } else {
            Some(None)
        },
    }
}

/// The full downstream version of the new entry.
pub open spec fn new_version_chars(dv: Seq<char>, suffix: Option<Seq<char>>) -> Seq<char> {
    dv + "-"@ + (match suffix {
        Some(s) => s,
        None => "1"@,
    })
}

/// The new unreleased entry.
pub open spec fn new_entry_spec(
    source_name: Seq<char>,
    version: Seq<char>,
    author: Seq<char>,
    date: Seq<char>,
    items: Seq<Seq<char>>,
) -> SpecEntry {
    SpecEntry {
        source: source_name,
        version,
        distribution: "UNRELEASED"@,
        urgency: "urgency=medium"@,
        maintainer: author,
        date,
        items,
    }
}

/// The rewritten file: the new entry, and the untouched older text
/// behind one blank line.
pub open spec fn assembled(ne: SpecEntry, old_text: Seq<char>) -> Seq<char> {
    if old_text.len() == 0 {
        render_chars(ne)
    } else {
        render_chars(ne) + "\n"@ + old_text
    }
}

/// The whole reconciliation decision, as a function of the old file
/// text and the run's inputs; `None` is a fatal parse error.
pub open spec fn reconcile_spec(
    data: Seq<char>,
    source_name: Seq<char>,
    dv: Seq<char>,
    crate_name: Seq<char>,
    crate_version: Seq<char>,
    crate_src: Seq<char>,
    debcargo_version: Seq<char>,
    author: Seq<char>,
    date_now: Seq<char>,
    uploaders: Seq<Seq<char>>,
) -> Option<Seq<char>> {
    let lines = split_lines_of(data);
    let item = autogen_item_chars(crate_name, crate_version, crate_src, debcargo_version);
    match first_trailer_idx(lines, 0) {
        None => {
            let items = with_team_marker(seq![item], author, uploaders);
            let ne = new_entry_spec(
                source_name,
                new_version_chars(dv, None),
                author,
                date_now,
                items,
            );
            Some(assembled(ne, data))
        },
        Some(t0) => match parse_entry_spec(lines.take(t0 + 1)) {
            None => None,
            Some(e1) => if e1.distribution == "UNRELEASED"@ {
                let base = if author == e1.maintainer {
                    amended_items_same(e1.items, item, crate_src)
                } else {
                    amended_items_other(e1.items, item, e1.maintainer)
                };
                let rs = skip_blank_lines(lines, t0 + 1);
                let rest = if rs >= lines.len() {
                    Seq::<char>::empty()
                } else {
                    join_chars(lines.skip(rs), "\n"@)
                };
                match first_trailer_idx(lines, rs) {
                    None => {
                        let items = with_team_marker(base, author, uploaders);
                        let ne = new_entry_spec(
                            source_name,
                            new_version_chars(dv, None),
                            author,
                            date_now,
                            items,
                        );
                        Some(assembled(ne, rest))
                    },
                    Some(t1) => match parse_entry_spec(lines.subrange(rs, t1 + 1)) {
                        None => None,
                        Some(e2) => match ver_bump_spec(Some(e2), dv) {
                            None => None,
                            Some(suf) => {
                                let items = with_team_marker(base, author, uploaders);
                                let ne = new_entry_spec(
                                    source_name,
                                    new_version_chars(dv, suf),
                                    author,
                                    date_now,
                                    items,
                                );
                                Some(assembled(ne, rest))
                            },
                        },
                    },
                }
            } else {
                match ver_bump_spec(Some(e1), dv) {
                    None => None,
                    Some(suf) => {
                        let items = with_team_marker(seq![item], author, uploaders);
                        let ne = new_entry_spec(
                            source_name,
                            new_version_chars(dv, suf),
                            author,
                            date_now,
                            items,
                        );
                        Some(assembled(ne, data))
                    },
                }
            },
        },
    }
}

fn sub_lines(lines: &Vec<String>, from: usize, to: usize) -> (r: Vec<String>)
    requires
        from <= to <= lines.len(),
    ensures
        r.deep_view() == lines.deep_view().subrange(from as int, to as int),
{
    let mut r: Vec<String> = Vec::new();
    let mut i: usize = from;
    proof {
        assert(r.deep_view() =~= lines.deep_view().subrange(from as int, from as int));
    }
    while i < to
        invariant
            from <= i <= to <= lines.len(),
            r.deep_view() == lines.deep_view().subrange(from as int, i as int),
        decreases to - i,
    {
        push_owned(&mut r, lines[i].as_str().to_owned());
        proof {
            assert(r.deep_view() =~= lines.deep_view().subrange(from as int, i + 1));
        }
        i = i + 1;
    }
    r
}

fn build_autogen_item(
    crate_name: &str,
    crate_version: &str,
    crate_src: &str,
    debcargo_version: &str,
) -> (r: String)
    ensures
        r@ == autogen_item_chars(crate_name@, crate_version@, crate_src@, debcargo_version@),
{
    let mut s = "  * Package ".to_owned();
    s.append(crate_name);
    s.append(" ");
    s.append(crate_version);
    s.append(" from ");
    s.append(crate_src);
    s.append(" using debcargo ");
    s.append(debcargo_version);
    s
}

fn apply_team_marker(items: Vec<String>, author: &str, uploaders: &Vec<String>) -> (r: Vec<
    String,
>)
    ensures
        r.deep_view() == with_team_marker(items.deep_view(), author@, uploaders.deep_view()),
{
    let in_uploaders = crate::feature_graph::string_vec_contains(uploaders, author);
    let has_marker = crate::feature_graph::string_vec_contains(&items, "  * Team upload.");
    if in_uploaders || has_marker {
        items
    } else {
        let mut r: Vec<String> = Vec::new();
        push_owned(&mut r, "  * Team upload.".to_owned());
        let n = items.len();
        let mut i: usize = 0;
        proof {
            assert(r.deep_view() =~= seq![("  * Team upload.")@] + items.deep_view().take(0));
        }
        while i < n
            invariant
                i <= n,
                n == items.len(),
                r.deep_view() == seq![("  * Team upload.")@] + items.deep_view().take(i as int),
            decreases n - i,
        {
            push_owned(&mut r, items[i].as_str().to_owned());
            proof {
                assert(r.deep_view() =~= seq![("  * Team upload.")@] + items.deep_view().take(
                    i + 1,
                ));
            }
            i = i + 1;
        }
        proof {
            assert(items.deep_view().take(n as int) =~= items.deep_view());
        }
        r
    }
}

/// Merges the run's autogenerated entry into the history: an
/// unreleased top entry is amended (the author's own autogenerated
/// item replaced, or another author's items preserved under a new
/// sub-heading), anything else gets a fresh entry with the computed
/// revision in front; older text is kept byte for byte.
pub fn reconcile_changelog(
    data: &str,
    source_name: &str,
    debian_version: &str,
    crate_name: &str,
    crate_version: &str,
    crate_src: &str,
    debcargo_version: &str,
    author: &str,
    date_now: &str,
    uploaders: &Vec<String>,
) -> (r: Result<String, Error>)
    ensures
        match r {
            Ok(out) => reconcile_spec(
                data@,
                source_name@,
                debian_version@,
                crate_name@,
                crate_version@,
                crate_src@,
                debcargo_version@,
                author@,
                date_now@,
                uploaders.deep_view(),
            ) == Some(out@),
            Err(e) => reconcile_spec(
                data@,
                source_name@,
                debian_version@,
                crate_name@,
                crate_version@,
                crate_src@,
                debcargo_version@,
                author@,
                date_now@,
                uploaders.deep_view(),
            ) is None && (e matches Error::MalformedChangelog { .. }),
        },
{
    let ghost dv = data@;
    let lines = split_lines(data);
    let ghost lv = lines.deep_view();
    let item = build_autogen_item(crate_name, crate_version, crate_src, debcargo_version);
    let t0 = match find_trailer(&lines, 0) {
        None => {
            // no prior entry at all: prepend a fresh one over the raw text
            let mut items: Vec<String> = Vec::new();
            push_owned(&mut items, item.as_str().to_owned());
            proof {
                assert(items.deep_view() =~= seq![autogen_item_chars(
                    crate_name@,
                    crate_version@,
                    crate_src@,
                    debcargo_version@,
                )]);
            }
            let items = apply_team_marker(items, author, uploaders);
            let out = assemble_output(
                source_name,
                debian_version,
                None,
                author,
                date_now,
                items,
                data,
            );
            return Ok(out);
        },
        Some(t) => t,
    };
    let head_lines = sub_lines(&lines, 0, t0 + 1);
    proof {
        assert(head_lines.deep_view() =~= lv.take(t0 + 1));
    }
    let e1 = match ChangelogEntry::parse_lines(&head_lines) {
        Ok(e) => e,
        Err(er) => {
            return Err(er);
        },
    };
    if str_eq(e1.distribution.as_str(), "UNRELEASED") {
        // amend the unreleased top entry
        let base: Vec<String> = if str_eq(author, e1.maintainer.as_str()) {
            match find_autogen(&e1.items, crate_src) {
                Some(pos) => {
                    let mut updated = crate::strutil::clone_string_vec(&e1.items);
                    updated.set(pos, item.as_str().to_owned());
                    proof {
                        assert(updated.deep_view() =~= e1.items.deep_view().update(
                            pos as int,
                            item@,
                        ));
                    }
                    updated
                },
                None => {
                    let mut appended = crate::strutil::clone_string_vec(&e1.items);
                    push_owned(&mut appended, item.as_str().to_owned());
                    appended
                },
            }
        } else {
            let mut pre: Vec<String> = Vec::new();
            push_owned(&mut pre, item.as_str().to_owned());
            push_owned(&mut pre, String::new());
            let mut heading = "  [ ".to_owned();
            let name = e1.maintainer_name();
            heading.append(name.as_str());
            heading.append(" ]");
            push_owned(&mut pre, heading);
            let n = e1.items.len();
            let mut i: usize = 0;
            let ghost pre3 = pre.deep_view();
            proof {
                assert(pre.deep_view() =~= pre3 + e1.items.deep_view().take(0));
            }
            while i < n
                invariant
                    i <= n,
                    n == e1.items.len(),
                    pre.deep_view() == pre3 + e1.items.deep_view().take(i as int),
                decreases n - i,
            {
                push_owned(&mut pre, e1.items[i].as_str().to_owned());
                proof {
                    assert(pre.deep_view() =~= pre3 + e1.items.deep_view().take(i + 1));
                }
                i = i + 1;
            }
            proof {
                assert(e1.items.deep_view().take(n as int) =~= e1.items.deep_view());
                assert(pre3 =~= seq![item@, Seq::<char>::empty(), "  [ "@ + maintainer_name_spec(
                    e1@.maintainer,
                ) + " ]"@]);
            }
            pre
        };
        // the rest of the file begins at the next non-blank line
        let mut rs: usize = t0 + 1;
        let nl = lines.len();
        while rs < nl && lines[rs].as_str().unicode_len() == 0
            invariant
                t0 + 1 <= rs <= nl,
                nl == lines.len(),
                lv == lines.deep_view(),
                skip_blank_lines(lv, t0 + 1) == skip_blank_lines(lv, rs as int),
            decreases nl - rs,
        {
            rs = rs + 1;
        }
        proof {
            assert(skip_blank_lines(lv, rs as int) == rs as int);
        }
        let rest: String = if rs >= nl {
            String::new()
        } else {
            let tail = sub_lines(&lines, rs, nl);
            proof {
                assert(tail.deep_view() =~= lv.skip(rs as int));
            }
            join_strs(&tail, "\n")
        };
        let suffix: Option<String> = match find_trailer(&lines, rs) {
            None => None,
            Some(t1) => {
                let second_lines = sub_lines(&lines, rs, t1 + 1);
                proof {
                    assert(second_lines.deep_view() =~= lv.subrange(rs as int, t1 + 1));
                }
                let e2 = match ChangelogEntry::parse_lines(&second_lines) {
                    Ok(e) => e,
                    Err(er) => {
                        return Err(er);
                    },
                };
                let parts = e2.version_parts();
                if str_eq(parts.0.as_str(), debian_version) {
                    match e2.deb_version_suffix_bump() {
                        Some(b) => Some(b),
                        None => {
                            return Err(
                                Error::MalformedChangelog {
                                    text: e2.version.as_str().to_owned(),
                                },
                            );
                        },
                    }
                } else {
                    None
                }
            },
        };
        let items = apply_team_marker(base, author, uploaders);
        let out = assemble_output(
            source_name,
            debian_version,
            suffix,
            author,
            date_now,
            items,
            rest.as_str(),
        );
        Ok(out)
    } else {
        // top entry already released: prepend a new one
        let parts = e1.version_parts();
        let suffix: Option<String> = if str_eq(parts.0.as_str(), debian_version) {
            match e1.deb_version_suffix_bump() {
                Some(b) => Some(b),
                None => {
                    return Err(
                        Error::MalformedChangelog { text: e1.version.as_str().to_owned() },
                    );
                },
            }
        } else {
            None
        };
        let mut items: Vec<String> = Vec::new();
        push_owned(&mut items, item.as_str().to_owned());
        proof {
            assert(items.deep_view() =~= seq![item@]);
        }
        let items = apply_team_marker(items, author, uploaders);
        let out = assemble_output(
            source_name,
            debian_version,
            suffix,
            author,
            date_now,
            items,
            data,
        );
        Ok(out)
    }
}

fn assemble_output(
    source_name: &str,
    debian_version: &str,
    suffix: Option<String>,
    author: &str,
    date_now: &str,
    items: Vec<String>,
    old_text: &str,
) -> (r: String)
    ensures
        r@ == assembled(
            new_entry_spec(
                source_name@,
                new_version_chars(
                    debian_version@,
                    match suffix {
                        Some(s) => Some(s@),
                        None => None,
                    },
                ),
                author@,
                date_now@,
                items.deep_view(),
            ),
            old_text@,
        ),
{
    let mut version = debian_version.to_owned();
    version.append("-");
    match &suffix {
        Some(s) => version.append(s.as_str()),
        None => version.append("1"),
    }
    let ne = ChangelogEntry {
        source: source_name.to_owned(),
        version,
        distribution: "UNRELEASED".to_owned(),
        urgency: "urgency=medium".to_owned(),
        maintainer: author.to_owned(),
        date: date_now.to_owned(),
        items,
    };
    let mut out = ne.render();
    if old_text.unicode_len() > 0 {
        out.append("\n");
        out.append(old_text);
    }
    out
}

/// The year recorded in a trailer line, read from the fourth token of
/// its timestamp.
pub open spec fn year_of_trailer(line: Seq<char>) -> Option<int> {
    match parse_trailer_spec(line) {
        None => None,
        Some(m) => {
            let toks = split_char_of(m.1, ' ');
            if toks.len() >= 4 && toks[3].len() > 0 && (forall|j: int|
                0 <= j < toks[3].len() ==> is_dec_digit(#[trigger] toks[3][j])) && digits_val(
                toks[3],
            ) <= 0x7fffffff {
                Some(digits_val(toks[3]) as int)
            } else {
                None
            }
        },
    }
}

fn trailer_year(line: &str) -> (r: Option<i32>)
    ensures
        match r {
            Some(y) => year_of_trailer(line@) == Some(y as int),
            None => year_of_trailer(line@) is None,
        },
{
    let m = match parse_trailer(line) {
        Some(m) => m,
        None => {
            return None;
        },
    };
    let toks = split_at_char(m.1.as_str(), ' ');
    if toks.len() < 4 {
        return None;
    }
    let tok = &toks[3];
    proof {
        assert(toks.deep_view()[3] == tok@);
    }
    if tok.as_str().unicode_len() == 0 {
        return None;
    }
    match parse_dec(tok.as_str()) {
        None => {
            proof {
                if year_of_trailer(line@) is Some {
                    assert(digits_val(tok@) <= 0x7fffffff);
                    assert(digits_val(tok@) <= u64::MAX);
                }
            }
            None
        },
        Some(v) => if v <= 0x7fffffff {
            Some(v as i32)
        } else {
            None
        },
    }
}

/// Whether a line is an entry trailer.
pub open spec fn is_trailer_line(l: Seq<char>) -> bool {
    starts_with(l, " -- "@)
}

/// The trailer lines of the file, newest first.
pub open spec fn trailer_lines(lines: Seq<Seq<char>>) -> Seq<Seq<char>> {
    lines.filter(|l: Seq<char>| is_trailer_line(l))
}

/// The year range of the history: the year of the oldest entry and
/// the year of the newest. A history without entries, or one whose
/// timestamps cannot be read, is a fatal parse error.
pub fn changelog_first_last(data: &str) -> (r: Result<(i32, i32), Error>)
    ensures
        match r {
            Ok(y) => {
                let ts = trailer_lines(split_lines_of(data@));
                &&& ts.len() >= 1
                &&& year_of_trailer(ts[ts.len() - 1]) == Some(y.0 as int)
                &&& year_of_trailer(ts[0]) == Some(y.1 as int)
            },
            Err(e) => {
                let ts = trailer_lines(split_lines_of(data@));
                (ts.len() == 0 || (exists|t: int|
                    0 <= t < ts.len() && year_of_trailer(#[trigger] ts[t]) is None)) && (e
                    matches Error::MalformedChangelog { .. })
            },
        },
{
    let lines = split_lines(data);
    let ghost lv = lines.deep_view();
    let mut years: Vec<i32> = Vec::new();
    let n = lines.len();
    let mut i: usize = 0;
    proof {
        reveal(Seq::filter);
        assert(lv.take(0) =~= Seq::<Seq<char>>::empty());
        assert(trailer_lines(lv.take(0)).len() == 0);
    }
    while i < n
        invariant
            i <= n,
            n == lines.len(),
            lv == lines.deep_view(),
            lv == split_lines_of(data@),
            years@.len() == trailer_lines(lv.take(i as int)).len(),
            forall|t: int|
                0 <= t < years@.len() ==> year_of_trailer(
                    #[trigger] trailer_lines(lv.take(i as int))[t],
                ) == Some(years@[t] as int),
        decreases n - i,
    {
        proof {
            reveal(Seq::filter);
            assert(lv.take(i + 1).drop_last() =~= lv.take(i as int));
            assert(lv.take(i + 1).last() == lv[i as int]);
        }
        if str_starts_with(lines[i].as_str(), " -- ") {
            let y = match trailer_year(lines[i].as_str()) {
                Some(y) => y,
                None => {
                    proof {
                        reveal(Seq::filter);
                        reveal_strlit(" -- ");
                        assert(trailer_lines(lv.take(i + 1)) =~= trailer_lines(
                            lv.take(i as int),
                        ).push(lv[i as int]));
                        let t = trailer_lines(lv.take(i + 1)).len() - 1;
                        assert(trailer_lines(lv.take(i + 1))[t] == lv[i as int]);
                        lemma_trailer_prefix_index(lv, i + 1, t);
                        assert(trailer_lines(lv)[t] == lv[i as int]);
                        assert(year_of_trailer(trailer_lines(lv)[t]) is None);
                        assert(lv == split_lines_of(data@));
                    }
                    return Err(
                        Error::MalformedChangelog { text: lines[i].as_str().to_owned() },
                    );
                },
            };
            years.push(y);
            proof {
                reveal_strlit(" -- ");
                assert(trailer_lines(lv.take(i + 1)) =~= trailer_lines(lv.take(i as int)).push(
                    lv[i as int],
                ));
            }
        } else {
            proof {
                reveal_strlit(" -- ");
                assert(trailer_lines(lv.take(i + 1)) =~= trailer_lines(lv.take(i as int)));
            }
        }
        i = i + 1;
    }
    proof {
        assert(lv.take(n as int) =~= lv);
    }
    if years.len() == 0 {
        return Err(Error::MalformedChangelog { text: "changelog had no entries".to_owned() });
    }
    let first = years[years.len() - 1];
    let last = years[0];
    Ok((first, last))
}

/// An element of a prefix's trailer list keeps its place in the
/// whole's.
proof fn lemma_trailer_prefix_index(lv: Seq<Seq<char>>, i: int, t: int)
    requires
        0 <= i <= lv.len(),
        0 <= t < trailer_lines(lv.take(i)).len(),
    ensures
        t < trailer_lines(lv).len(),
        trailer_lines(lv)[t] == trailer_lines(lv.take(i))[t],
    decreases lv.len() - i,
{
    reveal(Seq::filter);
    if i == lv.len() {
        assert(lv.take(i) =~= lv);
    } else {
        assert(lv.take(i + 1).drop_last() =~= lv.take(i));
        assert(lv.take(i + 1).last() == lv[i]);
        assert(trailer_lines(lv.take(i)).len() <= trailer_lines(lv.take(i + 1)).len());
        assert(trailer_lines(lv.take(i + 1))[t] == trailer_lines(lv.take(i))[t]);
        lemma_trailer_prefix_index(lv, i + 1, t);
    }
}

fn find_autogen(items: &Vec<String>, src: &str) -> (r: Option<usize>)
    ensures
        match r {
            Some(i) => first_autogen_idx(items.deep_view(), src@, 0) == Some(i as int) && i
                < items.len(),
            None => first_autogen_idx(items.deep_view(), src@, 0) is None,
        },
{
    let n = items.len();
    let mut i: usize = 0;
    while i < n
        invariant
            i <= n,
            n == items.len(),
            first_autogen_idx(items.deep_view(), src@, 0) == first_autogen_idx(
                items.deep_view(),
                src@,
                i as int,
            ),
        decreases n - i,
    {
        if autogen_item_matches(items[i].as_str(), src) {
            return Some(i);
        }
        i = i + 1;
    }
    None
}

} // verus!
