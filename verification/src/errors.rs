//! Fatal error conditions of the packaging core.
//!
//! Every error aborts the whole run: no category is retried, and no
//! partial output is kept.

use vstd::prelude::*;

verus! {

/// The reasons a resolution or reconciliation run aborts.
#[derive(Debug)]
pub enum Error {
    /// The per-feature "known broken" overrides disagree along a
    /// dependency chain: the offending feature and the two values
    /// seen, or no values when the requirements never settle (a
    /// requirement cycle).
    BrokenFlagConflict { feature: String, values: Option<(bool, bool)> },
    /// A history entry could not be parsed; the offending text is
    /// carried for the report.
    MalformedChangelog { text: String },
    /// The author's name or contact could not be resolved when a new
    /// history entry had to be created.
    MissingIdentity { hint: String },
}

/// The rendering of one configured flag value.
pub open spec fn bool_chars(b: bool) -> Seq<char> {
    if b {
        "true"@
    } else {
        "false"@
    }
}

/// The rendering of a conflict's detail: the two disagreeing values,
/// or the note that no consistent value exists.
pub open spec fn conflict_detail_chars(values: Option<(bool, bool)>) -> Seq<char> {
    match values {
        Some(v) => " ("@ + bool_chars(v.0) + " vs "@ + bool_chars(v.1) + ")"@,
        None => " (requirements never settle)"@,
    }
}

fn bool_str(b: bool) -> (r: &'static str)
    ensures
        r@ == bool_chars(b),
{
    if b {
        "true"
    } else {
        "false"
    }
}

impl Error {
    /// A short, fixed description of the error category.
    pub fn category(&self) -> (r: &'static str)
        ensures
            r@ == (match self {
                Error::BrokenFlagConflict { .. } => "inconsistent test_is_broken values"@,
                Error::MalformedChangelog { .. } => "malformed changelog entry"@,
                Error::MissingIdentity { .. } => "unable to determine author identity"@,
            }),
    {
        match self {
            Error::BrokenFlagConflict { .. } => "inconsistent test_is_broken values",
            Error::MalformedChangelog { .. } => "malformed changelog entry",
            Error::MissingIdentity { .. } => "unable to determine author identity",
        }
    }

    /// A one-line report: the category, a colon, the detail, and for
    /// a flag conflict the disagreeing values.
    pub fn message(&self) -> (r: String)
        ensures
            r@ == (match self {
                Error::BrokenFlagConflict { feature, values } => (
                "inconsistent test_is_broken values"@ + ": "@ + feature@)
                    + conflict_detail_chars(*values),
                Error::MalformedChangelog { text } => "malformed changelog entry"@ + ": "@
                    + text@,
                Error::MissingIdentity { hint } => "unable to determine author identity"@ + ": "@
                    + hint@,
            }),
    {
        let mut out = self.category().to_owned();
        out.append(": ");
        match self {
            Error::BrokenFlagConflict { feature, values } => {
                out.append(feature.as_str());
                match values {
                    Some(v) => {
                        out.append(" (");
                        out.append(bool_str(v.0));
                        out.append(" vs ");
                        out.append(bool_str(v.1));
                        out.append(")");
                    },
                    None => {
                        out.append(" (requirements never settle)");
                    },
                }
            },
            Error::MalformedChangelog { text } => out.append(text.as_str()),
            Error::MissingIdentity { hint } => out.append(hint.as_str()),
        }
        out
    }
}

} // verus!
