//! The two shapes of output, and how one is chosen by name.

use crate::text::str_equal;
use std::str::FromStr;
use vstd::prelude::*;

verus! {

/// How the records are written.
#[derive(Debug, Clone, Copy, PartialEq, Eq, Structural)]
pub enum OutputFormat {
    /// One JSON object per commit, one per line.
    Json,
    /// A header line of field codes, then one comma-separated line per commit.
    Csv,
}

/// The lower-case form of a text, as `str::to_lowercase` gives it.
pub uninterp spec fn lowercase_text(s: Seq<char>) -> Seq<char>;

/// Calls `str::to_lowercase`. The result is given the name
/// [`lowercase_text`]: it depends on the text alone, and Unicode's case
/// tables are not restated here.
#[verifier::external_body]
fn to_lowercase(s: &str) -> (lower: String)
    ensures
        lower@ == lowercase_text(s@),
{
    s.to_lowercase()
}

/// What is said when a format's name is not known.
pub open spec fn unknown_format_text() -> Seq<char> {
    "Only JSON and CSV outputs are supported."@
}

/// The format that a lower-case name stands for.
pub open spec fn format_named(lower: Seq<char>) -> Option<OutputFormat> {
    if lower == "json"@ {
        Some(OutputFormat::Json)
    } else if lower == "csv"@ {
        Some(OutputFormat::Csv)
    } else {
        None
    }
}

impl OutputFormat {
    /// Chooses the format by its name in lower case: `json` or `csv`, and
    /// nothing else.
    pub fn from_lowercase(lower: &str) -> (r: Result<OutputFormat, String>)
        ensures
            match format_named(lower@) {
                Some(format) => r == Ok::<OutputFormat, String>(format),
                None => r is Err && r->Err_0@ == unknown_format_text(),
            },
    {
        if str_equal(lower, "json") {
            Ok(OutputFormat::Json)
        } else if str_equal(lower, "csv") {
            Ok(OutputFormat::Csv)
        } else {
            Err("Only JSON and CSV outputs are supported.".to_owned())
        }
    }

    /// Chooses the format by name, whatever the case of its letters.
    pub fn from_str(s: &str) -> (r: Result<OutputFormat, String>)
        ensures
            match format_named(lowercase_text(s@)) {
                Some(format) => r == Ok::<OutputFormat, String>(format),
                None => r is Err && r->Err_0@ == unknown_format_text(),
            },
    {
        let lower = to_lowercase(s);
        OutputFormat::from_lowercase(lower.as_str())
    }
}

impl FromStr for OutputFormat {
    type Err = String;

    fn from_str(s: &str) -> (r: Result<OutputFormat, String>)
        ensures
            match format_named(lowercase_text(s@)) {
                Some(format) => r == Ok::<OutputFormat, String>(format),
                None => r is Err && r->Err_0@ == unknown_format_text(),
            },
    {
        OutputFormat::from_str(s)
    }
}

} // verus!
