//! The forms in which sun times can be written out.
use vstd::prelude::*;

use crate::text::same_text;

verus! {

/// An output form.
#[derive(Clone, Copy, Debug, PartialEq, Eq)]
pub enum Format {
    /// One line per day for people to read.
    Human,
    /// Comma-separated seconds since the start of the day.
    Csv,
    /// A JSON list of times.
    Json,
    /// Charts of sunsets and sunrises.
    Plot,
}

impl Format {
    /// The format named `s`: `human`, `csv`, `json` or `plot`.
    pub fn from_name(s: &str) -> (r: Option<Format>)
        ensures
            r == (if s@ == "human"@ {
                Some(Format::Human)
            } else if s@ == "csv"@ {
                Some(Format::Csv)
            } else if s@ == "json"@ {
                Some(Format::Json)
            } else if s@ == "plot"@ {
                Some(Format::Plot)
            } else {
                None
            }),
    {
        if same_text(s, "human") {
            Some(Format::Human)
        } else if same_text(s, "csv") {
            Some(Format::Csv)
        } else if same_text(s, "json") {
            Some(Format::Json)
        } else if same_text(s, "plot") {
            Some(Format::Plot)
        } else {
            None
        }
    }
}

} // verus!
