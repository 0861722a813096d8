//! The commands of the analytics tool and the options they share.
use vstd::prelude::*;

use crate::models::{AnalysisOptions, TimelineGranularity, Timestamp};
use crate::report::views;
use crate::text::owned;
use crate::utils::date::{date_result, parse_date};

verus! {

/// The parsed command line.
#[derive(Debug)]
pub struct Cli {
    pub command: Command,
}

/// What to do.
#[derive(Debug)]
pub enum Command {
    /// Analyze the repository and keep a snapshot.
    Scan { common: CommonArgs, tui: bool },
    /// High-level repository statistics.
    Stats { common: CommonArgs },
    /// Top contributors.
    Contributors { common: CommonArgs },
    /// File churn rankings.
    Churn { common: CommonArgs },
    /// Hotspot rankings.
    Hotspots { common: CommonArgs },
    /// Commit activity timeline.
    Timeline { common: CommonArgs, granularity: TimelineGranularity },
    /// Language churn breakdown.
    Languages { common: CommonArgs },
    /// Recent commits.
    Log { common: CommonArgs },
    /// Bus factor and at-risk files.
    BusFactor { common: CommonArgs },
    /// Files that change together.
    Coupling { common: CommonArgs },
    /// Per-file ownership.
    Ownership { common: CommonArgs },
    /// Export the snapshot to a file or standard output.
    Export { common: CommonArgs, format: ExportFormat, output: Option<String> },
}

/// Options shared by every analysis command.
#[derive(Debug)]
pub struct CommonArgs {
    /// The repository to analyze.
    pub path: String,
    /// The most commits to analyze.
    pub limit: usize,
    /// Re-analyze instead of loading the cache.
    pub refresh_cache: bool,
    /// Only commits on or after this date (`YYYY-MM-DD` or RFC 3339).
    pub since: Option<String>,
    /// Only commits on or before this date.
    pub until: Option<String>,
    /// Only files matching these glob patterns.
    pub include_patterns: Vec<String>,
    /// Leave out files matching these glob patterns.
    pub exclude_patterns: Vec<String>,
    /// Print JSON instead of a table.
    pub json: bool,
}

/// A snapshot export format.
#[derive(Debug, Clone, Copy, PartialEq, Eq)]
pub enum ExportFormat {
    Json,
    Csv,
    Markdown,
}

/// The name of an export format.
pub open spec fn format_name(f: ExportFormat) -> Seq<char> {
    match f {
        ExportFormat::Json => "json"@,
        ExportFormat::Csv => "csv"@,
        ExportFormat::Markdown => "markdown"@,
    }
}

impl ExportFormat {
    /// The format's name: `json`, `csv` or `markdown`.
    pub fn name(self) -> (s: &'static str)
        ensures
            s@ == format_name(self),
    {
        match self {
            ExportFormat::Json => "json",
            ExportFormat::Csv => "csv",
            ExportFormat::Markdown => "markdown",
        }
    }

    /// The format's name as an owned string (what `Display` shows).
    pub fn to_string(self) -> (s: String)
        ensures
            s@ == format_name(self),
    {
        owned(self.name())
    }
}

/// An optional date argument: none, a date, or the reason it is not one.
pub open spec fn date_arg(s: Option<Seq<char>>) -> Result<Option<Timestamp>, Seq<char>> {
    match s {
        None => Ok(None),
        Some(text) => match date_result(text) {
            Ok(t) => Ok(Some(t)),
            Err(e) => Err(e),
        },
    }
}

/// Copies of the strings.
fn copy_strings(v: &Vec<String>) -> (r: Vec<String>)
    ensures
        views(r@) == views(v@),
{
    let mut r: Vec<String> = Vec::new();
    let mut i: usize = 0;
    while i < v.len()
        invariant
            i <= v@.len(),
            views(r@) =~= views(v@).take(i as int),
        decreases v@.len() - i,
    {
        let ghost before = r@;
        r.push(owned(v[i].as_str()));
        assert(views(r@) =~= views(before).push(v@[i as int]@));
        i = i + 1;
    }
    assert(views(v@).take(v@.len() as int) =~= views(v@));
    r
}

/// Parses an optional date argument.
fn parse_date_arg(s: &Option<String>) -> (r: Result<Option<Timestamp>, String>)
    ensures
        match r {
            Ok(t) => date_arg(crate::opt_chars(*s)) == Ok::<Option<Timestamp>, Seq<char>>(t),
            Err(e) => date_arg(crate::opt_chars(*s)) == Err::<Option<Timestamp>, Seq<char>>(e@),
        },
{
    match s {
        None => Ok(None),
        Some(text) => match parse_date(text.as_str()) {
            Ok(t) => Ok(Some(t)),
            Err(e) => Err(e),
        },
    }
}

impl CommonArgs {
    /// The analysis options these arguments ask for, with the timeline at
    /// `granularity`; an error when `since` or `until` is not a date (the
    /// first one that fails).
    pub fn to_options(&self, granularity: TimelineGranularity) -> (r: Result<AnalysisOptions, String>)
        ensures
            match date_arg(crate::opt_chars(self.since)) {
                Err(e) => r matches Err(m) && m@ == e,
                Ok(since) => match date_arg(crate::opt_chars(self.until)) {
                    Err(e) => r matches Err(m) && m@ == e,
                    Ok(until) => r matches Ok(o) && {
                        &&& o.limit == self.limit
                        &&& o.since == since
                        &&& o.until == until
                        &&& views(o.include_patterns@) == views(self.include_patterns@)
                        &&& views(o.exclude_patterns@) == views(self.exclude_patterns@)
                        &&& o.granularity == granularity
                    },
                },
            },
    {
        let since = match parse_date_arg(&self.since) {
            Ok(t) => t,
            Err(e) => return Err(e),
        };
        let until = match parse_date_arg(&self.until) {
            Ok(t) => t,
            Err(e) => return Err(e),
        };
        Ok(AnalysisOptions {
            limit: self.limit,
            since,
            until,
            include_patterns: copy_strings(&self.include_patterns),
            exclude_patterns: copy_strings(&self.exclude_patterns),
            granularity,
        })
    }
}

} // verus!
