//! The data model of an analysis: commits as the history walk yields them
//! and the snapshot of metrics computed from them.
use vstd::prelude::*;

use crate::text::owned;

verus! {

/// A point in time, UTC: seconds since the Unix epoch and nanoseconds into
/// that second.
#[derive(Debug, Clone, Copy, PartialEq, Eq, PartialOrd, Ord)]
pub struct Timestamp {
    pub seconds: i64,
    pub nanos: u32,
}

/// `a` is no later than `b`.
pub open spec fn ts_le(a: Timestamp, b: Timestamp) -> bool {
    a.seconds < b.seconds || (a.seconds == b.seconds && a.nanos <= b.nanos)
}

impl Timestamp {
    /// The Unix epoch.
    pub fn unix_epoch() -> (t: Timestamp)
        ensures
            t.seconds == 0 && t.nanos == 0,
    {
        Timestamp { seconds: 0, nanos: 0 }
    }

    /// The later of two timestamps.
    pub fn later(self, other: Timestamp) -> (t: Timestamp)
        ensures
            t == (if ts_le(self, other) { other } else { self }),
    {
        if self.seconds < other.seconds || (self.seconds == other.seconds && self.nanos <= other.nanos) {
            other
        } else {
            self
        }
    }
}

/// One file's line counts in one commit.
#[derive(Debug, Clone)]
pub struct FileDelta {
    pub path: String,
    pub additions: u64,
    pub deletions: u64,
}

/// One commit as the history walk yields it.
#[derive(Debug, Clone)]
pub struct CommitRecord {
    pub id: String,
    pub summary: String,
    pub author_name: String,
    pub author_email: String,
    pub committed_at: Timestamp,
    pub files: Vec<FileDelta>,
}

/// The lines added plus deleted over a commit's first `k` files.
pub open spec fn files_churn(files: Seq<FileDelta>) -> int
    decreases files.len(),
{
    if files.len() == 0 {
        0
    } else {
        files_churn(files.drop_last()) + files.last().additions + files.last().deletions
    }
}

impl CommitRecord {
    /// Lines added plus deleted over all files of the commit.
    pub fn total_churn(&self) -> (t: u64)
        requires
            files_churn(self.files@) <= u64::MAX,
        ensures
            t == files_churn(self.files@),
    {
        let mut total: u64 = 0;
        let mut i: usize = 0;
        while i < self.files.len()
            invariant
                i <= self.files@.len(),
                files_churn(self.files@) <= u64::MAX,
                total == files_churn(self.files@.take(i as int)),
            decreases self.files@.len() - i,
        {
            proof {
                assert(self.files@.take(i + 1).drop_last() =~= self.files@.take(i as int));
                lemma_files_churn_prefix(self.files@, i + 1);
            }
            total = total + self.files[i].additions + self.files[i].deletions;
            i = i + 1;
        }
        assert(self.files@.take(self.files@.len() as int) =~= self.files@);
        total
    }
}

/// Churn over a prefix of the files is at most the churn over all of them.
pub proof fn lemma_files_churn_prefix(files: Seq<FileDelta>, i: int)
    requires
        0 <= i <= files.len(),
    ensures
        0 <= files_churn(files.take(i)) <= files_churn(files),
    decreases files.len() - i,
{
    if i < files.len() {
        lemma_files_churn_prefix(files, i + 1);
        assert(files.take(i + 1).drop_last() =~= files.take(i));
    } else {
        assert(files.take(i) =~= files);
    }
    lemma_files_churn_nonneg(files.take(i));
}

proof fn lemma_files_churn_nonneg(files: Seq<FileDelta>)
    ensures
        files_churn(files) >= 0,
    decreases files.len(),
{
    if files.len() > 0 {
        lemma_files_churn_nonneg(files.drop_last());
    }
}

/// One of the largest commits.
#[derive(Debug, Clone)]
pub struct CommitSummary {
    pub id: String,
    pub author: String,
    pub summary: String,
    pub churn: u64,
    pub committed_at: Timestamp,
}

/// Per-contributor totals.
#[derive(Debug, Clone)]
pub struct ContributorStats {
    pub name: String,
    pub commit_count: u64,
    pub lines_added: u64,
    pub lines_deleted: u64,
    pub files_touched: u64,
}

impl ContributorStats {
    /// Total lines added plus deleted by this contributor.
    pub fn total_churn(&self) -> (t: u64)
        requires
            self.lines_added + self.lines_deleted <= u64::MAX,
        ensures
            t == self.lines_added + self.lines_deleted,
    {
        self.lines_added + self.lines_deleted
    }
}

/// Per-file totals.
#[derive(Debug, Clone)]
pub struct FileChurn {
    pub path: String,
    pub commit_count: u64,
    pub additions: u64,
    pub deletions: u64,
    pub contributor_count: u64,
    pub last_modified: Timestamp,
}

impl FileChurn {
    /// Lines added plus deleted in this file.
    pub fn total_churn(&self) -> (t: u64)
        requires
            self.additions + self.deletions <= u64::MAX,
        ensures
            t == self.additions + self.deletions,
    {
        self.additions + self.deletions
    }
}

/// Churn for one language (file extension).
#[derive(Debug, Clone)]
pub struct LanguageStat {
    pub language: String,
    pub churn: u64,
}

/// Commits in one time bucket.
#[derive(Debug, Clone)]
pub struct TimelinePoint {
    pub date: String,
    pub commits: u64,
}

/// Per-file knowledge concentration: who owns a file and how much.
/// The dominant author's share of the file's churn is
/// `dominant_churn / total_churn`.
#[derive(Debug, Clone)]
pub struct Ownership {
    pub path: String,
    pub dominant_author: String,
    pub dominant_churn: u64,
    pub total_churn: u64,
    pub contributor_count: u64,
}

/// A file whose knowledge is concentrated in one person; the author's share
/// of its churn is `author_churn / churn`.
#[derive(Debug, Clone)]
pub struct AtRiskFile {
    pub path: String,
    pub author: String,
    pub author_churn: u64,
    pub churn: u64,
}

/// Bus factor: how many contributors are needed to cover half of all churn.
#[derive(Debug, Clone)]
pub struct BusFactorInfo {
    /// Number of contributors accounting for at least half of total churn.
    pub bus_factor: u64,
    pub at_risk_files: Vec<AtRiskFile>,
}

/// Two files that change together in the same commit.
#[derive(Debug, Clone)]
pub struct Coupling {
    pub file_a: String,
    pub file_b: String,
    pub co_changes: u64,
}

/// How commit activity is bucketed for the timeline.
#[derive(Debug, Clone, Copy, PartialEq, Eq)]
pub enum TimelineGranularity {
    Day,
    Week,
    Month,
    Year,
}

/// The name of a granularity.
pub open spec fn granularity_name(g: TimelineGranularity) -> Seq<char> {
    match g {
        TimelineGranularity::Day => seq!['d', 'a', 'y'],
        TimelineGranularity::Week => seq!['w', 'e', 'e', 'k'],
        TimelineGranularity::Month => seq!['m', 'o', 'n', 't', 'h'],
        TimelineGranularity::Year => seq!['y', 'e', 'a', 'r'],
    }
}

impl TimelineGranularity {
    /// The granularity's name: `day`, `week`, `month` or `year`.
    pub fn as_str(self) -> (s: &'static str)
        ensures
            s@ == granularity_name(self),
    {
        proof {
            reveal_strlit("day");
            reveal_strlit("week");
            reveal_strlit("month");
            reveal_strlit("year");
        }
        match self {
            TimelineGranularity::Day => "day",
            TimelineGranularity::Week => "week",
            TimelineGranularity::Month => "month",
            TimelineGranularity::Year => "year",
        }
    }

    /// The granularity's name as an owned string (what `Display` shows).
    pub fn to_string(self) -> (s: String)
        ensures
            s@ == granularity_name(self),
    {
        owned(self.as_str())
    }
}

/// Input parameters that shape an analysis run.
#[derive(Debug, Clone)]
pub struct AnalysisOptions {
    pub limit: usize,
    pub since: Option<Timestamp>,
    pub until: Option<Timestamp>,
    /// Glob patterns files must match (empty means all files).
    pub include_patterns: Vec<String>,
    /// Glob patterns files must not match.
    pub exclude_patterns: Vec<String>,
    pub granularity: TimelineGranularity,
}

/// A complete snapshot of repository analytics, but for the hotspot scores,
/// which are floating-point and computed beside it.
#[derive(Debug, Clone)]
pub struct RepoSnapshot {
    pub generated_at: Timestamp,
    pub stats: RepoStats,
    pub contributors: Vec<ContributorStats>,
    pub file_churn: Vec<FileChurn>,
    pub timeline: Vec<TimelinePoint>,
    pub ownership: Vec<Ownership>,
    pub coupling: Vec<Coupling>,
    /// The commit records that were analyzed, newest first.
    pub commits: Vec<CommitRecord>,
}

/// Repository-wide statistics.
#[derive(Debug, Clone)]
pub struct RepoStats {
    pub commit_count: u64,
    pub lines_added: u64,
    pub lines_deleted: u64,
    pub repository_age_days: u64,
    pub largest_commits: Vec<CommitSummary>,
    pub language_breakdown: Vec<LanguageStat>,
    pub bus_factor: BusFactorInfo,
}

} // verus!
