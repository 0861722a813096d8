//! The analytics engine: per-contributor and per-file aggregation of the
//! commit history, and the metrics derived from it.
use vstd::prelude::*;

use crate::analytics::bus_factor::{build_bus_factor, contributor_churns, is_bus_factor, ranked_scores, reports_at_risk};
use crate::analytics::coupling::{build_coupling, coupling_fits, reports_coupling};
use crate::analytics::languages::{build_language_breakdown, is_breakdown, lemma_lang_churn_le};
use crate::analytics::rows::{
    contributor_row, contributor_rows, file_rows, lemma_file_done, lemma_final_totals, lemma_ownership_rows,
    ownership_rows, rank_contributors, rank_files,
};
use crate::analytics::timeline::{build_timeline, commit_buckets, counts_buckets, points_sum, timed_count};
use crate::analytics::totals::law_file_totals;
use crate::models::metrics::{files_churn, lemma_files_churn_prefix, ts_le};
use crate::models::{
    AnalysisOptions, CommitRecord, CommitSummary, ContributorStats, FileChurn, FileDelta, Ownership, RepoSnapshot,
    RepoStats, TimelineGranularity, Timestamp,
};
use crate::rank::{as_ints, rank_indices, ranking};
use crate::utils::date::{days_between_utc, now_utc, utc_days_between};
use crate::strmap::{key_set, lemma_key_set_len, lemma_value_sum_insert, lemma_value_sum_update, lookup, value_sum, StrMap};
use crate::text::owned;

verus! {

/// Which file changes a tally counts.
pub enum DeltaKey {
    All,
    Author(Seq<char>),
    Path(Seq<char>),
    PathAuthor(Seq<char>, Seq<char>),
}

/// What a tally sums over the file changes it counts.
pub enum DeltaMeasure {
    Additions,
    Deletions,
    Churn,
    Count,
}

pub open spec fn delta_matches(key: DeltaKey, c: CommitRecord, d: FileDelta) -> bool {
    match key {
        DeltaKey::All => true,
        DeltaKey::Author(a) => c.author_name@ == a,
        DeltaKey::Path(p) => d.path@ == p,
        DeltaKey::PathAuthor(p, a) => d.path@ == p && c.author_name@ == a,
    }
}

pub open spec fn delta_measure(m: DeltaMeasure, d: FileDelta) -> int {
    match m {
        DeltaMeasure::Additions => d.additions as int,
        DeltaMeasure::Deletions => d.deletions as int,
        DeltaMeasure::Churn => d.additions + d.deletions,
        DeltaMeasure::Count => 1,
    }
}

/// The sum of `m` over the changes `ds` of commit `c` that `key` counts.
pub open spec fn delta_total_in(c: CommitRecord, ds: Seq<FileDelta>, key: DeltaKey, m: DeltaMeasure) -> int
    decreases ds.len(),
{
    if ds.len() == 0 {
        0
    } else {
        delta_total_in(c, ds.drop_last(), key, m) + if delta_matches(key, c, ds.last()) {
            delta_measure(m, ds.last())
        } else {
            0
        }
    }
}

/// The sum of `m` over all changes of `cs` that `key` counts.
pub open spec fn delta_total(cs: Seq<CommitRecord>, key: DeltaKey, m: DeltaMeasure) -> int
    decreases cs.len(),
{
    if cs.len() == 0 {
        0
    } else {
        delta_total(cs.drop_last(), key, m) + delta_total_in(cs.last(), cs.last().files@, key, m)
    }
}

/// The number of commits by author `a`.
pub open spec fn author_commits(cs: Seq<CommitRecord>, a: Seq<char>) -> int
    decreases cs.len(),
{
    if cs.len() == 0 {
        0
    } else {
        author_commits(cs.drop_last(), a) + if cs.last().author_name@ == a { 1int } else { 0int }
    }
}

/// Author `a` changed path `p` at least once.
pub open spec fn touched(cs: Seq<CommitRecord>, a: Seq<char>, p: Seq<char>) -> bool {
    delta_total(cs, DeltaKey::PathAuthor(p, a), DeltaMeasure::Count) > 0
}

/// The latest of `t` and the times of the changes to `p` among `ds`.
pub open spec fn last_touch_in(t: Timestamp, c: CommitRecord, ds: Seq<FileDelta>, p: Seq<char>) -> Timestamp
    decreases ds.len(),
{
    if ds.len() == 0 {
        t
    } else {
        let u = last_touch_in(t, c, ds.drop_last(), p);
        if ds.last().path@ == p && ts_le(u, c.committed_at) {
            c.committed_at
        } else {
            u
        }
    }
}

/// When path `p` last changed: the latest commit time among its changes,
/// and never before the Unix epoch.
pub open spec fn last_touch(cs: Seq<CommitRecord>, p: Seq<char>) -> Timestamp
    decreases cs.len(),
{
    if cs.len() == 0 {
        Timestamp { seconds: 0, nanos: 0 }
    } else {
        last_touch_in(last_touch(cs.drop_last(), p), cs.last(), cs.last().files@, p)
    }
}

/// Aggregation state for one contributor.
#[derive(Debug)]
pub struct ContributorBuilder {
    pub name: String,
    pub commit_count: u64,
    pub lines_added: u64,
    pub lines_deleted: u64,
    pub files_touched: StrMap<()>,
}

impl ContributorBuilder {
    /// A builder for `name` with nothing counted.
    pub fn new(name: &str) -> (b: Self)
        ensures
            b.name@ == name@,
            b.commit_count == 0 && b.lines_added == 0 && b.lines_deleted == 0,
            b.files_touched@.len() == 0,
    {
        ContributorBuilder { name: owned(name), commit_count: 0, lines_added: 0, lines_deleted: 0, files_touched: StrMap::new() }
    }

    /// The contributor's totals; `files_touched` counts distinct paths.
    pub fn build(self) -> (s: ContributorStats)
        ensures
            s.name@ == self.name@,
            s.commit_count == self.commit_count,
            s.lines_added == self.lines_added,
            s.lines_deleted == self.lines_deleted,
            s.files_touched == key_set(self.files_touched@).len(),
    {
        let n = self.files_touched.len();
        proof { lemma_key_set_len(self.files_touched@); }
        ContributorStats {
            name: self.name,
            commit_count: self.commit_count,
            lines_added: self.lines_added,
            lines_deleted: self.lines_deleted,
            files_touched: n as u64,
        }
    }
}

/// Aggregation state for one file.
#[derive(Debug)]
pub struct FileChurnBuilder {
    pub path: String,
    pub commit_count: u64,
    pub additions: u64,
    pub deletions: u64,
    pub last_modified: Timestamp,
    pub contributors: StrMap<()>,
    pub contributor_churn: StrMap<u64>,
}

impl FileChurnBuilder {
    /// A builder for `path` with nothing counted, last modified at the epoch.
    pub fn new(path: &str) -> (b: Self)
        ensures
            b.path@ == path@,
            b.commit_count == 0 && b.additions == 0 && b.deletions == 0,
            b.last_modified == (Timestamp { seconds: 0, nanos: 0 }),
            b.contributors@.len() == 0,
            b.contributor_churn@.len() == 0,
    {
        FileChurnBuilder {
            path: owned(path),
            commit_count: 0,
            additions: 0,
            deletions: 0,
            last_modified: Timestamp::unix_epoch(),
            contributors: StrMap::new(),
            contributor_churn: StrMap::new(),
        }
    }

    /// The file's totals; `contributor_count` counts distinct authors.
    pub fn build(self) -> (f: FileChurn)
        ensures
            f.path@ == self.path@,
            f.commit_count == self.commit_count,
            f.additions == self.additions,
            f.deletions == self.deletions,
            f.contributor_count == key_set(self.contributors@).len(),
            f.last_modified == self.last_modified,
    {
        let n = self.contributors.len();
        proof { lemma_key_set_len(self.contributors@); }
        FileChurn {
            path: self.path,
            commit_count: self.commit_count,
            additions: self.additions,
            deletions: self.deletions,
            contributor_count: n as u64,
            last_modified: self.last_modified,
        }
    }
}

/// The running tally over the first `i` commits plus the first `j` changes
/// of commit `i`.
pub open spec fn ptotal(cs: Seq<CommitRecord>, i: int, j: int, key: DeltaKey, m: DeltaMeasure) -> int {
    delta_total(cs.take(i), key, m) + if i < cs.len() {
        delta_total_in(cs[i], cs[i].files@.take(j), key, m)
    } else {
        0
    }
}

/// The running last-change time, at the same point.
pub open spec fn plast(cs: Seq<CommitRecord>, i: int, j: int, p: Seq<char>) -> Timestamp {
    if i < cs.len() {
        last_touch_in(last_touch(cs.take(i), p), cs[i], cs[i].files@.take(j), p)
    } else {
        last_touch(cs.take(i), p)
    }
}

/// A contributor builder holds the running tally for author `a`: commits over
/// the first `nc` commits, changes up to change `j` of commit `i`.
pub open spec fn contributor_at(b: ContributorBuilder, cs: Seq<CommitRecord>, nc: int, i: int, j: int, a: Seq<char>) -> bool {
    &&& b.name@ == a
    &&& b.commit_count == author_commits(cs.take(nc), a)
    &&& b.lines_added == ptotal(cs, i, j, DeltaKey::Author(a), DeltaMeasure::Additions)
    &&& b.lines_deleted == ptotal(cs, i, j, DeltaKey::Author(a), DeltaMeasure::Deletions)
    &&& forall|p: Seq<char>| #[trigger] lookup(b.files_touched@, p) is Some <==> ptotal(cs, i, j, DeltaKey::PathAuthor(p, a), DeltaMeasure::Count) > 0
}

/// A file builder holds the running tally for path `p`.
pub open spec fn file_at(b: FileChurnBuilder, cs: Seq<CommitRecord>, i: int, j: int, p: Seq<char>) -> bool {
    &&& b.path@ == p
    &&& b.commit_count == ptotal(cs, i, j, DeltaKey::Path(p), DeltaMeasure::Count)
    &&& b.additions == ptotal(cs, i, j, DeltaKey::Path(p), DeltaMeasure::Additions)
    &&& b.deletions == ptotal(cs, i, j, DeltaKey::Path(p), DeltaMeasure::Deletions)
    &&& b.last_modified == plast(cs, i, j, p)
    &&& value_sum(b.contributor_churn@) == b.additions + b.deletions
    &&& forall|a: Seq<char>| #[trigger] lookup(b.contributors@, a) is Some <==> ptotal(cs, i, j, DeltaKey::PathAuthor(p, a), DeltaMeasure::Count) > 0
    &&& forall|a: Seq<char>| #[trigger] lookup(b.contributor_churn@, a) == if ptotal(cs, i, j, DeltaKey::PathAuthor(p, a), DeltaMeasure::Count) > 0 {
        Some(ptotal(cs, i, j, DeltaKey::PathAuthor(p, a), DeltaMeasure::Churn) as u64)
    } else {
        None
    }
}

/// The contributor map holds exactly the authors seen so far, each with its tally.
pub open spec fn contributors_at(m: Seq<(Seq<char>, ContributorBuilder)>, cs: Seq<CommitRecord>, nc: int, i: int, j: int) -> bool {
    forall|a: Seq<char>| {
        &&& (#[trigger] lookup(m, a) is Some <==> author_commits(cs.take(nc), a) > 0)
        &&& (lookup(m, a) matches Some(b) ==> contributor_at(b, cs, nc, i, j, a))
    }
}

/// The file map holds exactly the paths seen so far, each with its tally.
pub open spec fn files_at(m: Seq<(Seq<char>, FileChurnBuilder)>, cs: Seq<CommitRecord>, i: int, j: int) -> bool {
    forall|p: Seq<char>| {
        &&& (#[trigger] lookup(m, p) is Some <==> ptotal(cs, i, j, DeltaKey::Path(p), DeltaMeasure::Count) > 0)
        &&& (lookup(m, p) matches Some(b) ==> file_at(b, cs, i, j, p))
    }
}

/// No running tally of the aggregation goes past `u64::MAX`: the total
/// churn (lines added plus deleted over all changes) fits, and (a machine
/// limit) so does the number of file changes.
pub open spec fn engine_fits(cs: Seq<CommitRecord>) -> bool {
    &&& delta_total(cs, DeltaKey::All, DeltaMeasure::Churn) <= u64::MAX
    &&& delta_total(cs, DeltaKey::All, DeltaMeasure::Count) <= u64::MAX
}

/// Each measure is non-negative and a keyed tally never exceeds the unkeyed
/// one; additions and deletions never exceed churn.
pub proof fn lemma_in_bounds(c: CommitRecord, ds: Seq<FileDelta>, key: DeltaKey, m: DeltaMeasure)
    ensures
        0 <= delta_total_in(c, ds, key, m) <= delta_total_in(c, ds, DeltaKey::All, m),
        delta_total_in(c, ds, key, DeltaMeasure::Additions) <= delta_total_in(c, ds, key, DeltaMeasure::Churn),
        delta_total_in(c, ds, key, DeltaMeasure::Deletions) <= delta_total_in(c, ds, key, DeltaMeasure::Churn),
    decreases ds.len(),
{
    if ds.len() > 0 {
        lemma_in_bounds(c, ds.drop_last(), key, m);
    }
}

pub proof fn lemma_total_bounds(cs: Seq<CommitRecord>, key: DeltaKey, m: DeltaMeasure)
    ensures
        0 <= delta_total(cs, key, m) <= delta_total(cs, DeltaKey::All, m),
        delta_total(cs, key, DeltaMeasure::Additions) <= delta_total(cs, key, DeltaMeasure::Churn),
        delta_total(cs, key, DeltaMeasure::Deletions) <= delta_total(cs, key, DeltaMeasure::Churn),
    decreases cs.len(),
{
    if cs.len() > 0 {
        lemma_total_bounds(cs.drop_last(), key, m);
        lemma_in_bounds(cs.last(), cs.last().files@, key, m);
    }
}

/// Lines added plus lines deleted is churn.
pub proof fn lemma_in_add_del(c: CommitRecord, ds: Seq<FileDelta>, key: DeltaKey)
    ensures
        delta_total_in(c, ds, key, DeltaMeasure::Additions) + delta_total_in(c, ds, key, DeltaMeasure::Deletions) == delta_total_in(c, ds, key, DeltaMeasure::Churn),
    decreases ds.len(),
{
    if ds.len() > 0 {
        lemma_in_add_del(c, ds.drop_last(), key);
    }
}

/// Lines added plus lines deleted is churn, over a history.
pub proof fn lemma_add_del(cs: Seq<CommitRecord>, key: DeltaKey)
    ensures
        delta_total(cs, key, DeltaMeasure::Additions) + delta_total(cs, key, DeltaMeasure::Deletions) == delta_total(cs, key, DeltaMeasure::Churn),
    decreases cs.len(),
{
    if cs.len() > 0 {
        lemma_add_del(cs.drop_last(), key);
        lemma_in_add_del(cs.last(), cs.last().files@, key);
    }
}

proof fn lemma_in_prefix(c: CommitRecord, ds: Seq<FileDelta>, j: int, key: DeltaKey, m: DeltaMeasure)
    requires
        0 <= j <= ds.len(),
    ensures
        delta_total_in(c, ds.take(j), key, m) <= delta_total_in(c, ds, key, m),
    decreases ds.len() - j,
{
    if j < ds.len() {
        lemma_in_prefix(c, ds, j + 1, key, m);
        assert(ds.take(j + 1).drop_last() =~= ds.take(j));
        lemma_in_bounds(c, ds.take(j), key, m);
    } else {
        assert(ds.take(j) =~= ds);
    }
}

pub proof fn lemma_total_prefix(cs: Seq<CommitRecord>, i: int, key: DeltaKey, m: DeltaMeasure)
    requires
        0 <= i <= cs.len(),
    ensures
        delta_total(cs.take(i), key, m) <= delta_total(cs, key, m),
    decreases cs.len() - i,
{
    if i < cs.len() {
        lemma_total_prefix(cs, i + 1, key, m);
        assert(cs.take(i + 1).drop_last() =~= cs.take(i));
        assert(cs.take(i + 1).last() == cs[i]);
        lemma_in_bounds(cs[i], cs[i].files@, key, m);
    } else {
        assert(cs.take(i) =~= cs);
    }
}

/// A running tally never exceeds the final one.
pub proof fn lemma_ptotal_le(cs: Seq<CommitRecord>, i: int, j: int, key: DeltaKey, m: DeltaMeasure)
    requires
        0 <= i < cs.len(),
        0 <= j <= cs[i].files@.len(),
    ensures
        0 <= ptotal(cs, i, j, key, m) <= delta_total(cs, key, m),
{
    lemma_in_prefix(cs[i], cs[i].files@, j, key, m);
    lemma_in_bounds(cs[i], cs[i].files@.take(j), key, m);
    lemma_total_bounds(cs.take(i), key, m);
    lemma_total_prefix(cs, i + 1, key, m);
    assert(cs.take(i + 1).drop_last() =~= cs.take(i));
    assert(cs.take(i + 1).last() == cs[i]);
}

/// One more change of the current commit.
pub proof fn lemma_ptotal_step(cs: Seq<CommitRecord>, i: int, j: int, key: DeltaKey, m: DeltaMeasure)
    requires
        0 <= i < cs.len(),
        0 <= j < cs[i].files@.len(),
    ensures
        ptotal(cs, i, j + 1, key, m) == ptotal(cs, i, j, key, m) + if delta_matches(key, cs[i], cs[i].files@[j]) {
            delta_measure(m, cs[i].files@[j])
        } else {
            0
        },
{
    let ds = cs[i].files@;
    assert(ds.take(j + 1).drop_last() =~= ds.take(j));
    assert(ds.take(j + 1).last() == ds[j]);
}

/// The running last-change time after one more change.
pub proof fn lemma_plast_step(cs: Seq<CommitRecord>, i: int, j: int, p: Seq<char>)
    requires
        0 <= i < cs.len(),
        0 <= j < cs[i].files@.len(),
    ensures
        plast(cs, i, j + 1, p) == if cs[i].files@[j].path@ == p && ts_le(plast(cs, i, j, p), cs[i].committed_at) {
            cs[i].committed_at
        } else {
            plast(cs, i, j, p)
        },
{
    let ds = cs[i].files@;
    assert(ds.take(j + 1).drop_last() =~= ds.take(j));
    assert(ds.take(j + 1).last() == ds[j]);
}

/// Finishing a commit is starting the next one.
pub proof fn lemma_next_commit(cs: Seq<CommitRecord>, i: int, key: DeltaKey, m: DeltaMeasure, p: Seq<char>)
    requires
        0 <= i < cs.len(),
    ensures
        ptotal(cs, i, cs[i].files@.len() as int, key, m) == ptotal(cs, i + 1, 0, key, m),
        plast(cs, i, cs[i].files@.len() as int, p) == plast(cs, i + 1, 0, p),
{
    let ds = cs[i].files@;
    assert(ds.take(ds.len() as int) =~= ds);
    assert(cs.take(i + 1).drop_last() =~= cs.take(i));
    assert(cs.take(i + 1).last() == cs[i]);
    if i + 1 < cs.len() {
        assert(cs[i + 1].files@.take(0) =~= Seq::<FileDelta>::empty());
    }
}

/// The running state at the start of a commit.
pub proof fn lemma_commit_start(cs: Seq<CommitRecord>, i: int, key: DeltaKey, m: DeltaMeasure, p: Seq<char>)
    requires
        0 <= i <= cs.len(),
    ensures
        ptotal(cs, i, 0, key, m) == delta_total(cs.take(i), key, m),
        plast(cs, i, 0, p) == last_touch(cs.take(i), p),
{
    if i < cs.len() {
        assert(cs[i].files@.take(0) =~= Seq::<FileDelta>::empty());
    }
}

pub proof fn lemma_author_commits_bound(cs: Seq<CommitRecord>, a: Seq<char>)
    ensures
        0 <= author_commits(cs, a) <= cs.len(),
    decreases cs.len(),
{
    if cs.len() > 0 {
        lemma_author_commits_bound(cs.drop_last(), a);
    }
}

/// A path-and-author tally never exceeds the path tally nor the author tally.
pub proof fn lemma_in_pair_le(c: CommitRecord, ds: Seq<FileDelta>, p: Seq<char>, a: Seq<char>, m: DeltaMeasure)
    ensures
        delta_total_in(c, ds, DeltaKey::PathAuthor(p, a), m) <= delta_total_in(c, ds, DeltaKey::Path(p), m),
        delta_total_in(c, ds, DeltaKey::PathAuthor(p, a), m) <= delta_total_in(c, ds, DeltaKey::Author(a), m),
    decreases ds.len(),
{
    if ds.len() > 0 {
        lemma_in_pair_le(c, ds.drop_last(), p, a, m);
    }
}

pub proof fn lemma_total_pair_le(cs: Seq<CommitRecord>, p: Seq<char>, a: Seq<char>, m: DeltaMeasure)
    ensures
        delta_total(cs, DeltaKey::PathAuthor(p, a), m) <= delta_total(cs, DeltaKey::Path(p), m),
        delta_total(cs, DeltaKey::PathAuthor(p, a), m) <= delta_total(cs, DeltaKey::Author(a), m),
    decreases cs.len(),
{
    if cs.len() > 0 {
        lemma_total_pair_le(cs.drop_last(), p, a, m);
        lemma_in_pair_le(cs.last(), cs.last().files@, p, a, m);
    }
}

/// With no change counted under a key, no measure is counted either.
proof fn lemma_in_zero(c: CommitRecord, ds: Seq<FileDelta>, key: DeltaKey, m: DeltaMeasure)
    requires
        delta_total_in(c, ds, key, DeltaMeasure::Count) == 0,
    ensures
        delta_total_in(c, ds, key, m) == 0,
    decreases ds.len(),
{
    if ds.len() > 0 {
        lemma_in_bounds(c, ds.drop_last(), key, DeltaMeasure::Count);
        lemma_in_zero(c, ds.drop_last(), key, m);
    }
}

pub proof fn lemma_total_zero(cs: Seq<CommitRecord>, key: DeltaKey, m: DeltaMeasure)
    requires
        delta_total(cs, key, DeltaMeasure::Count) == 0,
    ensures
        delta_total(cs, key, m) == 0,
    decreases cs.len(),
{
    if cs.len() > 0 {
        lemma_total_bounds(cs.drop_last(), key, DeltaMeasure::Count);
        lemma_in_bounds(cs.last(), cs.last().files@, key, DeltaMeasure::Count);
        lemma_total_zero(cs.drop_last(), key, m);
        lemma_in_zero(cs.last(), cs.last().files@, key, m);
    }
}

/// A running tally with no change counted is zero in every measure.
proof fn lemma_ptotal_zero(cs: Seq<CommitRecord>, i: int, j: int, key: DeltaKey, m: DeltaMeasure)
    requires
        0 <= i < cs.len(),
        0 <= j <= cs[i].files@.len(),
        ptotal(cs, i, j, key, DeltaMeasure::Count) == 0,
    ensures
        ptotal(cs, i, j, key, m) == 0,
{
    lemma_total_bounds(cs.take(i), key, DeltaMeasure::Count);
    lemma_in_bounds(cs[i], cs[i].files@.take(j), key, DeltaMeasure::Count);
    lemma_total_zero(cs.take(i), key, m);
    lemma_in_zero(cs[i], cs[i].files@.take(j), key, m);
}

/// Changes by an author are counted only in commits by that author.
proof fn lemma_no_commits_no_changes(cs: Seq<CommitRecord>, a: Seq<char>, key: DeltaKey, m: DeltaMeasure)
    requires
        author_commits(cs, a) == 0,
        key == DeltaKey::Author(a) || exists|p: Seq<char>| key == DeltaKey::PathAuthor(p, a),
    ensures
        delta_total(cs, key, m) == 0,
    decreases cs.len(),
{
    if cs.len() > 0 {
        lemma_author_commits_bound(cs.drop_last(), a);
        lemma_no_commits_no_changes(cs.drop_last(), a, key, m);
        lemma_in_other_author(cs.last(), cs.last().files@, a, key, m);
    }
}

proof fn lemma_in_other_author(c: CommitRecord, ds: Seq<FileDelta>, a: Seq<char>, key: DeltaKey, m: DeltaMeasure)
    requires
        c.author_name@ != a,
        key == DeltaKey::Author(a) || exists|p: Seq<char>| key == DeltaKey::PathAuthor(p, a),
    ensures
        delta_total_in(c, ds, key, m) == 0,
    decreases ds.len(),
{
    if ds.len() > 0 {
        lemma_in_other_author(c, ds.drop_last(), a, key, m);
    }
}

/// A path that has not changed yet was last changed, as far as the tally
/// knows, at the epoch.
proof fn lemma_in_untouched(t: Timestamp, c: CommitRecord, ds: Seq<FileDelta>, p: Seq<char>)
    requires
        delta_total_in(c, ds, DeltaKey::Path(p), DeltaMeasure::Count) == 0,
    ensures
        last_touch_in(t, c, ds, p) == t,
    decreases ds.len(),
{
    if ds.len() > 0 {
        lemma_in_bounds(c, ds.drop_last(), DeltaKey::Path(p), DeltaMeasure::Count);
        lemma_in_untouched(t, c, ds.drop_last(), p);
    }
}

proof fn lemma_untouched(cs: Seq<CommitRecord>, p: Seq<char>)
    requires
        delta_total(cs, DeltaKey::Path(p), DeltaMeasure::Count) == 0,
    ensures
        last_touch(cs, p) == (Timestamp { seconds: 0, nanos: 0 }),
    decreases cs.len(),
{
    if cs.len() > 0 {
        lemma_total_bounds(cs.drop_last(), DeltaKey::Path(p), DeltaMeasure::Count);
        lemma_in_bounds(cs.last(), cs.last().files@, DeltaKey::Path(p), DeltaMeasure::Count);
        lemma_untouched(cs.drop_last(), p);
        lemma_in_untouched(last_touch(cs.drop_last(), p), cs.last(), cs.last().files@, p);
    }
}

proof fn lemma_plast_untouched(cs: Seq<CommitRecord>, i: int, j: int, p: Seq<char>)
    requires
        0 <= i < cs.len(),
        0 <= j <= cs[i].files@.len(),
        ptotal(cs, i, j, DeltaKey::Path(p), DeltaMeasure::Count) == 0,
    ensures
        plast(cs, i, j, p) == (Timestamp { seconds: 0, nanos: 0 }),
{
    lemma_total_bounds(cs.take(i), DeltaKey::Path(p), DeltaMeasure::Count);
    lemma_in_bounds(cs[i], cs[i].files@.take(j), DeltaKey::Path(p), DeltaMeasure::Count);
    lemma_untouched(cs.take(i), p);
    lemma_in_untouched(last_touch(cs.take(i), p), cs[i], cs[i].files@.take(j), p);
}

/// A change by another author leaves a contributor's running tally as it was.
proof fn lemma_contributor_other(b: ContributorBuilder, cs: Seq<CommitRecord>, i: int, j: int, a: Seq<char>)
    requires
        0 <= i < cs.len(),
        0 <= j < cs[i].files@.len(),
        cs[i].author_name@ != a,
        contributor_at(b, cs, i + 1, i, j, a),
    ensures
        contributor_at(b, cs, i + 1, i, j + 1, a),
{
    lemma_ptotal_step(cs, i, j, DeltaKey::Author(a), DeltaMeasure::Additions);
    lemma_ptotal_step(cs, i, j, DeltaKey::Author(a), DeltaMeasure::Deletions);
    assert forall|p: Seq<char>| #[trigger] lookup(b.files_touched@, p) is Some <==> ptotal(cs, i, j + 1, DeltaKey::PathAuthor(p, a), DeltaMeasure::Count) > 0 by {
        lemma_ptotal_step(cs, i, j, DeltaKey::PathAuthor(p, a), DeltaMeasure::Count);
    }
}

/// A change to another path leaves a file's running tally as it was.
proof fn lemma_file_other(b: FileChurnBuilder, cs: Seq<CommitRecord>, i: int, j: int, p: Seq<char>)
    requires
        0 <= i < cs.len(),
        0 <= j < cs[i].files@.len(),
        cs[i].files@[j].path@ != p,
        file_at(b, cs, i, j, p),
    ensures
        file_at(b, cs, i, j + 1, p),
{
    lemma_ptotal_step(cs, i, j, DeltaKey::Path(p), DeltaMeasure::Count);
    lemma_ptotal_step(cs, i, j, DeltaKey::Path(p), DeltaMeasure::Additions);
    lemma_ptotal_step(cs, i, j, DeltaKey::Path(p), DeltaMeasure::Deletions);
    lemma_plast_step(cs, i, j, p);
    assert forall|a: Seq<char>| #[trigger] lookup(b.contributors@, a) is Some <==> ptotal(cs, i, j + 1, DeltaKey::PathAuthor(p, a), DeltaMeasure::Count) > 0 by {
        lemma_ptotal_step(cs, i, j, DeltaKey::PathAuthor(p, a), DeltaMeasure::Count);
    }
    assert forall|a: Seq<char>| #[trigger] lookup(b.contributor_churn@, a) == if ptotal(cs, i, j + 1, DeltaKey::PathAuthor(p, a), DeltaMeasure::Count) > 0 {
        Some(ptotal(cs, i, j + 1, DeltaKey::PathAuthor(p, a), DeltaMeasure::Churn) as u64)
    } else {
        None
    } by {
        lemma_ptotal_step(cs, i, j, DeltaKey::PathAuthor(p, a), DeltaMeasure::Count);
        lemma_ptotal_step(cs, i, j, DeltaKey::PathAuthor(p, a), DeltaMeasure::Churn);
    }
}

/// At the end of a commit, the running tallies are those at the start of the next.
proof fn lemma_contributor_next(b: ContributorBuilder, cs: Seq<CommitRecord>, i: int, a: Seq<char>)
    requires
        0 <= i < cs.len(),
        contributor_at(b, cs, i + 1, i, cs[i].files@.len() as int, a),
    ensures
        contributor_at(b, cs, i + 1, i + 1, 0, a),
{
    let n = cs[i].files@.len() as int;
    lemma_next_commit(cs, i, DeltaKey::Author(a), DeltaMeasure::Additions, a);
    lemma_next_commit(cs, i, DeltaKey::Author(a), DeltaMeasure::Deletions, a);
    assert forall|p: Seq<char>| #[trigger] lookup(b.files_touched@, p) is Some <==> ptotal(cs, i + 1, 0, DeltaKey::PathAuthor(p, a), DeltaMeasure::Count) > 0 by {
        lemma_next_commit(cs, i, DeltaKey::PathAuthor(p, a), DeltaMeasure::Count, p);
    }
}

proof fn lemma_file_next(b: FileChurnBuilder, cs: Seq<CommitRecord>, i: int, p: Seq<char>)
    requires
        0 <= i < cs.len(),
        file_at(b, cs, i, cs[i].files@.len() as int, p),
    ensures
        file_at(b, cs, i + 1, 0, p),
{
    lemma_next_commit(cs, i, DeltaKey::Path(p), DeltaMeasure::Count, p);
    lemma_next_commit(cs, i, DeltaKey::Path(p), DeltaMeasure::Additions, p);
    lemma_next_commit(cs, i, DeltaKey::Path(p), DeltaMeasure::Deletions, p);
    assert forall|a: Seq<char>| #[trigger] lookup(b.contributors@, a) is Some <==> ptotal(cs, i + 1, 0, DeltaKey::PathAuthor(p, a), DeltaMeasure::Count) > 0 by {
        lemma_next_commit(cs, i, DeltaKey::PathAuthor(p, a), DeltaMeasure::Count, p);
    }
    assert forall|a: Seq<char>| #[trigger] lookup(b.contributor_churn@, a) == if ptotal(cs, i + 1, 0, DeltaKey::PathAuthor(p, a), DeltaMeasure::Count) > 0 {
        Some(ptotal(cs, i + 1, 0, DeltaKey::PathAuthor(p, a), DeltaMeasure::Churn) as u64)
    } else {
        None
    } by {
        lemma_next_commit(cs, i, DeltaKey::PathAuthor(p, a), DeltaMeasure::Count, p);
        lemma_next_commit(cs, i, DeltaKey::PathAuthor(p, a), DeltaMeasure::Churn, p);
    }
}

/// Counting a new commit by another author leaves a contributor's tally as it was.
proof fn lemma_contributor_new_commit(b: ContributorBuilder, cs: Seq<CommitRecord>, i: int, a: Seq<char>)
    requires
        0 <= i < cs.len(),
        cs[i].author_name@ != a,
        contributor_at(b, cs, i, i, 0, a),
    ensures
        contributor_at(b, cs, i + 1, i, 0, a),
{
    assert(cs.take(i + 1).drop_last() =~= cs.take(i));
    assert(cs.take(i + 1).last() == cs[i]);
}

/// Aggregates the history per contributor and per file: commits, lines
/// added and deleted, the files each author touched, the authors of each
/// file with their churn, and when each file last changed.
pub fn accumulate(commits: &[CommitRecord]) -> (r: (StrMap<ContributorBuilder>, StrMap<FileChurnBuilder>))
    requires
        engine_fits(commits@),
    ensures
        contributors_at(r.0@, commits@, commits@.len() as int, commits@.len() as int, 0),
        files_at(r.1@, commits@, commits@.len() as int, 0),
{
    let ghost cs = commits@;
    let mut contributors: StrMap<ContributorBuilder> = StrMap::new();
    let mut files: StrMap<FileChurnBuilder> = StrMap::new();
    let mut i: usize = 0;
    proof {
        assert(cs.take(0) =~= Seq::<CommitRecord>::empty());
        assert forall|p: Seq<char>| #[trigger] lookup(files@, p) is Some <==> ptotal(cs, 0, 0, DeltaKey::Path(p), DeltaMeasure::Count) > 0 by {
            lemma_commit_start(cs, 0, DeltaKey::Path(p), DeltaMeasure::Count, p);
        }
    }
    while i < commits.len()
        invariant
            i <= cs.len(),
            cs == commits@,
            engine_fits(cs),
            contributors_at(contributors@, cs, i as int, i as int, 0),
            files_at(files@, cs, i as int, 0),
        decreases cs.len() - i,
    {
        let commit = &commits[i];
        let ghost c = cs[i as int];
        let ghost a = c.author_name@;
        proof {
            assert(cs.take(i + 1).drop_last() =~= cs.take(i as int));
            assert(cs.take(i + 1).last() == c);
            lemma_author_commits_bound(cs.take(i as int), a);
        }
        let ghost before = contributors@;
        let ci = contributors.entry_index(commit.author_name.as_str(), ContributorBuilder::new(commit.author_name.as_str()));
        let mut cb = contributors.replace_value(ci, ContributorBuilder::new(""));
        proof {
            if author_commits(cs.take(i as int), a) == 0 {
                assert(lookup(before, a) is None);
                lemma_commit_start(cs, i as int, DeltaKey::Author(a), DeltaMeasure::Additions, a);
                lemma_commit_start(cs, i as int, DeltaKey::Author(a), DeltaMeasure::Deletions, a);
                lemma_no_commits_no_changes(cs.take(i as int), a, DeltaKey::Author(a), DeltaMeasure::Additions);
                lemma_no_commits_no_changes(cs.take(i as int), a, DeltaKey::Author(a), DeltaMeasure::Deletions);
                assert forall|p: Seq<char>| #[trigger] lookup(cb.files_touched@, p) is Some <==> ptotal(cs, i as int, 0, DeltaKey::PathAuthor(p, a), DeltaMeasure::Count) > 0 by {
                    lemma_commit_start(cs, i as int, DeltaKey::PathAuthor(p, a), DeltaMeasure::Count, p);
                    assert(DeltaKey::PathAuthor(p, a) == DeltaKey::PathAuthor(p, a));
                    lemma_no_commits_no_changes(cs.take(i as int), a, DeltaKey::PathAuthor(p, a), DeltaMeasure::Count);
                }
            } else {
                assert(lookup(before, a) == Some(cb));
            }
            assert(cb.commit_count == author_commits(cs.take(i as int), a));
        }
        cb.commit_count = cb.commit_count + 1;
        contributors.set_value(ci, cb);
        proof {
            assert forall|x: Seq<char>| {
                &&& (#[trigger] lookup(contributors@, x) is Some <==> author_commits(cs.take(i + 1), x) > 0)
                &&& (lookup(contributors@, x) matches Some(b) ==> contributor_at(b, cs, i + 1, i as int, 0, x))
            } by {
                if x != a {
                    if lookup(before, x) is Some {
                        lemma_contributor_new_commit(lookup(before, x)->0, cs, i as int, x);
                    }
                }
            }
        }

        let n = commit.files.len();
        let mut j: usize = 0;
        while j < n
            invariant
                i < cs.len(),
                cs == commits@,
                c == cs[i as int],
                commit == c,
                a == c.author_name@,
                n == c.files@.len(),
                j <= n,
                engine_fits(cs),
                contributors_at(contributors@, cs, i + 1, i as int, j as int),
                files_at(files@, cs, i as int, j as int),
                lookup(contributors@, a) is Some,
            decreases n - j,
        {
            let f = &commit.files[j];
            let ghost d = c.files@[j as int];
            let ghost p = d.path@;
            proof {
                assert(f == d);
                lemma_ptotal_le(cs, i as int, j + 1, DeltaKey::All, DeltaMeasure::Churn);
                lemma_ptotal_le(cs, i as int, j + 1, DeltaKey::PathAuthor(p, a), DeltaMeasure::Churn);
                lemma_ptotal_step(cs, i as int, j as int, DeltaKey::PathAuthor(p, a), DeltaMeasure::Churn);
                lemma_total_bounds(cs, DeltaKey::PathAuthor(p, a), DeltaMeasure::Churn);
                lemma_ptotal_le(cs, i as int, j as int, DeltaKey::PathAuthor(p, a), DeltaMeasure::Churn);
            }
            let file_churn = f.additions + f.deletions;

            // the author's tally
            let ghost cbefore = contributors@;
            let ci = contributors.entry_index(commit.author_name.as_str(), ContributorBuilder::new(""));
            let mut cb = contributors.replace_value(ci, ContributorBuilder::new(""));
            proof {
                assert(lookup(cbefore, a) == Some(cb));
                assert(contributor_at(cb, cs, i + 1, i as int, j as int, a));
                lemma_ptotal_step(cs, i as int, j as int, DeltaKey::Author(a), DeltaMeasure::Additions);
                lemma_ptotal_step(cs, i as int, j as int, DeltaKey::Author(a), DeltaMeasure::Deletions);
                lemma_ptotal_le(cs, i as int, j + 1, DeltaKey::Author(a), DeltaMeasure::Additions);
                lemma_ptotal_le(cs, i as int, j + 1, DeltaKey::Author(a), DeltaMeasure::Deletions);
                lemma_total_bounds(cs, DeltaKey::Author(a), DeltaMeasure::Additions);
                lemma_total_bounds(cs, DeltaKey::Author(a), DeltaMeasure::Deletions);
                lemma_total_bounds(cs, DeltaKey::All, DeltaMeasure::Additions);
                lemma_total_bounds(cs, DeltaKey::All, DeltaMeasure::Deletions);
            }
            cb.lines_added = cb.lines_added + f.additions;
            cb.lines_deleted = cb.lines_deleted + f.deletions;
            let ghost tbefore = cb.files_touched@;
            cb.files_touched.entry_index(f.path.as_str(), ());
            proof {
                assert forall|q: Seq<char>| #[trigger] lookup(cb.files_touched@, q) is Some <==> ptotal(cs, i as int, j + 1, DeltaKey::PathAuthor(q, a), DeltaMeasure::Count) > 0 by {
                    lemma_ptotal_step(cs, i as int, j as int, DeltaKey::PathAuthor(q, a), DeltaMeasure::Count);
                    lemma_ptotal_le(cs, i as int, j as int, DeltaKey::PathAuthor(q, a), DeltaMeasure::Count);
                }
                assert(contributor_at(cb, cs, i + 1, i as int, j + 1, a));
            }
            contributors.set_value(ci, cb);
            proof {
                assert forall|x: Seq<char>| {
                    &&& (#[trigger] lookup(contributors@, x) is Some <==> author_commits(cs.take(i + 1), x) > 0)
                    &&& (lookup(contributors@, x) matches Some(b) ==> contributor_at(b, cs, i + 1, i as int, j + 1, x))
                } by {
                    if x != a {
                        if lookup(cbefore, x) is Some {
                            lemma_contributor_other(lookup(cbefore, x)->0, cs, i as int, j as int, x);
                        }
                    }
                }
            }

            // the file's tally
            let ghost fbefore = files@;
            let fi = files.entry_index(f.path.as_str(), FileChurnBuilder::new(f.path.as_str()));
            let mut fb = files.replace_value(fi, FileChurnBuilder::new(""));
            proof {
                lemma_ptotal_step(cs, i as int, j as int, DeltaKey::Path(p), DeltaMeasure::Count);
                lemma_ptotal_step(cs, i as int, j as int, DeltaKey::Path(p), DeltaMeasure::Additions);
                lemma_ptotal_step(cs, i as int, j as int, DeltaKey::Path(p), DeltaMeasure::Deletions);
                lemma_plast_step(cs, i as int, j as int, p);
                lemma_ptotal_le(cs, i as int, j + 1, DeltaKey::Path(p), DeltaMeasure::Count);
                lemma_ptotal_le(cs, i as int, j + 1, DeltaKey::Path(p), DeltaMeasure::Additions);
                lemma_ptotal_le(cs, i as int, j + 1, DeltaKey::Path(p), DeltaMeasure::Deletions);
                lemma_ptotal_le(cs, i as int, j as int, DeltaKey::Path(p), DeltaMeasure::Count);
                lemma_total_bounds(cs, DeltaKey::Path(p), DeltaMeasure::Count);
                lemma_total_bounds(cs, DeltaKey::Path(p), DeltaMeasure::Additions);
                lemma_total_bounds(cs, DeltaKey::Path(p), DeltaMeasure::Deletions);
                if ptotal(cs, i as int, j as int, DeltaKey::Path(p), DeltaMeasure::Count) == 0 {
                    assert(lookup(fbefore, p) is None);
                    lemma_ptotal_zero(cs, i as int, j as int, DeltaKey::Path(p), DeltaMeasure::Additions);
                    lemma_ptotal_zero(cs, i as int, j as int, DeltaKey::Path(p), DeltaMeasure::Deletions);
                    lemma_plast_untouched(cs, i as int, j as int, p);
                    assert forall|x: Seq<char>| ptotal(cs, i as int, j as int, DeltaKey::PathAuthor(p, x), DeltaMeasure::Count) == 0 by {
                        lemma_total_pair_le(cs.take(i as int), p, x, DeltaMeasure::Count);
                        lemma_in_pair_le(c, c.files@.take(j as int), p, x, DeltaMeasure::Count);
                        lemma_total_bounds(cs.take(i as int), DeltaKey::PathAuthor(p, x), DeltaMeasure::Count);
                        lemma_in_bounds(c, c.files@.take(j as int), DeltaKey::PathAuthor(p, x), DeltaMeasure::Count);
                    }
                    assert(file_at(fb, cs, i as int, j as int, p));
                } else {
                    assert(lookup(fbefore, p) == Some(fb));
                }
            }
            fb.commit_count = fb.commit_count + 1;
            fb.additions = fb.additions + f.additions;
            fb.deletions = fb.deletions + f.deletions;
            fb.last_modified = fb.last_modified.later(commit.committed_at);
            let ghost ubefore = fb.contributors@;
            fb.contributors.entry_index(commit.author_name.as_str(), ());
            let ghost hbefore = fb.contributor_churn@;
            let k = fb.contributor_churn.entry_index(commit.author_name.as_str(), 0);
            let v = *fb.contributor_churn.value_at(k);
            proof {
                if lookup(hbefore, a) is None {
                    lemma_value_sum_insert(hbefore, crate::strmap::insert_pos(hbefore, a), (a, 0u64));
                }
                lemma_value_sum_update(fb.contributor_churn@, k as int, (v + file_churn) as u64);
            }
            proof {
                lemma_ptotal_le(cs, i as int, j as int, DeltaKey::PathAuthor(p, a), DeltaMeasure::Count);
                if ptotal(cs, i as int, j as int, DeltaKey::PathAuthor(p, a), DeltaMeasure::Count) == 0 {
                    lemma_ptotal_zero(cs, i as int, j as int, DeltaKey::PathAuthor(p, a), DeltaMeasure::Churn);
                    assert(lookup(hbefore, a) is None);
                } else {
                    assert(lookup(hbefore, a) == Some(v));
                }
            }
            fb.contributor_churn.set_value(k, v + file_churn);
            proof {
                assert forall|x: Seq<char>| #[trigger] lookup(fb.contributors@, x) is Some <==> ptotal(cs, i as int, j + 1, DeltaKey::PathAuthor(p, x), DeltaMeasure::Count) > 0 by {
                    lemma_ptotal_step(cs, i as int, j as int, DeltaKey::PathAuthor(p, x), DeltaMeasure::Count);
                    lemma_ptotal_le(cs, i as int, j as int, DeltaKey::PathAuthor(p, x), DeltaMeasure::Count);
                }
                assert forall|x: Seq<char>| #[trigger] lookup(fb.contributor_churn@, x) == if ptotal(cs, i as int, j + 1, DeltaKey::PathAuthor(p, x), DeltaMeasure::Count) > 0 {
                    Some(ptotal(cs, i as int, j + 1, DeltaKey::PathAuthor(p, x), DeltaMeasure::Churn) as u64)
                } else {
                    None
                } by {
                    lemma_ptotal_step(cs, i as int, j as int, DeltaKey::PathAuthor(p, x), DeltaMeasure::Count);
                    lemma_ptotal_step(cs, i as int, j as int, DeltaKey::PathAuthor(p, x), DeltaMeasure::Churn);
                    lemma_ptotal_le(cs, i as int, j as int, DeltaKey::PathAuthor(p, x), DeltaMeasure::Count);
                }
                assert(file_at(fb, cs, i as int, j + 1, p));
            }
            files.set_value(fi, fb);
            proof {
                assert forall|q: Seq<char>| {
                    &&& (#[trigger] lookup(files@, q) is Some <==> ptotal(cs, i as int, j + 1, DeltaKey::Path(q), DeltaMeasure::Count) > 0)
                    &&& (lookup(files@, q) matches Some(b) ==> file_at(b, cs, i as int, j + 1, q))
                } by {
                    lemma_ptotal_step(cs, i as int, j as int, DeltaKey::Path(q), DeltaMeasure::Count);
                    if q != p {
                        if lookup(fbefore, q) is Some {
                            lemma_file_other(lookup(fbefore, q)->0, cs, i as int, j as int, q);
                        }
                    }
                }
            }
            j = j + 1;
        }
        proof {
            assert forall|x: Seq<char>| {
                &&& (#[trigger] lookup(contributors@, x) is Some <==> author_commits(cs.take(i + 1), x) > 0)
                &&& (lookup(contributors@, x) matches Some(b) ==> contributor_at(b, cs, i + 1, i + 1, 0, x))
            } by {
                if lookup(contributors@, x) is Some {
                    lemma_contributor_next(lookup(contributors@, x)->0, cs, i as int, x);
                }
            }
            assert forall|q: Seq<char>| {
                &&& (#[trigger] lookup(files@, q) is Some <==> ptotal(cs, i + 1, 0, DeltaKey::Path(q), DeltaMeasure::Count) > 0)
                &&& (lookup(files@, q) matches Some(b) ==> file_at(b, cs, i + 1, 0, q))
            } by {
                lemma_next_commit(cs, i as int, DeltaKey::Path(q), DeltaMeasure::Count, q);
                if lookup(files@, q) is Some {
                    lemma_file_next(lookup(files@, q)->0, cs, i as int, q);
                }
            }
        }
        i = i + 1;
    }
    (contributors, files)
}

/// The churn recorded for each file's contributors, summed, per file entry.
pub open spec fn churn_scores(s: Seq<(Seq<char>, FileChurnBuilder)>) -> Seq<u64> {
    Seq::new(s.len(), |i: int| value_sum(s[i].1.contributor_churn@) as u64)
}

/// `o` describes the ownership of the file in builder `b`: an author with
/// the most churn (`unknown` with no author), that author's churn, the
/// file's total churn and its number of contributors.
pub open spec fn ownership_of(b: FileChurnBuilder, o: Ownership) -> bool {
    let churn = b.contributor_churn@;
    &&& o.path@ == b.path@
    &&& o.total_churn == value_sum(churn)
    &&& o.contributor_count == key_set(b.contributors@).len()
    &&& if key_set(churn).len() == 0 {
        o.dominant_author@ == seq!['u', 'n', 'k', 'n', 'o', 'w', 'n'] && o.dominant_churn == 0
    } else {
        &&& lookup(churn, o.dominant_author@) == Some(o.dominant_churn)
        &&& forall|a: Seq<char>| #[trigger] lookup(churn, a) matches Some(v) ==> v <= o.dominant_churn
    }
}

/// The sum of the values of a map, when it fits.
fn sum_values(m: &StrMap<u64>) -> (t: u64)
    requires
        value_sum(m@) <= u64::MAX,
    ensures
        t == value_sum(m@),
{
    let n = m.len();
    let mut t: u64 = 0;
    let mut i: usize = 0;
    while i < n
        invariant
            i <= n,
            n == m@.len(),
            value_sum(m@) <= u64::MAX,
            t == value_sum(m@.take(i as int)),
        decreases n - i,
    {
        proof {
            assert(m@.take(i + 1).drop_last() =~= m@.take(i as int));
            assert(m@ =~= m@.take(i + 1) + m@.skip(i + 1));
            crate::strmap::lemma_value_sum_concat(m@.take(i + 1), m@.skip(i + 1));
            lemma_value_sum_nonneg(m@.skip(i + 1));
        }
        t = t + *m.value_at(i);
        i = i + 1;
    }
    assert(m@.take(n as int) =~= m@);
    t
}

proof fn lemma_value_sum_nonneg(s: Seq<(Seq<char>, u64)>)
    ensures
        value_sum(s) >= 0,
    decreases s.len(),
{
    if s.len() > 0 {
        lemma_value_sum_nonneg(s.drop_last());
    }
}

/// Per-file ownership, files with the most churn first: each file's dominant
/// author (most churn), that author's churn, the total churn and the number
/// of contributors.
pub fn build_ownership(files: &StrMap<FileChurnBuilder>) -> (ownership: Vec<Ownership>)
    requires
        forall|i: int| 0 <= i < files@.len() ==> value_sum(#[trigger] files@[i].1.contributor_churn@) <= u64::MAX,
    ensures
        ownership@.len() == files@.len(),
        crate::rank::is_ranking(churn_scores(files@), crate::rank::ranking(churn_scores(files@))),
        forall|i: int| 0 <= i < ownership@.len() ==> ownership_of(files@[crate::rank::ranking(churn_scores(files@))[i]].1, #[trigger] ownership@[i]),
{
    let n = files.len();
    let mut rows: Vec<Ownership> = Vec::new();
    let mut scores: Vec<u64> = Vec::new();
    let mut i: usize = 0;
    while i < n
        invariant
            i <= n,
            n == files@.len(),
            forall|k: int| 0 <= k < files@.len() ==> value_sum(#[trigger] files@[k].1.contributor_churn@) <= u64::MAX,
            rows@.len() == i,
            scores@ =~= churn_scores(files@).take(i as int),
            forall|k: int| 0 <= k < i ==> ownership_of(files@[k].1, #[trigger] rows@[k]),
        decreases n - i,
    {
        let b = files.value_at(i);
        let churn = &b.contributor_churn;
        let total = sum_values(churn);
        let m = churn.len();
        let contributor_count = b.contributors.len();
        proof {
            lemma_key_set_len(churn@);
            lemma_key_set_len(b.contributors@);
        }
        let mut best: usize = 0;
        if m > 0 {
            let mut k: usize = 1;
            while k < m
                invariant
                    1 <= k <= m,
                    m == churn@.len(),
                    best < k,
                    forall|x: int| 0 <= x < k ==> #[trigger] churn@[x].1 <= churn@[best as int].1,
                decreases m - k,
            {
                if *churn.value_at(k) > *churn.value_at(best) {
                    best = k;
                }
                k = k + 1;
            }
        }
        let row = if m == 0 {
            let mut unknown = String::new();
            crate::text::push_str(&mut unknown, "unknown");
            proof { reveal_strlit("unknown"); }
            assert(unknown@ =~= seq!['u', 'n', 'k', 'n', 'o', 'w', 'n']);
            Ownership {
                path: owned(b.path.as_str()),
                dominant_author: unknown,
                dominant_churn: 0,
                total_churn: total,
                contributor_count: contributor_count as u64,
            }
        } else {
            proof {
                crate::strmap::lemma_lookup_index(churn@, churn@[best as int].0);
                assert forall|a: Seq<char>| #[trigger] lookup(churn@, a) is Some implies lookup(churn@, a)->0 <= churn@[best as int].1 by {
                    crate::strmap::lemma_lookup_index(churn@, a);
                    if lookup(churn@, a) is Some {
                        let x = choose|x: int| 0 <= x < churn@.len() && #[trigger] churn@[x].0 == a;
                        assert(churn@[x].1 <= churn@[best as int].1);
                    }
                }
            }
            Ownership {
                path: owned(b.path.as_str()),
                dominant_author: owned(churn.key_at(best).as_str()),
                dominant_churn: *churn.value_at(best),
                total_churn: total,
                contributor_count: contributor_count as u64,
            }
        };
        rows.push(row);
        scores.push(total);
        i = i + 1;
    }
    let order = rank_indices(&scores);
    let mut ownership: Vec<Ownership> = Vec::new();
    let mut r: usize = 0;
    while r < n
        invariant
            r <= n,
            n == files@.len(),
            rows@.len() == n,
            order@.len() == n,
            scores@ == churn_scores(files@),
            crate::rank::as_ints(order@) == crate::rank::ranking(churn_scores(files@)),
            crate::rank::is_ranking(scores@, crate::rank::as_ints(order@)),
            forall|k: int| 0 <= k < n ==> ownership_of(files@[k].1, #[trigger] rows@[k]),
            ownership@.len() == r,
            forall|k: int| 0 <= k < r ==> ownership_of(files@[crate::rank::ranking(churn_scores(files@))[k]].1, #[trigger] ownership@[k]),
        decreases n - r,
    {
        let idx = order[r];
        proof {
            assert(crate::rank::as_ints(order@)[r as int] == idx as int);
        }
        let src = &rows[idx];
        ownership.push(Ownership {
            path: owned(src.path.as_str()),
            dominant_author: owned(src.dominant_author.as_str()),
            dominant_churn: src.dominant_churn,
            total_churn: src.total_churn,
            contributor_count: src.contributor_count,
        });
        r = r + 1;
    }
    ownership
}

/// How many of the largest commits are reported.
pub const MAX_LARGEST_COMMITS: usize = 10;

/// The churn of each commit.
pub open spec fn commit_churns(cs: Seq<CommitRecord>) -> Seq<u64> {
    Seq::new(cs.len(), |i: int| files_churn(cs[i].files@) as u64)
}

/// `s` summarizes commit `c`.
pub open spec fn summary_of(c: CommitRecord, s: CommitSummary) -> bool {
    &&& s.id@ == c.id@
    &&& s.author@ == c.author_name@
    &&& s.summary@ == c.summary@
    &&& s.churn == files_churn(c.files@)
    &&& s.committed_at == c.committed_at
}

/// `out` lists the largest commits of `cs`: most churn first, ties in
/// history order, at most 10.
pub open spec fn lists_largest(cs: Seq<CommitRecord>, out: Seq<CommitSummary>) -> bool {
    &&& out.len() == if cs.len() < MAX_LARGEST_COMMITS { cs.len() as int } else { MAX_LARGEST_COMMITS as int }
    &&& forall|i: int| 0 <= i < out.len() ==> summary_of(cs[ranking(commit_churns(cs))[i]], #[trigger] out[i])
}

/// The earliest commit time of `cs` (the epoch for no commit).
pub open spec fn earliest(cs: Seq<CommitRecord>) -> Timestamp
    decreases cs.len(),
{
    if cs.len() == 0 {
        Timestamp { seconds: 0, nanos: 0 }
    } else if cs.len() == 1 {
        cs[0].committed_at
    } else {
        let e = earliest(cs.drop_last());
        if ts_le(e, cs.last().committed_at) {
            e
        } else {
            cs.last().committed_at
        }
    }
}

/// The age of the history at `now`: whole days since its earliest commit,
/// zero when that lies in the future, when there is no commit, or when
/// chrono cannot represent the instants.
pub open spec fn repository_age(cs: Seq<CommitRecord>, now: Timestamp) -> int {
    if cs.len() == 0 {
        0
    } else {
        let e = earliest(cs);
        match utc_days_between(e.seconds, e.nanos, now.seconds, now.nanos) {
            Some(d) => if d > 0 { d as int } else { 0 },
            None => 0,
        }
    }
}

/// `s` is the snapshot of the history `cs` taken at `now`, with its
/// timeline at granularity `g`.
pub open spec fn is_snapshot(cs: Seq<CommitRecord>, g: TimelineGranularity, now: Timestamp, s: RepoSnapshot) -> bool {
    &&& s.generated_at == now
    &&& s.stats.commit_count == cs.len()
    &&& s.stats.lines_added == delta_total(cs, DeltaKey::All, DeltaMeasure::Additions)
    &&& s.stats.lines_deleted == delta_total(cs, DeltaKey::All, DeltaMeasure::Deletions)
    &&& s.stats.repository_age_days == repository_age(cs, now)
    &&& lists_largest(cs, s.stats.largest_commits@)
    &&& is_breakdown(s.file_churn@, s.stats.language_breakdown@)
    &&& is_bus_factor(ranked_scores(contributor_churns(s.contributors@)), s.stats.bus_factor.bus_factor as int)
    &&& reports_at_risk(s.ownership@, s.stats.bus_factor.at_risk_files@)
    &&& contributor_rows(cs, s.contributors@)
    &&& file_rows(cs, s.file_churn@)
    &&& counts_buckets(commit_buckets(cs, g), s.timeline@)
    &&& points_sum(s.timeline@) == timed_count(cs)
    &&& ownership_rows(cs, s.ownership@)
    &&& reports_coupling(cs, s.coupling@)
    &&& s.commits@ == cs
}

/// A commit's churn is its share of the history's churn.
proof fn lemma_files_churn_in(c: CommitRecord, ds: Seq<FileDelta>)
    ensures
        files_churn(ds) == delta_total_in(c, ds, DeltaKey::All, DeltaMeasure::Churn),
    decreases ds.len(),
{
    if ds.len() > 0 {
        lemma_files_churn_in(c, ds.drop_last());
    }
}

/// One commit's churn is at most the history's churn.
proof fn lemma_commit_churn_le(cs: Seq<CommitRecord>, i: int)
    requires
        0 <= i < cs.len(),
    ensures
        0 <= files_churn(cs[i].files@) <= delta_total(cs, DeltaKey::All, DeltaMeasure::Churn),
{
    lemma_total_prefix(cs, i + 1, DeltaKey::All, DeltaMeasure::Churn);
    assert(cs.take(i + 1).drop_last() =~= cs.take(i));
    assert(cs.take(i + 1).last() == cs[i]);
    lemma_total_bounds(cs.take(i), DeltaKey::All, DeltaMeasure::Churn);
    lemma_files_churn_in(cs[i], cs[i].files@);
    lemma_in_bounds(cs[i], cs[i].files@, DeltaKey::All, DeltaMeasure::Churn);
}

/// The largest commits by churn, ties in history order, at most 10.
pub fn largest_commits(commits: &[CommitRecord]) -> (out: Vec<CommitSummary>)
    requires
        engine_fits(commits@),
    ensures
        lists_largest(commits@, out@),
{
    let ghost cs = commits@;
    let n = commits.len();
    let mut scores: Vec<u64> = Vec::new();
    let mut i: usize = 0;
    while i < n
        invariant
            i <= n,
            n == cs.len(),
            cs == commits@,
            engine_fits(cs),
            scores@ =~= commit_churns(cs).take(i as int),
        decreases n - i,
    {
        proof {
            lemma_commit_churn_le(cs, i as int);
            lemma_files_churn_prefix(cs[i as int].files@, 0);
        }
        scores.push(commits[i].total_churn());
        i = i + 1;
    }
    assert(scores@ =~= commit_churns(cs));
    let order = rank_indices(&scores);
    assert forall|x: int| 0 <= x < n implies #[trigger] order@[x] < n by {
        assert(as_ints(order@)[x] == order@[x] as int);
    }
    assert forall|x: int| 0 <= x < n implies files_churn(#[trigger] cs[x].files@) <= u64::MAX && files_churn(cs[x].files@) >= 0 by {
        lemma_commit_churn_le(cs, x);
    }
    let m = if n < MAX_LARGEST_COMMITS { n } else { MAX_LARGEST_COMMITS };
    let mut out: Vec<CommitSummary> = Vec::new();
    let mut r: usize = 0;
    while r < m
        invariant
            r <= m,
            m <= n,
            m == if cs.len() < MAX_LARGEST_COMMITS { cs.len() as int } else { MAX_LARGEST_COMMITS as int },
            n == cs.len(),
            cs == commits@,
            order@.len() == n,
            scores@ == commit_churns(cs),
            as_ints(order@) == ranking(commit_churns(cs)),
            forall|x: int| 0 <= x < n ==> #[trigger] order@[x] < n,
            forall|x: int| 0 <= x < n ==> files_churn(#[trigger] cs[x].files@) <= u64::MAX && files_churn(cs[x].files@) >= 0,
            out@.len() == r,
            forall|q: int| 0 <= q < r ==> summary_of(cs[ranking(commit_churns(cs))[q]], #[trigger] out@[q]),
        decreases m - r,
    {
        let idx = order[r];
        assert(as_ints(order@)[r as int] == idx as int);
        let c = &commits[idx];
        out.push(CommitSummary {
            id: owned(c.id.as_str()),
            author: owned(c.author_name.as_str()),
            summary: owned(c.summary.as_str()),
            churn: scores[idx],
            committed_at: c.committed_at,
        });
        r = r + 1;
    }
    out
}

/// The earliest commit time.
fn earliest_commit(commits: &[CommitRecord]) -> (t: Timestamp)
    requires
        commits@.len() > 0,
    ensures
        t == earliest(commits@),
{
    let mut e = commits[0].committed_at;
    let mut i: usize = 1;
    assert(commits@.take(1) =~= seq![commits@[0]]);
    while i < commits.len()
        invariant
            1 <= i <= commits@.len(),
            e == earliest(commits@.take(i as int)),
        decreases commits@.len() - i,
    {
        let t = commits[i].committed_at;
        proof {
            assert(commits@.take(i + 1).drop_last() =~= commits@.take(i as int));
            assert(commits@.take(i + 1).last() == commits@[i as int]);
        }
        if !(e.seconds < t.seconds || (e.seconds == t.seconds && e.nanos <= t.nanos)) {
            e = t;
        }
        i = i + 1;
    }
    assert(commits@.take(commits@.len() as int) =~= commits@);
    e
}

/// The age of the history at `now`, in whole days since its earliest commit.
pub fn repository_age_days(commits: &[CommitRecord], now: Timestamp) -> (days: u64)
    ensures
        days == repository_age(commits@, now),
{
    if commits.len() == 0 {
        return 0;
    }
    let start = earliest_commit(commits);
    match days_between_utc(start, now) {
        Some(d) => if d > 0 { d as u64 } else { 0 },
        None => 0,
    }
}

/// Lines added and deleted over the whole history.
fn history_totals(commits: &[CommitRecord]) -> (r: (u64, u64))
    requires
        engine_fits(commits@),
    ensures
        r.0 == delta_total(commits@, DeltaKey::All, DeltaMeasure::Additions),
        r.1 == delta_total(commits@, DeltaKey::All, DeltaMeasure::Deletions),
{
    let ghost cs = commits@;
    let mut added: u64 = 0;
    let mut deleted: u64 = 0;
    let mut i: usize = 0;
    proof {
        lemma_commit_start(cs, 0, DeltaKey::All, DeltaMeasure::Additions, seq![]);
        lemma_commit_start(cs, 0, DeltaKey::All, DeltaMeasure::Deletions, seq![]);
        assert(cs.take(0) =~= Seq::<CommitRecord>::empty());
    }
    while i < commits.len()
        invariant
            i <= cs.len(),
            cs == commits@,
            engine_fits(cs),
            added == ptotal(cs, i as int, 0, DeltaKey::All, DeltaMeasure::Additions),
            deleted == ptotal(cs, i as int, 0, DeltaKey::All, DeltaMeasure::Deletions),
        decreases cs.len() - i,
    {
        let files = &commits[i].files;
        let mut j: usize = 0;
        while j < files.len()
            invariant
                i < cs.len(),
                cs == commits@,
                files@ == cs[i as int].files@,
                j <= files@.len(),
                engine_fits(cs),
                added == ptotal(cs, i as int, j as int, DeltaKey::All, DeltaMeasure::Additions),
                deleted == ptotal(cs, i as int, j as int, DeltaKey::All, DeltaMeasure::Deletions),
            decreases files@.len() - j,
        {
            proof {
                lemma_ptotal_step(cs, i as int, j as int, DeltaKey::All, DeltaMeasure::Additions);
                lemma_ptotal_step(cs, i as int, j as int, DeltaKey::All, DeltaMeasure::Deletions);
                lemma_ptotal_le(cs, i as int, j + 1, DeltaKey::All, DeltaMeasure::Additions);
                lemma_ptotal_le(cs, i as int, j + 1, DeltaKey::All, DeltaMeasure::Deletions);
                lemma_total_bounds(cs, DeltaKey::All, DeltaMeasure::Additions);
                lemma_total_bounds(cs, DeltaKey::All, DeltaMeasure::Deletions);
            }
            added = added + files[j].additions;
            deleted = deleted + files[j].deletions;
            j = j + 1;
        }
        proof {
            lemma_next_commit(cs, i as int, DeltaKey::All, DeltaMeasure::Additions, seq![]);
            lemma_next_commit(cs, i as int, DeltaKey::All, DeltaMeasure::Deletions, seq![]);
        }
        i = i + 1;
    }
    proof {
        lemma_final_totals(cs, DeltaKey::All, DeltaMeasure::Additions, seq![]);
        lemma_final_totals(cs, DeltaKey::All, DeltaMeasure::Deletions, seq![]);
    }
    (added, deleted)
}

/// The snapshot of the analytics of a history, taken at `now`: repository
/// totals, contributors, files, timeline, ownership, coupling, bus factor,
/// largest commits and languages.
pub fn analyze_at(commits: Vec<CommitRecord>, granularity: TimelineGranularity, now: Timestamp) -> (snapshot: RepoSnapshot)
    requires
        engine_fits(commits@),
        coupling_fits(commits@),
    ensures
        is_snapshot(commits@, granularity, now, snapshot),
{
    let ghost cs = commits@;
    let (mut contributors, mut files) = accumulate(commits.as_slice());
    let largest = largest_commits(commits.as_slice());

    // `len` brings in the map's invariant: its keys are sorted.
    let _ = files.len();
    proof {
        assert forall|i: int| 0 <= i < files@.len() implies value_sum(#[trigger] files@[i].1.contributor_churn@) <= u64::MAX by {
            let p = files@[i].0;
            lemma_final_totals(cs, DeltaKey::Path(p), DeltaMeasure::Count, p);
            crate::strmap::lemma_lookup_index(files@, p);
            assert(lookup(files@, p) == Some(files@[i].1));
            lemma_file_done(files@[i].1, cs, p);
            lemma_add_del(cs, DeltaKey::Path(p));
            lemma_total_bounds(cs, DeltaKey::Path(p), DeltaMeasure::Churn);
        }
    }
    let ownership = build_ownership(&files);
    proof {
        lemma_ownership_rows(files@, cs, ownership@);
    }
    let coupling = build_coupling(commits.as_slice());
    let contributor_list = rank_contributors(&mut contributors, commits.as_slice());
    let file_churn = rank_files(&mut files, commits.as_slice());
    proof {
        assert forall|i: int| 0 <= i < contributor_list@.len() implies #[trigger] contributor_list@[i].lines_added + contributor_list@[i].lines_deleted <= u64::MAX by {
            let a = contributor_list@[i].name@;
            assert(contributor_row(cs, contributor_list@[i]));
            lemma_add_del(cs, DeltaKey::Author(a));
            lemma_total_bounds(cs, DeltaKey::Author(a), DeltaMeasure::Churn);
        }
        law_file_totals(cs, file_churn@);
        lemma_total_bounds(cs, DeltaKey::All, DeltaMeasure::Churn);
        assert forall|l: Seq<char>| #[trigger] crate::analytics::languages::lang_churn(file_churn@, l) <= u64::MAX by {
            lemma_lang_churn_le(file_churn@, l);
        }
    }
    let bus_factor = build_bus_factor(contributor_list.as_slice(), ownership.as_slice());
    let timeline = build_timeline(commits.as_slice(), granularity);
    let language_breakdown = build_language_breakdown(file_churn.as_slice());
    let (lines_added, lines_deleted) = history_totals(commits.as_slice());
    let repository_age = repository_age_days(commits.as_slice(), now);
    let commit_count = commits.len() as u64;
    RepoSnapshot {
        generated_at: now,
        stats: RepoStats {
            commit_count,
            lines_added,
            lines_deleted,
            repository_age_days: repository_age,
            largest_commits: largest,
            language_breakdown,
            bus_factor,
        },
        contributors: contributor_list,
        file_churn,
        timeline,
        ownership,
        coupling,
        commits,
    }
}

/// Analyzes a history as of now (`options.granularity` sets the timeline's
/// buckets); the snapshot records when it was taken.
pub fn analyze(commits: Vec<CommitRecord>, options: &AnalysisOptions) -> (snapshot: RepoSnapshot)
    requires
        engine_fits(commits@),
        coupling_fits(commits@),
    ensures
        is_snapshot(commits@, options.granularity, snapshot.generated_at, snapshot),
{
    let now = now_utc();
    analyze_at(commits, options.granularity, now)
}

} // verus!
