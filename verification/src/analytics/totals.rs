//! How the per-contributor and per-file rows add up to the totals of the
//! history: every change belongs to exactly one author and one path.
use vstd::prelude::*;

use crate::analytics::engine::{
    author_commits, delta_measure, delta_total, delta_total_in, lemma_in_bounds, lemma_total_bounds, DeltaKey,
    DeltaMeasure,
};
use crate::analytics::rows::{contributor_row, contributor_rows, file_row, file_rows};
use crate::analytics::engine::{is_snapshot, lemma_add_del};
use crate::models::{CommitRecord, ContributorStats, FileChurn, FileDelta, RepoSnapshot, TimelineGranularity, Timestamp};
use crate::order::lemma_lt_irreflexive;
use crate::analytics::timeline::{all_timed, lemma_all_timed, points_sum};

verus! {

/// The sum of `f` over `keys`.
pub open spec fn key_sum(keys: Seq<Seq<char>>, f: spec_fn(Seq<char>) -> int) -> int
    decreases keys.len(),
{
    if keys.len() == 0 {
        0
    } else {
        key_sum(keys.drop_last(), f) + f(keys.last())
    }
}

/// Lines added over contributor rows.
pub open spec fn added_sum(rows: Seq<ContributorStats>) -> int
    decreases rows.len(),
{
    if rows.len() == 0 {
        0
    } else {
        added_sum(rows.drop_last()) + rows.last().lines_added
    }
}

/// Lines deleted over contributor rows.
pub open spec fn deleted_sum(rows: Seq<ContributorStats>) -> int
    decreases rows.len(),
{
    if rows.len() == 0 {
        0
    } else {
        deleted_sum(rows.drop_last()) + rows.last().lines_deleted
    }
}

/// Commits over contributor rows.
pub open spec fn commits_sum(rows: Seq<ContributorStats>) -> int
    decreases rows.len(),
{
    if rows.len() == 0 {
        0
    } else {
        commits_sum(rows.drop_last()) + rows.last().commit_count
    }
}

/// Churn (lines added plus deleted) over file rows.
pub open spec fn churn_sum(rows: Seq<FileChurn>) -> int
    decreases rows.len(),
{
    if rows.len() == 0 {
        0
    } else {
        churn_sum(rows.drop_last()) + rows.last().additions + rows.last().deletions
    }
}

pub proof fn lemma_key_sum_split(keys: Seq<Seq<char>>, f: spec_fn(Seq<char>) -> int, g: spec_fn(Seq<char>) -> int, h: spec_fn(Seq<char>) -> int)
    requires
        forall|k: Seq<char>| #[trigger] h(k) == f(k) + g(k),
    ensures
        key_sum(keys, h) == key_sum(keys, f) + key_sum(keys, g),
    decreases keys.len(),
{
    if keys.len() > 0 {
        lemma_key_sum_split(keys.drop_last(), f, g, h);
    }
}

pub proof fn lemma_key_sum_zero(keys: Seq<Seq<char>>, f: spec_fn(Seq<char>) -> int)
    requires
        forall|i: int| 0 <= i < keys.len() ==> f(#[trigger] keys[i]) == 0,
    ensures
        key_sum(keys, f) == 0,
    decreases keys.len(),
{
    if keys.len() > 0 {
        let t = keys.drop_last();
        assert forall|i: int| 0 <= i < t.len() implies f(#[trigger] t[i]) == 0 by {
            assert(t[i] == keys[i]);
        }
        lemma_key_sum_zero(t, f);
        assert(f(keys[keys.len() - 1]) == 0);
    }
}

/// Summing a function that is `v` at `x` and zero elsewhere over keys that
/// hold `x` once gives `v`.
pub proof fn lemma_key_sum_single(keys: Seq<Seq<char>>, f: spec_fn(Seq<char>) -> int, x: Seq<char>, v: int)
    requires
        keys.no_duplicates(),
        keys.contains(x),
        forall|k: Seq<char>| #[trigger] f(k) == if k == x { v } else { 0 },
    ensures
        key_sum(keys, f) == v,
    decreases keys.len(),
{
    let t = keys.drop_last();
    assert forall|i: int, j: int| 0 <= i < t.len() && 0 <= j < t.len() && i != j implies t[i] != t[j] by {
        assert(t[i] == keys[i] && t[j] == keys[j]);
    }
    if keys.last() == x {
        assert forall|i: int| 0 <= i < t.len() implies f(#[trigger] t[i]) == 0 by {
            assert(t[i] == keys[i]);
            assert(keys[keys.len() - 1] == x);
        }
        lemma_key_sum_zero(t, f);
    } else {
        let i = choose|i: int| 0 <= i < keys.len() && keys[i] == x;
        assert(i < keys.len() - 1);
        assert(t[i] == x);
        lemma_key_sum_single(t, f, x, v);
    }
}

/// A change counts under its own path.
proof fn lemma_in_count_pos(c: CommitRecord, ds: Seq<FileDelta>, j: int)
    requires
        0 <= j < ds.len(),
    ensures
        delta_total_in(c, ds, DeltaKey::Path(ds[j].path@), DeltaMeasure::Count) >= 1,
    decreases ds.len(),
{
    let p = ds[j].path@;
    lemma_in_bounds(c, ds.drop_last(), DeltaKey::Path(p), DeltaMeasure::Count);
    if j < ds.len() - 1 {
        assert(ds.drop_last()[j] == ds[j]);
        lemma_in_count_pos(c, ds.drop_last(), j);
    }
}

/// Over the changes of one commit, the per-path tallies add up to the
/// commit's tally.
proof fn lemma_in_path_partition(c: CommitRecord, ds: Seq<FileDelta>, keys: Seq<Seq<char>>, m: DeltaMeasure)
    requires
        keys.no_duplicates(),
        forall|j: int| 0 <= j < ds.len() ==> keys.contains(#[trigger] ds[j].path@),
    ensures
        key_sum(keys, |p: Seq<char>| delta_total_in(c, ds, DeltaKey::Path(p), m)) == delta_total_in(c, ds, DeltaKey::All, m),
    decreases ds.len(),
{
    let h = |p: Seq<char>| delta_total_in(c, ds, DeltaKey::Path(p), m);
    if ds.len() == 0 {
        lemma_key_sum_zero(keys, h);
    } else {
        let t = ds.drop_last();
        let d = ds.last();
        assert forall|j: int| 0 <= j < t.len() implies keys.contains(#[trigger] t[j].path@) by {
            assert(t[j] == ds[j]);
        }
        lemma_in_path_partition(c, t, keys, m);
        let f = |p: Seq<char>| delta_total_in(c, t, DeltaKey::Path(p), m);
        let g = |p: Seq<char>| if d.path@ == p { delta_measure(m, d) } else { 0 };
        assert forall|k: Seq<char>| #[trigger] h(k) == f(k) + g(k) by {}
        lemma_key_sum_split(keys, f, g, h);
        assert(keys.contains(ds[ds.len() - 1].path@));
        lemma_key_sum_single(keys, g, d.path@, delta_measure(m, d));
    }
}

/// Over a history, the per-path tallies add up to the history's tally.
pub proof fn lemma_path_partition(cs: Seq<CommitRecord>, keys: Seq<Seq<char>>, m: DeltaMeasure)
    requires
        keys.no_duplicates(),
        forall|p: Seq<char>| #[trigger] delta_total(cs, DeltaKey::Path(p), DeltaMeasure::Count) > 0 ==> keys.contains(p),
    ensures
        key_sum(keys, |p: Seq<char>| delta_total(cs, DeltaKey::Path(p), m)) == delta_total(cs, DeltaKey::All, m),
    decreases cs.len(),
{
    let h = |p: Seq<char>| delta_total(cs, DeltaKey::Path(p), m);
    if cs.len() == 0 {
        lemma_key_sum_zero(keys, h);
    } else {
        let t = cs.drop_last();
        let c = cs.last();
        assert forall|p: Seq<char>| #[trigger] delta_total(t, DeltaKey::Path(p), DeltaMeasure::Count) > 0 implies keys.contains(p) by {
            lemma_in_bounds(c, c.files@, DeltaKey::Path(p), DeltaMeasure::Count);
            assert(delta_total(cs, DeltaKey::Path(p), DeltaMeasure::Count) > 0);
        }
        lemma_path_partition(t, keys, m);
        assert forall|j: int| 0 <= j < c.files@.len() implies keys.contains(#[trigger] c.files@[j].path@) by {
            let p = c.files@[j].path@;
            lemma_in_count_pos(c, c.files@, j);
            lemma_total_bounds(t, DeltaKey::Path(p), DeltaMeasure::Count);
            assert(delta_total(cs, DeltaKey::Path(p), DeltaMeasure::Count) > 0);
        }
        lemma_in_path_partition(c, c.files@, keys, m);
        let f = |p: Seq<char>| delta_total(t, DeltaKey::Path(p), m);
        let g = |p: Seq<char>| delta_total_in(c, c.files@, DeltaKey::Path(p), m);
        assert forall|k: Seq<char>| #[trigger] h(k) == f(k) + g(k) by {}
        lemma_key_sum_split(keys, f, g, h);
    }
}

/// A commit's changes all count under its author, and under no other.
proof fn lemma_in_author(c: CommitRecord, ds: Seq<FileDelta>, a: Seq<char>, m: DeltaMeasure)
    ensures
        delta_total_in(c, ds, DeltaKey::Author(a), m) == if c.author_name@ == a { delta_total_in(c, ds, DeltaKey::All, m) } else { 0 },
    decreases ds.len(),
{
    if ds.len() > 0 {
        lemma_in_author(c, ds.drop_last(), a, m);
    }
}

/// Over a history, the per-author tallies add up to the history's tally.
pub proof fn lemma_author_partition(cs: Seq<CommitRecord>, keys: Seq<Seq<char>>, m: DeltaMeasure)
    requires
        keys.no_duplicates(),
        forall|a: Seq<char>| #[trigger] author_commits(cs, a) > 0 ==> keys.contains(a),
    ensures
        key_sum(keys, |a: Seq<char>| delta_total(cs, DeltaKey::Author(a), m)) == delta_total(cs, DeltaKey::All, m),
        key_sum(keys, |a: Seq<char>| author_commits(cs, a)) == cs.len(),
    decreases cs.len(),
{
    let h = |a: Seq<char>| delta_total(cs, DeltaKey::Author(a), m);
    let hc = |a: Seq<char>| author_commits(cs, a);
    if cs.len() == 0 {
        lemma_key_sum_zero(keys, h);
        lemma_key_sum_zero(keys, hc);
    } else {
        let t = cs.drop_last();
        let c = cs.last();
        let x = c.author_name@;
        assert forall|a: Seq<char>| #[trigger] author_commits(t, a) > 0 implies keys.contains(a) by {
            assert(author_commits(cs, a) > 0);
        }
        lemma_author_partition(t, keys, m);
        crate::analytics::engine::lemma_author_commits_bound(t, x);
        assert(author_commits(cs, x) > 0);
        let f = |a: Seq<char>| delta_total(t, DeltaKey::Author(a), m);
        let g = |a: Seq<char>| if x == a { delta_total_in(c, c.files@, DeltaKey::All, m) } else { 0 };
        assert forall|k: Seq<char>| #[trigger] h(k) == f(k) + g(k) by {
            lemma_in_author(c, c.files@, k, m);
        }
        lemma_key_sum_split(keys, f, g, h);
        lemma_key_sum_single(keys, g, x, delta_total_in(c, c.files@, DeltaKey::All, m));
        let fc = |a: Seq<char>| author_commits(t, a);
        let gc = |a: Seq<char>| if x == a { 1int } else { 0int };
        assert forall|k: Seq<char>| #[trigger] hc(k) == fc(k) + gc(k) by {}
        lemma_key_sum_split(keys, fc, gc, hc);
        lemma_key_sum_single(keys, gc, x, 1);
    }
}

/// The names of contributor rows.
pub open spec fn row_names(rows: Seq<ContributorStats>) -> Seq<Seq<char>> {
    rows.map_values(|r: ContributorStats| r.name@)
}

/// The paths of file rows.
pub open spec fn row_paths(rows: Seq<FileChurn>) -> Seq<Seq<char>> {
    rows.map_values(|r: FileChurn| r.path@)
}

proof fn lemma_contributor_sums(cs: Seq<CommitRecord>, rows: Seq<ContributorStats>)
    requires
        forall|i: int| 0 <= i < rows.len() ==> contributor_row(cs, #[trigger] rows[i]),
    ensures
        added_sum(rows) == key_sum(row_names(rows), |a: Seq<char>| delta_total(cs, DeltaKey::Author(a), DeltaMeasure::Additions)),
        deleted_sum(rows) == key_sum(row_names(rows), |a: Seq<char>| delta_total(cs, DeltaKey::Author(a), DeltaMeasure::Deletions)),
        commits_sum(rows) == key_sum(row_names(rows), |a: Seq<char>| author_commits(cs, a)),
    decreases rows.len(),
{
    if rows.len() > 0 {
        let t = rows.drop_last();
        assert forall|i: int| 0 <= i < t.len() implies contributor_row(cs, #[trigger] t[i]) by {
            assert(t[i] == rows[i]);
        }
        lemma_contributor_sums(cs, t);
        assert(row_names(rows).drop_last() =~= row_names(t));
        assert(contributor_row(cs, rows[rows.len() - 1]));
    }
}

proof fn lemma_file_sums(cs: Seq<CommitRecord>, rows: Seq<FileChurn>)
    requires
        forall|i: int| 0 <= i < rows.len() ==> file_row(cs, #[trigger] rows[i]),
    ensures
        churn_sum(rows) == key_sum(row_paths(rows), |p: Seq<char>| delta_total(cs, DeltaKey::Path(p), DeltaMeasure::Churn)),
    decreases rows.len(),
{
    if rows.len() > 0 {
        let t = rows.drop_last();
        assert forall|i: int| 0 <= i < t.len() implies file_row(cs, #[trigger] t[i]) by {
            assert(t[i] == rows[i]);
        }
        lemma_file_sums(cs, t);
        assert(row_paths(rows).drop_last() =~= row_paths(t));
        let p = rows[rows.len() - 1].path@;
        assert(file_row(cs, rows[rows.len() - 1]));
        crate::analytics::engine::lemma_add_del(cs, DeltaKey::Path(p));
    }
}

/// The contributors of a history account for all of it: their lines added,
/// their lines deleted and their commits add up to those of the history.
pub proof fn law_contributor_totals(cs: Seq<CommitRecord>, rows: Seq<ContributorStats>)
    requires
        contributor_rows(cs, rows),
    ensures
        added_sum(rows) == delta_total(cs, DeltaKey::All, DeltaMeasure::Additions),
        deleted_sum(rows) == delta_total(cs, DeltaKey::All, DeltaMeasure::Deletions),
        commits_sum(rows) == cs.len(),
{
    let names = row_names(rows);
    assert forall|i: int, j: int| 0 <= i < names.len() && 0 <= j < names.len() && i != j implies names[i] != names[j] by {
        let (a, b) = if i < j { (i, j) } else { (j, i) };
        assert(contributor_row(cs, rows[a]) && contributor_row(cs, rows[b]));
        if rows[a].name@ == rows[b].name@ {
            lemma_lt_irreflexive(rows[a].name@);
        }
    }
    assert forall|a: Seq<char>| #[trigger] author_commits(cs, a) > 0 implies names.contains(a) by {
        assert(crate::analytics::rows::contributor_listed(rows, a));
        let i = choose|i: int| 0 <= i < rows.len() && #[trigger] rows[i].name@ == a;
        assert(names[i] == a);
    }
    lemma_contributor_sums(cs, rows);
    lemma_author_partition(cs, names, DeltaMeasure::Additions);
    lemma_author_partition(cs, names, DeltaMeasure::Deletions);
}

/// The files of a history account for all of its churn.
pub proof fn law_file_totals(cs: Seq<CommitRecord>, rows: Seq<FileChurn>)
    requires
        file_rows(cs, rows),
    ensures
        churn_sum(rows) == delta_total(cs, DeltaKey::All, DeltaMeasure::Churn),
{
    let paths = row_paths(rows);
    assert forall|i: int, j: int| 0 <= i < paths.len() && 0 <= j < paths.len() && i != j implies paths[i] != paths[j] by {
        let (a, b) = if i < j { (i, j) } else { (j, i) };
        assert(file_row(cs, rows[a]) && file_row(cs, rows[b]));
        if rows[a].path@ == rows[b].path@ {
            lemma_lt_irreflexive(rows[a].path@);
        }
    }
    assert forall|p: Seq<char>| #[trigger] delta_total(cs, DeltaKey::Path(p), DeltaMeasure::Count) > 0 implies paths.contains(p) by {
        assert(crate::analytics::rows::file_listed(rows, p));
        let i = choose|i: int| 0 <= i < rows.len() && #[trigger] rows[i].path@ == p;
        assert(paths[i] == p);
    }
    lemma_file_sums(cs, rows);
    lemma_path_partition(cs, paths, DeltaMeasure::Churn);
}

/// In a snapshot, the contributors' lines added, lines deleted and commits
/// add up to the repository's totals, the files' churn adds up to all lines
/// added and deleted, and, when chrono can represent every commit time, the
/// timeline's counts add up to the number of commits.
pub proof fn law_snapshot_totals(cs: Seq<CommitRecord>, g: TimelineGranularity, now: Timestamp, s: RepoSnapshot)
    requires
        is_snapshot(cs, g, now, s),
    ensures
        added_sum(s.contributors@) == s.stats.lines_added,
        deleted_sum(s.contributors@) == s.stats.lines_deleted,
        commits_sum(s.contributors@) == s.stats.commit_count,
        churn_sum(s.file_churn@) == s.stats.lines_added + s.stats.lines_deleted,
        all_timed(cs) ==> points_sum(s.timeline@) == s.stats.commit_count,
{
    if all_timed(cs) {
        lemma_all_timed(cs);
    }
    law_contributor_totals(cs, s.contributors@);
    law_file_totals(cs, s.file_churn@);
    lemma_add_del(cs, DeltaKey::All);
}

} // verus!
