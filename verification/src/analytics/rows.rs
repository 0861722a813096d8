//! The per-contributor, per-file and per-owner rows of a snapshot, as they
//! follow from the history, and their ranking.
use vstd::prelude::*;

use crate::analytics::engine::{
    author_commits, churn_scores, contributor_at, contributors_at, delta_total, engine_fits, file_at, files_at,
    last_touch, lemma_add_del, lemma_commit_start, lemma_total_bounds, lemma_total_pair_le, ownership_of, plast,
    ptotal, ContributorBuilder, DeltaKey, DeltaMeasure, FileChurnBuilder,
};
use crate::models::{CommitRecord, ContributorStats, FileChurn, Ownership};
use crate::order::str_lt;
use crate::rank::{as_ints, is_ranking, lemma_ranked_entries, rank_indices, ranking};
use crate::strmap::{key_set, lemma_lookup_index, lookup, sorted_keys, value_sum, StrMap};
use crate::text::owned;

verus! {

/// The paths that author `a` changed.
pub open spec fn paths_touched(cs: Seq<CommitRecord>, a: Seq<char>) -> Set<Seq<char>> {
    Set::new(|p: Seq<char>| delta_total(cs, DeltaKey::PathAuthor(p, a), DeltaMeasure::Count) > 0)
}

/// The authors who changed path `p`.
pub open spec fn authors_of(cs: Seq<CommitRecord>, p: Seq<char>) -> Set<Seq<char>> {
    Set::new(|a: Seq<char>| delta_total(cs, DeltaKey::PathAuthor(p, a), DeltaMeasure::Count) > 0)
}

/// `row` holds the totals of an author of `cs`.
pub open spec fn contributor_row(cs: Seq<CommitRecord>, row: ContributorStats) -> bool {
    let a = row.name@;
    &&& author_commits(cs, a) > 0
    &&& row.commit_count == author_commits(cs, a)
    &&& row.lines_added == delta_total(cs, DeltaKey::Author(a), DeltaMeasure::Additions)
    &&& row.lines_deleted == delta_total(cs, DeltaKey::Author(a), DeltaMeasure::Deletions)
    &&& row.files_touched == paths_touched(cs, a).len()
}

/// Author `a` has a row in `rows`.
pub open spec fn contributor_listed(rows: Seq<ContributorStats>, a: Seq<char>) -> bool {
    exists|i: int| 0 <= i < rows.len() && #[trigger] rows[i].name@ == a
}

/// `rows` are the contributors of `cs`: one row per author, most commits
/// first, ties by name.
pub open spec fn contributor_rows(cs: Seq<CommitRecord>, rows: Seq<ContributorStats>) -> bool {
    &&& forall|i: int| 0 <= i < rows.len() ==> contributor_row(cs, #[trigger] rows[i])
    &&& forall|i: int, j: int| 0 <= i < j < rows.len() ==> #[trigger] rows[i].commit_count > #[trigger] rows[j].commit_count
        || (rows[i].commit_count == rows[j].commit_count && str_lt(rows[i].name@, rows[j].name@))
    &&& forall|a: Seq<char>| #[trigger] author_commits(cs, a) > 0 ==> contributor_listed(rows, a)
}

/// `row` holds the totals of a path changed in `cs`.
pub open spec fn file_row(cs: Seq<CommitRecord>, row: FileChurn) -> bool {
    let p = row.path@;
    &&& delta_total(cs, DeltaKey::Path(p), DeltaMeasure::Count) > 0
    &&& row.commit_count == delta_total(cs, DeltaKey::Path(p), DeltaMeasure::Count)
    &&& row.additions == delta_total(cs, DeltaKey::Path(p), DeltaMeasure::Additions)
    &&& row.deletions == delta_total(cs, DeltaKey::Path(p), DeltaMeasure::Deletions)
    &&& row.contributor_count == authors_of(cs, p).len()
    &&& row.last_modified == last_touch(cs, p)
}

/// Path `p` has a row in `rows`.
pub open spec fn file_listed(rows: Seq<FileChurn>, p: Seq<char>) -> bool {
    exists|i: int| 0 <= i < rows.len() && #[trigger] rows[i].path@ == p
}

/// `rows` are the files of `cs`: one row per changed path, most churn
/// first, ties by path.
pub open spec fn file_rows(cs: Seq<CommitRecord>, rows: Seq<FileChurn>) -> bool {
    &&& forall|i: int| 0 <= i < rows.len() ==> file_row(cs, #[trigger] rows[i])
    &&& forall|i: int, j: int| 0 <= i < j < rows.len() ==> #[trigger] rows[i].additions + rows[i].deletions > #[trigger] rows[j].additions + rows[j].deletions
        || (rows[i].additions + rows[i].deletions == rows[j].additions + rows[j].deletions && str_lt(rows[i].path@, rows[j].path@))
    &&& forall|p: Seq<char>| #[trigger] delta_total(cs, DeltaKey::Path(p), DeltaMeasure::Count) > 0 ==> file_listed(rows, p)
}

/// `o` describes who owns path `o.path` in `cs`: an author with the most
/// churn on it and that churn, the path's total churn and its number of
/// authors.
pub open spec fn ownership_row(cs: Seq<CommitRecord>, o: Ownership) -> bool {
    let p = o.path@;
    &&& delta_total(cs, DeltaKey::Path(p), DeltaMeasure::Count) > 0
    &&& o.total_churn == delta_total(cs, DeltaKey::Path(p), DeltaMeasure::Churn)
    &&& o.contributor_count == authors_of(cs, p).len()
    &&& if authors_of(cs, p).len() == 0 {
        o.dominant_author@ == seq!['u', 'n', 'k', 'n', 'o', 'w', 'n'] && o.dominant_churn == 0
    } else {
        &&& delta_total(cs, DeltaKey::PathAuthor(p, o.dominant_author@), DeltaMeasure::Count) > 0
        &&& o.dominant_churn == delta_total(cs, DeltaKey::PathAuthor(p, o.dominant_author@), DeltaMeasure::Churn)
        &&& forall|a: Seq<char>| #[trigger] delta_total(cs, DeltaKey::PathAuthor(p, a), DeltaMeasure::Count) > 0
            ==> delta_total(cs, DeltaKey::PathAuthor(p, a), DeltaMeasure::Churn) <= o.dominant_churn
    }
}

/// Path `p` has a row in `rows`.
pub open spec fn owner_listed(rows: Seq<Ownership>, p: Seq<char>) -> bool {
    exists|i: int| 0 <= i < rows.len() && #[trigger] rows[i].path@ == p
}

/// `rows` are the ownership rows of `cs`: one per changed path, most churn
/// first, ties by path.
pub open spec fn ownership_rows(cs: Seq<CommitRecord>, rows: Seq<Ownership>) -> bool {
    &&& forall|i: int| 0 <= i < rows.len() ==> ownership_row(cs, #[trigger] rows[i])
    &&& forall|i: int, j: int| 0 <= i < j < rows.len() ==> #[trigger] rows[i].total_churn > #[trigger] rows[j].total_churn
        || (rows[i].total_churn == rows[j].total_churn && str_lt(rows[i].path@, rows[j].path@))
    &&& forall|p: Seq<char>| #[trigger] delta_total(cs, DeltaKey::Path(p), DeltaMeasure::Count) > 0 ==> owner_listed(rows, p)
}

/// The running tallies after the last commit are the totals of the history.
pub proof fn lemma_final_totals(cs: Seq<CommitRecord>, key: DeltaKey, m: DeltaMeasure, p: Seq<char>)
    ensures
        ptotal(cs, cs.len() as int, 0, key, m) == delta_total(cs, key, m),
        plast(cs, cs.len() as int, 0, p) == last_touch(cs, p),
        cs.take(cs.len() as int) == cs,
{
    lemma_commit_start(cs, cs.len() as int, key, m, p);
    assert(cs.take(cs.len() as int) =~= cs);
}

/// A finished contributor builder holds an author's totals.
pub proof fn lemma_contributor_done(b: ContributorBuilder, cs: Seq<CommitRecord>, a: Seq<char>)
    requires
        contributor_at(b, cs, cs.len() as int, cs.len() as int, 0, a),
    ensures
        b.commit_count == author_commits(cs, a),
        b.lines_added == delta_total(cs, DeltaKey::Author(a), DeltaMeasure::Additions),
        b.lines_deleted == delta_total(cs, DeltaKey::Author(a), DeltaMeasure::Deletions),
        key_set(b.files_touched@) == paths_touched(cs, a),
{
    lemma_final_totals(cs, DeltaKey::Author(a), DeltaMeasure::Additions, a);
    lemma_final_totals(cs, DeltaKey::Author(a), DeltaMeasure::Deletions, a);
    assert forall|p: Seq<char>| #[trigger] key_set(b.files_touched@).contains(p) == paths_touched(cs, a).contains(p) by {
        lemma_final_totals(cs, DeltaKey::PathAuthor(p, a), DeltaMeasure::Count, p);
    }
    assert(key_set(b.files_touched@) =~= paths_touched(cs, a));
}

/// A finished file builder holds a path's totals.
pub proof fn lemma_file_done(b: FileChurnBuilder, cs: Seq<CommitRecord>, p: Seq<char>)
    requires
        file_at(b, cs, cs.len() as int, 0, p),
    ensures
        b.commit_count == delta_total(cs, DeltaKey::Path(p), DeltaMeasure::Count),
        b.additions == delta_total(cs, DeltaKey::Path(p), DeltaMeasure::Additions),
        b.deletions == delta_total(cs, DeltaKey::Path(p), DeltaMeasure::Deletions),
        b.last_modified == last_touch(cs, p),
        key_set(b.contributors@) == authors_of(cs, p),
        key_set(b.contributor_churn@) == authors_of(cs, p),
        forall|a: Seq<char>| #[trigger] lookup(b.contributor_churn@, a) == if delta_total(cs, DeltaKey::PathAuthor(p, a), DeltaMeasure::Count) > 0 {
            Some(delta_total(cs, DeltaKey::PathAuthor(p, a), DeltaMeasure::Churn) as u64)
        } else {
            None
        },
{
    lemma_final_totals(cs, DeltaKey::Path(p), DeltaMeasure::Count, p);
    lemma_final_totals(cs, DeltaKey::Path(p), DeltaMeasure::Additions, p);
    lemma_final_totals(cs, DeltaKey::Path(p), DeltaMeasure::Deletions, p);
    assert forall|a: Seq<char>| #[trigger] lookup(b.contributor_churn@, a) == if delta_total(cs, DeltaKey::PathAuthor(p, a), DeltaMeasure::Count) > 0 {
        Some(delta_total(cs, DeltaKey::PathAuthor(p, a), DeltaMeasure::Churn) as u64)
    } else {
        None
    } by {
        lemma_final_totals(cs, DeltaKey::PathAuthor(p, a), DeltaMeasure::Count, p);
        lemma_final_totals(cs, DeltaKey::PathAuthor(p, a), DeltaMeasure::Churn, p);
    }
    assert forall|a: Seq<char>| #[trigger] key_set(b.contributors@).contains(a) == authors_of(cs, p).contains(a) by {
        lemma_final_totals(cs, DeltaKey::PathAuthor(p, a), DeltaMeasure::Count, p);
    }
    assert(key_set(b.contributors@) =~= authors_of(cs, p));
    assert(key_set(b.contributor_churn@) =~= authors_of(cs, p));
}

/// The contributors of the history behind `contributors`, most commits
/// first (ties by name).
pub fn rank_contributors(contributors: &mut StrMap<ContributorBuilder>, commits: &[CommitRecord]) -> (rows: Vec<ContributorStats>)
    requires
        contributors_at(old(contributors)@, commits@, commits@.len() as int, commits@.len() as int, 0),
    ensures
        contributor_rows(commits@, rows@),
{
    let ghost cs = commits@;
    let ghost t = contributors@;
    let n = contributors.len();
    let mut built: Vec<ContributorStats> = Vec::new();
    let mut scores: Vec<u64> = Vec::new();
    let mut i: usize = 0;
    while i < n
        invariant
            i <= n,
            n == t.len(),
            cs == commits@,
            sorted_keys(t),
            contributors_at(t, cs, cs.len() as int, cs.len() as int, 0),
            contributors@.len() == n,
            forall|x: int| i <= x < n ==> #[trigger] contributors@[x] == t[x],
            built@.len() == i,
            scores@.len() == i,
            forall|x: int| 0 <= x < i ==> contributor_row(cs, #[trigger] built@[x]) && built@[x].name@ == t[x].0 && scores@[x] == built@[x].commit_count,
        decreases n - i,
    {
        let b = contributors.replace_value(i, ContributorBuilder::new(""));
        proof {
            let a = t[i as int].0;
            lemma_lookup_index(t, a);
            assert(lookup(t, a) == Some(t[i as int].1));
            lemma_contributor_done(b, cs, a);
        }
        let row = b.build();
        scores.push(row.commit_count);
        built.push(row);
        i = i + 1;
    }
    let order = rank_indices(&scores);
    let ghost o = as_ints(order@);
    let ghost s = scores@;
    proof {
        lemma_ranked_entries(t, s, o);
    }
    let mut rows: Vec<ContributorStats> = Vec::new();
    let mut r: usize = 0;
    while r < n
        invariant
            r <= n,
            n == t.len(),
            cs == commits@,
            order@.len() == n,
            built@.len() == n,
            o == as_ints(order@),
            is_ranking(s, o),
            s == scores@,
            s.len() == n,
            sorted_keys(t),
            contributors_at(t, cs, cs.len() as int, cs.len() as int, 0),
            forall|x: int| 0 <= x < n ==> contributor_row(cs, #[trigger] built@[x]) && built@[x].name@ == t[x].0 && s[x] == built@[x].commit_count,
            rows@.len() == r,
            forall|q: int| 0 <= q < r ==> 0 <= o[q] < n && #[trigger] rows@[q].name@ == built@[o[q]].name@
                && rows@[q].commit_count == built@[o[q]].commit_count
                && rows@[q].lines_added == built@[o[q]].lines_added
                && rows@[q].lines_deleted == built@[o[q]].lines_deleted
                && rows@[q].files_touched == built@[o[q]].files_touched,
        decreases n - r,
    {
        let idx = order[r];
        assert(o[r as int] == idx as int);
        let src = &built[idx];
        rows.push(ContributorStats {
            name: owned(src.name.as_str()),
            commit_count: src.commit_count,
            lines_added: src.lines_added,
            lines_deleted: src.lines_deleted,
            files_touched: src.files_touched,
        });
        r = r + 1;
    }
    proof {
        lemma_final_totals(cs, DeltaKey::All, DeltaMeasure::Count, seq![]);
        assert forall|q: int| 0 <= q < rows@.len() implies contributor_row(cs, #[trigger] rows@[q]) by {
            assert(contributor_row(cs, built@[o[q]]));
        }
        assert forall|a: Seq<char>| #[trigger] author_commits(cs, a) > 0 implies contributor_listed(rows@, a) by {
            lemma_lookup_index(t, a);
            let y = choose|y: int| 0 <= y < t.len() && #[trigger] t[y].0 == a;
            assert(o.contains(y));
            let k = choose|k: int| 0 <= k < o.len() && #[trigger] o[k] == y;
            assert(rows@[k].name@ == a);
        }
    }
    rows
}

/// The files of the history behind `files`, most churn first (ties by path).
pub fn rank_files(files: &mut StrMap<FileChurnBuilder>, commits: &[CommitRecord]) -> (rows: Vec<FileChurn>)
    requires
        files_at(old(files)@, commits@, commits@.len() as int, 0),
        engine_fits(commits@),
    ensures
        file_rows(commits@, rows@),
{
    let ghost cs = commits@;
    let ghost t = files@;
    let n = files.len();
    let mut built: Vec<FileChurn> = Vec::new();
    let mut scores: Vec<u64> = Vec::new();
    let mut i: usize = 0;
    while i < n
        invariant
            i <= n,
            n == t.len(),
            cs == commits@,
            engine_fits(cs),
            sorted_keys(t),
            files_at(t, cs, cs.len() as int, 0),
            files@.len() == n,
            forall|x: int| i <= x < n ==> #[trigger] files@[x] == t[x],
            built@.len() == i,
            scores@.len() == i,
            forall|x: int| 0 <= x < i ==> file_row(cs, #[trigger] built@[x]) && built@[x].path@ == t[x].0 && scores@[x] == built@[x].additions + built@[x].deletions,
        decreases n - i,
    {
        let b = files.replace_value(i, FileChurnBuilder::new(""));
        proof {
            let p = t[i as int].0;
            lemma_lookup_index(t, p);
            assert(lookup(t, p) == Some(t[i as int].1));
            lemma_file_done(b, cs, p);
            lemma_add_del(cs, DeltaKey::Path(p));
            lemma_total_bounds(cs, DeltaKey::Path(p), DeltaMeasure::Churn);
        }
        let row = b.build();
        scores.push(row.additions + row.deletions);
        built.push(row);
        i = i + 1;
    }
    let order = rank_indices(&scores);
    let ghost o = as_ints(order@);
    let ghost s = scores@;
    proof {
        lemma_ranked_entries(t, s, o);
    }
    let mut rows: Vec<FileChurn> = Vec::new();
    let mut r: usize = 0;
    while r < n
        invariant
            r <= n,
            n == t.len(),
            cs == commits@,
            order@.len() == n,
            built@.len() == n,
            o == as_ints(order@),
            is_ranking(s, o),
            s == scores@,
            s.len() == n,
            sorted_keys(t),
            files_at(t, cs, cs.len() as int, 0),
            forall|x: int| 0 <= x < n ==> file_row(cs, #[trigger] built@[x]) && built@[x].path@ == t[x].0 && s[x] == built@[x].additions + built@[x].deletions,
            rows@.len() == r,
            forall|q: int| 0 <= q < r ==> 0 <= o[q] < n && #[trigger] rows@[q].path@ == built@[o[q]].path@
                && rows@[q].commit_count == built@[o[q]].commit_count
                && rows@[q].additions == built@[o[q]].additions
                && rows@[q].deletions == built@[o[q]].deletions
                && rows@[q].contributor_count == built@[o[q]].contributor_count
                && rows@[q].last_modified == built@[o[q]].last_modified,
        decreases n - r,
    {
        let idx = order[r];
        assert(o[r as int] == idx as int);
        let src = &built[idx];
        rows.push(FileChurn {
            path: owned(src.path.as_str()),
            commit_count: src.commit_count,
            additions: src.additions,
            deletions: src.deletions,
            contributor_count: src.contributor_count,
            last_modified: src.last_modified,
        });
        r = r + 1;
    }
    proof {
        assert forall|q: int| 0 <= q < rows@.len() implies file_row(cs, #[trigger] rows@[q]) by {
            assert(file_row(cs, built@[o[q]]));
        }
        assert forall|p: Seq<char>| #[trigger] delta_total(cs, DeltaKey::Path(p), DeltaMeasure::Count) > 0 implies file_listed(rows@, p) by {
            lemma_final_totals(cs, DeltaKey::Path(p), DeltaMeasure::Count, p);
            lemma_lookup_index(t, p);
            let y = choose|y: int| 0 <= y < t.len() && #[trigger] t[y].0 == p;
            assert(o.contains(y));
            let k = choose|k: int| 0 <= k < o.len() && #[trigger] o[k] == y;
            assert(rows@[k].path@ == p);
        }
    }
    rows
}

/// The ownership rows that `build_ownership` makes of the file builders of
/// a history are that history's ownership rows.
pub proof fn lemma_ownership_rows(t: Seq<(Seq<char>, FileChurnBuilder)>, cs: Seq<CommitRecord>, rows: Seq<Ownership>)
    requires
        sorted_keys(t),
        files_at(t, cs, cs.len() as int, 0),
        engine_fits(cs),
        rows.len() == t.len(),
        is_ranking(churn_scores(t), ranking(churn_scores(t))),
        forall|i: int| 0 <= i < rows.len() ==> ownership_of(t[ranking(churn_scores(t))[i]].1, #[trigger] rows[i]),
    ensures
        ownership_rows(cs, rows),
{
    let s = churn_scores(t);
    let o = ranking(s);
    lemma_ranked_entries(t, s, o);
    assert forall|x: int| 0 <= x < t.len() implies #[trigger] t[x].1.path@ == t[x].0 && file_at(t[x].1, cs, cs.len() as int, 0, t[x].0)
        && s[x] == delta_total(cs, DeltaKey::Path(t[x].0), DeltaMeasure::Churn)
        && delta_total(cs, DeltaKey::Path(t[x].0), DeltaMeasure::Count) > 0 by {
        let p = t[x].0;
        lemma_final_totals(cs, DeltaKey::Path(p), DeltaMeasure::Count, p);
        lemma_lookup_index(t, p);
        assert(lookup(t, p) == Some(t[x].1));
        lemma_file_done(t[x].1, cs, p);
        lemma_add_del(cs, DeltaKey::Path(p));
        lemma_total_bounds(cs, DeltaKey::Path(p), DeltaMeasure::Churn);
    }
    assert forall|i: int| 0 <= i < rows.len() implies ownership_row(cs, #[trigger] rows[i]) by {
        let x = o[i];
        assert(0 <= x < t.len());
        let b = t[x].1;
        let p = t[x].0;
        lemma_file_done(b, cs, p);
        assert(ownership_of(b, rows[i]));
        if authors_of(cs, p).len() != 0 {
            let d = rows[i].dominant_author@;
            assert(lookup(b.contributor_churn@, d) == Some(rows[i].dominant_churn));
            lemma_total_pair_le(cs, p, d, DeltaMeasure::Churn);
            lemma_total_bounds(cs, DeltaKey::Path(p), DeltaMeasure::Churn);
            lemma_total_bounds(cs, DeltaKey::PathAuthor(p, d), DeltaMeasure::Churn);
            assert forall|a: Seq<char>| #[trigger] delta_total(cs, DeltaKey::PathAuthor(p, a), DeltaMeasure::Count) > 0
                implies delta_total(cs, DeltaKey::PathAuthor(p, a), DeltaMeasure::Churn) <= rows[i].dominant_churn by {
                lemma_total_pair_le(cs, p, a, DeltaMeasure::Churn);
                lemma_total_bounds(cs, DeltaKey::PathAuthor(p, a), DeltaMeasure::Churn);
                assert(lookup(b.contributor_churn@, a) is Some);
            }
        }
    }
    assert forall|i: int, j: int| 0 <= i < j < rows.len() implies #[trigger] rows[i].total_churn > #[trigger] rows[j].total_churn
        || (rows[i].total_churn == rows[j].total_churn && str_lt(rows[i].path@, rows[j].path@)) by {
        assert(0 <= o[i] < t.len() && 0 <= o[j] < t.len());
        assert(ownership_of(t[o[i]].1, rows[i]));
        assert(ownership_of(t[o[j]].1, rows[j]));
    }
    assert forall|p: Seq<char>| #[trigger] delta_total(cs, DeltaKey::Path(p), DeltaMeasure::Count) > 0 implies owner_listed(rows, p) by {
        lemma_final_totals(cs, DeltaKey::Path(p), DeltaMeasure::Count, p);
        lemma_lookup_index(t, p);
        let y = choose|y: int| 0 <= y < t.len() && #[trigger] t[y].0 == p;
        assert(o.contains(y));
        let k = choose|k: int| 0 <= k < o.len() && #[trigger] o[k] == y;
        assert(ownership_of(t[y].1, rows[k]));
        assert(rows[k].path@ == p);
    }
}

} // verus!
