//! Aggregation of parsed commits into repository metrics.
use vstd::prelude::*;

use crate::strmap::{lookup, sorted_keys, StrMap};
use crate::{
    ascii_lower_seq, extension, file_language, file_matches_extension, normalize_file_type,
    trim_leading_dots, CommitRecord, CommitView, ContributorStats, FileChangeView, FileStats, Metrics,
};

verus! {

/// The language a path is counted under: its lower-cased extension, or
/// `unknown`.
pub open spec fn language_of(path: Seq<char>) -> Seq<char> {
    match extension(path) {
        Some(ext) => ascii_lower_seq(ext),
        None => seq!['u', 'n', 'k', 'n', 'o', 'w', 'n'],
    }
}

/// The file-type filter as `collect_metrics` applies it.
pub open spec fn normalized_filter(file_type: Option<Seq<char>>) -> Option<Seq<char>> {
    match file_type {
        Some(t) => Some(ascii_lower_seq(trim_leading_dots(t))),
        None => None,
    }
}

/// A change passes the (normalized) file-type filter.
pub open spec fn relevant(ch: FileChangeView, ft: Option<Seq<char>>) -> bool {
    match ft {
        None => true,
        Some(e) => match extension(ch.path) {
            Some(x) => ascii_lower_seq(x) == ascii_lower_seq(e),
            None => false,
        },
    }
}

/// A commit has at least one change that passes the filter.
pub open spec fn active(c: CommitView, ft: Option<Seq<char>>) -> bool {
    exists|j: int| 0 <= j < c.file_changes.len() && relevant(#[trigger] c.file_changes[j], ft)
}

/// What a commit is counted under.
pub enum CommitKey {
    Date,
    Author,
    Whole,
}

/// What a file change is counted under.
pub enum ChangeKey {
    Path,
    Language,
    Author,
    Whole,
}

/// What is summed over file changes.
pub enum Measure {
    Added,
    Deleted,
    Churn,
    Changes,
}

pub open spec fn commit_key(sel: CommitKey, c: CommitView) -> Seq<char> {
    match sel {
        CommitKey::Date => c.date,
        CommitKey::Author => c.author,
        CommitKey::Whole => Seq::empty(),
    }
}

pub open spec fn change_key(sel: ChangeKey, c: CommitView, ch: FileChangeView) -> Seq<char> {
    match sel {
        ChangeKey::Path => ch.path,
        ChangeKey::Language => language_of(ch.path),
        ChangeKey::Author => c.author,
        ChangeKey::Whole => Seq::empty(),
    }
}

pub open spec fn measure(m: Measure, ch: FileChangeView) -> int {
    match m {
        Measure::Added => ch.added as int,
        Measure::Deleted => ch.deleted as int,
        Measure::Churn => ch.added + ch.deleted,
        Measure::Changes => 1,
    }
}

/// The number of commits with a relevant change whose key is `k`.
pub open spec fn commit_tally(cs: Seq<CommitView>, ft: Option<Seq<char>>, sel: CommitKey, k: Seq<char>) -> int
    decreases cs.len(),
{
    if cs.len() == 0 {
        0
    } else {
        commit_tally(cs.drop_last(), ft, sel, k) + if active(cs.last(), ft) && commit_key(sel, cs.last()) == k {
            1int
        } else {
            0int
        }
    }
}

/// The sum of `m` over the relevant changes `chs` of commit `c` whose key is `k`.
pub open spec fn change_tally_in(
    c: CommitView,
    chs: Seq<FileChangeView>,
    ft: Option<Seq<char>>,
    sel: ChangeKey,
    k: Seq<char>,
    m: Measure,
) -> int
    decreases chs.len(),
{
    if chs.len() == 0 {
        0
    } else {
        change_tally_in(c, chs.drop_last(), ft, sel, k, m) + if relevant(chs.last(), ft) && change_key(sel, c, chs.last()) == k {
            measure(m, chs.last())
        } else {
            0
        }
    }
}

/// The sum of `m` over all relevant changes of `cs` whose key is `k`.
pub open spec fn change_tally(cs: Seq<CommitView>, ft: Option<Seq<char>>, sel: ChangeKey, k: Seq<char>, m: Measure) -> int
    decreases cs.len(),
{
    if cs.len() == 0 {
        0
    } else {
        change_tally(cs.drop_last(), ft, sel, k, m) + change_tally_in(cs.last(), cs.last().file_changes, ft, sel, k, m)
    }
}

/// No tally of `collect_metrics` goes past `u64::MAX`: neither total line
/// count, nor any language's churn, nor (a machine limit) the number of
/// relevant changes.
pub open spec fn metrics_fit(cs: Seq<CommitView>, ft: Option<Seq<char>>) -> bool {
    &&& change_tally(cs, ft, ChangeKey::Whole, Seq::empty(), Measure::Added) <= u64::MAX
    &&& change_tally(cs, ft, ChangeKey::Whole, Seq::empty(), Measure::Deleted) <= u64::MAX
    &&& change_tally(cs, ft, ChangeKey::Whole, Seq::empty(), Measure::Changes) <= u64::MAX
    &&& forall|k: Seq<char>| change_tally(cs, ft, ChangeKey::Language, k, Measure::Churn) <= u64::MAX
}

/// The commits per date.
pub open spec fn frequency_of(cs: Seq<CommitView>, ft: Option<Seq<char>>, k: Seq<char>) -> Option<u64> {
    if commit_tally(cs, ft, CommitKey::Date, k) > 0 {
        Some(commit_tally(cs, ft, CommitKey::Date, k) as u64)
    } else {
        None
    }
}

/// The per-author totals.
pub open spec fn contributor_of(cs: Seq<CommitView>, ft: Option<Seq<char>>, k: Seq<char>) -> Option<ContributorStats> {
    if commit_tally(cs, ft, CommitKey::Author, k) > 0 {
        Some(ContributorStats {
            commits: commit_tally(cs, ft, CommitKey::Author, k) as u64,
            lines_added: change_tally(cs, ft, ChangeKey::Author, k, Measure::Added) as u64,
            lines_deleted: change_tally(cs, ft, ChangeKey::Author, k, Measure::Deleted) as u64,
        })
    } else {
        None
    }
}

/// The per-file totals.
pub open spec fn file_of(cs: Seq<CommitView>, ft: Option<Seq<char>>, k: Seq<char>) -> Option<FileStats> {
    if change_tally(cs, ft, ChangeKey::Path, k, Measure::Changes) > 0 {
        Some(FileStats {
            modifications: change_tally(cs, ft, ChangeKey::Path, k, Measure::Changes) as u64,
            lines_added: change_tally(cs, ft, ChangeKey::Path, k, Measure::Added) as u64,
            lines_deleted: change_tally(cs, ft, ChangeKey::Path, k, Measure::Deleted) as u64,
        })
    } else {
        None
    }
}

/// The churn per language.
pub open spec fn language_churn_of(cs: Seq<CommitView>, ft: Option<Seq<char>>, k: Seq<char>) -> Option<u64> {
    if change_tally(cs, ft, ChangeKey::Language, k, Measure::Changes) > 0 {
        Some(change_tally(cs, ft, ChangeKey::Language, k, Measure::Churn) as u64)
    } else {
        None
    }
}

/// The views of a slice of commits.
pub open spec fn commit_views(commits: Seq<CommitRecord>) -> Seq<CommitView> {
    commits.map_values(|c: CommitRecord| c@)
}

/// Every tally is non-negative, and a keyed tally never exceeds the
/// unkeyed one.
pub proof fn lemma_in_bounds(c: CommitView, chs: Seq<FileChangeView>, ft: Option<Seq<char>>, sel: ChangeKey, k: Seq<char>, m: Measure)
    ensures
        0 <= change_tally_in(c, chs, ft, sel, k, m) <= change_tally_in(c, chs, ft, ChangeKey::Whole, Seq::empty(), m),
    decreases chs.len(),
{
    if chs.len() > 0 {
        lemma_in_bounds(c, chs.drop_last(), ft, sel, k, m);
    }
}

pub proof fn lemma_tally_bounds(cs: Seq<CommitView>, ft: Option<Seq<char>>, sel: ChangeKey, k: Seq<char>, m: Measure)
    ensures
        0 <= change_tally(cs, ft, sel, k, m) <= change_tally(cs, ft, ChangeKey::Whole, Seq::empty(), m),
    decreases cs.len(),
{
    if cs.len() > 0 {
        lemma_tally_bounds(cs.drop_last(), ft, sel, k, m);
        lemma_in_bounds(cs.last(), cs.last().file_changes, ft, sel, k, m);
    }
}

/// A tally over a prefix of the changes is at most the tally over all of them.
proof fn lemma_in_prefix(c: CommitView, chs: Seq<FileChangeView>, j: int, ft: Option<Seq<char>>, sel: ChangeKey, k: Seq<char>, m: Measure)
    requires
        0 <= j <= chs.len(),
    ensures
        change_tally_in(c, chs.take(j), ft, sel, k, m) <= change_tally_in(c, chs, ft, sel, k, m),
    decreases chs.len() - j,
{
    if j < chs.len() {
        lemma_in_prefix(c, chs, j + 1, ft, sel, k, m);
        assert(chs.take(j + 1).drop_last() =~= chs.take(j));
        lemma_in_bounds(c, chs.take(j), ft, sel, k, m);
    } else {
        assert(chs.take(j) =~= chs);
    }
}

/// A tally over a prefix of the commits is at most the tally over all of them.
proof fn lemma_tally_prefix(cs: Seq<CommitView>, i: int, ft: Option<Seq<char>>, sel: ChangeKey, k: Seq<char>, m: Measure)
    requires
        0 <= i <= cs.len(),
    ensures
        change_tally(cs.take(i), ft, sel, k, m) <= change_tally(cs, ft, sel, k, m),
    decreases cs.len() - i,
{
    if i < cs.len() {
        lemma_tally_prefix(cs, i + 1, ft, sel, k, m);
        assert(cs.take(i + 1).drop_last() =~= cs.take(i));
        lemma_in_bounds(cs[i], cs[i].file_changes, ft, sel, k, m);
    } else {
        assert(cs.take(i) =~= cs);
    }
}

/// With no matching change counted, no measure is counted either.
proof fn lemma_in_no_changes(c: CommitView, chs: Seq<FileChangeView>, ft: Option<Seq<char>>, sel: ChangeKey, k: Seq<char>, m: Measure)
    requires
        change_tally_in(c, chs, ft, sel, k, Measure::Changes) == 0,
    ensures
        change_tally_in(c, chs, ft, sel, k, m) == 0,
    decreases chs.len(),
{
    if chs.len() > 0 {
        lemma_in_bounds(c, chs.drop_last(), ft, sel, k, Measure::Changes);
        lemma_in_no_changes(c, chs.drop_last(), ft, sel, k, m);
    }
}

pub proof fn lemma_tally_no_changes(cs: Seq<CommitView>, ft: Option<Seq<char>>, sel: ChangeKey, k: Seq<char>, m: Measure)
    requires
        change_tally(cs, ft, sel, k, Measure::Changes) == 0,
    ensures
        change_tally(cs, ft, sel, k, m) == 0,
    decreases cs.len(),
{
    if cs.len() > 0 {
        lemma_tally_bounds(cs.drop_last(), ft, sel, k, Measure::Changes);
        lemma_in_bounds(cs.last(), cs.last().file_changes, ft, sel, k, Measure::Changes);
        lemma_tally_no_changes(cs.drop_last(), ft, sel, k, m);
        lemma_in_no_changes(cs.last(), cs.last().file_changes, ft, sel, k, m);
    }
}

/// A commit without relevant changes contributes nothing.
pub proof fn lemma_in_inactive(c: CommitView, j: int, ft: Option<Seq<char>>, sel: ChangeKey, k: Seq<char>, m: Measure)
    requires
        !active(c, ft),
        0 <= j <= c.file_changes.len(),
    ensures
        change_tally_in(c, c.file_changes.take(j), ft, sel, k, m) == 0,
    decreases j,
{
    if j > 0 {
        let chs = c.file_changes.take(j);
        assert(chs.drop_last() =~= c.file_changes.take(j - 1));
        assert(chs.last() == c.file_changes[j - 1]);
        lemma_in_inactive(c, j - 1, ft, sel, k, m);
    }
}

/// Changes by an author are counted only in commits by that author.
pub proof fn lemma_author_changes(cs: Seq<CommitView>, ft: Option<Seq<char>>, k: Seq<char>, m: Measure)
    requires
        commit_tally(cs, ft, CommitKey::Author, k) == 0,
    ensures
        change_tally(cs, ft, ChangeKey::Author, k, m) == 0,
    decreases cs.len(),
{
    if cs.len() > 0 {
        let c = cs.last();
        assert(commit_tally(cs.drop_last(), ft, CommitKey::Author, k) >= 0) by {
            lemma_commit_tally_bounds(cs.drop_last(), ft, CommitKey::Author, k);
        }
        lemma_author_changes(cs.drop_last(), ft, k, m);
        if !active(c, ft) {
            lemma_in_inactive(c, c.file_changes.len() as int, ft, ChangeKey::Author, k, m);
            assert(c.file_changes.take(c.file_changes.len() as int) =~= c.file_changes);
        } else {
            lemma_in_other_author(c, c.file_changes, ft, k, m);
        }
    }
}

proof fn lemma_in_other_author(c: CommitView, chs: Seq<FileChangeView>, ft: Option<Seq<char>>, k: Seq<char>, m: Measure)
    requires
        c.author != k,
    ensures
        change_tally_in(c, chs, ft, ChangeKey::Author, k, m) == 0,
    decreases chs.len(),
{
    if chs.len() > 0 {
        lemma_in_other_author(c, chs.drop_last(), ft, k, m);
    }
}

/// A commit tally is non-negative and at most the number of commits.
pub proof fn lemma_commit_tally_bounds(cs: Seq<CommitView>, ft: Option<Seq<char>>, sel: CommitKey, k: Seq<char>)
    ensures
        0 <= commit_tally(cs, ft, sel, k) <= cs.len(),
    decreases cs.len(),
{
    if cs.len() > 0 {
        lemma_commit_tally_bounds(cs.drop_last(), ft, sel, k);
    }
}

/// The optional string argument as a plain value.
pub open spec fn opt_str(s: Option<&str>) -> Option<Seq<char>> {
    match s {
        Some(t) => Some(t@),
        None => None,
    }
}

/// The tally over the finished commits `p` plus the first `j` changes of `c`.
pub open spec fn ptally(p: Seq<CommitView>, c: CommitView, j: int, ft: Option<Seq<char>>, sel: ChangeKey, k: Seq<char>, m: Measure) -> int {
    change_tally(p, ft, sel, k, m) + change_tally_in(c, c.file_changes.take(j), ft, sel, k, m)
}

spec fn file_partial(p: Seq<CommitView>, c: CommitView, j: int, ft: Option<Seq<char>>, k: Seq<char>) -> Option<FileStats> {
    if ptally(p, c, j, ft, ChangeKey::Path, k, Measure::Changes) > 0 {
        Some(FileStats {
            modifications: ptally(p, c, j, ft, ChangeKey::Path, k, Measure::Changes) as u64,
            lines_added: ptally(p, c, j, ft, ChangeKey::Path, k, Measure::Added) as u64,
            lines_deleted: ptally(p, c, j, ft, ChangeKey::Path, k, Measure::Deleted) as u64,
        })
    } else {
        None
    }
}

spec fn language_partial(p: Seq<CommitView>, c: CommitView, j: int, ft: Option<Seq<char>>, k: Seq<char>) -> Option<u64> {
    if ptally(p, c, j, ft, ChangeKey::Language, k, Measure::Changes) > 0 {
        Some(ptally(p, c, j, ft, ChangeKey::Language, k, Measure::Churn) as u64)
    } else {
        None
    }
}

spec fn contributor_partial(p: Seq<CommitView>, c: CommitView, j: int, ft: Option<Seq<char>>, k: Seq<char>) -> Option<ContributorStats> {
    let q = p.push(c);
    if commit_tally(q, ft, CommitKey::Author, k) > 0 {
        Some(ContributorStats {
            commits: commit_tally(q, ft, CommitKey::Author, k) as u64,
            lines_added: ptally(p, c, j, ft, ChangeKey::Author, k, Measure::Added) as u64,
            lines_deleted: ptally(p, c, j, ft, ChangeKey::Author, k, Measure::Deleted) as u64,
        })
    } else {
        None
    }
}

/// `m` holds the tallies of the commits `cs` under the filter `ft`: the
/// totals, and per date, author, file and language exactly the keys that
/// occur, each with its tally, in ascending key order.
pub open spec fn metrics_of(cs: Seq<CommitView>, ft: Option<Seq<char>>, m: Metrics) -> bool {
    &&& m.total_commits == commit_tally(cs, ft, CommitKey::Whole, Seq::empty())
    &&& m.total_lines_added == change_tally(cs, ft, ChangeKey::Whole, Seq::empty(), Measure::Added)
    &&& m.total_lines_deleted == change_tally(cs, ft, ChangeKey::Whole, Seq::empty(), Measure::Deleted)
    &&& forall|k: Seq<char>| #[trigger] lookup(m.commit_frequency@, k) == frequency_of(cs, ft, k)
    &&& forall|k: Seq<char>| #[trigger] lookup(m.contributor_stats@, k) == contributor_of(cs, ft, k)
    &&& forall|k: Seq<char>| #[trigger] lookup(m.file_stats@, k) == file_of(cs, ft, k)
    &&& forall|k: Seq<char>| #[trigger] lookup(m.language_distribution@, k) == language_churn_of(cs, ft, k)
    &&& sorted_keys(m.commit_frequency@)
    &&& sorted_keys(m.contributor_stats@)
    &&& sorted_keys(m.file_stats@)
    &&& sorted_keys(m.language_distribution@)
}

/// Whether a change passes the normalized file-type filter.
fn is_relevant(path: &str, normalized: &Option<String>) -> (r: bool)
    ensures
        r == relevant(FileChangeView { path: path@, added: 0, deleted: 0 }, match normalized {
            Some(e) => Some(e@),
            None => None,
        }),
{
    match normalized {
        None => true,
        Some(e) => file_matches_extension(path, e.as_str()),
    }
}

/// Tallies commits, lines, authors, files, dates and languages.
///
/// When `file_type` is given, only file changes whose extension equals it
/// (leading dots and ASCII case ignored) are counted, and a commit with no
/// such change is skipped altogether.
pub fn collect_metrics(commits: &[CommitRecord], file_type: Option<&str>) -> (metrics: Metrics)
    requires
        metrics_fit(commit_views(commits@), normalized_filter(opt_str(file_type))),
    ensures
        metrics_of(commit_views(commits@), normalized_filter(opt_str(file_type)), metrics),
{
    let ghost cs = commit_views(commits@);
    let ghost ft = normalized_filter(opt_str(file_type));
    let normalized: Option<String> = match file_type {
        Some(t) => Some(normalize_file_type(t)),
        None => None,
    };
    assert(match normalized { Some(e) => Some(e@), None => None::<Seq<char>> } == ft);
    let mut metrics = Metrics::default();
    let mut i: usize = 0;
    assert(cs.take(0) =~= Seq::<CommitView>::empty());
    while i < commits.len()
        invariant
            i <= commits@.len(),
            cs == commit_views(commits@),
            ft == normalized_filter(opt_str(file_type)),
            match normalized { Some(e) => Some(e@), None => None::<Seq<char>> } == ft,
            metrics_fit(cs, ft),
            metrics.total_commits == commit_tally(cs.take(i as int), ft, CommitKey::Whole, Seq::empty()),
            metrics.total_lines_added == change_tally(cs.take(i as int), ft, ChangeKey::Whole, Seq::empty(), Measure::Added),
            metrics.total_lines_deleted == change_tally(cs.take(i as int), ft, ChangeKey::Whole, Seq::empty(), Measure::Deleted),
            forall|k: Seq<char>| #[trigger] lookup(metrics.commit_frequency@, k) == frequency_of(cs.take(i as int), ft, k),
            forall|k: Seq<char>| #[trigger] lookup(metrics.contributor_stats@, k) == contributor_of(cs.take(i as int), ft, k),
            forall|k: Seq<char>| #[trigger] lookup(metrics.file_stats@, k) == file_of(cs.take(i as int), ft, k),
            forall|k: Seq<char>| #[trigger] lookup(metrics.language_distribution@, k) == language_churn_of(cs.take(i as int), ft, k),
        decreases commits@.len() - i,
    {
        let commit = &commits[i];
        let ghost p = cs.take(i as int);
        let ghost c = commit@;
        let ghost q = cs.take(i + 1);
        proof {
            assert(cs[i as int] == c);
            assert(q.drop_last() =~= p);
            assert(q.last() == c);
            assert(q =~= p.push(c));
        }
        let n = commit.file_changes.len();
        let mut any = false;
        let mut j: usize = 0;
        while j < n
            invariant
                j <= n,
                n == commit.file_changes@.len(),
                c == commit@,
                match normalized { Some(e) => Some(e@), None => None::<Seq<char>> } == ft,
                any == exists|x: int| 0 <= x < j && relevant(#[trigger] c.file_changes[x], ft),
            decreases n - j,
        {
            let r = is_relevant(commit.file_changes[j].path.as_str(), &normalized);
            proof {
                assert(c.file_changes[j as int] == commit.file_changes@[j as int]@);
                if r {
                    assert(relevant(c.file_changes[j as int], ft));
                }
                if any {
                    let x = choose|x: int| 0 <= x < j && relevant(#[trigger] c.file_changes[x], ft);
                    assert(0 <= x < j + 1 && relevant(c.file_changes[x], ft));
                }
                if exists|x: int| 0 <= x < j + 1 && relevant(#[trigger] c.file_changes[x], ft) {
                    let x = choose|x: int| 0 <= x < j + 1 && relevant(#[trigger] c.file_changes[x], ft);
                    if x < j {
                        assert(0 <= x < j && relevant(c.file_changes[x], ft));
                    }
                }
            }
            any = any || r;
            j = j + 1;
        }
        assert(any == active(c, ft));

        if !any {
            proof {
                assert(c.file_changes.take(c.file_changes.len() as int) =~= c.file_changes);
                assert forall|sel: ChangeKey, k: Seq<char>, m: Measure| true implies
                    #[trigger] change_tally(q, ft, sel, k, m) == change_tally(p, ft, sel, k, m) by {
                    lemma_in_inactive(c, c.file_changes.len() as int, ft, sel, k, m);
                }
                assert forall|sel: CommitKey, k: Seq<char>| true implies
                    #[trigger] commit_tally(q, ft, sel, k) == commit_tally(p, ft, sel, k) by {
                }
                assert forall|k: Seq<char>| #[trigger] lookup(metrics.commit_frequency@, k) == frequency_of(q, ft, k) by {
                    assert(commit_tally(q, ft, CommitKey::Date, k) == commit_tally(p, ft, CommitKey::Date, k));
                }
                assert forall|k: Seq<char>| #[trigger] lookup(metrics.contributor_stats@, k) == contributor_of(q, ft, k) by {
                    assert(commit_tally(q, ft, CommitKey::Author, k) == commit_tally(p, ft, CommitKey::Author, k));
                    assert(change_tally(q, ft, ChangeKey::Author, k, Measure::Added) == change_tally(p, ft, ChangeKey::Author, k, Measure::Added));
                    assert(change_tally(q, ft, ChangeKey::Author, k, Measure::Deleted) == change_tally(p, ft, ChangeKey::Author, k, Measure::Deleted));
                }
                assert forall|k: Seq<char>| #[trigger] lookup(metrics.file_stats@, k) == file_of(q, ft, k) by {
                    assert(change_tally(q, ft, ChangeKey::Path, k, Measure::Changes) == change_tally(p, ft, ChangeKey::Path, k, Measure::Changes));
                    assert(change_tally(q, ft, ChangeKey::Path, k, Measure::Added) == change_tally(p, ft, ChangeKey::Path, k, Measure::Added));
                    assert(change_tally(q, ft, ChangeKey::Path, k, Measure::Deleted) == change_tally(p, ft, ChangeKey::Path, k, Measure::Deleted));
                }
                assert forall|k: Seq<char>| #[trigger] lookup(metrics.language_distribution@, k) == language_churn_of(q, ft, k) by {
                    assert(change_tally(q, ft, ChangeKey::Language, k, Measure::Changes) == change_tally(p, ft, ChangeKey::Language, k, Measure::Changes));
                    assert(change_tally(q, ft, ChangeKey::Language, k, Measure::Churn) == change_tally(p, ft, ChangeKey::Language, k, Measure::Churn));
                }
                assert(change_tally(q, ft, ChangeKey::Whole, Seq::empty(), Measure::Added) == change_tally(p, ft, ChangeKey::Whole, Seq::empty(), Measure::Added));
                assert(change_tally(q, ft, ChangeKey::Whole, Seq::empty(), Measure::Deleted) == change_tally(p, ft, ChangeKey::Whole, Seq::empty(), Measure::Deleted));
                assert(commit_tally(q, ft, CommitKey::Whole, Seq::empty()) == commit_tally(p, ft, CommitKey::Whole, Seq::empty()));
            }
            i = i + 1;
            continue;
        }

        proof {
            lemma_commit_tally_bounds(p, ft, CommitKey::Whole, Seq::empty());
            lemma_commit_tally_bounds(p, ft, CommitKey::Date, c.date);
            lemma_commit_tally_bounds(p, ft, CommitKey::Author, c.author);
        }
        metrics.total_commits = metrics.total_commits + 1;

        let di = metrics.commit_frequency.entry_index(commit.date.as_str(), 0);
        let dv = *metrics.commit_frequency.value_at(di);
        proof {
            if commit_tally(p, ft, CommitKey::Date, c.date) == 0 {
                assert(dv == 0);
            } else {
                assert(lookup(metrics.commit_frequency@, c.date) == Some(dv));
            }
        }
        metrics.commit_frequency.set_value(di, dv + 1);

        let ai = metrics.contributor_stats.entry_index(commit.author.as_str(), ContributorStats::default());
        let mut cstats = *metrics.contributor_stats.value_at(ai);
        proof {
            if commit_tally(p, ft, CommitKey::Author, c.author) == 0 {
                lemma_author_changes(p, ft, c.author, Measure::Added);
                lemma_author_changes(p, ft, c.author, Measure::Deleted);
            } else {
                assert(lookup(metrics.contributor_stats@, c.author) == Some(cstats));
                assert(cstats.commits == commit_tally(p, ft, CommitKey::Author, c.author));
            }
            assert(p.len() == i);
        }
        cstats.commits = cstats.commits + 1;
        metrics.contributor_stats.set_value(ai, cstats);

        proof {
            assert(c.file_changes.take(0) =~= Seq::<FileChangeView>::empty());
            assert forall|k: Seq<char>| #[trigger] lookup(metrics.commit_frequency@, k) == frequency_of(q, ft, k) by {}
            assert forall|k: Seq<char>| #[trigger] lookup(metrics.contributor_stats@, k) == contributor_partial(p, c, 0, ft, k) by {
                if k != c.author && commit_tally(p, ft, CommitKey::Author, k) == 0 {
                    lemma_author_changes(p, ft, k, Measure::Added);
                }
            }
            assert forall|k: Seq<char>| #[trigger] lookup(metrics.file_stats@, k) == file_partial(p, c, 0, ft, k) by {}
            assert forall|k: Seq<char>| #[trigger] lookup(metrics.language_distribution@, k) == language_partial(p, c, 0, ft, k) by {}
        }

        let mut j: usize = 0;
        while j < n
            invariant
                j <= n,
                n == commit.file_changes@.len(),
                i < commits@.len(),
                c == commit@,
                cs == commit_views(commits@),
                p == cs.take(i as int),
                q == p.push(c),
                q == cs.take(i + 1),
                active(c, ft),
                match normalized { Some(e) => Some(e@), None => None::<Seq<char>> } == ft,
                metrics_fit(cs, ft),
                metrics.total_commits == commit_tally(q, ft, CommitKey::Whole, Seq::empty()),
                metrics.total_lines_added == ptally(p, c, j as int, ft, ChangeKey::Whole, Seq::empty(), Measure::Added),
                metrics.total_lines_deleted == ptally(p, c, j as int, ft, ChangeKey::Whole, Seq::empty(), Measure::Deleted),
                forall|k: Seq<char>| #[trigger] lookup(metrics.commit_frequency@, k) == frequency_of(q, ft, k),
                forall|k: Seq<char>| #[trigger] lookup(metrics.contributor_stats@, k) == contributor_partial(p, c, j as int, ft, k),
                forall|k: Seq<char>| #[trigger] lookup(metrics.file_stats@, k) == file_partial(p, c, j as int, ft, k),
                forall|k: Seq<char>| #[trigger] lookup(metrics.language_distribution@, k) == language_partial(p, c, j as int, ft, k),
            decreases n - j,
        {
            let change = &commit.file_changes[j];
            let ghost ch = c.file_changes[j as int];
            proof {
                assert(ch == change@);
                let tj = c.file_changes.take(j as int);
                let tj1 = c.file_changes.take(j + 1);
                assert(tj1.drop_last() =~= tj);
                assert(tj1.last() == ch);
            }
            if is_relevant(change.path.as_str(), &normalized) {
                assert(relevant(ch, ft));
                proof {
                    // every running tally stays below its final value
                    assert forall|sel: ChangeKey, k: Seq<char>, m: Measure| true implies
                        #[trigger] ptally(p, c, j + 1, ft, sel, k, m) <= change_tally(cs, ft, sel, k, m) by {
                        lemma_in_prefix(c, c.file_changes, j + 1, ft, sel, k, m);
                        lemma_tally_prefix(cs, i + 1, ft, sel, k, m);
                        assert(q.drop_last() =~= p);
                    }
                    assert forall|sel: ChangeKey, k: Seq<char>, m: Measure| true implies
                        #[trigger] change_tally(cs, ft, sel, k, m) <= change_tally(cs, ft, ChangeKey::Whole, Seq::empty(), m) by {
                        lemma_tally_bounds(cs, ft, sel, k, m);
                    }
                    assert forall|sel: ChangeKey, k: Seq<char>, m: Measure| true implies
                        #[trigger] change_tally(p, ft, sel, k, m) >= 0 by {
                        lemma_tally_bounds(p, ft, sel, k, m);
                    }
                    assert forall|sel: ChangeKey, k: Seq<char>, m: Measure| true implies
                        #[trigger] change_tally_in(c, c.file_changes.take(j as int), ft, sel, k, m) >= 0 by {
                        lemma_in_bounds(c, c.file_changes.take(j as int), ft, sel, k, m);
                    }
                    assert(ptally(p, c, j + 1, ft, ChangeKey::Whole, Seq::empty(), Measure::Added) <= change_tally(cs, ft, ChangeKey::Whole, Seq::empty(), Measure::Added));
                    assert(ptally(p, c, j + 1, ft, ChangeKey::Whole, Seq::empty(), Measure::Deleted) <= change_tally(cs, ft, ChangeKey::Whole, Seq::empty(), Measure::Deleted));
                }
                metrics.total_lines_added = metrics.total_lines_added + change.added;
                metrics.total_lines_deleted = metrics.total_lines_deleted + change.deleted;

                let ai = metrics.contributor_stats.entry_index(commit.author.as_str(), ContributorStats::default());
                let mut cstats = *metrics.contributor_stats.value_at(ai);
                proof {
                    lemma_commit_tally_bounds(p, ft, CommitKey::Author, c.author);
                    assert(q.drop_last() =~= p);
                    assert(q.last() == c);
                    assert(commit_tally(q, ft, CommitKey::Author, c.author) > 0);
                    assert(lookup(metrics.contributor_stats@, c.author) == Some(cstats));
                    assert(ptally(p, c, j + 1, ft, ChangeKey::Author, c.author, Measure::Added) == ptally(p, c, j as int, ft, ChangeKey::Author, c.author, Measure::Added) + ch.added);
                    assert(ptally(p, c, j + 1, ft, ChangeKey::Author, c.author, Measure::Deleted) == ptally(p, c, j as int, ft, ChangeKey::Author, c.author, Measure::Deleted) + ch.deleted);
                    assert(ptally(p, c, j + 1, ft, ChangeKey::Author, c.author, Measure::Added) <= change_tally(cs, ft, ChangeKey::Whole, Seq::empty(), Measure::Added));
                    assert(ptally(p, c, j + 1, ft, ChangeKey::Author, c.author, Measure::Deleted) <= change_tally(cs, ft, ChangeKey::Whole, Seq::empty(), Measure::Deleted));
                }
                cstats.lines_added = cstats.lines_added + change.added;
                cstats.lines_deleted = cstats.lines_deleted + change.deleted;
                metrics.contributor_stats.set_value(ai, cstats);

                let fi = metrics.file_stats.entry_index(change.path.as_str(), FileStats::default());
                let mut fstats = *metrics.file_stats.value_at(fi);
                proof {
                    if ptally(p, c, j as int, ft, ChangeKey::Path, ch.path, Measure::Changes) == 0 {
                        lemma_tally_bounds(p, ft, ChangeKey::Path, ch.path, Measure::Changes);
                        lemma_in_bounds(c, c.file_changes.take(j as int), ft, ChangeKey::Path, ch.path, Measure::Changes);
                        lemma_tally_no_changes(p, ft, ChangeKey::Path, ch.path, Measure::Added);
                        lemma_tally_no_changes(p, ft, ChangeKey::Path, ch.path, Measure::Deleted);
                        lemma_in_no_changes(c, c.file_changes.take(j as int), ft, ChangeKey::Path, ch.path, Measure::Added);
                        lemma_in_no_changes(c, c.file_changes.take(j as int), ft, ChangeKey::Path, ch.path, Measure::Deleted);
                    }
                    assert(ptally(p, c, j + 1, ft, ChangeKey::Path, ch.path, Measure::Changes) <= change_tally(cs, ft, ChangeKey::Whole, Seq::empty(), Measure::Changes));
                    assert(ptally(p, c, j + 1, ft, ChangeKey::Path, ch.path, Measure::Added) <= change_tally(cs, ft, ChangeKey::Whole, Seq::empty(), Measure::Added));
                    assert(ptally(p, c, j + 1, ft, ChangeKey::Path, ch.path, Measure::Deleted) <= change_tally(cs, ft, ChangeKey::Whole, Seq::empty(), Measure::Deleted));
                }
                fstats.modifications = fstats.modifications + 1;
                fstats.lines_added = fstats.lines_added + change.added;
                fstats.lines_deleted = fstats.lines_deleted + change.deleted;
                metrics.file_stats.set_value(fi, fstats);

                let language = file_language(change.path.as_str());
                let li = metrics.language_distribution.entry_index(language.as_str(), 0);
                let lv = *metrics.language_distribution.value_at(li);
                proof {
                    let lang = language_of(ch.path);
                    assert(language@ == lang);
                    if ptally(p, c, j as int, ft, ChangeKey::Language, lang, Measure::Changes) == 0 {
                        lemma_tally_bounds(p, ft, ChangeKey::Language, lang, Measure::Changes);
                        lemma_in_bounds(c, c.file_changes.take(j as int), ft, ChangeKey::Language, lang, Measure::Changes);
                        lemma_tally_no_changes(p, ft, ChangeKey::Language, lang, Measure::Churn);
                        lemma_in_no_changes(c, c.file_changes.take(j as int), ft, ChangeKey::Language, lang, Measure::Churn);
                    }
                    assert(ptally(p, c, j + 1, ft, ChangeKey::Language, lang, Measure::Churn) <= change_tally(cs, ft, ChangeKey::Language, lang, Measure::Churn));
                }
                metrics.language_distribution.set_value(li, lv + (change.added + change.deleted));

                proof {
                    let lang = language_of(ch.path);
                    assert forall|k: Seq<char>| #[trigger] lookup(metrics.contributor_stats@, k) == contributor_partial(p, c, j + 1, ft, k) by {
                        assert(ptally(p, c, j + 1, ft, ChangeKey::Author, k, Measure::Added) == ptally(p, c, j as int, ft, ChangeKey::Author, k, Measure::Added) + if k == c.author { ch.added as int } else { 0 });
                        assert(ptally(p, c, j + 1, ft, ChangeKey::Author, k, Measure::Deleted) == ptally(p, c, j as int, ft, ChangeKey::Author, k, Measure::Deleted) + if k == c.author { ch.deleted as int } else { 0 });
                    }
                    assert forall|k: Seq<char>| #[trigger] lookup(metrics.file_stats@, k) == file_partial(p, c, j + 1, ft, k) by {
                        assert(ptally(p, c, j + 1, ft, ChangeKey::Path, k, Measure::Changes) == ptally(p, c, j as int, ft, ChangeKey::Path, k, Measure::Changes) + if k == ch.path { 1int } else { 0 });
                        if k != ch.path {
                            assert(ptally(p, c, j + 1, ft, ChangeKey::Path, k, Measure::Added) == ptally(p, c, j as int, ft, ChangeKey::Path, k, Measure::Added));
                            assert(ptally(p, c, j + 1, ft, ChangeKey::Path, k, Measure::Deleted) == ptally(p, c, j as int, ft, ChangeKey::Path, k, Measure::Deleted));
                        }
                        lemma_tally_bounds(p, ft, ChangeKey::Path, k, Measure::Changes);
                        lemma_in_bounds(c, c.file_changes.take(j as int), ft, ChangeKey::Path, k, Measure::Changes);
                    }
                    assert forall|k: Seq<char>| #[trigger] lookup(metrics.language_distribution@, k) == language_partial(p, c, j + 1, ft, k) by {
                        assert(ptally(p, c, j + 1, ft, ChangeKey::Language, k, Measure::Changes) == ptally(p, c, j as int, ft, ChangeKey::Language, k, Measure::Changes) + if k == lang { 1int } else { 0 });
                        if k != lang {
                            assert(ptally(p, c, j + 1, ft, ChangeKey::Language, k, Measure::Churn) == ptally(p, c, j as int, ft, ChangeKey::Language, k, Measure::Churn));
                        }
                        lemma_tally_bounds(p, ft, ChangeKey::Language, k, Measure::Changes);
                        lemma_in_bounds(c, c.file_changes.take(j as int), ft, ChangeKey::Language, k, Measure::Changes);
                    }
                }
            } else {
                proof {
                    assert forall|sel: ChangeKey, k: Seq<char>, m: Measure| true implies
                        #[trigger] ptally(p, c, j + 1, ft, sel, k, m) == ptally(p, c, j as int, ft, sel, k, m) by {}
                    assert forall|k: Seq<char>| #[trigger] lookup(metrics.contributor_stats@, k) == contributor_partial(p, c, j + 1, ft, k) by {
                        assert(ptally(p, c, j + 1, ft, ChangeKey::Author, k, Measure::Added) == ptally(p, c, j as int, ft, ChangeKey::Author, k, Measure::Added));
                        assert(ptally(p, c, j + 1, ft, ChangeKey::Author, k, Measure::Deleted) == ptally(p, c, j as int, ft, ChangeKey::Author, k, Measure::Deleted));
                    }
                    assert forall|k: Seq<char>| #[trigger] lookup(metrics.file_stats@, k) == file_partial(p, c, j + 1, ft, k) by {
                        assert(ptally(p, c, j + 1, ft, ChangeKey::Path, k, Measure::Changes) == ptally(p, c, j as int, ft, ChangeKey::Path, k, Measure::Changes));
                        assert(ptally(p, c, j + 1, ft, ChangeKey::Path, k, Measure::Added) == ptally(p, c, j as int, ft, ChangeKey::Path, k, Measure::Added));
                        assert(ptally(p, c, j + 1, ft, ChangeKey::Path, k, Measure::Deleted) == ptally(p, c, j as int, ft, ChangeKey::Path, k, Measure::Deleted));
                    }
                    assert forall|k: Seq<char>| #[trigger] lookup(metrics.language_distribution@, k) == language_partial(p, c, j + 1, ft, k) by {
                        assert(ptally(p, c, j + 1, ft, ChangeKey::Language, k, Measure::Changes) == ptally(p, c, j as int, ft, ChangeKey::Language, k, Measure::Changes));
                        assert(ptally(p, c, j + 1, ft, ChangeKey::Language, k, Measure::Churn) == ptally(p, c, j as int, ft, ChangeKey::Language, k, Measure::Churn));
                    }
                }
            }
            j = j + 1;
        }
        proof {
            assert(c.file_changes.take(n as int) =~= c.file_changes);
            assert(q.drop_last() =~= p);
            assert(q.last() == c);
            assert forall|k: Seq<char>| #[trigger] lookup(metrics.contributor_stats@, k) == contributor_of(q, ft, k) by {}
            assert forall|k: Seq<char>| #[trigger] lookup(metrics.file_stats@, k) == file_of(q, ft, k) by {}
            assert forall|k: Seq<char>| #[trigger] lookup(metrics.language_distribution@, k) == language_churn_of(q, ft, k) by {}
        }
        i = i + 1;
    }
    assert(cs.take(commits@.len() as int) =~= cs);
    let _ = metrics.commit_frequency.len();
    let _ = metrics.contributor_stats.len();
    let _ = metrics.file_stats.len();
    let _ = metrics.language_distribution.len();
    metrics
}

} // verus!
