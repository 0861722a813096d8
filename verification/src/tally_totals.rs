//! How the per-key tallies of `collect_metrics` add up to its totals.
use vstd::prelude::*;

use crate::analytics::totals::{key_sum, lemma_key_sum_single, lemma_key_sum_split, lemma_key_sum_zero};
use crate::order::lemma_lt_irreflexive;
use crate::strmap::{lemma_lookup_index, lookup, sorted_keys};
use crate::tally::{
    active, change_key, change_tally, change_tally_in, commit_key, commit_tally, lemma_author_changes,
    lemma_commit_tally_bounds, lemma_in_bounds, lemma_tally_bounds, measure, metrics_fit, metrics_of, relevant,
    ChangeKey, CommitKey, Measure,
};
use crate::{CommitView, ContributorStats, FileChangeView, FileStats, Metrics};

verus! {

/// The sum of `f` over the values of an entry sequence.
pub open spec fn entries_sum<V>(s: Seq<(Seq<char>, V)>, f: spec_fn(V) -> int) -> int
    decreases s.len(),
{
    if s.len() == 0 {
        0
    } else {
        entries_sum(s.drop_last(), f) + f(s.last().1)
    }
}

/// The keys of an entry sequence.
pub open spec fn keys_of<V>(s: Seq<(Seq<char>, V)>) -> Seq<Seq<char>> {
    s.map_values(|e: (Seq<char>, V)| e.0)
}

/// `f` applied to what `s` stores under `k`, 0 when nothing.
pub open spec fn stored<V>(s: Seq<(Seq<char>, V)>, f: spec_fn(V) -> int, k: Seq<char>) -> int {
    match lookup(s, k) {
        Some(v) => f(v),
        None => 0,
    }
}

proof fn lemma_key_sum_congruent(keys: Seq<Seq<char>>, f: spec_fn(Seq<char>) -> int, g: spec_fn(Seq<char>) -> int)
    requires
        forall|i: int| 0 <= i < keys.len() ==> f(#[trigger] keys[i]) == g(keys[i]),
    ensures
        key_sum(keys, f) == key_sum(keys, g),
    decreases keys.len(),
{
    if keys.len() > 0 {
        let t = keys.drop_last();
        assert forall|i: int| 0 <= i < t.len() implies f(#[trigger] t[i]) == g(t[i]) by {
            assert(t[i] == keys[i]);
        }
        lemma_key_sum_congruent(t, f, g);
        assert(f(keys[keys.len() - 1]) == g(keys[keys.len() - 1]));
    }
}

/// Summing the values of a sorted entry sequence is summing what it stores
/// over its keys, which occur once each.
proof fn lemma_entries_sum<V>(s: Seq<(Seq<char>, V)>, f: spec_fn(V) -> int)
    requires
        sorted_keys(s),
    ensures
        entries_sum(s, f) == key_sum(keys_of(s), |k: Seq<char>| stored(s, f, k)),
        keys_of(s).no_duplicates(),
    decreases s.len(),
{
    let ks = keys_of(s);
    assert forall|i: int, j: int| 0 <= i < ks.len() && 0 <= j < ks.len() && i != j implies ks[i] != ks[j] by {
        if i < j {
            assert(crate::order::str_lt(s[i].0, s[j].0));
        } else {
            assert(crate::order::str_lt(s[j].0, s[i].0));
        }
        lemma_lt_irreflexive(s[i].0);
    }
    if s.len() > 0 {
        let t = s.drop_last();
        let last = s.last();
        assert forall|i: int, j: int| 0 <= i < j < t.len() implies crate::order::str_lt(#[trigger] t[i].0, #[trigger] t[j].0) by {
            assert(t[i] == s[i] && t[j] == s[j]);
        }
        lemma_entries_sum(t, f);
        assert(keys_of(s).drop_last() =~= keys_of(t));
        let g = |k: Seq<char>| stored(t, f, k);
        let h = |k: Seq<char>| stored(s, f, k);
        assert forall|i: int| 0 <= i < keys_of(t).len() implies g(#[trigger] keys_of(t)[i]) == h(keys_of(t)[i]) by {
            assert(keys_of(t)[i] == t[i].0);
            assert(t[i] == s[i]);
            assert(crate::order::str_lt(s[i].0, s[s.len() - 1].0));
            if t[i].0 == last.0 {
                lemma_lt_irreflexive(last.0);
            }
        }
        lemma_key_sum_congruent(keys_of(t), g, h);
        assert(keys_of(s).last() == last.0);
    }
}

/// A commit counts under its own key.
proof fn lemma_commit_counted(cs: Seq<CommitView>, ft: Option<Seq<char>>, sel: CommitKey)
    requires
        cs.len() > 0,
        active(cs.last(), ft),
    ensures
        commit_tally(cs, ft, sel, commit_key(sel, cs.last())) >= 1,
{
    lemma_commit_tally_bounds(cs.drop_last(), ft, sel, commit_key(sel, cs.last()));
}

/// Over keys that hold each commit key once, the per-key commit counts add
/// up to the number of counted commits.
proof fn lemma_commit_partition(cs: Seq<CommitView>, ft: Option<Seq<char>>, sel: CommitKey, keys: Seq<Seq<char>>)
    requires
        keys.no_duplicates(),
        forall|k: Seq<char>| #[trigger] commit_tally(cs, ft, sel, k) > 0 ==> keys.contains(k),
    ensures
        key_sum(keys, |k: Seq<char>| commit_tally(cs, ft, sel, k)) == commit_tally(cs, ft, CommitKey::Whole, Seq::empty()),
    decreases cs.len(),
{
    let h = |k: Seq<char>| commit_tally(cs, ft, sel, k);
    if cs.len() == 0 {
        lemma_key_sum_zero(keys, h);
    } else {
        let t = cs.drop_last();
        let c = cs.last();
        assert forall|k: Seq<char>| #[trigger] commit_tally(t, ft, sel, k) > 0 implies keys.contains(k) by {
            assert(commit_tally(cs, ft, sel, k) > 0);
        }
        lemma_commit_partition(t, ft, sel, keys);
        let f = |k: Seq<char>| commit_tally(t, ft, sel, k);
        let x = commit_key(sel, c);
        let g = |k: Seq<char>| if active(c, ft) && x == k { 1int } else { 0int };
        assert forall|k: Seq<char>| #[trigger] h(k) == f(k) + g(k) by {}
        lemma_key_sum_split(keys, f, g, h);
        if active(c, ft) {
            lemma_commit_counted(cs, ft, sel);
            lemma_key_sum_single(keys, g, x, 1);
        } else {
            assert forall|i: int| 0 <= i < keys.len() implies g(#[trigger] keys[i]) == 0 by {}
            lemma_key_sum_zero(keys, g);
        }
    }
}

/// A relevant change counts under its own key.
proof fn lemma_change_counted(c: CommitView, chs: Seq<FileChangeView>, ft: Option<Seq<char>>, sel: ChangeKey, j: int)
    requires
        0 <= j < chs.len(),
        relevant(chs[j], ft),
    ensures
        change_tally_in(c, chs, ft, sel, change_key(sel, c, chs[j]), Measure::Changes) >= 1,
    decreases chs.len(),
{
    let x = change_key(sel, c, chs[j]);
    lemma_in_bounds(c, chs.drop_last(), ft, sel, x, Measure::Changes);
    if j < chs.len() - 1 {
        assert(chs.drop_last()[j] == chs[j]);
        lemma_change_counted(c, chs.drop_last(), ft, sel, j);
    }
}

/// Over keys that hold each change key once, the per-key tallies of one
/// commit's changes add up to its whole tally.
proof fn lemma_in_change_partition(c: CommitView, chs: Seq<FileChangeView>, ft: Option<Seq<char>>, sel: ChangeKey, keys: Seq<Seq<char>>, m: Measure)
    requires
        keys.no_duplicates(),
        forall|j: int| 0 <= j < chs.len() && relevant(chs[j], ft) ==> keys.contains(#[trigger] change_key(sel, c, chs[j])),
    ensures
        key_sum(keys, |k: Seq<char>| change_tally_in(c, chs, ft, sel, k, m)) == change_tally_in(c, chs, ft, ChangeKey::Whole, Seq::empty(), m),
    decreases chs.len(),
{
    let h = |k: Seq<char>| change_tally_in(c, chs, ft, sel, k, m);
    if chs.len() == 0 {
        lemma_key_sum_zero(keys, h);
    } else {
        let t = chs.drop_last();
        let ch = chs.last();
        assert forall|j: int| 0 <= j < t.len() && relevant(t[j], ft) implies keys.contains(#[trigger] change_key(sel, c, t[j])) by {
            assert(t[j] == chs[j]);
        }
        lemma_in_change_partition(c, t, ft, sel, keys, m);
        let f = |k: Seq<char>| change_tally_in(c, t, ft, sel, k, m);
        let x = change_key(sel, c, ch);
        let g = |k: Seq<char>| if relevant(ch, ft) && x == k { measure(m, ch) } else { 0 };
        assert forall|k: Seq<char>| #[trigger] h(k) == f(k) + g(k) by {}
        lemma_key_sum_split(keys, f, g, h);
        if relevant(ch, ft) {
            assert(chs[chs.len() - 1] == ch);
            lemma_key_sum_single(keys, g, x, measure(m, ch));
        } else {
            assert forall|i: int| 0 <= i < keys.len() implies g(#[trigger] keys[i]) == 0 by {}
            lemma_key_sum_zero(keys, g);
        }
    }
}

/// Over keys that hold each change key once, the per-key tallies add up to
/// the whole tally.
proof fn lemma_change_partition(cs: Seq<CommitView>, ft: Option<Seq<char>>, sel: ChangeKey, keys: Seq<Seq<char>>, m: Measure)
    requires
        keys.no_duplicates(),
        forall|k: Seq<char>| #[trigger] change_tally(cs, ft, sel, k, Measure::Changes) > 0 ==> keys.contains(k),
    ensures
        key_sum(keys, |k: Seq<char>| change_tally(cs, ft, sel, k, m)) == change_tally(cs, ft, ChangeKey::Whole, Seq::empty(), m),
    decreases cs.len(),
{
    let h = |k: Seq<char>| change_tally(cs, ft, sel, k, m);
    if cs.len() == 0 {
        lemma_key_sum_zero(keys, h);
    } else {
        let t = cs.drop_last();
        let c = cs.last();
        assert forall|k: Seq<char>| #[trigger] change_tally(t, ft, sel, k, Measure::Changes) > 0 implies keys.contains(k) by {
            lemma_in_bounds(c, c.file_changes, ft, sel, k, Measure::Changes);
            assert(change_tally(cs, ft, sel, k, Measure::Changes) > 0);
        }
        lemma_change_partition(t, ft, sel, keys, m);
        assert forall|j: int| 0 <= j < c.file_changes.len() && relevant(c.file_changes[j], ft) implies keys.contains(#[trigger] change_key(sel, c, c.file_changes[j])) by {
            let x = change_key(sel, c, c.file_changes[j]);
            lemma_change_counted(c, c.file_changes, ft, sel, j);
            lemma_tally_bounds(t, ft, sel, x, Measure::Changes);
            assert(change_tally(cs, ft, sel, x, Measure::Changes) > 0);
        }
        lemma_in_change_partition(c, c.file_changes, ft, sel, keys, m);
        let f = |k: Seq<char>| change_tally(t, ft, sel, k, m);
        let g = |k: Seq<char>| change_tally_in(c, c.file_changes, ft, sel, k, m);
        assert forall|k: Seq<char>| #[trigger] h(k) == f(k) + g(k) by {}
        lemma_key_sum_split(keys, f, g, h);
    }
}

proof fn lemma_commit_keyed_le(cs: Seq<CommitView>, ft: Option<Seq<char>>, sel: CommitKey, k: Seq<char>)
    ensures
        0 <= commit_tally(cs, ft, sel, k) <= commit_tally(cs, ft, CommitKey::Whole, Seq::empty()),
    decreases cs.len(),
{
    if cs.len() > 0 {
        lemma_commit_keyed_le(cs.drop_last(), ft, sel, k);
    }
}

/// The keys of `s` hold every key that `s` stores something under.
proof fn lemma_stored_keys<V>(s: Seq<(Seq<char>, V)>, k: Seq<char>)
    requires
        sorted_keys(s),
        lookup(s, k) is Some,
    ensures
        keys_of(s).contains(k),
{
    lemma_lookup_index(s, k);
    let i = choose|i: int| 0 <= i < s.len() && #[trigger] s[i].0 == k;
    assert(keys_of(s)[i] == k);
}

/// The tallies of `collect_metrics` add up: the commits per date and per
/// author make the total commits; the lines added (deleted) per author and
/// per file make the total lines added (deleted); and the churn per
/// language makes all lines added and deleted.
pub proof fn law_metrics_totals(cs: Seq<CommitView>, ft: Option<Seq<char>>, m: Metrics)
    requires
        metrics_of(cs, ft, m),
        metrics_fit(cs, ft),
    ensures
        entries_sum(m.commit_frequency@, |v: u64| v as int) == m.total_commits,
        entries_sum(m.contributor_stats@, |c: ContributorStats| c.commits as int) == m.total_commits,
        entries_sum(m.contributor_stats@, |c: ContributorStats| c.lines_added as int) == m.total_lines_added,
        entries_sum(m.contributor_stats@, |c: ContributorStats| c.lines_deleted as int) == m.total_lines_deleted,
        entries_sum(m.file_stats@, |f: FileStats| f.lines_added as int) == m.total_lines_added,
        entries_sum(m.file_stats@, |f: FileStats| f.lines_deleted as int) == m.total_lines_deleted,
        entries_sum(m.language_distribution@, |v: u64| v as int) == m.total_lines_added + m.total_lines_deleted,
{
    let whole = Seq::<char>::empty();
    // commits per date
    let freq = m.commit_frequency@;
    let fv = |v: u64| v as int;
    lemma_entries_sum(freq, fv);
    assert forall|k: Seq<char>| #[trigger] commit_tally(cs, ft, CommitKey::Date, k) > 0 implies keys_of(freq).contains(k) by {
        assert(lookup(freq, k) is Some);
        lemma_stored_keys(freq, k);
    }
    lemma_commit_partition(cs, ft, CommitKey::Date, keys_of(freq));
    assert forall|i: int| 0 <= i < keys_of(freq).len() implies (|k: Seq<char>| stored(freq, fv, k))(#[trigger] keys_of(freq)[i])
        == (|k: Seq<char>| commit_tally(cs, ft, CommitKey::Date, k))(keys_of(freq)[i]) by {
        let k = keys_of(freq)[i];
        lemma_commit_keyed_le(cs, ft, CommitKey::Date, k);
        assert(lookup(freq, k) == crate::tally::frequency_of(cs, ft, k));
    }
    lemma_key_sum_congruent(keys_of(freq), |k: Seq<char>| stored(freq, fv, k), |k: Seq<char>| commit_tally(cs, ft, CommitKey::Date, k));

    // per author
    let authors = m.contributor_stats@;
    let ac = |c: ContributorStats| c.commits as int;
    let aa = |c: ContributorStats| c.lines_added as int;
    let ad = |c: ContributorStats| c.lines_deleted as int;
    lemma_entries_sum(authors, ac);
    lemma_entries_sum(authors, aa);
    lemma_entries_sum(authors, ad);
    assert forall|k: Seq<char>| #[trigger] commit_tally(cs, ft, CommitKey::Author, k) > 0 implies keys_of(authors).contains(k) by {
        assert(lookup(authors, k) is Some);
        lemma_stored_keys(authors, k);
    }
    assert forall|k: Seq<char>| #[trigger] change_tally(cs, ft, ChangeKey::Author, k, Measure::Changes) > 0 implies keys_of(authors).contains(k) by {
        lemma_commit_tally_bounds(cs, ft, CommitKey::Author, k);
        if commit_tally(cs, ft, CommitKey::Author, k) == 0 {
            lemma_author_changes(cs, ft, k, Measure::Changes);
        }
        assert(lookup(authors, k) is Some);
        lemma_stored_keys(authors, k);
    }
    lemma_commit_partition(cs, ft, CommitKey::Author, keys_of(authors));
    lemma_change_partition(cs, ft, ChangeKey::Author, keys_of(authors), Measure::Added);
    lemma_change_partition(cs, ft, ChangeKey::Author, keys_of(authors), Measure::Deleted);
    assert forall|i: int| 0 <= i < keys_of(authors).len() implies {
        &&& (|k: Seq<char>| stored(authors, ac, k))(#[trigger] keys_of(authors)[i]) == (|k: Seq<char>| commit_tally(cs, ft, CommitKey::Author, k))(keys_of(authors)[i])
        &&& (|k: Seq<char>| stored(authors, aa, k))(keys_of(authors)[i]) == (|k: Seq<char>| change_tally(cs, ft, ChangeKey::Author, k, Measure::Added))(keys_of(authors)[i])
        &&& (|k: Seq<char>| stored(authors, ad, k))(keys_of(authors)[i]) == (|k: Seq<char>| change_tally(cs, ft, ChangeKey::Author, k, Measure::Deleted))(keys_of(authors)[i])
    } by {
        let k = keys_of(authors)[i];
        lemma_commit_keyed_le(cs, ft, CommitKey::Author, k);
        lemma_tally_bounds(cs, ft, ChangeKey::Author, k, Measure::Added);
        lemma_tally_bounds(cs, ft, ChangeKey::Author, k, Measure::Deleted);
        assert(lookup(authors, k) == crate::tally::contributor_of(cs, ft, k));
        lemma_commit_tally_bounds(cs, ft, CommitKey::Author, k);
        if commit_tally(cs, ft, CommitKey::Author, k) == 0 {
            lemma_author_changes(cs, ft, k, Measure::Added);
            lemma_author_changes(cs, ft, k, Measure::Deleted);
        }
    }
    lemma_key_sum_congruent(keys_of(authors), |k: Seq<char>| stored(authors, ac, k), |k: Seq<char>| commit_tally(cs, ft, CommitKey::Author, k));
    lemma_key_sum_congruent(keys_of(authors), |k: Seq<char>| stored(authors, aa, k), |k: Seq<char>| change_tally(cs, ft, ChangeKey::Author, k, Measure::Added));
    lemma_key_sum_congruent(keys_of(authors), |k: Seq<char>| stored(authors, ad, k), |k: Seq<char>| change_tally(cs, ft, ChangeKey::Author, k, Measure::Deleted));

    // per file
    let files = m.file_stats@;
    let fa = |f: FileStats| f.lines_added as int;
    let fd = |f: FileStats| f.lines_deleted as int;
    lemma_entries_sum(files, fa);
    lemma_entries_sum(files, fd);
    assert forall|k: Seq<char>| #[trigger] change_tally(cs, ft, ChangeKey::Path, k, Measure::Changes) > 0 implies keys_of(files).contains(k) by {
        assert(lookup(files, k) is Some);
        lemma_stored_keys(files, k);
    }
    lemma_change_partition(cs, ft, ChangeKey::Path, keys_of(files), Measure::Added);
    lemma_change_partition(cs, ft, ChangeKey::Path, keys_of(files), Measure::Deleted);
    assert forall|i: int| 0 <= i < keys_of(files).len() implies {
        &&& (|k: Seq<char>| stored(files, fa, k))(#[trigger] keys_of(files)[i]) == (|k: Seq<char>| change_tally(cs, ft, ChangeKey::Path, k, Measure::Added))(keys_of(files)[i])
        &&& (|k: Seq<char>| stored(files, fd, k))(keys_of(files)[i]) == (|k: Seq<char>| change_tally(cs, ft, ChangeKey::Path, k, Measure::Deleted))(keys_of(files)[i])
    } by {
        let k = keys_of(files)[i];
        lemma_tally_bounds(cs, ft, ChangeKey::Path, k, Measure::Added);
        lemma_tally_bounds(cs, ft, ChangeKey::Path, k, Measure::Deleted);
        lemma_tally_bounds(cs, ft, ChangeKey::Path, k, Measure::Changes);
        assert(lookup(files, k) == crate::tally::file_of(cs, ft, k));
        if change_tally(cs, ft, ChangeKey::Path, k, Measure::Changes) == 0 {
            crate::tally::lemma_tally_no_changes(cs, ft, ChangeKey::Path, k, Measure::Added);
            crate::tally::lemma_tally_no_changes(cs, ft, ChangeKey::Path, k, Measure::Deleted);
        }
    }
    lemma_key_sum_congruent(keys_of(files), |k: Seq<char>| stored(files, fa, k), |k: Seq<char>| change_tally(cs, ft, ChangeKey::Path, k, Measure::Added));
    lemma_key_sum_congruent(keys_of(files), |k: Seq<char>| stored(files, fd, k), |k: Seq<char>| change_tally(cs, ft, ChangeKey::Path, k, Measure::Deleted));

    // per language
    let langs = m.language_distribution@;
    lemma_entries_sum(langs, fv);
    assert forall|k: Seq<char>| #[trigger] change_tally(cs, ft, ChangeKey::Language, k, Measure::Changes) > 0 implies keys_of(langs).contains(k) by {
        assert(lookup(langs, k) is Some);
        lemma_stored_keys(langs, k);
    }
    lemma_change_partition(cs, ft, ChangeKey::Language, keys_of(langs), Measure::Churn);
    assert forall|i: int| 0 <= i < keys_of(langs).len() implies (|k: Seq<char>| stored(langs, fv, k))(#[trigger] keys_of(langs)[i])
        == (|k: Seq<char>| change_tally(cs, ft, ChangeKey::Language, k, Measure::Churn))(keys_of(langs)[i]) by {
        let k = keys_of(langs)[i];
        lemma_tally_bounds(cs, ft, ChangeKey::Language, k, Measure::Churn);
        lemma_tally_bounds(cs, ft, ChangeKey::Language, k, Measure::Changes);
        assert(lookup(langs, k) == crate::tally::language_churn_of(cs, ft, k));
        if change_tally(cs, ft, ChangeKey::Language, k, Measure::Changes) == 0 {
            crate::tally::lemma_tally_no_changes(cs, ft, ChangeKey::Language, k, Measure::Churn);
        }
    }
    lemma_key_sum_congruent(keys_of(langs), |k: Seq<char>| stored(langs, fv, k), |k: Seq<char>| change_tally(cs, ft, ChangeKey::Language, k, Measure::Churn));
    lemma_whole_churn(cs, ft);
}

proof fn lemma_in_whole_churn(c: CommitView, chs: Seq<FileChangeView>, ft: Option<Seq<char>>)
    ensures
        change_tally_in(c, chs, ft, ChangeKey::Whole, Seq::empty(), Measure::Churn) == change_tally_in(c, chs, ft, ChangeKey::Whole, Seq::empty(), Measure::Added)
            + change_tally_in(c, chs, ft, ChangeKey::Whole, Seq::empty(), Measure::Deleted),
    decreases chs.len(),
{
    if chs.len() > 0 {
        lemma_in_whole_churn(c, chs.drop_last(), ft);
    }
}

/// Churn is lines added plus lines deleted.
proof fn lemma_whole_churn(cs: Seq<CommitView>, ft: Option<Seq<char>>)
    ensures
        change_tally(cs, ft, ChangeKey::Whole, Seq::empty(), Measure::Churn) == change_tally(cs, ft, ChangeKey::Whole, Seq::empty(), Measure::Added)
            + change_tally(cs, ft, ChangeKey::Whole, Seq::empty(), Measure::Deleted),
    decreases cs.len(),
{
    if cs.len() > 0 {
        lemma_whole_churn(cs.drop_last(), ft);
        lemma_in_whole_churn(cs.last(), cs.last().file_changes, ft);
    }
}

} // verus!
