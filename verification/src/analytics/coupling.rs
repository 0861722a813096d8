//! Logical coupling: pairs of files that change in the same commit.
use vstd::prelude::*;

use crate::models::{CommitRecord, Coupling};
use crate::order::{compare_str, lemma_lt_asymmetric, str_lt};
use crate::rank::{rank_indices, ranks_before};
use crate::text::owned;

verus! {

/// Commits touching more files than this are treated as bulk changes
/// (e.g. mass reformats) and skipped.
pub const MAX_FILES_PER_COMMIT: usize = 100;

/// How many top co-changing pairs are kept.
pub const MAX_PAIRS: usize = 100;

/// Two paths with the smaller one first.
pub open spec fn ordered_pair(a: Seq<char>, b: Seq<char>) -> (Seq<char>, Seq<char>) {
    if !str_lt(b, a) {
        (a, b)
    } else {
        (b, a)
    }
}

/// The number of files `i < j` among `paths` with `ordered_pair(paths[i], x) == (a, b)`.
pub open spec fn pairs_with(paths: Seq<Seq<char>>, x: Seq<char>, a: Seq<char>, b: Seq<char>) -> int
    decreases paths.len(),
{
    if paths.len() == 0 {
        0
    } else {
        pairs_with(paths.drop_last(), x, a, b) + if ordered_pair(paths.last(), x) == (a, b) {
            1int
        } else {
            0int
        }
    }
}

/// The number of positions `i < j` in `paths` whose paths form the pair `(a, b)`.
pub open spec fn pairs_in(paths: Seq<Seq<char>>, a: Seq<char>, b: Seq<char>) -> int
    decreases paths.len(),
{
    if paths.len() == 0 {
        0
    } else {
        pairs_in(paths.drop_last(), a, b) + pairs_with(paths.drop_last(), paths.last(), a, b)
    }
}

/// The paths a commit touches, in order.
pub open spec fn commit_paths(c: CommitRecord) -> Seq<Seq<char>> {
    Seq::new(c.files@.len(), |i: int| c.files@[i].path@)
}

/// How often the pair `(a, b)` changes together over `cs`, bulk commits
/// left out.
pub open spec fn co_change_count(cs: Seq<CommitRecord>, a: Seq<char>, b: Seq<char>) -> int
    decreases cs.len(),
{
    if cs.len() == 0 {
        0
    } else {
        co_change_count(cs.drop_last(), a, b) + if cs.last().files@.len() > MAX_FILES_PER_COMMIT {
            0
        } else {
            pairs_in(commit_paths(cs.last()), a, b)
        }
    }
}

proof fn lemma_pairs_with_nonneg(paths: Seq<Seq<char>>, x: Seq<char>, a: Seq<char>, b: Seq<char>)
    ensures
        pairs_with(paths, x, a, b) >= 0,
    decreases paths.len(),
{
    if paths.len() > 0 {
        lemma_pairs_with_nonneg(paths.drop_last(), x, a, b);
    }
}

proof fn lemma_pairs_in_nonneg(paths: Seq<Seq<char>>, a: Seq<char>, b: Seq<char>)
    ensures
        pairs_in(paths, a, b) >= 0,
    decreases paths.len(),
{
    if paths.len() > 0 {
        lemma_pairs_in_nonneg(paths.drop_last(), a, b);
        lemma_pairs_with_nonneg(paths.drop_last(), paths.last(), a, b);
    }
}

proof fn lemma_count_prefix(cs: Seq<CommitRecord>, i: int, a: Seq<char>, b: Seq<char>)
    requires
        0 <= i <= cs.len(),
    ensures
        0 <= co_change_count(cs.take(i), a, b) <= co_change_count(cs, a, b),
    decreases cs.len() - i,
{
    if i < cs.len() {
        lemma_count_prefix(cs, i + 1, a, b);
        assert(cs.take(i + 1).drop_last() =~= cs.take(i));
        assert(cs.take(i + 1).last() == cs[i]);
        lemma_pairs_in_nonneg(commit_paths(cs[i]), a, b);
        lemma_count_nonneg(cs.take(i), a, b);
    } else {
        assert(cs.take(i) =~= cs);
        lemma_count_nonneg(cs, a, b);
    }
}

proof fn lemma_count_nonneg(cs: Seq<CommitRecord>, a: Seq<char>, b: Seq<char>)
    ensures
        co_change_count(cs, a, b) >= 0,
    decreases cs.len(),
{
    if cs.len() > 0 {
        lemma_count_nonneg(cs.drop_last(), a, b);
        lemma_pairs_in_nonneg(commit_paths(cs.last()), a, b);
    }
}

/// No pair's count goes past `u64::MAX`.
pub open spec fn coupling_fits(cs: Seq<CommitRecord>) -> bool {
    forall|a: Seq<char>, b: Seq<char>| co_change_count(cs, a, b) <= u64::MAX
}

/// The count stored for the pair `(a, b)`, if any.
pub open spec fn pair_lookup(s: Seq<(Seq<char>, Seq<char>, u64)>, a: Seq<char>, b: Seq<char>) -> Option<u64>
    decreases s.len(),
{
    if s.len() == 0 {
        None
    } else if s.last().0 == a && s.last().1 == b {
        Some(s.last().2)
    } else {
        pair_lookup(s.drop_last(), a, b)
    }
}

/// No pair occurs twice.
pub open spec fn distinct_pairs(s: Seq<(Seq<char>, Seq<char>, u64)>) -> bool {
    forall|i: int, j: int| 0 <= i < j < s.len() ==> !(#[trigger] s[i].0 == #[trigger] s[j].0 && s[i].1 == s[j].1)
}

proof fn lemma_pair_lookup_index(s: Seq<(Seq<char>, Seq<char>, u64)>, a: Seq<char>, b: Seq<char>)
    requires
        distinct_pairs(s),
    ensures
        pair_lookup(s, a, b) is None <==> forall|i: int| 0 <= i < s.len() ==> !(#[trigger] s[i].0 == a && s[i].1 == b),
        forall|i: int| 0 <= i < s.len() && #[trigger] s[i].0 == a && s[i].1 == b ==> pair_lookup(s, a, b) == Some(s[i].2),
    decreases s.len(),
{
    if s.len() > 0 {
        let t = s.drop_last();
        assert forall|i: int, j: int| 0 <= i < j < t.len() implies !(#[trigger] t[i].0 == #[trigger] t[j].0 && t[i].1 == t[j].1) by {
            assert(t[i] == s[i] && t[j] == s[j]);
        }
        lemma_pair_lookup_index(t, a, b);
        if s.last().0 == a && s.last().1 == b {
            assert(s[s.len() - 1] == s.last());
            assert forall|i: int| 0 <= i < s.len() && #[trigger] s[i].0 == a && s[i].1 == b implies pair_lookup(s, a, b) == Some(s[i].2) by {
                if i < s.len() - 1 {
                    assert(s[s.len() - 1] == s.last());
                }
            }
        } else {
            assert forall|i: int| 0 <= i < s.len() && #[trigger] s[i].0 == a && s[i].1 == b implies pair_lookup(s, a, b) == Some(s[i].2) by {
                assert(i < s.len() - 1);
                assert(t[i] == s[i]);
            }
            if !(forall|i: int| 0 <= i < s.len() ==> !(#[trigger] s[i].0 == a && s[i].1 == b)) {
                let i = choose|i: int| 0 <= i < s.len() && (#[trigger] s[i].0 == a && s[i].1 == b);
                assert(i < s.len() - 1);
                assert(t[i] == s[i]);
            }
            if !(forall|i: int| 0 <= i < t.len() ==> !(#[trigger] t[i].0 == a && t[i].1 == b)) {
                let i = choose|i: int| 0 <= i < t.len() && (#[trigger] t[i].0 == a && t[i].1 == b);
                assert(t[i] == s[i]);
            }
        }
    }
}

/// The pair counts as plain values.
spec fn pair_views(keys_a: Seq<String>, keys_b: Seq<String>, counts: Seq<u64>) -> Seq<(Seq<char>, Seq<char>, u64)> {
    Seq::new(counts.len(), |i: int| (keys_a[i]@, keys_b[i]@, counts[i]))
}

/// Two paths with the smaller one first.
fn ordered(a: &str, b: &str) -> (r: (String, String))
    ensures
        (r.0@, r.1@) == ordered_pair(a@, b@),
{
    let c = compare_str(a, b);
    if c <= 0 {
        proof { lemma_lt_asymmetric(a@, b@); }
        (owned(a), owned(b))
    } else {
        (owned(b), owned(a))
    }
}

/// Adds one co-change of the pair `(a, b)`.
fn bump_pair(keys_a: &mut Vec<String>, keys_b: &mut Vec<String>, counts: &mut Vec<u64>, a: String, b: String)
    requires
        old(keys_a)@.len() == old(counts)@.len(),
        old(keys_b)@.len() == old(counts)@.len(),
        distinct_pairs(pair_views(old(keys_a)@, old(keys_b)@, old(counts)@)),
        pair_lookup(pair_views(old(keys_a)@, old(keys_b)@, old(counts)@), a@, b@) matches Some(c) ==> c < u64::MAX,
    ensures
        final(keys_a)@.len() == final(counts)@.len(),
        final(keys_b)@.len() == final(counts)@.len(),
        distinct_pairs(pair_views(final(keys_a)@, final(keys_b)@, final(counts)@)),
        forall|x: Seq<char>, y: Seq<char>| #[trigger] pair_lookup(pair_views(final(keys_a)@, final(keys_b)@, final(counts)@), x, y) == if x == a@ && y == b@ {
            match pair_lookup(pair_views(old(keys_a)@, old(keys_b)@, old(counts)@), x, y) {
                Some(c) => Some((c + 1) as u64),
                None => Some(1u64),
            }
        } else {
            pair_lookup(pair_views(old(keys_a)@, old(keys_b)@, old(counts)@), x, y)
        },
{
    let ghost s = pair_views(keys_a@, keys_b@, counts@);
    proof {
        lemma_pair_lookup_index(s, a@, b@);
    }
    let mut k: usize = 0;
    while k < counts.len()
        invariant
            k <= counts@.len(),
            keys_a@.len() == counts@.len(),
            keys_b@.len() == counts@.len(),
            s == pair_views(keys_a@, keys_b@, counts@),
            s == pair_views(old(keys_a)@, old(keys_b)@, old(counts)@),
            keys_a@ == old(keys_a)@,
            keys_b@ == old(keys_b)@,
            distinct_pairs(s),
            pair_lookup(s, a@, b@) matches Some(c) ==> c < u64::MAX,
            forall|i: int| 0 <= i < k ==> !(#[trigger] s[i].0 == a@ && s[i].1 == b@),
        decreases counts@.len() - k,
    {
        if compare_str(keys_a[k].as_str(), a.as_str()) == 0 && compare_str(keys_b[k].as_str(), b.as_str()) == 0 {
            let c = counts[k];
            proof {
                assert(s[k as int].0 == a@ && s[k as int].1 == b@);
                lemma_pair_lookup_index(s, a@, b@);
            }
            counts.set(k, c + 1);
            proof {
                let u = pair_views(keys_a@, keys_b@, counts@);
                assert(u =~= s.update(k as int, (a@, b@, (c + 1) as u64)));
                assert forall|i: int, j: int| 0 <= i < j < u.len() implies !(#[trigger] u[i].0 == #[trigger] u[j].0 && u[i].1 == u[j].1) by {
                    assert(u[i].0 == s[i].0 && u[i].1 == s[i].1);
                    assert(u[j].0 == s[j].0 && u[j].1 == s[j].1);
                }
                assert forall|x: Seq<char>, y: Seq<char>| true implies #[trigger] pair_lookup(u, x, y) == if x == a@ && y == b@ {
                    match pair_lookup(s, x, y) { Some(c) => Some((c + 1) as u64), None => Some(1u64) }
                } else {
                    pair_lookup(s, x, y)
                } by {
                    lemma_pair_lookup_index(s, x, y);
                    lemma_pair_lookup_index(u, x, y);
                    if x == a@ && y == b@ {
                        assert(u[k as int].0 == x && u[k as int].1 == y);
                    } else {
                        if exists|i: int| 0 <= i < u.len() && (#[trigger] u[i].0 == x && u[i].1 == y) {
                            let i = choose|i: int| 0 <= i < u.len() && (#[trigger] u[i].0 == x && u[i].1 == y);
                            assert(s[i].0 == x && s[i].1 == y);
                            assert(u[i].2 == s[i].2);
                        }
                        if exists|i: int| 0 <= i < s.len() && (#[trigger] s[i].0 == x && s[i].1 == y) {
                            let i = choose|i: int| 0 <= i < s.len() && (#[trigger] s[i].0 == x && s[i].1 == y);
                            assert(u[i].0 == x && u[i].1 == y);
                        }
                    }
                }
            }
            return;
        }
        k = k + 1;
    }
    let ghost ga = a@;
    let ghost gb = b@;
    keys_a.push(a);
    keys_b.push(b);
    counts.push(1);
    proof {
        let u = pair_views(keys_a@, keys_b@, counts@);
        assert(u =~= s.push((ga, gb, 1u64)));
        assert(u.drop_last() =~= s);
        assert forall|i: int, j: int| 0 <= i < j < u.len() implies !(#[trigger] u[i].0 == #[trigger] u[j].0 && u[i].1 == u[j].1) by {
            if j < s.len() {
                assert(u[i] == s[i] && u[j] == s[j]);
            } else {
                assert(u[i] == s[i]);
            }
        }
    }
}

/// The co-change count of a pair after part of the history.
spec fn partial_count(cs: Seq<CommitRecord>, ci: int, j: int, i: int, a: Seq<char>, b: Seq<char>) -> int {
    let paths = commit_paths(cs[ci]);
    co_change_count(cs.take(ci), a, b) + pairs_in(paths.take(j), a, b) + pairs_with(paths.take(i), paths[j], a, b)
}

/// `pairs` reports the logical coupling of `cs`: pairs of paths (smaller
/// first) with how often they changed together, most co-changes first, each
/// pair once, at most 100, and no pair left out that has more co-changes
/// than the last one kept.
pub open spec fn reports_coupling(cs: Seq<CommitRecord>, pairs: Seq<Coupling>) -> bool {
    &&& pairs.len() <= MAX_PAIRS
    &&& forall|i: int| 0 <= i < pairs.len() ==> {
        &&& #[trigger] pairs[i].co_changes == co_change_count(cs, pairs[i].file_a@, pairs[i].file_b@)
        &&& pairs[i].co_changes > 0
        &&& ordered_pair(pairs[i].file_a@, pairs[i].file_b@) == (pairs[i].file_a@, pairs[i].file_b@)
    }
    &&& forall|i: int, j: int| 0 <= i < j < pairs.len() ==> #[trigger] pairs[i].co_changes >= #[trigger] pairs[j].co_changes
    &&& forall|i: int, j: int| 0 <= i < j < pairs.len() ==> !(#[trigger] pairs[i].file_a@ == #[trigger] pairs[j].file_a@ && pairs[i].file_b@ == pairs[j].file_b@)
    &&& forall|a: Seq<char>, b: Seq<char>| co_change_count(cs, a, b) > 0 && ordered_pair(a, b) == (a, b) ==> {
        ||| exists|i: int| 0 <= i < pairs.len() && #[trigger] pairs[i].file_a@ == a && pairs[i].file_b@ == b
        ||| pairs.len() == MAX_PAIRS && co_change_count(cs, a, b) <= pairs[MAX_PAIRS - 1].co_changes
    }
}

/// Compute logical coupling: pairs of files that change together in the same
/// commit, weighted by how often that co-change happens. Commits touching
/// more than `MAX_FILES_PER_COMMIT` files are skipped; the `MAX_PAIRS`
/// pairs with the most co-changes are kept, most first.
pub fn build_coupling(commits: &[CommitRecord]) -> (pairs: Vec<Coupling>)
    requires
        coupling_fits(commits@),
    ensures
        reports_coupling(commits@, pairs@),
{
    let mut keys_a: Vec<String> = Vec::new();
    let mut keys_b: Vec<String> = Vec::new();
    let mut counts: Vec<u64> = Vec::new();
    let ghost cs = commits@;
    let mut ci: usize = 0;
    assert(cs.take(0) =~= Seq::<CommitRecord>::empty());
    while ci < commits.len()
        invariant
            ci <= cs.len(),
            cs == commits@,
            coupling_fits(cs),
            keys_a@.len() == counts@.len(),
            keys_b@.len() == counts@.len(),
            distinct_pairs(pair_views(keys_a@, keys_b@, counts@)),
            forall|x: Seq<char>, y: Seq<char>| #[trigger] pair_lookup(pair_views(keys_a@, keys_b@, counts@), x, y) ==
                if co_change_count(cs.take(ci as int), x, y) > 0 { Some(co_change_count(cs.take(ci as int), x, y) as u64) } else { None },
            forall|x: Seq<char>, y: Seq<char>| #[trigger] pair_lookup(pair_views(keys_a@, keys_b@, counts@), x, y) matches Some(_) ==> ordered_pair(x, y) == (x, y),
        decreases cs.len() - ci,
    {
        let commit = &commits[ci];
        let ghost paths = commit_paths(cs[ci as int]);
        proof {
            assert(cs.take(ci + 1).drop_last() =~= cs.take(ci as int));
            assert(cs.take(ci + 1).last() == cs[ci as int]);
        }
        if commit.files.len() <= MAX_FILES_PER_COMMIT {
            let n = commit.files.len();
            let mut j: usize = 0;
            assert(paths.take(0) =~= Seq::<Seq<char>>::empty());
            while j < n
                invariant
                    ci < cs.len(),
                    cs == commits@,
                    commit == cs[ci as int],
                    paths == commit_paths(cs[ci as int]),
                    n == paths.len(),
                    n <= MAX_FILES_PER_COMMIT,
                    j <= n,
                    coupling_fits(cs),
                    keys_a@.len() == counts@.len(),
                    keys_b@.len() == counts@.len(),
                    distinct_pairs(pair_views(keys_a@, keys_b@, counts@)),
                    forall|x: Seq<char>, y: Seq<char>| #[trigger] pair_lookup(pair_views(keys_a@, keys_b@, counts@), x, y) ==
                        if co_change_count(cs.take(ci as int), x, y) + pairs_in(paths.take(j as int), x, y) > 0 {
                            Some((co_change_count(cs.take(ci as int), x, y) + pairs_in(paths.take(j as int), x, y)) as u64)
                        } else { None },
                    forall|x: Seq<char>, y: Seq<char>| #[trigger] pair_lookup(pair_views(keys_a@, keys_b@, counts@), x, y) matches Some(_) ==> ordered_pair(x, y) == (x, y),
                decreases n - j,
            {
                let mut i: usize = 0;
                assert(paths.take(0) =~= Seq::<Seq<char>>::empty());
                while i < j
                    invariant
                        ci < cs.len(),
                        cs == commits@,
                        commit == cs[ci as int],
                        paths == commit_paths(cs[ci as int]),
                        n == paths.len(),
                        n <= MAX_FILES_PER_COMMIT,
                        i <= j < n,
                        coupling_fits(cs),
                        keys_a@.len() == counts@.len(),
                        keys_b@.len() == counts@.len(),
                        distinct_pairs(pair_views(keys_a@, keys_b@, counts@)),
                        forall|x: Seq<char>, y: Seq<char>| #[trigger] pair_lookup(pair_views(keys_a@, keys_b@, counts@), x, y) ==
                            if partial_count(cs, ci as int, j as int, i as int, x, y) > 0 {
                                Some(partial_count(cs, ci as int, j as int, i as int, x, y) as u64)
                            } else { None },
                        forall|x: Seq<char>, y: Seq<char>| #[trigger] pair_lookup(pair_views(keys_a@, keys_b@, counts@), x, y) matches Some(_) ==> ordered_pair(x, y) == (x, y),
                    decreases j - i,
                {
                    let (a, b) = ordered(commit.files[i].path.as_str(), commit.files[j].path.as_str());
                    let ghost ga = a@;
                    let ghost gb = b@;
                    let ghost old_s = pair_views(keys_a@, keys_b@, counts@);
                    proof {
                        assert(paths[i as int] == commit.files@[i as int].path@);
                        assert(paths[j as int] == commit.files@[j as int].path@);
                        assert(paths.take(i + 1).drop_last() =~= paths.take(i as int));
                        assert(paths.take(i + 1).last() == paths[i as int]);
                        // the running count stays below the final one
                        lemma_partial_le(cs, ci as int, j as int, i + 1, ga, gb);
                        assert(partial_count(cs, ci as int, j as int, i + 1, ga, gb) == partial_count(cs, ci as int, j as int, i as int, ga, gb) + 1);
                        lemma_partial_nonneg(cs, ci as int, j as int, i as int, ga, gb);
                        // ordered_pair gives a pair in order
                        lemma_ordered_idempotent(paths[i as int], paths[j as int]);
                    }
                    bump_pair(&mut keys_a, &mut keys_b, &mut counts, a, b);
                    proof {
                        assert forall|x: Seq<char>, y: Seq<char>| true implies #[trigger] pair_lookup(pair_views(keys_a@, keys_b@, counts@), x, y) ==
                            if partial_count(cs, ci as int, j as int, i + 1, x, y) > 0 {
                                Some(partial_count(cs, ci as int, j as int, i + 1, x, y) as u64)
                            } else { None } by {
                            assert(pair_lookup(old_s, x, y) == if partial_count(cs, ci as int, j as int, i as int, x, y) > 0 {
                                Some(partial_count(cs, ci as int, j as int, i as int, x, y) as u64)
                            } else { None });
                            lemma_partial_nonneg(cs, ci as int, j as int, i as int, x, y);
                        }
                    }
                    i = i + 1;
                }
                proof {
                    assert(paths.take(j as int) =~= paths.take(j as int));
                    assert(paths.take(j + 1).drop_last() =~= paths.take(j as int));
                    assert(paths.take(j + 1).last() == paths[j as int]);
                }
                j = j + 1;
            }
            proof {
                assert(paths.take(n as int) =~= paths);
            }
        } else {
        }
        ci = ci + 1;
    }
    assert(cs.take(cs.len() as int) =~= cs);
    let ghost s = pair_views(keys_a@, keys_b@, counts@);
    let order = rank_indices(&counts);
    let limit: usize = if order.len() < MAX_PAIRS { order.len() } else { MAX_PAIRS };
    let mut pairs: Vec<Coupling> = Vec::new();
    let mut k: usize = 0;
    while k < limit
        invariant
            k <= limit <= order@.len(),
            limit <= MAX_PAIRS,
            order@.len() == counts@.len(),
            crate::rank::is_ranking(counts@, crate::rank::as_ints(order@)),
            s == pair_views(keys_a@, keys_b@, counts@),
            keys_a@.len() == counts@.len(),
            keys_b@.len() == counts@.len(),
            pairs@.len() == k,
            forall|i: int| 0 <= i < k ==> #[trigger] pairs@[i].file_a@ == s[order@[i] as int].0 && pairs@[i].file_b@ == s[order@[i] as int].1 && pairs@[i].co_changes == s[order@[i] as int].2,
        decreases limit - k,
    {
        let idx = order[k];
        proof {
            assert(crate::rank::as_ints(order@)[k as int] == idx as int);
        }
        pairs.push(Coupling {
            file_a: owned(keys_a[idx].as_str()),
            file_b: owned(keys_b[idx].as_str()),
            co_changes: counts[idx],
        });
        k = k + 1;
    }
    proof {
        let o = crate::rank::as_ints(order@);
        assert forall|i: int| 0 <= i < order@.len() implies #[trigger] o[i] == order@[i] as int && 0 <= o[i] < s.len() by {}
        assert forall|i: int| 0 <= i < pairs@.len() implies {
            &&& #[trigger] pairs@[i].co_changes == co_change_count(cs, pairs@[i].file_a@, pairs@[i].file_b@)
            &&& pairs@[i].co_changes > 0
            &&& ordered_pair(pairs@[i].file_a@, pairs@[i].file_b@) == (pairs@[i].file_a@, pairs@[i].file_b@)
        } by {
            let x = order@[i] as int;
            assert(o[i] == x);
            lemma_pair_lookup_index(s, s[x].0, s[x].1);
            assert(pair_lookup(s, s[x].0, s[x].1) == Some(s[x].2));
        }
        assert forall|i: int, j: int| 0 <= i < j < pairs@.len() implies #[trigger] pairs@[i].co_changes >= #[trigger] pairs@[j].co_changes by {
            assert(ranks_before(counts@, o[i], o[j]));
            assert(o[i] == order@[i] as int && o[j] == order@[j] as int);
        }
        assert forall|i: int, j: int| 0 <= i < j < pairs@.len() implies !(#[trigger] pairs@[i].file_a@ == #[trigger] pairs@[j].file_a@ && pairs@[i].file_b@ == pairs@[j].file_b@) by {
            assert(ranks_before(counts@, o[i], o[j]));
            assert(o[i] != o[j]);
            assert(o[i] == order@[i] as int && o[j] == order@[j] as int);
            let x = o[i];
            let y = o[j];
            if x < y {
                assert(!(s[x].0 == s[y].0 && s[x].1 == s[y].1));
            } else {
                assert(!(s[y].0 == s[x].0 && s[y].1 == s[x].1));
            }
        }
        assert forall|a: Seq<char>, b: Seq<char>| co_change_count(cs, a, b) > 0 && ordered_pair(a, b) == (a, b) implies {
            ||| exists|i: int| 0 <= i < pairs@.len() && #[trigger] pairs@[i].file_a@ == a && pairs@[i].file_b@ == b
            ||| pairs@.len() == MAX_PAIRS && co_change_count(cs, a, b) <= pairs@[MAX_PAIRS - 1].co_changes
        } by {
            lemma_pair_lookup_index(s, a, b);
            assert(pair_lookup(s, a, b) is Some);
            let x = choose|x: int| 0 <= x < s.len() && (#[trigger] s[x].0 == a && s[x].1 == b);
            assert(o.contains(x));
            let p = choose|p: int| 0 <= p < o.len() && o[p] == x;
            assert(pair_lookup(s, a, b) == Some(s[x].2));
            if p < limit {
                assert(pairs@[p].file_a@ == a && pairs@[p].file_b@ == b);
            } else {
                assert(limit == MAX_PAIRS);
                assert(ranks_before(counts@, o[MAX_PAIRS - 1], o[p]));
                assert(o[MAX_PAIRS - 1] == order@[MAX_PAIRS - 1] as int);
            }
        }
    }
    pairs
}

/// The pair from two paths is in order.
proof fn lemma_ordered_idempotent(p: Seq<char>, q: Seq<char>)
    ensures
        ordered_pair(ordered_pair(p, q).0, ordered_pair(p, q).1) == ordered_pair(p, q),
{
    crate::order::lemma_lt_asymmetric(p, q);
}

proof fn lemma_partial_nonneg(cs: Seq<CommitRecord>, ci: int, j: int, i: int, a: Seq<char>, b: Seq<char>)
    requires
        0 <= ci < cs.len(),
        0 <= i <= j < cs[ci].files@.len(),
    ensures
        partial_count(cs, ci, j, i, a, b) >= 0,
{
    let paths = commit_paths(cs[ci]);
    lemma_count_prefix(cs, ci, a, b);
    lemma_pairs_in_nonneg(paths.take(j), a, b);
    lemma_pairs_with_nonneg(paths.take(i), paths[j], a, b);
}

/// A running count never exceeds the final count.
proof fn lemma_partial_le(cs: Seq<CommitRecord>, ci: int, j: int, i: int, a: Seq<char>, b: Seq<char>)
    requires
        0 <= ci < cs.len(),
        0 <= i <= j < cs[ci].files@.len(),
        cs[ci].files@.len() <= MAX_FILES_PER_COMMIT,
    ensures
        partial_count(cs, ci, j, i, a, b) <= co_change_count(cs, a, b),
{
    let paths = commit_paths(cs[ci]);
    lemma_pairs_with_prefix(paths.take(j), paths[j], i, a, b);
    assert(paths.take(j).take(i) =~= paths.take(i));
    assert(paths.take(j + 1).drop_last() =~= paths.take(j));
    assert(paths.take(j + 1).last() == paths[j]);
    lemma_pairs_in_prefix(paths, j + 1, a, b);
    lemma_count_prefix(cs, ci + 1, a, b);
    assert(cs.take(ci + 1).drop_last() =~= cs.take(ci));
    assert(cs.take(ci + 1).last() == cs[ci]);
}

proof fn lemma_pairs_with_prefix(paths: Seq<Seq<char>>, x: Seq<char>, i: int, a: Seq<char>, b: Seq<char>)
    requires
        0 <= i <= paths.len(),
    ensures
        pairs_with(paths.take(i), x, a, b) <= pairs_with(paths, x, a, b),
    decreases paths.len() - i,
{
    if i < paths.len() {
        lemma_pairs_with_prefix(paths, x, i + 1, a, b);
        assert(paths.take(i + 1).drop_last() =~= paths.take(i));
    } else {
        assert(paths.take(i) =~= paths);
    }
}

proof fn lemma_pairs_in_prefix(paths: Seq<Seq<char>>, j: int, a: Seq<char>, b: Seq<char>)
    requires
        0 <= j <= paths.len(),
    ensures
        pairs_in(paths.take(j), a, b) <= pairs_in(paths, a, b),
    decreases paths.len() - j,
{
    if j < paths.len() {
        lemma_pairs_in_prefix(paths, j + 1, a, b);
        assert(paths.take(j + 1).drop_last() =~= paths.take(j));
        lemma_pairs_with_nonneg(paths.take(j), paths[j], a, b);
    } else {
        assert(paths.take(j) =~= paths);
    }
}

} // verus!
