//! Ranking by score: the order in which rows are listed, highest score
//! first and, among equal scores, in the order they were given.
use vstd::prelude::*;

use crate::order::str_lt;
use crate::strmap::sorted_keys;

verus! {

/// Row `a` is listed before row `b`: a higher score, or an equal score and
/// an earlier position in the input.
pub open spec fn ranks_before(s: Seq<u64>, a: int, b: int) -> bool {
    s[a] > s[b] || (s[a] == s[b] && a < b)
}

/// `o` lists every row index of `s` once, in ranking order.
pub open spec fn is_ranking(s: Seq<u64>, o: Seq<int>) -> bool {
    &&& o.len() == s.len()
    &&& forall|i: int| 0 <= i < o.len() ==> 0 <= #[trigger] o[i] < s.len()
    &&& forall|a: int| 0 <= a < s.len() ==> #[trigger] o.contains(a)
    &&& forall|i: int, j: int| 0 <= i < j < o.len() ==> ranks_before(s, #[trigger] o[i], #[trigger] o[j])
}

/// The ranking of `s` (there is exactly one, see `lemma_ranking_unique`).
pub open spec fn ranking(s: Seq<u64>) -> Seq<int> {
    choose|o: Seq<int>| is_ranking(s, o)
}

/// Two rankings of the same scores agree on every prefix.
proof fn lemma_rankings_agree(s: Seq<u64>, o1: Seq<int>, o2: Seq<int>, i: int)
    requires
        is_ranking(s, o1),
        is_ranking(s, o2),
        0 <= i <= o1.len(),
    ensures
        forall|k: int| 0 <= k < i ==> o1[k] == o2[k],
    decreases i,
{
    if i > 0 {
        lemma_rankings_agree(s, o1, o2, i - 1);
        let x = i - 1;
        let a = o1[x];
        let b = o2[x];
        if a != b {
            assert(0 <= b < s.len());
            assert(o1.contains(b));
            let j = choose|j: int| 0 <= j < o1.len() && #[trigger] o1[j] == b;
            if j < x {
                assert(o2[j] == b);
                assert(ranks_before(s, o2[j], o2[x]));
            }
            assert(j > x);
            assert(ranks_before(s, o1[x], o1[j]));
            assert(0 <= a < s.len());
            assert(o2.contains(a));
            let k = choose|k: int| 0 <= k < o2.len() && #[trigger] o2[k] == a;
            if k < x {
                assert(o1[k] == a);
                assert(ranks_before(s, o1[k], o1[x]));
            }
            assert(k > x);
            assert(ranks_before(s, o2[x], o2[k]));
        }
    }
}

/// A score sequence has a single ranking.
pub proof fn lemma_ranking_unique(s: Seq<u64>, o1: Seq<int>, o2: Seq<int>)
    requires
        is_ranking(s, o1),
        is_ranking(s, o2),
    ensures
        o1 == o2,
{
    lemma_rankings_agree(s, o1, o2, o1.len() as int);
    assert(o1 =~= o2);
}

/// Ranking the entries of a table with sorted keys lists them by score,
/// ties by key.
pub proof fn lemma_ranked_entries<V>(t: Seq<(Seq<char>, V)>, s: Seq<u64>, o: Seq<int>)
    requires
        sorted_keys(t),
        s.len() == t.len(),
        is_ranking(s, o),
    ensures
        forall|i: int, j: int| 0 <= i < j < o.len() ==> s[#[trigger] o[i]] > s[#[trigger] o[j]] || (s[o[i]] == s[o[j]] && str_lt(t[o[i]].0, t[o[j]].0)),
{
    assert forall|i: int, j: int| 0 <= i < j < o.len() implies s[#[trigger] o[i]] > s[#[trigger] o[j]] || (s[o[i]] == s[o[j]] && str_lt(t[o[i]].0, t[o[j]].0)) by {
        assert(ranks_before(s, o[i], o[j]));
        assert(0 <= o[i] < t.len() && 0 <= o[j] < t.len());
    }
}

/// The index sequence as integers.
pub open spec fn as_ints(v: Seq<usize>) -> Seq<int> {
    v.map_values(|x: usize| x as int)
}

/// The row indices of `scores` in ranking order.
pub fn rank_indices(scores: &Vec<u64>) -> (order: Vec<usize>)
    ensures
        is_ranking(scores@, as_ints(order@)),
        as_ints(order@) == ranking(scores@),
{
    let n = scores.len();
    let mut order: Vec<usize> = Vec::new();
    let mut x: usize = 0;
    while x < n
        invariant
            x <= n,
            n == scores@.len(),
            order@.len() == x,
            forall|i: int| 0 <= i < x ==> #[trigger] order@[i] < x,
            forall|a: usize| a < x ==> #[trigger] order@.contains(a),
            forall|i: int, j: int| 0 <= i < j < x ==> ranks_before(scores@, #[trigger] order@[i] as int, #[trigger] order@[j] as int),
        decreases n - x,
    {
        let mut p: usize = 0;
        while p < order.len() && (scores[order[p]] > scores[x] || (scores[order[p]] == scores[x] && order[p] < x))
            invariant
                p <= order@.len(),
                order@.len() == x,
                x < n,
                n == scores@.len(),
                forall|i: int| 0 <= i < x ==> #[trigger] order@[i] < x,
                forall|i: int| 0 <= i < p ==> ranks_before(scores@, #[trigger] order@[i] as int, x as int),
            decreases x - p,
        {
            p = p + 1;
        }
        let ghost old_order = order@;
        proof {
            // everything from `p` on comes after `x`
            assert forall|i: int| p <= i < x implies ranks_before(scores@, x as int, #[trigger] old_order[i] as int) by {
                if i > p {
                    assert(ranks_before(scores@, old_order[p as int] as int, old_order[i] as int));
                }
                assert(old_order[i] < x);
            }
        }
        order.insert(p, x);
        proof {
            let o = order@;
            assert(o =~= old_order.insert(p as int, x));
            assert forall|i: int| 0 <= i < x + 1 implies #[trigger] o[i] < x + 1 by {
                if i < p { assert(o[i] == old_order[i]); }
                else if i > p { assert(o[i] == old_order[i - 1]); }
            }
            assert forall|a: usize| a < x + 1 implies #[trigger] o.contains(a) by {
                if a == x {
                    assert(o[p as int] == a);
                } else {
                    assert(old_order.contains(a));
                    let i = choose|i: int| 0 <= i < x && #[trigger] old_order[i] == a;
                    if i < p {
                        assert(o[i] == a);
                    } else {
                        assert(o[i + 1] == a);
                    }
                }
            }
            assert forall|i: int, j: int| 0 <= i < j < x + 1 implies ranks_before(scores@, #[trigger] o[i] as int, #[trigger] o[j] as int) by {
                if j < p {
                    assert(o[i] == old_order[i] && o[j] == old_order[j]);
                } else if j == p {
                    assert(o[i] == old_order[i]);
                } else if i < p {
                    assert(o[i] == old_order[i] && o[j] == old_order[j - 1]);
                    if i < p {
                        assert(ranks_before(scores@, old_order[i] as int, x as int));
                    }
                } else if i == p {
                    assert(o[j] == old_order[j - 1]);
                } else {
                    assert(o[i] == old_order[i - 1] && o[j] == old_order[j - 1]);
                }
            }
        }
        x = x + 1;
    }
    proof {
        let o = as_ints(order@);
        assert forall|a: int| 0 <= a < n implies #[trigger] o.contains(a) by {
            assert(order@.contains(a as usize));
            let i = choose|i: int| 0 <= i < x && #[trigger] order@[i] == a as usize;
            assert(o[i] == a);
        }
        assert(is_ranking(scores@, o));
        lemma_ranking_unique(scores@, o, ranking(scores@));
    }
    order
}

} // verus!
