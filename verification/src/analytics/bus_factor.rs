//! The bus factor: how few contributors account for half of all churn, and
//! which files have their knowledge concentrated in one person.
use vstd::prelude::*;

use crate::models::{AtRiskFile, BusFactorInfo, ContributorStats, Ownership};
use crate::rank::{as_ints, rank_indices, ranking};
use crate::text::owned;

verus! {

/// The share of a file's churn, in percent, from which its dominant author
/// makes it "at risk".
pub const AT_RISK_PERCENT: u64 = 85;

/// How many at-risk files are reported.
pub const MAX_AT_RISK_FILES: usize = 20;

/// Each contributor's churn (lines added plus deleted), in row order.
pub open spec fn contributor_churns(rows: Seq<ContributorStats>) -> Seq<u64> {
    Seq::new(rows.len(), |i: int| (rows[i].lines_added + rows[i].lines_deleted) as u64)
}

/// The scores of `s` in ranking order: largest first.
pub open spec fn ranked_scores(s: Seq<u64>) -> Seq<int> {
    Seq::new(s.len(), |i: int| s[ranking(s)[i]] as int)
}

/// The sum of a sequence.
pub open spec fn seq_sum(s: Seq<int>) -> int
    decreases s.len(),
{
    if s.len() == 0 {
        0
    } else {
        seq_sum(s.drop_last()) + s.last()
    }
}

/// `k` is the bus factor of the churns `s`, listed largest first: 0 when
/// there is no churn at all, else the fewest leading contributors whose
/// churn makes up at least half of the total.
pub open spec fn is_bus_factor(s: Seq<int>, k: int) -> bool {
    if seq_sum(s) == 0 {
        k == 0
    } else {
        &&& 1 <= k <= s.len()
        &&& 2 * seq_sum(s.take(k)) >= seq_sum(s)
        &&& forall|j: int| 0 <= j < k ==> 2 * seq_sum(#[trigger] s.take(j)) < seq_sum(s)
    }
}

/// The bus factor of scores: how many, taken largest first, make up at
/// least half of their total (see `is_bus_factor`; there is exactly one).
pub open spec fn bus_factor(scores: Seq<u64>) -> int {
    choose|k: int| is_bus_factor(ranked_scores(scores), k)
}

/// A bus factor is unique.
pub proof fn lemma_bus_factor_unique(s: Seq<int>, k1: int, k2: int)
    requires
        is_bus_factor(s, k1),
        is_bus_factor(s, k2),
    ensures
        k1 == k2,
{
    if seq_sum(s) != 0 {
        if k1 < k2 {
            assert(2 * seq_sum(s.take(k1)) < seq_sum(s));
        } else if k2 < k1 {
            assert(2 * seq_sum(s.take(k2)) < seq_sum(s));
        }
    }
}

/// The number `half_cover_count` computes is the bus factor.
pub proof fn lemma_bus_factor_value(scores: Seq<u64>, k: int)
    requires
        is_bus_factor(ranked_scores(scores), k),
    ensures
        bus_factor(scores) == k,
{
    lemma_bus_factor_unique(ranked_scores(scores), k, bus_factor(scores));
}

/// A file is at risk when a single contributor touched it, or when its
/// dominant author owns at least 85% of its churn.
pub open spec fn at_risk(o: Ownership) -> bool {
    o.contributor_count == 1 || (o.total_churn > 0 && 100 * o.dominant_churn >= AT_RISK_PERCENT * o.total_churn)
}

/// The at-risk rows of `s`, in their order.
pub open spec fn at_risk_rows(s: Seq<Ownership>) -> Seq<Ownership>
    decreases s.len(),
{
    if s.len() == 0 {
        Seq::empty()
    } else if at_risk(s.last()) {
        at_risk_rows(s.drop_last()).push(s.last())
    } else {
        at_risk_rows(s.drop_last())
    }
}

/// The total churn of each row.
pub open spec fn risk_scores(s: Seq<Ownership>) -> Seq<u64> {
    Seq::new(s.len(), |i: int| s[i].total_churn)
}

/// `f` reports the ownership row `o`.
pub open spec fn at_risk_file_of(o: Ownership, f: AtRiskFile) -> bool {
    &&& f.path@ == o.path@
    &&& f.author@ == o.dominant_author@
    &&& f.author_churn == o.dominant_churn
    &&& f.churn == o.total_churn
}

/// The at-risk files reported for `ownership`: the at-risk rows, most churn
/// first (ties in their order), at most 20.
pub open spec fn reports_at_risk(ownership: Seq<Ownership>, files: Seq<AtRiskFile>) -> bool {
    let rows = at_risk_rows(ownership);
    &&& files.len() == if rows.len() < MAX_AT_RISK_FILES { rows.len() as int } else { MAX_AT_RISK_FILES as int }
    &&& forall|i: int| 0 <= i < files.len() ==> at_risk_file_of(rows[ranking(risk_scores(rows))[i]], #[trigger] files[i])
}

proof fn lemma_sum_nonneg(s: Seq<int>)
    requires
        forall|i: int| 0 <= i < s.len() ==> s[i] >= 0,
    ensures
        seq_sum(s) >= 0,
    decreases s.len(),
{
    if s.len() > 0 {
        lemma_sum_nonneg(s.drop_last());
    }
}

/// A prefix of non-negative numbers sums to no more than the whole.
proof fn lemma_sum_prefix(s: Seq<int>, k: int)
    requires
        0 <= k <= s.len(),
        forall|i: int| 0 <= i < s.len() ==> s[i] >= 0,
    ensures
        0 <= seq_sum(s.take(k)) <= seq_sum(s),
    decreases s.len() - k,
{
    if k < s.len() {
        lemma_sum_prefix(s, k + 1);
        assert(s.take(k + 1).drop_last() =~= s.take(k));
    } else {
        assert(s.take(k) =~= s);
    }
    lemma_sum_nonneg(s.take(k));
}

/// The number of scores, taken largest first, that make up at least half
/// of their total (0 when the total is 0).
pub fn half_cover_count(scores: &Vec<u64>) -> (k: u64)
    ensures
        is_bus_factor(ranked_scores(scores@), k as int),
        bus_factor(scores@) == k,
{
    let k = half_cover_steps(scores);
    proof { lemma_bus_factor_value(scores@, k as int); }
    k
}

fn half_cover_steps(scores: &Vec<u64>) -> (k: u64)
    ensures
        is_bus_factor(ranked_scores(scores@), k as int),
{
    let n = scores.len();
    let order = rank_indices(scores);
    assert forall|x: int| 0 <= x < n implies #[trigger] order@[x] < n by {
        assert(as_ints(order@)[x] == order@[x] as int);
    }
    let ghost ranked = ranked_scores(scores@);
    assert forall|x: int| 0 <= x < ranked.len() implies ranked[x] >= 0 by {}

    let mut total: u128 = 0;
    let mut i: usize = 0;
    while i < n
        invariant
            i <= n,
            n == scores@.len(),
            order@.len() == n,
            as_ints(order@) == ranking(scores@),
            ranked == ranked_scores(scores@),
            forall|x: int| 0 <= x < n ==> #[trigger] order@[x] < n,
            total == seq_sum(ranked.take(i as int)),
            total <= i * 0xffff_ffff_ffff_ffffu128,
        decreases n - i,
    {
        let s = scores[order[i]];
        proof {
            assert(as_ints(order@)[i as int] == order@[i as int] as int);
            assert(ranked.take(i + 1).drop_last() =~= ranked.take(i as int));
            assert(ranked.take(i + 1).last() == s as int);
            assert((i + 1) * 0xffff_ffff_ffff_ffffu128 <= 0xffff_ffff_ffff_ffffu128 * 0xffff_ffff_ffff_ffffu128) by (nonlinear_arith)
                requires
                    i + 1 <= usize::MAX,
                    usize::MAX <= 0xffff_ffff_ffff_ffffu128,
            ;
        }
        total = total + s as u128;
        i = i + 1;
    }
    assert(ranked.take(n as int) =~= ranked);
    if total == 0 {
        return 0;
    }
    let mut cumulative: u128 = 0;
    let mut i: usize = 0;
    while i < n
        invariant
            i <= n,
            n == scores@.len(),
            order@.len() == n,
            as_ints(order@) == ranking(scores@),
            ranked == ranked_scores(scores@),
            ranked.len() == n,
            forall|x: int| 0 <= x < n ==> #[trigger] order@[x] < n,
            forall|x: int| 0 <= x < ranked.len() ==> ranked[x] >= 0,
            total == seq_sum(ranked),
            total > 0,
            cumulative == seq_sum(ranked.take(i as int)),
            forall|j: int| 0 <= j <= i ==> 2 * seq_sum(#[trigger] ranked.take(j)) < seq_sum(ranked),
        decreases n - i,
    {
        let s = scores[order[i]];
        proof {
            assert(as_ints(order@)[i as int] == order@[i as int] as int);
            assert(ranked.take(i + 1).drop_last() =~= ranked.take(i as int));
            assert(ranked.take(i + 1).last() == s as int);
            lemma_sum_prefix(ranked, i + 1);
        }
        cumulative = cumulative + s as u128;
        if cumulative >= total - cumulative {
            return (i + 1) as u64;
        }
        i = i + 1;
    }
    proof {
        assert(ranked.take(n as int) =~= ranked);
    }
    n as u64
}

/// The number of contributors needed to cover half of the churn.
fn bus_factor_of(contributors: &[ContributorStats]) -> (k: u64)
    requires
        forall|i: int| 0 <= i < contributors@.len() ==> #[trigger] contributors@[i].lines_added + contributors@[i].lines_deleted <= u64::MAX,
    ensures
        is_bus_factor(ranked_scores(contributor_churns(contributors@)), k as int),
{
    let n = contributors.len();
    let mut scores: Vec<u64> = Vec::new();
    let mut i: usize = 0;
    while i < n
        invariant
            i <= n,
            n == contributors@.len(),
            forall|x: int| 0 <= x < contributors@.len() ==> #[trigger] contributors@[x].lines_added + contributors@[x].lines_deleted <= u64::MAX,
            scores@ =~= contributor_churns(contributors@).take(i as int),
        decreases n - i,
    {
        let c = &contributors[i];
        scores.push(c.lines_added + c.lines_deleted);
        i = i + 1;
    }
    assert(scores@ =~= contributor_churns(contributors@));
    half_cover_count(&scores)
}

/// The indices of the at-risk rows of `ownership`, in order.
fn at_risk_indices(ownership: &[Ownership]) -> (picked: Vec<usize>)
    ensures
        picked@.len() == at_risk_rows(ownership@).len(),
        forall|k: int| 0 <= k < picked@.len() ==> #[trigger] picked@[k] < ownership@.len() && ownership@[picked@[k] as int] == at_risk_rows(ownership@)[k],
{
    let mut picked: Vec<usize> = Vec::new();
    let mut i: usize = 0;
    while i < ownership.len()
        invariant
            i <= ownership@.len(),
            picked@.len() == at_risk_rows(ownership@.take(i as int)).len(),
            forall|k: int| 0 <= k < picked@.len() ==> #[trigger] picked@[k] < i && ownership@[picked@[k] as int] == at_risk_rows(ownership@.take(i as int))[k],
        decreases ownership@.len() - i,
    {
        let o = &ownership[i];
        proof {
            assert(ownership@.take(i + 1).drop_last() =~= ownership@.take(i as int));
            assert(ownership@.take(i + 1).last() == ownership@[i as int]);
        }
        let risky = o.contributor_count == 1 || (o.total_churn > 0
            && 100u128 * (o.dominant_churn as u128) >= (AT_RISK_PERCENT as u128) * (o.total_churn as u128));
        if risky {
            picked.push(i);
        }
        i = i + 1;
    }
    assert(ownership@.take(ownership@.len() as int) =~= ownership@);
    picked
}

/// Bus factor of the contributors, and the files at risk of single-owner
/// knowledge: those touched by one contributor or whose dominant author owns
/// at least 85% of their churn, most churn first, at most 20.
pub fn build_bus_factor(contributors: &[ContributorStats], ownership: &[Ownership]) -> (info: BusFactorInfo)
    requires
        forall|i: int| 0 <= i < contributors@.len() ==> #[trigger] contributors@[i].lines_added + contributors@[i].lines_deleted <= u64::MAX,
    ensures
        is_bus_factor(ranked_scores(contributor_churns(contributors@)), info.bus_factor as int),
        reports_at_risk(ownership@, info.at_risk_files@),
{
    let bus_factor = bus_factor_of(contributors);
    let picked = at_risk_indices(ownership);
    let ghost rows = at_risk_rows(ownership@);
    let mut scores: Vec<u64> = Vec::new();
    let mut i: usize = 0;
    while i < picked.len()
        invariant
            i <= picked@.len(),
            picked@.len() == rows.len(),
            rows == at_risk_rows(ownership@),
            forall|k: int| 0 <= k < picked@.len() ==> #[trigger] picked@[k] < ownership@.len() && ownership@[picked@[k] as int] == rows[k],
            scores@ =~= risk_scores(rows).take(i as int),
        decreases picked@.len() - i,
    {
        scores.push(ownership[picked[i]].total_churn);
        i = i + 1;
    }
    assert(scores@ =~= risk_scores(rows));
    let order = rank_indices(&scores);
    assert forall|x: int| 0 <= x < order@.len() implies #[trigger] order@[x] < rows.len() by {
        assert(as_ints(order@)[x] == order@[x] as int);
    }
    let m = if picked.len() < MAX_AT_RISK_FILES { picked.len() } else { MAX_AT_RISK_FILES };
    let mut at_risk_files: Vec<AtRiskFile> = Vec::new();
    let mut r: usize = 0;
    while r < m
        invariant
            r <= m,
            m <= picked@.len(),
            m == if rows.len() < MAX_AT_RISK_FILES { rows.len() as int } else { MAX_AT_RISK_FILES as int },
            picked@.len() == rows.len(),
            order@.len() == rows.len(),
            rows == at_risk_rows(ownership@),
            forall|k: int| 0 <= k < picked@.len() ==> #[trigger] picked@[k] < ownership@.len() && ownership@[picked@[k] as int] == rows[k],
            as_ints(order@) == ranking(risk_scores(rows)),
            forall|x: int| 0 <= x < order@.len() ==> #[trigger] order@[x] < rows.len(),
            at_risk_files@.len() == r,
            forall|k: int| 0 <= k < r ==> at_risk_file_of(rows[ranking(risk_scores(rows))[k]], #[trigger] at_risk_files@[k]),
        decreases m - r,
    {
        let idx = order[r];
        proof {
            assert(as_ints(order@)[r as int] == idx as int);
        }
        let o = &ownership[picked[idx]];
        at_risk_files.push(AtRiskFile {
            path: owned(o.path.as_str()),
            author: owned(o.dominant_author.as_str()),
            author_churn: o.dominant_churn,
            churn: o.total_churn,
        });
        r = r + 1;
    }
    BusFactorInfo { bus_factor, at_risk_files }
}

} // verus!
