//! Commit activity bucketed by day, ISO week, month or year.
use vstd::prelude::*;

use crate::models::{CommitRecord, TimelineGranularity, TimelinePoint, Timestamp};
use crate::analytics::totals::{key_sum, lemma_key_sum_single, lemma_key_sum_split, lemma_key_sum_zero};
use crate::order::{lemma_lt_irreflexive, str_lt};
use crate::strmap::{lemma_lookup_index, lookup, sorted_keys, StrMap};
use crate::text::{dec, owned, push_char, push_i64, push_u64, signed_dec};
use crate::utils::date::{
    day_format, format_utc, iso_week_utc, month_format, utc_format, utc_iso_week, utc_representable, utc_year,
    year_utc,
};

verus! {

/// A week number padded to two digits (`{:02}`).
pub open spec fn two_digits(w: nat) -> Seq<char> {
    if w < 10 {
        seq!['0'] + dec(w)
    } else {
        dec(w)
    }
}

/// The bucket of the instant `t` at granularity `g` (`2024-03-05`,
/// `2024-W09`, `2024-03` or `2024`), as chrono renders the calendar, or
/// `None` when chrono cannot represent the instant.
pub open spec fn bucket_of(t: Timestamp, g: TimelineGranularity) -> Option<Seq<char>> {
    match g {
        TimelineGranularity::Day => utc_format(t.seconds, t.nanos, day_format()),
        TimelineGranularity::Week => match utc_iso_week(t.seconds, t.nanos) {
            Some(p) => Some(signed_dec(p.0 as int) + seq!['-', 'W'] + two_digits(p.1 as nat)),
            None => None,
        },
        TimelineGranularity::Month => utc_format(t.seconds, t.nanos, month_format()),
        TimelineGranularity::Year => match utc_year(t.seconds, t.nanos) {
            Some(y) => Some(signed_dec(y as int)),
            None => None,
        },
    }
}

/// The buckets of the commits of `cs`, in order, leaving out commits whose
/// time has none.
pub open spec fn commit_buckets(cs: Seq<CommitRecord>, g: TimelineGranularity) -> Seq<Seq<char>>
    decreases cs.len(),
{
    if cs.len() == 0 {
        Seq::empty()
    } else {
        match bucket_of(cs.last().committed_at, g) {
            Some(b) => commit_buckets(cs.drop_last(), g).push(b),
            None => commit_buckets(cs.drop_last(), g),
        }
    }
}

/// How many commits of `cs` have a time chrono can represent.
pub open spec fn timed_count(cs: Seq<CommitRecord>) -> nat
    decreases cs.len(),
{
    if cs.len() == 0 {
        0
    } else {
        timed_count(cs.drop_last()) + if utc_representable(cs.last().committed_at.seconds, cs.last().committed_at.nanos) {
            1nat
        } else {
            0nat
        }
    }
}

/// Every commit of `cs` has a time chrono can represent.
pub open spec fn all_timed(cs: Seq<CommitRecord>) -> bool {
    forall|i: int| 0 <= i < cs.len() ==> utc_representable(#[trigger] cs[i].committed_at.seconds, cs[i].committed_at.nanos)
}

/// When every commit has a representable time, all of them are counted.
pub proof fn lemma_all_timed(cs: Seq<CommitRecord>)
    requires
        all_timed(cs),
    ensures
        timed_count(cs) == cs.len(),
    decreases cs.len(),
{
    if cs.len() > 0 {
        let pre = cs.drop_last();
        assert forall|i: int| 0 <= i < pre.len() implies utc_representable(#[trigger] pre[i].committed_at.seconds, pre[i].committed_at.nanos) by {
            assert(pre[i] == cs[i]);
        }
        lemma_all_timed(pre);
        assert(utc_representable(cs[cs.len() - 1].committed_at.seconds, cs[cs.len() - 1].committed_at.nanos));
    }
}

/// How many times `d` occurs in `keys`.
pub open spec fn occurrences(keys: Seq<Seq<char>>, d: Seq<char>) -> nat
    decreases keys.len(),
{
    if keys.len() == 0 {
        0
    } else {
        occurrences(keys.drop_last(), d) + if keys.last() == d { 1nat } else { 0nat }
    }
}

/// Date `d` has a point in `points`.
pub open spec fn has_point(points: Seq<TimelinePoint>, d: Seq<char>) -> bool {
    exists|i: int| 0 <= i < points.len() && #[trigger] points[i].date@ == d
}

/// `points` counts `keys`: one point per distinct key, in ascending order,
/// with the number of times it occurs.
pub open spec fn counts_buckets(keys: Seq<Seq<char>>, points: Seq<TimelinePoint>) -> bool {
    &&& forall|i: int, j: int| 0 <= i < j < points.len() ==> str_lt(#[trigger] points[i].date@, #[trigger] points[j].date@)
    &&& forall|i: int| 0 <= i < points.len() ==> #[trigger] points[i].commits == occurrences(keys, points[i].date@) && points[i].commits > 0
    &&& forall|d: Seq<char>| #[trigger] occurrences(keys, d) > 0 ==> has_point(points, d)
}

/// Appends a week number padded to two digits.
fn push_two_digits(out: &mut String, w: u32)
    ensures
        final(out)@ == old(out)@ + two_digits(w as nat),
{
    if w < 10 {
        push_char(out, '0');
    }
    push_u64(out, w as u64);
}

/// The bucket of a commit time, as `bucket_of` says; there is one exactly
/// when chrono can represent the time.
pub fn bucket_key(t: Timestamp, granularity: TimelineGranularity) -> (r: Option<String>)
    ensures
        r is Some <==> utc_representable(t.seconds, t.nanos),
        match r {
            Some(s) => bucket_of(t, granularity) == Some(s@),
            None => bucket_of(t, granularity) is None,
        },
{
    match granularity {
        TimelineGranularity::Day => {
            let fmt = "%Y-%m-%d";
            proof { reveal_strlit("%Y-%m-%d"); }
            assert(fmt@ =~= day_format());
            format_utc(t.seconds, t.nanos, fmt)
        },
        TimelineGranularity::Week => match iso_week_utc(t.seconds, t.nanos) {
            Some(p) => {
                let mut s = String::new();
                push_i64(&mut s, p.0 as i64);
                push_char(&mut s, '-');
                push_char(&mut s, 'W');
                push_two_digits(&mut s, p.1);
                assert(s@ =~= signed_dec(p.0 as int) + seq!['-', 'W'] + two_digits(p.1 as nat));
                Some(s)
            },
            None => None,
        },
        TimelineGranularity::Month => {
            let fmt = "%Y-%m";
            proof { reveal_strlit("%Y-%m"); }
            assert(fmt@ =~= month_format());
            format_utc(t.seconds, t.nanos, fmt)
        },
        TimelineGranularity::Year => match year_utc(t.seconds, t.nanos) {
            Some(y) => {
                let mut s = String::new();
                push_i64(&mut s, y as i64);
                assert(s@ =~= signed_dec(y as int));
                Some(s)
            },
            None => None,
        },
    }
}

proof fn lemma_occurrences_bound(keys: Seq<Seq<char>>, d: Seq<char>)
    ensures
        occurrences(keys, d) <= keys.len(),
    decreases keys.len(),
{
    if keys.len() > 0 {
        lemma_occurrences_bound(keys.drop_last(), d);
    }
}

/// Counts how often each bucket occurs: one point per distinct bucket, in
/// ascending order.
pub fn count_buckets(keys: &Vec<String>) -> (points: Vec<TimelinePoint>)
    ensures
        counts_buckets(keys@.map_values(|k: String| k@), points@),
{
    let ghost ks = keys@.map_values(|k: String| k@);
    let mut table: StrMap<u64> = StrMap::new();
    let mut i: usize = 0;
    while i < keys.len()
        invariant
            i <= keys@.len(),
            ks == keys@.map_values(|k: String| k@),
            forall|d: Seq<char>| #[trigger] lookup(table@, d) == if occurrences(ks.take(i as int), d) > 0 {
                Some(occurrences(ks.take(i as int), d) as u64)
            } else {
                None
            },
        decreases keys@.len() - i,
    {
        let key = keys[i].as_str();
        proof {
            assert(ks.take(i + 1).drop_last() =~= ks.take(i as int));
            assert(ks.take(i + 1).last() == key@);
            lemma_occurrences_bound(ks.take(i as int), key@);
        }
        let k = table.entry_index(key, 0);
        let v = *table.value_at(k);
        table.set_value(k, v + 1);
        proof {
            assert forall|d: Seq<char>| #[trigger] lookup(table@, d) == if occurrences(ks.take(i + 1), d) > 0 {
                Some(occurrences(ks.take(i + 1), d) as u64)
            } else {
                None
            } by {
                lemma_occurrences_bound(ks.take(i as int), d);
            }
        }
        i = i + 1;
    }
    assert(ks.take(ks.len() as int) =~= ks);
    let n = table.len();
    let mut points: Vec<TimelinePoint> = Vec::new();
    let mut x: usize = 0;
    while x < n
        invariant
            x <= n,
            n == table@.len(),
            sorted_keys(table@),
            points@.len() == x,
            forall|q: int| 0 <= q < x ==> #[trigger] points@[q].date@ == table@[q].0 && points@[q].commits == table@[q].1,
        decreases n - x,
    {
        let ghost before = points@;
        let point = TimelinePoint { date: owned(table.key_at(x).as_str()), commits: *table.value_at(x) };
        assert(point.date@ == table@[x as int].0 && point.commits == table@[x as int].1);
        points.push(point);
        assert(points@ == before.push(point));
        x = x + 1;
    }
    proof {
        let t = table@;
        assert forall|q: int| 0 <= q < points@.len() implies #[trigger] points@[q].commits == occurrences(ks, points@[q].date@) && points@[q].commits > 0 by {
            lemma_lookup_index(t, t[q].0);
            lemma_occurrences_bound(ks, t[q].0);
        }
        assert forall|a: int, b: int| 0 <= a < b < points@.len() implies str_lt(#[trigger] points@[a].date@, #[trigger] points@[b].date@) by {
            assert(str_lt(t[a].0, t[b].0));
        }
        assert forall|d: Seq<char>| #[trigger] occurrences(ks, d) > 0 implies has_point(points@, d) by {
            lemma_lookup_index(t, d);
            let y = choose|y: int| 0 <= y < t.len() && #[trigger] t[y].0 == d;
            assert(points@[y].date@ == d);
        }
    }
    points
}

/// The buckets of the commits, in order, for those that have one.
fn bucket_keys(commits: &[CommitRecord], granularity: TimelineGranularity) -> (keys: Vec<String>)
    ensures
        keys@.map_values(|k: String| k@) == commit_buckets(commits@, granularity),
        keys@.len() == timed_count(commits@),
{
    let mut keys: Vec<String> = Vec::new();
    let mut i: usize = 0;
    while i < commits.len()
        invariant
            i <= commits@.len(),
            keys@.map_values(|k: String| k@) == commit_buckets(commits@.take(i as int), granularity),
            keys@.len() == timed_count(commits@.take(i as int)),
        decreases commits@.len() - i,
    {
        let ghost before = keys@;
        let b = bucket_key(commits[i].committed_at, granularity);
        proof {
            assert(commits@.take(i + 1).drop_last() =~= commits@.take(i as int));
            assert(commits@.take(i + 1).last() == commits@[i as int]);
        }
        match b {
            Some(k) => {
                keys.push(k);
                assert(keys@.map_values(|k: String| k@) =~= before.map_values(|k: String| k@).push(keys@.last()@));
            },
            None => {},
        }
        i = i + 1;
    }
    assert(commits@.take(commits@.len() as int) =~= commits@);
    keys
}

/// Commit counts per time bucket, in ascending bucket order. Every commit
/// whose time chrono can represent is counted once.
pub fn build_timeline(commits: &[CommitRecord], granularity: TimelineGranularity) -> (points: Vec<TimelinePoint>)
    ensures
        counts_buckets(commit_buckets(commits@, granularity), points@),
        points_sum(points@) == timed_count(commits@),
{
    let keys = bucket_keys(commits, granularity);
    let points = count_buckets(&keys);
    proof {
        law_timeline_total(commit_buckets(commits@, granularity), points@);
    }
    points
}

/// The commits over points.
pub open spec fn points_sum(points: Seq<TimelinePoint>) -> int
    decreases points.len(),
{
    if points.len() == 0 {
        0
    } else {
        points_sum(points.drop_last()) + points.last().commits
    }
}

/// The dates of points.
pub open spec fn point_dates(points: Seq<TimelinePoint>) -> Seq<Seq<char>> {
    points.map_values(|p: TimelinePoint| p.date@)
}

/// Over keys that hold every key of `ks` once, the occurrences add up to
/// the number of keys.
proof fn lemma_occurrences_partition(ks: Seq<Seq<char>>, dates: Seq<Seq<char>>)
    requires
        dates.no_duplicates(),
        forall|d: Seq<char>| #[trigger] occurrences(ks, d) > 0 ==> dates.contains(d),
    ensures
        key_sum(dates, |d: Seq<char>| occurrences(ks, d) as int) == ks.len(),
    decreases ks.len(),
{
    let h = |d: Seq<char>| occurrences(ks, d) as int;
    if ks.len() == 0 {
        lemma_key_sum_zero(dates, h);
    } else {
        let t = ks.drop_last();
        let x = ks.last();
        assert forall|d: Seq<char>| #[trigger] occurrences(t, d) > 0 implies dates.contains(d) by {
            assert(occurrences(ks, d) > 0);
        }
        lemma_occurrences_partition(t, dates);
        let f = |d: Seq<char>| occurrences(t, d) as int;
        let g = |d: Seq<char>| if x == d { 1int } else { 0int };
        assert forall|d: Seq<char>| #[trigger] h(d) == f(d) + g(d) by {}
        lemma_key_sum_split(dates, f, g, h);
        assert(occurrences(ks, x) > 0);
        lemma_key_sum_single(dates, g, x, 1);
    }
}

proof fn lemma_points_sum(ks: Seq<Seq<char>>, points: Seq<TimelinePoint>)
    requires
        forall|i: int| 0 <= i < points.len() ==> #[trigger] points[i].commits == occurrences(ks, points[i].date@),
    ensures
        points_sum(points) == key_sum(point_dates(points), |d: Seq<char>| occurrences(ks, d) as int),
    decreases points.len(),
{
    if points.len() > 0 {
        let t = points.drop_last();
        assert forall|i: int| 0 <= i < t.len() implies #[trigger] t[i].commits == occurrences(ks, t[i].date@) by {
            assert(t[i] == points[i]);
        }
        lemma_points_sum(ks, t);
        assert(point_dates(points).drop_last() =~= point_dates(t));
        assert(points[points.len() - 1].commits == occurrences(ks, points[points.len() - 1].date@));
    }
}

/// Every counted key falls in exactly one point: the points' counts add up
/// to the number of keys.
pub proof fn law_timeline_total(keys: Seq<Seq<char>>, points: Seq<TimelinePoint>)
    requires
        counts_buckets(keys, points),
    ensures
        points_sum(points) == keys.len(),
{
    let dates = point_dates(points);
    assert forall|i: int, j: int| 0 <= i < dates.len() && 0 <= j < dates.len() && i != j implies dates[i] != dates[j] by {
        if i < j {
            assert(str_lt(points[i].date@, points[j].date@));
        } else {
            assert(str_lt(points[j].date@, points[i].date@));
        }
        lemma_lt_irreflexive(dates[i]);
    }
    assert forall|d: Seq<char>| #[trigger] occurrences(keys, d) > 0 implies dates.contains(d) by {
        assert(has_point(points, d));
        let i = choose|i: int| 0 <= i < points.len() && #[trigger] points[i].date@ == d;
        assert(dates[i] == d);
    }
    lemma_points_sum(keys, points);
    lemma_occurrences_partition(keys, dates);
}

} // verus!
