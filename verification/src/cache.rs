//! The key under which an analysis snapshot is cached.
use vstd::prelude::*;

use crate::models::metrics::granularity_name;
use crate::models::{AnalysisOptions, TimelineGranularity, Timestamp};
use crate::report::{join, push_join, views};
use crate::text::{
    dec, is_digit, lemma_dec_digits, lemma_dec_injective, lemma_signed_dec_chars, lemma_signed_dec_injective,
    push_i64, push_str, push_u64, signed_dec,
};

verus! {

/// The Unix seconds of an optional date, 0 when there is none.
pub open spec fn seconds_or_zero(t: Option<Timestamp>) -> int {
    match t {
        Some(d) => d.seconds as int,
        None => 0,
    }
}

/// The cache key: everything that shapes the analysis, separated by `|`
/// (the repository path, the commit limit, the since and until dates in
/// Unix seconds, the include and exclude patterns each joined by U+0001,
/// and the timeline granularity).
pub open spec fn cache_key_of(repo_path: Seq<char>, o: AnalysisOptions) -> Seq<char> {
    repo_path + "|"@ + dec(o.limit as nat) + "|"@ + signed_dec(seconds_or_zero(o.since)) + "|"@ + signed_dec(
        seconds_or_zero(o.until),
    ) + "|"@ + join(views(o.include_patterns@), "\u{1}"@) + "|"@ + join(views(o.exclude_patterns@), "\u{1}"@) + "|"@
        + granularity_name(o.granularity)
}

/// A deterministic key for the snapshot of `repo_path` analyzed with
/// `options`, so that two requests with different options never share a
/// snapshot.
pub fn cache_key(repo_path: &str, options: &AnalysisOptions) -> (key: String)
    ensures
        key@ == cache_key_of(repo_path@, *options),
{
    let mut key = String::new();
    push_str(&mut key, repo_path);
    push_str(&mut key, "|");
    push_u64(&mut key, options.limit as u64);
    push_str(&mut key, "|");
    push_i64(&mut key, match options.since { Some(d) => d.seconds, None => 0 });
    push_str(&mut key, "|");
    push_i64(&mut key, match options.until { Some(d) => d.seconds, None => 0 });
    push_str(&mut key, "|");
    push_join(&mut key, &options.include_patterns, "\u{1}");
    push_str(&mut key, "|");
    push_join(&mut key, &options.exclude_patterns, "\u{1}");
    push_str(&mut key, "|");
    push_str(&mut key, options.granularity.as_str());
    assert(key@ =~= cache_key_of(repo_path@, *options));
    key
}

/// `c` does not occur in `s`.
pub open spec fn free_of(s: Seq<char>, c: char) -> bool {
    forall|i: int| 0 <= i < s.len() ==> s[i] != c
}

/// Patterns that stand in a cache key unambiguously: none holds the field
/// separator `|` or the list separator U+0001.
pub open spec fn plain_patterns(ps: Seq<Seq<char>>) -> bool {
    forall|i: int| 0 <= i < ps.len() ==> free_of(#[trigger] ps[i], '|') && free_of(ps[i], '\u{1}')
}

/// The one pair of pattern lists that join to the same text though their
/// patterns are plain: no pattern, and a single empty pattern.
pub open spec fn join_ambiguous(x: Seq<Seq<char>>, y: Seq<Seq<char>>) -> bool {
    (x.len() == 0 && y == seq![Seq::<char>::empty()]) || (y.len() == 0 && x == seq![Seq::<char>::empty()])
}

/// A string split at the first `c` gives back its two sides.
proof fn lemma_split_at_first(a1: Seq<char>, r1: Seq<char>, a2: Seq<char>, r2: Seq<char>, c: char)
    requires
        a1 + seq![c] + r1 == a2 + seq![c] + r2,
        free_of(a1, c),
        free_of(a2, c),
    ensures
        a1 == a2,
        r1 == r2,
{
    let s = a1 + seq![c] + r1;
    let t = a2 + seq![c] + r2;
    if a1.len() < a2.len() {
        assert(s[a1.len() as int] == c);
        assert(t[a1.len() as int] == a2[a1.len() as int]);
    } else if a2.len() < a1.len() {
        assert(t[a2.len() as int] == c);
        assert(s[a2.len() as int] == a1[a2.len() as int]);
    } else {
        assert(a1 =~= s.take(a1.len() as int));
        assert(a2 =~= t.take(a2.len() as int));
        assert(r1 =~= s.skip(a1.len() + 1int));
        assert(r2 =~= t.skip(a2.len() + 1int));
    }
}

/// A string split at the last `c` gives back its two sides.
proof fn lemma_split_at_last(a1: Seq<char>, r1: Seq<char>, a2: Seq<char>, r2: Seq<char>, c: char)
    requires
        a1 + seq![c] + r1 == a2 + seq![c] + r2,
        free_of(r1, c),
        free_of(r2, c),
    ensures
        a1 == a2,
        r1 == r2,
{
    let s = a1 + seq![c] + r1;
    let t = a2 + seq![c] + r2;
    if r1.len() < r2.len() {
        let k = s.len() - r1.len() - 1;
        assert(s[k] == c);
        assert(t[k] == r2[k - a2.len() - 1]);
    } else if r2.len() < r1.len() {
        let k = t.len() - r2.len() - 1;
        assert(t[k] == c);
        assert(s[k] == r1[k - a1.len() - 1]);
    } else {
        assert(a1 =~= s.take(a1.len() as int));
        assert(a2 =~= t.take(a2.len() as int));
        assert(r1 =~= s.skip(a1.len() + 1int));
        assert(r2 =~= t.skip(a2.len() + 1int));
    }
}

/// Joining parts free of `c` by a separator other than `c` gives a string
/// free of `c`.
proof fn lemma_join_free(ps: Seq<Seq<char>>, sep: char, c: char)
    requires
        sep != c,
        forall|i: int| 0 <= i < ps.len() ==> free_of(#[trigger] ps[i], c),
    ensures
        free_of(join(ps, seq![sep]), c),
    decreases ps.len(),
{
    if ps.len() >= 2 {
        lemma_join_free(ps.drop_last(), sep, c);
        let j = join(ps.drop_last(), seq![sep]);
        assert forall|i: int| 0 <= i < join(ps, seq![sep]).len() implies join(ps, seq![sep])[i] != c by {
            if i > j.len() {
                assert(join(ps, seq![sep])[i] == ps.last()[i - j.len() - 1]);
            }
        }
    }
}

/// Two or more parts joined by `sep` hold `sep`.
proof fn lemma_join_has_sep(ps: Seq<Seq<char>>, sep: char)
    requires
        ps.len() >= 2,
    ensures
        !free_of(join(ps, seq![sep]), sep),
{
    let j = join(ps.drop_last(), seq![sep]);
    assert(join(ps, seq![sep])[j.len() as int] == sep);
}

/// Non-empty lists of parts free of `sep` are given back by their join.
proof fn lemma_join_injective_nonempty(xs: Seq<Seq<char>>, ys: Seq<Seq<char>>, sep: char)
    requires
        xs.len() > 0,
        ys.len() > 0,
        forall|i: int| 0 <= i < xs.len() ==> free_of(#[trigger] xs[i], sep),
        forall|i: int| 0 <= i < ys.len() ==> free_of(#[trigger] ys[i], sep),
        join(xs, seq![sep]) == join(ys, seq![sep]),
    ensures
        xs == ys,
    decreases xs.len(),
{
    if xs.len() >= 2 {
        lemma_join_has_sep(xs, sep);
    }
    if ys.len() >= 2 {
        lemma_join_has_sep(ys, sep);
    }
    if xs.len() == 1 {
        if ys.len() == 1 {
            assert(xs =~= ys);
        } else {
            assert(free_of(xs[0], sep));
        }
    } else if ys.len() == 1 {
        assert(free_of(ys[0], sep));
    } else {
        lemma_split_at_last(join(xs.drop_last(), seq![sep]), xs.last(), join(ys.drop_last(), seq![sep]), ys.last(), sep);
        lemma_join_injective_nonempty(xs.drop_last(), ys.drop_last(), sep);
        assert(xs =~= xs.drop_last().push(xs.last()));
        assert(ys =~= ys.drop_last().push(ys.last()));
    }
}

/// Lists of parts free of `sep` are given back by their join, but for no
/// part against a single empty one.
proof fn lemma_join_injective(xs: Seq<Seq<char>>, ys: Seq<Seq<char>>, sep: char)
    requires
        forall|i: int| 0 <= i < xs.len() ==> free_of(#[trigger] xs[i], sep),
        forall|i: int| 0 <= i < ys.len() ==> free_of(#[trigger] ys[i], sep),
        !join_ambiguous(xs, ys),
        join(xs, seq![sep]) == join(ys, seq![sep]),
    ensures
        xs == ys,
{
    if xs.len() >= 2 {
        lemma_join_has_sep(xs, sep);
    }
    if ys.len() >= 2 {
        lemma_join_has_sep(ys, sep);
    }
    if xs.len() == 0 && ys.len() == 1 {
        assert(ys[0].len() > 0) by {
            if ys[0].len() == 0 {
                assert(ys =~= seq![Seq::<char>::empty()]);
            }
        }
    } else if ys.len() == 0 && xs.len() == 1 {
        assert(xs[0].len() > 0) by {
            if xs[0].len() == 0 {
                assert(xs =~= seq![Seq::<char>::empty()]);
            }
        }
    } else if xs.len() == 0 && ys.len() == 0 {
        assert(xs =~= ys);
    } else if xs.len() > 0 && ys.len() > 0 {
        lemma_join_injective_nonempty(xs, ys, sep);
    }
}

/// The name of a granularity names no other.
proof fn lemma_granularity_name_injective(a: TimelineGranularity, b: TimelineGranularity)
    requires
        granularity_name(a) == granularity_name(b),
    ensures
        a == b,
{
    assert(granularity_name(a)[0] == granularity_name(b)[0]);
    assert(granularity_name(a).len() == granularity_name(b).len());
}

/// A key's fields: the repository path, the limit, the two dates, the two
/// pattern lists and the granularity, each followed by `|` but the last.
proof fn lemma_key_fields(repo: Seq<char>, o: AnalysisOptions)
    ensures
        cache_key_of(repo, o) == repo + seq!['|'] + (dec(o.limit as nat) + seq!['|'] + (signed_dec(seconds_or_zero(o.since))
            + seq!['|'] + (signed_dec(seconds_or_zero(o.until)) + seq!['|'] + (join(views(o.include_patterns@), seq!['\u{1}'])
            + seq!['|'] + (join(views(o.exclude_patterns@), seq!['\u{1}']) + seq!['|'] + granularity_name(o.granularity)))))),
        free_of(dec(o.limit as nat), '|'),
        free_of(signed_dec(seconds_or_zero(o.since)), '|'),
        free_of(signed_dec(seconds_or_zero(o.until)), '|'),
{
    reveal_strlit("|");
    reveal_strlit("\u{1}");
    let b = seq!['|'];
    assert("|"@ =~= b);
    assert("\u{1}"@ =~= seq!['\u{1}']);
    let l = dec(o.limit as nat);
    let s = signed_dec(seconds_or_zero(o.since));
    let u = signed_dec(seconds_or_zero(o.until));
    let j = join(views(o.include_patterns@), seq!['\u{1}']);
    let k = join(views(o.exclude_patterns@), seq!['\u{1}']);
    let g = granularity_name(o.granularity);
    let r5 = k + b + g;
    let r4 = j + b + r5;
    let r3 = u + b + r4;
    let r2 = s + b + r3;
    let r1 = l + b + r2;
    let p1 = repo + b;
    let p2 = p1 + l + b;
    let p3 = p2 + s + b;
    let p4 = p3 + u + b;
    let p5 = p4 + j + b;
    assert(p5 + k + b + g =~= p5 + r5);
    assert(p4 + j + b + r5 =~= p4 + r4);
    assert(p3 + u + b + r4 =~= p3 + r3);
    assert(p2 + s + b + r3 =~= p2 + r2);
    assert(p1 + l + b + r2 =~= p1 + r1);
    lemma_dec_digits(o.limit as nat);
    lemma_signed_dec_chars(seconds_or_zero(o.since));
    lemma_signed_dec_chars(seconds_or_zero(o.until));
    assert(free_of(dec(o.limit as nat), '|')) by {
        assert forall|i: int| 0 <= i < dec(o.limit as nat).len() implies dec(o.limit as nat)[i] != '|' by {
            assert(is_digit(dec(o.limit as nat)[i]));
        }
    }
}

/// Two requests share a cache key only when they ask for the same analysis:
/// of the same repository, with the same commit limit, the same date window
/// (in whole Unix seconds, no date counting as 0), the same include and
/// exclude patterns and the same timeline granularity. This holds when
/// neither repository path holds `|`, every pattern is plain, and no list
/// of patterns is empty where the other is a single empty pattern.
pub proof fn law_cache_key_separates_requests(repo_a: Seq<char>, a: AnalysisOptions, repo_b: Seq<char>, b: AnalysisOptions)
    requires
        free_of(repo_a, '|'),
        free_of(repo_b, '|'),
        plain_patterns(views(a.include_patterns@)),
        plain_patterns(views(a.exclude_patterns@)),
        plain_patterns(views(b.include_patterns@)),
        plain_patterns(views(b.exclude_patterns@)),
        !join_ambiguous(views(a.include_patterns@), views(b.include_patterns@)),
        !join_ambiguous(views(a.exclude_patterns@), views(b.exclude_patterns@)),
        cache_key_of(repo_a, a) == cache_key_of(repo_b, b),
    ensures
        repo_a == repo_b,
        a.limit == b.limit,
        seconds_or_zero(a.since) == seconds_or_zero(b.since),
        seconds_or_zero(a.until) == seconds_or_zero(b.until),
        views(a.include_patterns@) == views(b.include_patterns@),
        views(a.exclude_patterns@) == views(b.exclude_patterns@),
        a.granularity == b.granularity,
{
    let bar = '|';
    let ia = views(a.include_patterns@);
    let ib = views(b.include_patterns@);
    let ea = views(a.exclude_patterns@);
    let eb = views(b.exclude_patterns@);
    lemma_key_fields(repo_a, a);
    lemma_key_fields(repo_b, b);
    lemma_join_free(ia, '\u{1}', bar);
    lemma_join_free(ib, '\u{1}', bar);
    lemma_join_free(ea, '\u{1}', bar);
    lemma_join_free(eb, '\u{1}', bar);
    let ga = granularity_name(a.granularity);
    let gb = granularity_name(b.granularity);
    let ja = join(ia, seq!['\u{1}']);
    let jb = join(ib, seq!['\u{1}']);
    let ka = join(ea, seq!['\u{1}']);
    let kb = join(eb, seq!['\u{1}']);
    let sa = signed_dec(seconds_or_zero(a.since));
    let sb = signed_dec(seconds_or_zero(b.since));
    let ua = signed_dec(seconds_or_zero(a.until));
    let ub = signed_dec(seconds_or_zero(b.until));
    let la = dec(a.limit as nat);
    let lb = dec(b.limit as nat);
    lemma_split_at_first(repo_a, la + seq![bar] + (sa + seq![bar] + (ua + seq![bar] + (ja + seq![bar] + (ka + seq![bar] + ga)))),
        repo_b, lb + seq![bar] + (sb + seq![bar] + (ub + seq![bar] + (jb + seq![bar] + (kb + seq![bar] + gb)))), bar);
    lemma_split_at_first(la, sa + seq![bar] + (ua + seq![bar] + (ja + seq![bar] + (ka + seq![bar] + ga))),
        lb, sb + seq![bar] + (ub + seq![bar] + (jb + seq![bar] + (kb + seq![bar] + gb))), bar);
    lemma_split_at_first(sa, ua + seq![bar] + (ja + seq![bar] + (ka + seq![bar] + ga)),
        sb, ub + seq![bar] + (jb + seq![bar] + (kb + seq![bar] + gb)), bar);
    lemma_split_at_first(ua, ja + seq![bar] + (ka + seq![bar] + ga), ub, jb + seq![bar] + (kb + seq![bar] + gb), bar);
    lemma_split_at_first(ja, ka + seq![bar] + ga, jb, kb + seq![bar] + gb, bar);
    lemma_split_at_first(ka, ga, kb, gb, bar);
    lemma_dec_injective(a.limit as nat, b.limit as nat);
    lemma_signed_dec_injective(seconds_or_zero(a.since), seconds_or_zero(b.since));
    lemma_signed_dec_injective(seconds_or_zero(a.until), seconds_or_zero(b.until));
    lemma_join_injective(ia, ib, '\u{1}');
    lemma_join_injective(ea, eb, '\u{1}');
    lemma_granularity_name_injective(a.granularity, b.granularity);
}

} // verus!
