//! Lightweight glob matching for path filters (`--include` / `--exclude`).
//!
//! Supports `*` (any run of characters) and `?` (exactly one character).
//! Patterns without a `/` match against the file's basename, which makes
//! `--include "*.rs"` behave the way most users expect.
use vstd::prelude::*;

use crate::text::{chars_of, slice_chars};

verus! {

/// Whether the wildcard pattern `p` matches all of `t`: `*` stands for any
/// run of characters (the empty one included), `?` for exactly one
/// character, and every other character for itself.
pub open spec fn glob(p: Seq<char>, t: Seq<char>) -> bool
    decreases p.len() + t.len(),
{
    if p.len() == 0 {
        t.len() == 0
    } else if p[0] == '*' {
        glob(p.drop_first(), t) || (t.len() > 0 && glob(p, t.drop_first()))
    } else {
        t.len() > 0 && (p[0] == '?' || p[0] == t[0]) && glob(p.drop_first(), t.drop_first())
    }
}

/// `q` holds no `*`.
spec fn no_star(q: Seq<char>) -> bool {
    forall|k: int| 0 <= k < q.len() ==> q[k] != '*'
}

/// `q` has no `*` and matches `u` character for character.
spec fn literal_match(q: Seq<char>, u: Seq<char>) -> bool {
    &&& q.len() == u.len()
    &&& no_star(q)
    &&& forall|k: int| 0 <= k < q.len() ==> (q[k] == '?' || q[k] == u[k])
}

/// A star followed by `q` matches the suffix of `u` from `m` exactly when `q`
/// matches some suffix of `u` that starts at or after `m`.
proof fn lemma_star(q: Seq<char>, u: Seq<char>, m: int)
    requires
        0 <= m <= u.len(),
    ensures
        glob(seq!['*'] + q, u.skip(m)) <==> exists|j: int| m <= j <= u.len() && #[trigger] glob(q, u.skip(j)),
    decreases u.len() - m,
{
    let p = seq!['*'] + q;
    assert(p.drop_first() =~= q);
    assert(p[0] == '*');
    if m < u.len() {
        lemma_star(q, u, m + 1);
        assert(u.skip(m).drop_first() =~= u.skip(m + 1));
        if glob(q, u.skip(m)) {
            assert(m <= m <= u.len() && glob(q, u.skip(m)));
        }
        if glob(p, u.skip(m)) {
            if !glob(q, u.skip(m)) {
                let j = choose|j: int| m + 1 <= j <= u.len() && #[trigger] glob(q, u.skip(j));
                assert(m <= j <= u.len() && glob(q, u.skip(j)));
            }
        }
        if exists|j: int| m <= j <= u.len() && #[trigger] glob(q, u.skip(j)) {
            let j = choose|j: int| m <= j <= u.len() && #[trigger] glob(q, u.skip(j));
            if j > m {
                assert(m + 1 <= j <= u.len() && glob(q, u.skip(j)));
            }
        }
    } else {
        assert(u.skip(m).len() == 0);
        if glob(q, u.skip(m)) {
            assert(m <= m <= u.len() && glob(q, u.skip(m)));
        }
        if exists|j: int| m <= j <= u.len() && #[trigger] glob(q, u.skip(j)) {
            let j = choose|j: int| m <= j <= u.len() && #[trigger] glob(q, u.skip(j));
            assert(j == m);
        }
    }
}

/// A pattern that starts with a star and matches a suffix of `u` also matches
/// every longer suffix.
proof fn lemma_star_earlier(q: Seq<char>, u: Seq<char>, a: int, b: int)
    requires
        0 <= b <= a <= u.len(),
        glob(seq!['*'] + q, u.skip(a)),
    ensures
        glob(seq!['*'] + q, u.skip(b)),
{
    lemma_star(q, u, a);
    lemma_star(q, u, b);
    let j = choose|j: int| a <= j <= u.len() && #[trigger] glob(q, u.skip(j));
    assert(b <= j <= u.len() && glob(q, u.skip(j)));
}

/// A literal prefix can be stripped from both sides.
proof fn lemma_literal_prefix(q: Seq<char>, u: Seq<char>, rest_p: Seq<char>, rest_t: Seq<char>)
    requires
        literal_match(q, u),
    ensures
        glob(q + rest_p, u + rest_t) == glob(rest_p, rest_t),
    decreases q.len(),
{
    if q.len() > 0 {
        let p = q + rest_p;
        let t = u + rest_t;
        assert(p.drop_first() =~= q.drop_first() + rest_p);
        assert(t.drop_first() =~= u.drop_first() + rest_t);
        assert(p[0] == q[0]);
        assert(t[0] == u[0]);
        lemma_literal_prefix(q.drop_first(), u.drop_first(), rest_p, rest_t);
    } else {
        assert(q + rest_p =~= rest_p);
        assert(u + rest_t =~= rest_t);
    }
}

/// A star-free prefix consumes exactly as many characters as it has.
proof fn lemma_star_free_prefix(q: Seq<char>, w: Seq<char>, u: Seq<char>)
    requires
        no_star(q),
        glob(q + w, u),
    ensures
        u.len() >= q.len(),
        glob(w, u.skip(q.len() as int)),
    decreases q.len(),
{
    if q.len() > 0 {
        let p = q + w;
        assert(p[0] == q[0]);
        assert(p.drop_first() =~= q.drop_first() + w);
        lemma_star_free_prefix(q.drop_first(), w, u.drop_first());
        assert(u.drop_first().skip(q.len() - 1) =~= u.skip(q.len() as int));
    } else {
        assert(q + w =~= w);
        assert(u.skip(0) =~= u);
    }
}

/// A pattern that still has characters but starts with none of `*` cannot
/// match a text it disagrees with on the first character.
proof fn lemma_mismatch(p: Seq<char>, t: Seq<char>)
    requires
        t.len() > 0,
        p.len() == 0 || (p[0] != '*' && p[0] != '?' && p[0] != t[0]),
    ensures
        !glob(p, t),
{
}

/// Match a single wildcard pattern against a string.
pub fn wildcard_match(pattern: &str, text: &str) -> (r: bool)
    ensures
        r == glob(pattern@, text@),
{
    let p = chars_of(pattern);
    let t = chars_of(text);
    wildcard_match_chars(&p, &t)
}

/// The matching loop on character vectors: it walks the text once, and on a
/// mismatch returns to just after the last star, which then swallows one
/// more character.
fn wildcard_match_chars(p: &Vec<char>, t: &Vec<char>) -> (r: bool)
    ensures
        r == glob(p@, t@),
{
    let mut pi: usize = 0;
    let mut ti: usize = 0;
    let mut star: Option<usize> = None;
    let mut star_match: usize = 0;
    assert(p@.skip(0) =~= p@);
    assert(t@.skip(0) =~= t@);

    while ti < t.len()
        invariant
            pi <= p.len(),
            ti <= t.len(),
            star_match <= ti,
            star is None ==> glob(p@, t@) == glob(p@.skip(pi as int), t@.skip(ti as int)),
            star is Some ==> star->0 < pi,
            star is Some ==> p@[star->0 as int] == '*',
            star is Some ==> literal_match(p@.subrange(star->0 + 1, pi as int), t@.subrange(star_match as int, ti as int)),
            star is Some ==> (glob(p@, t@) == exists|j: int| star_match <= j <= t.len() && #[trigger] glob(p@.skip(star->0 + 1), t@.skip(j))),
        decreases t.len() - star_match, (p.len() - pi) + (t.len() - ti),
    {
        if pi < p.len() && p[pi] == '*' {
            proof {
                let ps = p@.skip(pi as int);
                let r = p@.skip(pi + 1);
                assert(ps =~= seq!['*'] + r);
                lemma_star(r, t@, ti as int);
                match star {
                    None => {},
                    Some(s) => {
                        let q = p@.subrange(s + 1, pi as int);
                        let u = t@.subrange(star_match as int, ti as int);
                        assert(p@.skip(s + 1) =~= q + ps);
                        assert(t@.skip(star_match as int) =~= u + t@.skip(ti as int));
                        lemma_literal_prefix(q, u, ps, t@.skip(ti as int));
                        if glob(p@, t@) {
                            let j = choose|j: int| star_match <= j <= t.len() && #[trigger] glob(p@.skip(s + 1), t@.skip(j));
                            lemma_star_free_prefix(q, ps, t@.skip(j));
                            assert(t@.skip(j).skip(q.len() as int) =~= t@.skip(j + q.len()));
                            lemma_star_earlier(r, t@, j + q.len(), ti as int);
                        }
                        if glob(ps, t@.skip(ti as int)) {
                            assert(glob(p@.skip(s + 1), t@.skip(star_match as int)));
                        }
                    },
                }
            }
            assert(glob(p@, t@) == glob(seq!['*'] + p@.skip(pi + 1), t@.skip(ti as int)));
            assert(glob(p@, t@) == exists|j: int| ti <= j <= t.len() && #[trigger] glob(p@.skip(pi + 1), t@.skip(j)));
            let ghost s0 = pi;
            star = Some(pi);
            star_match = ti;
            pi = pi + 1;
            assert(star->0 == s0);
            assert(glob(p@, t@) == exists|j: int| star_match <= j <= t.len() && #[trigger] glob(p@.skip(s0 + 1), t@.skip(j)));
            assert(glob(p@, t@) == exists|j: int| star_match <= j <= t.len() && #[trigger] glob(p@.skip(star->0 + 1), t@.skip(j)));
            proof {
                assert(p@.subrange(pi as int, pi as int) =~= Seq::<char>::empty());
                assert(t@.subrange(ti as int, ti as int) =~= Seq::<char>::empty());
            }
        } else if pi < p.len() && (p[pi] == '?' || p[pi] == t[ti]) {
            proof {
                match star {
                    None => {
                        let ps = p@.skip(pi as int);
                        let ts = t@.skip(ti as int);
                        assert(ps[0] == p@[pi as int]);
                        assert(ts[0] == t@[ti as int]);
                        assert(ps.drop_first() =~= p@.skip(pi + 1));
                        assert(ts.drop_first() =~= t@.skip(ti + 1));
                        assert(ps.len() > 0 && ps[0] != '*' && ts.len() > 0);
                        assert(ps[0] == '?' || ps[0] == ts[0]);
                        assert(glob(ps, ts) == glob(ps.drop_first(), ts.drop_first()));
                    },
                    Some(s) => {
                        assert(p@.subrange(s + 1, pi + 1) =~= p@.subrange(s + 1, pi as int).push(p@[pi as int]));
                        assert(t@.subrange(star_match as int, ti + 1) =~= t@.subrange(star_match as int, ti as int).push(t@[ti as int]));
                    },
                }
            }
            pi = pi + 1;
            ti = ti + 1;
            assert(star is Some ==> (glob(p@, t@) == exists|j: int| star_match <= j <= t.len() && #[trigger] glob(p@.skip(star->0 + 1), t@.skip(j))));
        } else if let Some(s) = star {
            proof {
                let q = p@.subrange(s + 1, pi as int);
                let u = t@.subrange(star_match as int, ti as int);
                let ps = p@.skip(pi as int);
                assert(p@.skip(s + 1) =~= q + ps);
                assert(t@.skip(star_match as int) =~= u + t@.skip(ti as int));
                lemma_literal_prefix(q, u, ps, t@.skip(ti as int));
                lemma_mismatch(ps, t@.skip(ti as int));
                if glob(p@, t@) {
                    let j = choose|j: int| star_match <= j <= t.len() && #[trigger] glob(p@.skip(s + 1), t@.skip(j));
                    assert(j != star_match);
                    assert(star_match + 1 <= j <= t.len() && glob(p@.skip(s + 1), t@.skip(j)));
                }
                if exists|j: int| star_match + 1 <= j <= t.len() && #[trigger] glob(p@.skip(s + 1), t@.skip(j)) {
                    let j = choose|j: int| star_match + 1 <= j <= t.len() && #[trigger] glob(p@.skip(s + 1), t@.skip(j));
                    assert(star_match <= j <= t.len() && glob(p@.skip(s + 1), t@.skip(j)));
                }
            }
            pi = s + 1;
            star_match = star_match + 1;
            ti = star_match;
            assert(glob(p@, t@) == exists|j: int| star_match <= j <= t.len() && #[trigger] glob(p@.skip(star->0 + 1), t@.skip(j)));
            proof {
                assert(p@.subrange(s + 1, pi as int) =~= Seq::<char>::empty());
                assert(t@.subrange(ti as int, ti as int) =~= Seq::<char>::empty());
            }
        } else {
            proof {
                lemma_mismatch(p@.skip(pi as int), t@.skip(ti as int));
            }
            return false;
        }
    }

    proof {
        match star {
            None => {},
            Some(s) => {
                let q = p@.subrange(s + 1, pi as int);
                let u = t@.subrange(star_match as int, ti as int);
                let ps = p@.skip(pi as int);
                assert(p@.skip(s + 1) =~= q + ps);
                assert(t@.skip(star_match as int) =~= u + t@.skip(ti as int));
                lemma_literal_prefix(q, u, ps, t@.skip(ti as int));
                if glob(p@, t@) {
                    let j = choose|j: int| star_match <= j <= t.len() && #[trigger] glob(p@.skip(s + 1), t@.skip(j));
                    lemma_star_free_prefix(q, ps, t@.skip(j));
                    assert(j == star_match);
                }
                if glob(ps, t@.skip(ti as int)) {
                    assert(glob(p@.skip(s + 1), t@.skip(star_match as int)));
                }
            },
        }
    }
    let ghost pi0 = pi;
    while pi < p.len() && p[pi] == '*'
        invariant
            pi0 <= pi <= p.len(),
            glob(p@.skip(pi0 as int), Seq::<char>::empty()) == glob(p@.skip(pi as int), Seq::<char>::empty()),
        decreases p.len() - pi,
    {
        assert(p@.skip(pi as int).drop_first() =~= p@.skip(pi + 1));
        pi = pi + 1;
    }
    assert(t@.skip(t.len() as int) =~= Seq::<char>::empty());
    pi == p.len()
}

/// The part of `s` after its last `/` (all of `s` when it has none).
pub open spec fn basename(s: Seq<char>) -> Seq<char>
    decreases s.len(),
{
    if s.len() == 0 {
        s
    } else if s.last() == '/' {
        Seq::empty()
    } else {
        basename(s.drop_last()).push(s.last())
    }
}

/// What `path_matches` decides: a pattern with a `/` must match the whole
/// path; one without must match the basename.
pub open spec fn path_match(pattern: Seq<char>, path: Seq<char>) -> bool {
    if pattern.contains('/') {
        glob(pattern, path)
    } else {
        glob(pattern, basename(path))
    }
}

/// Index just past the last `/` of `s` (0 when there is none).
fn basename_start(s: &Vec<char>) -> (k: usize)
    ensures
        k <= s.len(),
        s@.skip(k as int) == basename(s@),
{
    let mut k: usize = s.len();
    assert(s@.take(k as int) =~= s@);
    assert(basename(s@) + s@.skip(k as int) =~= basename(s@));
    while k > 0 && s[k - 1] != '/'
        invariant
            k <= s.len(),
            basename(s@) == basename(s@.take(k as int)) + s@.skip(k as int),
        decreases k,
    {
        proof {
            let pre = s@.take(k as int);
            assert(pre.drop_last() =~= s@.take(k - 1));
            assert(pre.last() == s@[k - 1]);
            assert(basename(pre.drop_last()).push(pre.last()) + s@.skip(k as int)
                =~= basename(s@.take(k - 1)) + s@.skip(k - 1));
        }
        k = k - 1;
    }
    proof {
        let pre = s@.take(k as int);
        if k > 0 {
            assert(pre.last() == '/');
        }
        assert(basename(pre) =~= Seq::<char>::empty());
        assert(basename(s@) =~= s@.skip(k as int));
    }
    k
}

/// Whether `c` occurs in `s`.
fn contains_char(s: &Vec<char>, c: char) -> (r: bool)
    ensures
        r == s@.contains(c),
{
    let mut i: usize = 0;
    while i < s.len()
        invariant
            i <= s.len(),
            forall|k: int| 0 <= k < i ==> s@[k] != c,
        decreases s.len() - i,
    {
        if s[i] == c {
            assert(s@[i as int] == c);
            return true;
        }
        i = i + 1;
    }
    false
}

/// Match a path against a pattern: the whole path when the pattern holds a
/// `/`, else the path's basename.
pub fn path_matches(pattern: &str, path: &str) -> (r: bool)
    ensures
        r == path_match(pattern@, path@),
{
    let p = chars_of(pattern);
    let t = chars_of(path);
    if contains_char(&p, '/') {
        return wildcard_match_chars(&p, &t);
    }
    let start = basename_start(&t);
    let base = slice_chars(&t, start, t.len());
    wildcard_match_chars(&p, &base)
}

/// Whether any pattern in the list matches the path.
pub fn matches_any(patterns: &[String], path: &str) -> (r: bool)
    ensures
        r == exists|i: int| 0 <= i < patterns@.len() && path_match(#[trigger] patterns@[i]@, path@),
{
    let mut i: usize = 0;
    while i < patterns.len()
        invariant
            i <= patterns@.len(),
            forall|k: int| 0 <= k < i ==> !path_match(#[trigger] patterns@[k]@, path@),
        decreases patterns@.len() - i,
    {
        if path_matches(patterns[i].as_str(), path) {
            return true;
        }
        i = i + 1;
    }
    false
}

/// A path's basename is what follows its last `/`.
proof fn lemma_basename_after_slash(dir: Seq<char>, name: Seq<char>)
    requires
        !name.contains('/'),
    ensures
        basename(dir + seq!['/'] + name) == name,
        basename(name) == name,
    decreases name.len(),
{
    let p = dir + seq!['/'] + name;
    if name.len() == 0 {
        assert(p.last() == '/');
        assert(basename(p) =~= name);
    } else {
        assert(!name.drop_last().contains('/')) by {
            if name.drop_last().contains('/') {
                let i = choose|i: int| 0 <= i < name.drop_last().len() && name.drop_last()[i] == '/';
                assert(name[i] == '/');
            }
        }
        assert(name.last() != '/') by {
            assert(name[name.len() - 1] == name.last());
        }
        lemma_basename_after_slash(dir, name.drop_last());
        assert(p.drop_last() =~= dir + seq!['/'] + name.drop_last());
        assert(p.last() == name.last());
        assert(name.drop_last().push(name.last()) =~= name);
    }
}

/// A pattern without `/` decides a path by its last segment alone: the
/// file `name` matches it in any directory exactly when it matches `name`
/// on its own.
pub proof fn law_pattern_without_slash_ignores_directories(pattern: Seq<char>, dir: Seq<char>, name: Seq<char>)
    requires
        !pattern.contains('/'),
        !name.contains('/'),
    ensures
        path_match(pattern, dir + seq!['/'] + name) == path_match(pattern, name),
        path_match(pattern, dir + seq!['/'] + name) == glob(pattern, name),
{
    lemma_basename_after_slash(dir, name);
}

/// A pattern with a `/` decides a path by the whole of it.
pub proof fn law_pattern_with_slash_takes_whole_path(pattern: Seq<char>, path: Seq<char>)
    requires
        pattern.contains('/'),
    ensures
        path_match(pattern, path) == glob(pattern, path),
{
}

/// `*` matches every text.
pub proof fn law_star_matches_everything(t: Seq<char>)
    ensures
        glob(seq!['*'], t),
    decreases t.len(),
{
    let star = seq!['*'];
    assert(star.drop_first() =~= Seq::<char>::empty());
    assert(star[0] == '*');
    if t.len() > 0 {
        law_star_matches_everything(t.drop_first());
    } else {
        assert(glob(Seq::<char>::empty(), t));
    }
}

/// A pattern without `*` matches exactly the texts of its length that agree
/// with it at every place that is not a `?`.
pub proof fn law_plain_pattern_matches_letter_by_letter(p: Seq<char>, t: Seq<char>)
    requires
        forall|k: int| 0 <= k < p.len() ==> p[k] != '*',
    ensures
        glob(p, t) == (p.len() == t.len() && forall|k: int| 0 <= k < p.len() ==> p[k] == '?' || p[k] == t[k]),
    decreases p.len(),
{
    if p.len() > 0 && t.len() > 0 {
        assert forall|k: int| 0 <= k < p.drop_first().len() implies p.drop_first()[k] != '*' by {
            assert(p.drop_first()[k] == p[k + 1]);
        }
        law_plain_pattern_matches_letter_by_letter(p.drop_first(), t.drop_first());
        if glob(p, t) {
            assert forall|k: int| 0 <= k < p.len() implies p[k] == '?' || p[k] == t[k] by {
                if k > 0 {
                    assert(p[k] == p.drop_first()[k - 1] && t[k] == t.drop_first()[k - 1]);
                }
            }
        }
        if p.len() == t.len() && forall|k: int| 0 <= k < p.len() ==> p[k] == '?' || p[k] == t[k] {
            assert(p[0] == '?' || p[0] == t[0]);
            assert forall|k: int| 0 <= k < p.drop_first().len() implies p.drop_first()[k] == '?' || p.drop_first()[k] == t.drop_first()[k] by {
                assert(p[k + 1] == '?' || p[k + 1] == t[k + 1]);
            }
        }
    } else if p.len() > 0 {
        assert(p[0] != '*');
    }
}

} // verus!
