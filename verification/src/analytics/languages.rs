//! Churn grouped by language, that is by file extension.
use vstd::prelude::*;

use crate::analytics::totals::churn_sum;
use crate::models::{FileChurn, LanguageStat};
use crate::order::{lemma_lt_irreflexive, str_lt};
use crate::rank::{as_ints, rank_indices, ranking};
use crate::strmap::{lemma_lookup_index, lookup, StrMap};
use crate::text::{chars_of, owned, push_str, slice_chars, string_of};
use crate::{ascii_lower_seq, last_index_of};

verus! {

/// How many languages the breakdown keeps.
pub const MAX_LANGUAGES: usize = 12;

/// An ASCII letter or digit.
pub open spec fn is_ascii_alnum(c: char) -> bool {
    ('a' <= c && c <= 'z') || ('A' <= c && c <= 'Z') || ('0' <= c && c <= '9')
}

/// Every character of `s` is an ASCII letter or digit.
pub open spec fn all_ascii_alnum(s: Seq<char>) -> bool {
    forall|i: int| 0 <= i < s.len() ==> is_ascii_alnum(#[trigger] s[i])
}

/// The word `unknown`, for files without an extension.
pub open spec fn unknown_language() -> Seq<char> {
    seq!['u', 'n', 'k', 'n', 'o', 'w', 'n']
}

/// The language a file counts under: the lower-cased text after the last
/// `.` of its path when that is a non-empty run of ASCII letters and
/// digits, else `unknown` (no `.`, an empty extension, or one with any
/// other character).
pub open spec fn language_key(path: Seq<char>) -> Seq<char> {
    match last_index_of(path, '.') {
        Some(i) => if path.skip(i + 1).len() > 0 && all_ascii_alnum(path.skip(i + 1)) {
            ascii_lower_seq(path.skip(i + 1))
        } else {
            unknown_language()
        },
        None => unknown_language(),
    }
}

/// The number of files of language `l`.
pub open spec fn lang_count(files: Seq<FileChurn>, l: Seq<char>) -> int
    decreases files.len(),
{
    if files.len() == 0 {
        0
    } else {
        lang_count(files.drop_last(), l) + if language_key(files.last().path@) == l { 1int } else { 0int }
    }
}

/// The churn of the files of language `l`.
pub open spec fn lang_churn(files: Seq<FileChurn>, l: Seq<char>) -> int
    decreases files.len(),
{
    if files.len() == 0 {
        0
    } else {
        lang_churn(files.drop_last(), l) + if language_key(files.last().path@) == l {
            files.last().additions + files.last().deletions
        } else {
            0
        }
    }
}

/// Language `l1` with churn `c1` is listed before `l2` with churn `c2`:
/// more churn first, ties by name.
pub open spec fn lang_before(c1: int, l1: Seq<char>, c2: int, l2: Seq<char>) -> bool {
    c1 > c2 || (c1 == c2 && str_lt(l1, l2))
}

/// Language `l` is one of the rows of `out`.
pub open spec fn listed(out: Seq<LanguageStat>, l: Seq<char>) -> bool {
    exists|i: int| 0 <= i < out.len() && #[trigger] out[i].language@ == l
}

/// Each row of `out` is a language of `files` with its churn.
pub open spec fn rows_exact(files: Seq<FileChurn>, out: Seq<LanguageStat>) -> bool {
    forall|i: int| 0 <= i < out.len() ==> lang_count(files, #[trigger] out[i].language@) > 0 && out[i].churn == lang_churn(files, out[i].language@)
}

/// The rows of `out` come most churn first, ties by name.
pub open spec fn rows_ordered(out: Seq<LanguageStat>) -> bool {
    forall|i: int, j: int| 0 <= i < j < out.len() ==> lang_before(#[trigger] out[i].churn as int, out[i].language@, #[trigger] out[j].churn as int, out[j].language@)
}

/// A language of `files` left out of `out` comes after all of its rows,
/// which are then as many as the breakdown keeps.
pub open spec fn rows_complete(files: Seq<FileChurn>, out: Seq<LanguageStat>) -> bool {
    forall|l: Seq<char>| #[trigger] lang_count(files, l) > 0 && !listed(out, l) ==> out.len() == MAX_LANGUAGES
        && lang_before(out[out.len() - 1].churn as int, out[out.len() - 1].language@, lang_churn(files, l), l)
}

/// `out` is the language breakdown of `files`: the languages with the most
/// churn (ties by name), each with its churn, at most 12 of them.
pub open spec fn is_breakdown(files: Seq<FileChurn>, out: Seq<LanguageStat>) -> bool {
    &&& out.len() <= MAX_LANGUAGES
    &&& rows_exact(files, out)
    &&& rows_ordered(out)
    &&& rows_complete(files, out)
}

/// The word `unknown`.
fn unknown() -> (u: String)
    ensures
        u@ == unknown_language(),
{
    let mut u = String::new();
    push_str(&mut u, "unknown");
    proof { reveal_strlit("unknown"); }
    assert(u@ =~= unknown_language());
    u
}

/// The language of a path.
pub fn language_key_of(path: &str) -> (l: String)
    ensures
        l@ == language_key(path@),
{
    let v = chars_of(path);
    let dot = match crate::last_index(&v, '.') {
        Some(i) => i,
        None => return unknown(),
    };
    let ext = slice_chars(&v, dot + 1, v.len());
    assert(ext@ =~= v@.skip(dot + 1));
    if ext.len() == 0 {
        return unknown();
    }
    let mut i: usize = 0;
    while i < ext.len()
        invariant
            i <= ext@.len(),
            ext@ == path@.skip(dot + 1),
            ext@.len() > 0,
            v@ == path@,
            last_index_of(path@, '.') == Some(dot as int),
            forall|k: int| 0 <= k < i ==> is_ascii_alnum(#[trigger] ext@[k]),
        decreases ext@.len() - i,
    {
        let c = ext[i];
        if !(('a' <= c && c <= 'z') || ('A' <= c && c <= 'Z') || ('0' <= c && c <= '9')) {
            assert(!is_ascii_alnum(ext@[i as int]));
            return unknown();
        }
        i = i + 1;
    }
    string_of(&crate::lower_chars(&ext))
}

proof fn lemma_lang_prefix(files: Seq<FileChurn>, i: int, l: Seq<char>)
    requires
        0 <= i <= files.len(),
    ensures
        0 <= lang_churn(files.take(i), l) <= lang_churn(files, l),
        0 <= lang_count(files.take(i), l) <= lang_count(files, l),
    decreases files.len() - i,
{
    if i < files.len() {
        lemma_lang_prefix(files, i + 1, l);
        assert(files.take(i + 1).drop_last() =~= files.take(i));
    } else {
        assert(files.take(i) =~= files);
    }
    lemma_lang_nonneg(files.take(i), l);
}

proof fn lemma_lang_nonneg(files: Seq<FileChurn>, l: Seq<char>)
    ensures
        lang_churn(files, l) >= 0,
        lang_count(files, l) >= 0,
    decreases files.len(),
{
    if files.len() > 0 {
        lemma_lang_nonneg(files.drop_last(), l);
    }
}

/// Churn per language, most churn first (ties by language name), at most 12
/// languages.
pub fn build_language_breakdown(files: &[FileChurn]) -> (out: Vec<LanguageStat>)
    requires
        forall|l: Seq<char>| #[trigger] lang_churn(files@, l) <= u64::MAX,
    ensures
        is_breakdown(files@, out@),
{
    let ghost fs = files@;
    let mut table: StrMap<u64> = StrMap::new();
    let mut i: usize = 0;
    while i < files.len()
        invariant
            i <= fs.len(),
            fs == files@,
            forall|l: Seq<char>| #[trigger] lang_churn(fs, l) <= u64::MAX,
            forall|l: Seq<char>| #[trigger] lookup(table@, l) == if lang_count(fs.take(i as int), l) > 0 {
                Some(lang_churn(fs.take(i as int), l) as u64)
            } else {
                None
            },
        decreases fs.len() - i,
    {
        let f = &files[i];
        let key = language_key_of(f.path.as_str());
        let ghost l = key@;
        proof {
            assert(fs.take(i + 1).drop_last() =~= fs.take(i as int));
            assert(fs.take(i + 1).last() == fs[i as int]);
            lemma_lang_prefix(fs, i + 1, l);
            lemma_lang_prefix(fs, i as int, l);
            lemma_lang_nonneg(fs.take(i as int), l);
        }
        let ghost before = table@;
        let k = table.entry_index(key.as_str(), 0);
        let v = *table.value_at(k);
        proof {
            if lang_count(fs.take(i as int), l) == 0 {
                assert(lookup(before, l) is None);
                assert(lang_churn(fs.take(i as int), l) == 0) by {
                    lemma_no_files_no_churn(fs.take(i as int), l);
                }
            }
        }
        table.set_value(k, v + f.additions + f.deletions);
        proof {
            assert forall|x: Seq<char>| #[trigger] lookup(table@, x) == if lang_count(fs.take(i + 1), x) > 0 {
                Some(lang_churn(fs.take(i + 1), x) as u64)
            } else {
                None
            } by {
                lemma_lang_nonneg(fs.take(i as int), x);
            }
        }
        i = i + 1;
    }
    assert(fs.take(fs.len() as int) =~= fs);

    let n = table.len();
    let mut scores: Vec<u64> = Vec::new();
    let mut x: usize = 0;
    while x < n
        invariant
            x <= n,
            n == table@.len(),
            scores@ =~= table@.map_values(|e: (Seq<char>, u64)| e.1).take(x as int),
        decreases n - x,
    {
        scores.push(*table.value_at(x));
        x = x + 1;
    }
    let ghost s = table@.map_values(|e: (Seq<char>, u64)| e.1);
    assert(scores@ =~= s);
    let order = rank_indices(&scores);
    let ghost o = as_ints(order@);
    assert forall|r: int| 0 <= r < n implies #[trigger] order@[r] < n by {
        assert(o[r] == order@[r] as int);
    }
    let m = if n < MAX_LANGUAGES { n } else { MAX_LANGUAGES };
    let mut out: Vec<LanguageStat> = Vec::new();
    let mut r: usize = 0;
    while r < m
        invariant
            r <= m,
            m <= n,
            m == n || m == MAX_LANGUAGES,
            n == table@.len(),
            crate::strmap::sorted_keys(table@),
            order@.len() == n,
            o == as_ints(order@),
            o == ranking(s),
            crate::rank::is_ranking(s, o),
            s == table@.map_values(|e: (Seq<char>, u64)| e.1),
            forall|q: int| 0 <= q < n ==> #[trigger] order@[q] < n,
            out@.len() == r,
            forall|q: int| 0 <= q < r ==> #[trigger] out@[q].language@ == table@[o[q]].0 && out@[q].churn == table@[o[q]].1,
        decreases m - r,
    {
        let idx = order[r];
        assert(o[r as int] == idx as int);
        out.push(LanguageStat { language: owned(table.key_at(idx).as_str()), churn: *table.value_at(idx) });
        r = r + 1;
    }
    proof {
        let t = table@;
        lemma_lookup_index_all(t);
        assert forall|q: int| 0 <= q < out@.len() implies lang_count(fs, #[trigger] out@[q].language@) > 0 && out@[q].churn == lang_churn(fs, out@[q].language@) by {
            assert(0 <= o[q] < n);
            lemma_lookup_index(t, t[o[q]].0);
            lemma_lang_nonneg(fs, t[o[q]].0);
        }
        assert forall|a: int, b: int| 0 <= a < b < out@.len() implies lang_before(#[trigger] out@[a].churn as int, out@[a].language@, #[trigger] out@[b].churn as int, out@[b].language@) by {
            assert(crate::rank::ranks_before(s, o[a], o[b]));
            if s[o[a]] == s[o[b]] {
                assert(str_lt(t[o[a]].0, t[o[b]].0));
            }
        }
        assert forall|l: Seq<char>| #[trigger] lang_count(fs, l) > 0 && !listed(out@, l) implies out@.len() == MAX_LANGUAGES
            && lang_before(out@[out@.len() - 1].churn as int, out@[out@.len() - 1].language@, lang_churn(fs, l), l) by {
            lemma_lang_nonneg(fs, l);
            lemma_lookup_index(t, l);
            assert(lookup(t, l) is Some);
            let y = choose|y: int| 0 <= y < t.len() && #[trigger] t[y].0 == l;
            assert(o.contains(y));
            let k = choose|k: int| 0 <= k < o.len() && #[trigger] o[k] == y;
            if k < m {
                assert(out@[k].language@ == l);
                assert(listed(out@, l));
            }
            assert(k >= m);
            assert(m == MAX_LANGUAGES);
            assert(crate::rank::ranks_before(s, o[m - 1], o[k]));
            assert(0 <= o[m - 1] < n);
            if s[o[m - 1]] == s[o[k]] {
                assert(str_lt(t[o[m - 1]].0, t[o[k]].0));
            }
            assert(lookup(t, l) == Some(t[y].1));
        }
    }
    out
}

/// The churn of one language is at most the churn of all files.
pub proof fn lemma_lang_churn_le(files: Seq<FileChurn>, l: Seq<char>)
    ensures
        lang_churn(files, l) <= churn_sum(files),
    decreases files.len(),
{
    if files.len() > 0 {
        lemma_lang_churn_le(files.drop_last(), l);
    }
}

/// With no file of language `l`, there is no churn for it.
proof fn lemma_no_files_no_churn(files: Seq<FileChurn>, l: Seq<char>)
    requires
        lang_count(files, l) == 0,
    ensures
        lang_churn(files, l) == 0,
    decreases files.len(),
{
    if files.len() > 0 {
        lemma_lang_nonneg(files.drop_last(), l);
        lemma_no_files_no_churn(files.drop_last(), l);
    }
}

/// In a map with sorted keys, entries with different indices have
/// different, ordered keys.
proof fn lemma_lookup_index_all(t: Seq<(Seq<char>, u64)>)
    requires
        crate::strmap::sorted_keys(t),
    ensures
        forall|a: int, b: int| 0 <= a < b < t.len() ==> str_lt(#[trigger] t[a].0, #[trigger] t[b].0),
{
}

/// The last `.` of `q . e`, when `e` holds none, is the one before `e`.
proof fn lemma_last_dot(q: Seq<char>, e: Seq<char>)
    requires
        !e.contains('.'),
    ensures
        last_index_of(q + seq!['.'] + e, '.') == Some(q.len() as int),
    decreases e.len(),
{
    let s = q + seq!['.'] + e;
    if e.len() == 0 {
        assert(s.last() == '.');
    } else {
        assert(s.last() == e.last());
        assert(e.last() != '.') by {
            assert(e[e.len() - 1] == e.last());
        }
        assert(!e.drop_last().contains('.')) by {
            if e.drop_last().contains('.') {
                let i = choose|i: int| 0 <= i < e.drop_last().len() && e.drop_last()[i] == '.';
                assert(e[i] == '.');
            }
        }
        lemma_last_dot(q, e.drop_last());
        assert(s.drop_last() =~= q + seq!['.'] + e.drop_last());
    }
}

/// A path counts under the language named after its last `.`: whatever
/// comes before (other dots included), `q.e` with `e` a non-empty run of
/// ASCII letters and digits counts under `e` lower-cased.
pub proof fn law_language_is_last_extension(q: Seq<char>, e: Seq<char>)
    requires
        e.len() > 0,
        all_ascii_alnum(e),
    ensures
        language_key(q + seq!['.'] + e) == ascii_lower_seq(e),
{
    assert(!e.contains('.')) by {
        if e.contains('.') {
            let i = choose|i: int| 0 <= i < e.len() && e[i] == '.';
            assert(is_ascii_alnum(e[i]));
        }
    }
    lemma_last_dot(q, e);
    assert((q + seq!['.'] + e).skip(q.len() + 1int) =~= e);
}

/// A path without a `.`, and one whose text after the last `.` is empty or
/// holds a character other than an ASCII letter or digit, counts under
/// `unknown`.
pub proof fn law_language_unknown(q: Seq<char>, e: Seq<char>)
    requires
        !e.contains('.'),
        e.len() == 0 || !all_ascii_alnum(e),
    ensures
        language_key(e) == unknown_language(),
        language_key(q + seq!['.'] + e) == unknown_language(),
{
    lemma_last_dot(q, e);
    assert((q + seq!['.'] + e).skip(q.len() + 1int) =~= e);
    lemma_no_dot(e);
}

/// A string without `.` has no last `.`.
proof fn lemma_no_dot(e: Seq<char>)
    requires
        !e.contains('.'),
    ensures
        last_index_of(e, '.') is None,
    decreases e.len(),
{
    if e.len() > 0 {
        assert(e.last() != '.') by {
            assert(e[e.len() - 1] == e.last());
        }
        assert(!e.drop_last().contains('.')) by {
            if e.drop_last().contains('.') {
                let i = choose|i: int| 0 <= i < e.drop_last().len() && e.drop_last()[i] == '.';
                assert(e[i] == '.');
            }
        }
        lemma_no_dot(e.drop_last());
    }
}

} // verus!
