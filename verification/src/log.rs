//! Parsing of `git log --numstat --pretty=format:__COMMIT__|%H|%an|%ad`
//! output into commit records.
use vstd::prelude::*;

use crate::text::{chars_of, parse_u64, parse_u64_spec, slice_chars, string_of};
use crate::{CommitRecord, CommitView, FileChange, FileChangeView};

verus! {

/// Whitespace as `char::is_whitespace` defines it (the Unicode `White_Space`
/// property).
pub open spec fn is_whitespace(c: char) -> bool {
    ||| c == ' '
    ||| '\t' <= c <= '\r'
    ||| c == '\u{85}'
    ||| c == '\u{a0}'
    ||| c == '\u{1680}'
    ||| '\u{2000}' <= c <= '\u{200a}'
    ||| c == '\u{2028}'
    ||| c == '\u{2029}'
    ||| c == '\u{202f}'
    ||| c == '\u{205f}'
    ||| c == '\u{3000}'
}

/// `s` has nothing but whitespace (`s.trim().is_empty()`).
pub open spec fn blank(s: Seq<char>) -> bool {
    forall|i: int| 0 <= i < s.len() ==> is_whitespace(#[trigger] s[i])
}

/// The index of the first occurrence of `c` in `s`.
pub open spec fn first_index_of(s: Seq<char>, c: char) -> Option<int>
    decreases s.len(),
{
    if s.len() == 0 {
        None
    } else if s[0] == c {
        Some(0)
    } else {
        match first_index_of(s.drop_first(), c) {
            Some(i) => Some(i + 1),
            None => None,
        }
    }
}

/// `first_index_of` finds the first occurrence, or reports that there is none.
pub proof fn lemma_first_index_of(s: Seq<char>, c: char)
    ensures
        match first_index_of(s, c) {
            Some(i) => 0 <= i < s.len() && s[i] == c && forall|k: int| 0 <= k < i ==> s[k] != c,
            None => forall|k: int| 0 <= k < s.len() ==> s[k] != c,
        },
    decreases s.len(),
{
    if s.len() > 0 && s[0] != c {
        lemma_first_index_of(s.drop_first(), c);
        match first_index_of(s.drop_first(), c) {
            Some(i) => {
                assert forall|k: int| 0 <= k < i + 1 implies s[k] != c by {
                    if k > 0 {
                        assert(s[k] == s.drop_first()[k - 1]);
                    }
                }
            },
            None => {
                assert forall|k: int| 0 <= k < s.len() implies s[k] != c by {
                    if k > 0 {
                        assert(s[k] == s.drop_first()[k - 1]);
                    }
                }
            },
        }
    }
}

/// What comes before and after the first `c` of `s` (`split_once`).
pub open spec fn split_once(s: Seq<char>, c: char) -> Option<(Seq<char>, Seq<char>)> {
    match first_index_of(s, c) {
        Some(i) => Some((s.take(i), s.skip(i + 1))),
        None => None,
    }
}

/// A line without the carriage return that ends it, if any.
pub open spec fn strip_cr(line: Seq<char>) -> Seq<char> {
    if line.len() > 0 && line.last() == '\r' {
        line.drop_last()
    } else {
        line
    }
}

/// The lines of `s` as `str::lines` yields them: split at each `\n`, a `\r`
/// right before the `\n` dropped, and no empty line after a final `\n`.
pub open spec fn split_lines(s: Seq<char>) -> Seq<Seq<char>>
    decreases s.len(),
{
    if s.len() == 0 {
        Seq::empty()
    } else {
        match first_index_of(s, '\n') {
            Some(i) => {
                proof {
                    lemma_first_index_of(s, '\n');
                }
                seq![strip_cr(s.take(i))] + split_lines(s.skip(i + 1))
            },
            None => seq![s],
        }
    }
}

/// The marker that starts every commit header line.
pub open spec fn commit_prefix() -> Seq<char> {
    seq!['_', '_', 'C', 'O', 'M', 'M', 'I', 'T', '_', '_', '|']
}

/// The line starts with the commit marker.
pub open spec fn is_header(line: Seq<char>) -> bool {
    line.len() >= commit_prefix().len() && line.take(commit_prefix().len() as int) == commit_prefix()
}

/// The hash, author and date of a header line (the second, third and
/// remaining `|`-separated fields), when it has at least three `|`.
pub open spec fn header_fields(line: Seq<char>) -> Option<(Seq<char>, Seq<char>, Seq<char>)> {
    match split_once(line, '|') {
        Some((_, r0)) => match split_once(r0, '|') {
            Some((sha, r1)) => match split_once(r1, '|') {
                Some((author, date)) => Some((sha, author, date)),
                None => None,
            },
            None => None,
        },
        None => None,
    }
}

/// The added count, deleted count and path of a numstat line (the first,
/// second and remaining tab-separated fields), when it has at least two tabs.
pub open spec fn numstat_fields(line: Seq<char>) -> Option<(Seq<char>, Seq<char>, Seq<char>)> {
    match split_once(line, '\t') {
        Some((a, r)) => match split_once(r, '\t') {
            Some((d, path)) => Some((a, d, path)),
            None => None,
        },
        None => None,
    }
}

/// A numstat count: `-` (a binary file) and anything that is not a number
/// count as zero.
pub open spec fn line_count(field: Seq<char>) -> u64 {
    if field == seq!['-'] {
        0
    } else {
        match parse_u64_spec(field) {
            Some(n) => n,
            None => 0,
        }
    }
}

/// The commits finished so far and the one being read.
pub type ParseState = (Seq<CommitView>, Option<CommitView>);

/// Reading one line: a header closes the open commit and opens a new one
/// (none when the header is malformed); a blank line, a line outside any
/// commit and a line with fewer than two tabs are skipped; a numstat line
/// adds a file change to the open commit.
pub open spec fn step(state: ParseState, line: Seq<char>) -> ParseState {
    let (done, cur) = state;
    if is_header(line) {
        let done2 = match cur {
            Some(c) => done.push(c),
            None => done,
        };
        let next = match header_fields(line) {
            Some((sha, author, date)) => Some(CommitView { sha, author, date, file_changes: Seq::empty() }),
            None => None,
        };
        (done2, next)
    } else if blank(line) {
        state
    } else {
        match cur {
            None => state,
            Some(c) => match numstat_fields(line) {
                None => state,
                Some((a, d, path)) => (
                    done,
                    Some(
                        CommitView {
                            file_changes: c.file_changes.push(
                                FileChangeView { path, added: line_count(a), deleted: line_count(d) },
                            ),
                            ..c
                        },
                    ),
                ),
            },
        }
    }
}

/// The state after reading all of `lines`, in order.
pub open spec fn run_lines(lines: Seq<Seq<char>>) -> ParseState
    decreases lines.len(),
{
    if lines.len() == 0 {
        (Seq::empty(), None)
    } else {
        step(run_lines(lines.drop_last()), lines.last())
    }
}

/// The commits of a whole log, the last open one included.
pub open spec fn parse_log(s: Seq<char>) -> Seq<CommitView> {
    let (done, cur) = run_lines(split_lines(s));
    match cur {
        Some(c) => done.push(c),
        None => done,
    }
}

/// The first index at or after `from` where `v` holds `c`.
fn find_from(v: &Vec<char>, from: usize, c: char) -> (r: Option<usize>)
    requires
        from <= v.len(),
    ensures
        match r {
            Some(j) => from <= j < v.len() && first_index_of(v@.skip(from as int), c) == Some(j - from),
            None => first_index_of(v@.skip(from as int), c) is None,
        },
{
    proof { lemma_first_index_of(v@.skip(from as int), c); }
    let mut j = from;
    while j < v.len()
        invariant
            from <= j <= v.len(),
            forall|k: int| from <= k < j ==> v@[k] != c,
        decreases v.len() - j,
    {
        if v[j] == c {
            proof {
                let t = v@.skip(from as int);
                lemma_first_index_of(t, c);
                match first_index_of(t, c) {
                    Some(i) => {
                        if i < j - from {
                            assert(t[i] == v@[from + i]);
                        } else if i > j - from {
                            assert(t[j - from] == c);
                        }
                    },
                    None => {
                        assert(t[j - from] == c);
                    },
                }
            }
            return Some(j);
        }
        j = j + 1;
    }
    proof {
        let t = v@.skip(from as int);
        lemma_first_index_of(t, c);
        match first_index_of(t, c) {
            Some(i) => {
                assert(t[i] == v@[from + i]);
            },
            None => {},
        }
    }
    None
}

/// Splits `v` at its first `c`, as `split_once` does.
fn split_first(v: &Vec<char>, c: char) -> (r: Option<(Vec<char>, Vec<char>)>)
    ensures
        match r {
            Some((a, b)) => split_once(v@, c) == Some((a@, b@)),
            None => split_once(v@, c) is None,
        },
{
    assert(v@.skip(0) =~= v@);
    match find_from(v, 0, c) {
        Some(j) => Some((slice_chars(v, 0, j), slice_chars(v, j + 1, v.len()))),
        None => None,
    }
}

/// Whether every character of `v` is whitespace.
fn is_blank(v: &Vec<char>) -> (r: bool)
    ensures
        r == blank(v@),
{
    let mut i: usize = 0;
    while i < v.len()
        invariant
            i <= v.len(),
            forall|k: int| 0 <= k < i ==> is_whitespace(#[trigger] v@[k]),
        decreases v.len() - i,
    {
        let c = v[i];
        let ws = c == ' ' || ('\t' <= c && c <= '\r') || c == '\u{85}' || c == '\u{a0}' || c == '\u{1680}'
            || ('\u{2000}' <= c && c <= '\u{200a}') || c == '\u{2028}' || c == '\u{2029}' || c == '\u{202f}'
            || c == '\u{205f}' || c == '\u{3000}';
        if !ws {
            assert(!is_whitespace(v@[i as int]));
            return false;
        }
        i = i + 1;
    }
    true
}

/// Whether `v` starts with the commit marker.
fn starts_with_prefix(v: &Vec<char>) -> (r: bool)
    ensures
        r == is_header(v@),
{
    let p = chars_of("__COMMIT__|");
    proof {
        reveal_strlit("__COMMIT__|");
        assert(p@ =~= commit_prefix());
    }
    if v.len() < p.len() {
        return false;
    }
    let mut i: usize = 0;
    while i < p.len()
        invariant
            i <= p.len(),
            p@ == commit_prefix(),
            p.len() <= v.len(),
            forall|k: int| 0 <= k < i ==> v@[k] == p@[k],
        decreases p.len() - i,
    {
        if v[i] != p[i] {
            assert(v@.take(p.len() as int)[i as int] != commit_prefix()[i as int]);
            return false;
        }
        i = i + 1;
    }
    assert(v@.take(p.len() as int) =~= commit_prefix());
    true
}

/// A numstat count field as `line_count` reads it.
fn count_field(field: &Vec<char>) -> (n: u64)
    ensures
        n == line_count(field@),
{
    if field.len() == 1 && field[0] == '-' {
        assert(field@ =~= seq!['-']);
        return 0;
    }
    proof {
        if field@ == seq!['-'] {
            assert(field@.len() == 1 && field@[0] == '-');
        }
    }
    match parse_u64(field) {
        Some(n) => n,
        None => 0,
    }
}

/// The commits of `git log --numstat` output, in the order they appear.
///
/// A commit starts at each line that begins with `__COMMIT__|` and carries
/// the hash, author and date after it; each following line of the form
/// `added<TAB>deleted<TAB>path` adds a file change (`-` counts as zero).
pub fn parse_git_log_output(log_output: &str) -> (commits: Vec<CommitRecord>)
    ensures
        commits@.map_values(|c: CommitRecord| c@) == parse_log(log_output@),
{
    let s = chars_of(log_output);
    let mut commits: Vec<CommitRecord> = Vec::new();
    let mut current: Option<CommitRecord> = None;
    let mut pos: usize = 0;
    let ghost mut seen: Seq<Seq<char>> = Seq::empty();
    assert(s@.skip(0) =~= s@);

    while pos < s.len()
        invariant
            pos <= s.len(),
            s@ == log_output@,
            seen + split_lines(s@.skip(pos as int)) == split_lines(s@),
            run_lines(seen) == (commits@.map_values(|c: CommitRecord| c@), match current {
                Some(c) => Some(c@),
                None => None::<CommitView>,
            }),
        decreases s.len() - pos,
    {
        let ghost rest = s@.skip(pos as int);
        let (end, next) = match find_from(&s, pos, '\n') {
            Some(j) => (j, j + 1),
            None => (s.len(), s.len()),
        };
        let mut line = slice_chars(&s, pos, end);
        if next > end && line.len() > 0 && line[line.len() - 1] == '\r' {
            line = slice_chars(&line, 0, line.len() - 1);
        }
        proof {
            lemma_first_index_of(rest, '\n');
            if next > end {
                assert(rest.take(end - pos) =~= s@.subrange(pos as int, end as int));
                assert(rest.skip(end - pos + 1) =~= s@.skip(next as int));
                assert(line@ == strip_cr(rest.take(end - pos)));
                assert(split_lines(rest) == seq![line@] + split_lines(s@.skip(next as int)));
            } else {
                assert(rest =~= s@.subrange(pos as int, end as int));
                assert(s@.skip(next as int) =~= Seq::<char>::empty());
                assert(split_lines(rest) == seq![line@]);
                assert(split_lines(s@.skip(next as int)) =~= Seq::<Seq<char>>::empty());
            }
            assert(seen.push(line@) + split_lines(s@.skip(next as int)) =~= seen + split_lines(rest));
            assert(seen.push(line@).drop_last() =~= seen);
        }
        let ghost before = run_lines(seen);
        if starts_with_prefix(&line) {
            match current {
                Some(c) => {
                    commits.push(c);
                },
                None => {},
            }
            current = None;
            if let Some((_, r0)) = split_first(&line, '|') {
                if let Some((sha, r1)) = split_first(&r0, '|') {
                    if let Some((author, date)) = split_first(&r1, '|') {
                        current = Some(CommitRecord {
                            sha: string_of(&sha),
                            author: string_of(&author),
                            date: string_of(&date),
                            file_changes: Vec::new(),
                        });
                        proof {
                            let c = current->0;
                            assert(c.file_changes@.map_values(|f: FileChange| f@) =~= Seq::<FileChangeView>::empty());
                        }
                    }
                }
            }
            proof {
                assert(commits@.map_values(|c: CommitRecord| c@) =~= step(before, line@).0);
            }
        } else if is_blank(&line) {
        } else {
            match current {
                None => {},
                Some(mut c) => {
                    let ghost cv = c@;
                    match split_first(&line, '\t') {
                        None => {},
                        Some((a, r)) => match split_first(&r, '\t') {
                            None => {},
                            Some((d, path)) => {
                                let added = count_field(&a);
                                let deleted = count_field(&d);
                                c.file_changes.push(FileChange { path: string_of(&path), added, deleted });
                                proof {
                                    assert(c@.file_changes =~= cv.file_changes.push(
                                        FileChangeView { path: path@, added, deleted },
                                    ));
                                }
                            },
                        },
                    }
                    current = Some(c);
                },
            }
        }
        proof {
            seen = seen.push(line@);
        }
        pos = next;
    }
    proof {
        assert(s@.skip(pos as int) =~= Seq::<char>::empty());
        assert(seen =~= split_lines(s@));
    }
    match current {
        Some(c) => {
            commits.push(c);
        },
        None => {},
    }
    commits
}

} // verus!
