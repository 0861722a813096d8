//! The `git log --numstat` text of a list of commits, and the law that
//! parsing that text gives the commits back.
use vstd::prelude::*;

use crate::log::{
    blank, commit_prefix, first_index_of, header_fields, is_header, is_whitespace, line_count, numstat_fields,
    parse_log, run_lines, split_lines, split_once, step, strip_cr, ParseState,
};
use crate::text::{all_digits, dec, is_digit, lemma_dec_digits, parse_u64_spec};
use crate::{CommitView, FileChangeView};

verus! {

/// `c` does not occur in `s`.
pub open spec fn lacks(s: Seq<char>, c: char) -> bool {
    forall|i: int| 0 <= i < s.len() ==> s[i] != c
}

/// A field that fits on one line: no line feed and no carriage return.
pub open spec fn one_line(s: Seq<char>) -> bool {
    lacks(s, '\n') && lacks(s, '\r')
}

/// The header line of a commit: `__COMMIT__|hash|author|date`.
pub open spec fn header_line(c: CommitView) -> Seq<char> {
    seq!['_', '_', 'C', 'O', 'M', 'M', 'I', 'T', '_', '_'] + seq!['|'] + (c.sha + seq!['|'] + (c.author + seq!['|']
        + c.date))
}

/// The numstat line of a file change: `added<TAB>deleted<TAB>path`.
pub open spec fn numstat_line(f: FileChangeView) -> Seq<char> {
    dec(f.added as nat) + seq!['\t'] + (dec(f.deleted as nat) + seq!['\t'] + f.path)
}

/// The lines of one commit: its header, then one numstat line per file.
pub open spec fn commit_lines(c: CommitView) -> Seq<Seq<char>> {
    seq![header_line(c)] + c.file_changes.map_values(|f: FileChangeView| numstat_line(f))
}

/// The lines of a list of commits, in order.
pub open spec fn log_lines(cs: Seq<CommitView>) -> Seq<Seq<char>>
    decreases cs.len(),
{
    if cs.len() == 0 {
        Seq::empty()
    } else {
        log_lines(cs.drop_last()) + commit_lines(cs.last())
    }
}

/// Lines joined into text, each ended by a line feed.
pub open spec fn lines_text(ls: Seq<Seq<char>>) -> Seq<char>
    decreases ls.len(),
{
    if ls.len() == 0 {
        Seq::empty()
    } else {
        ls[0] + seq!['\n'] + lines_text(ls.drop_first())
    }
}

/// The `git log --numstat` text of `cs`.
pub open spec fn log_text(cs: Seq<CommitView>) -> Seq<char> {
    lines_text(log_lines(cs))
}

/// Commits whose text reads back: hashes and authors without `|`, and no
/// field (hash, author, date, path) spanning lines.
pub open spec fn renderable(cs: Seq<CommitView>) -> bool {
    forall|i: int| 0 <= i < cs.len() ==> {
        &&& lacks(#[trigger] cs[i].sha, '|')
        &&& lacks(cs[i].author, '|')
        &&& one_line(cs[i].sha)
        &&& one_line(cs[i].author)
        &&& one_line(cs[i].date)
        &&& forall|j: int| 0 <= j < cs[i].file_changes.len() ==> one_line(#[trigger] cs[i].file_changes[j].path)
    }
}

/// The first `c` of `s` is at `n` when `s[n]` is `c` and none comes before.
proof fn lemma_first_at(s: Seq<char>, c: char, n: int)
    requires
        0 <= n < s.len(),
        s[n] == c,
        forall|k: int| 0 <= k < n ==> s[k] != c,
    ensures
        first_index_of(s, c) == Some(n),
    decreases n,
{
    if n > 0 {
        assert forall|k: int| 0 <= k < n - 1 implies s.drop_first()[k] != c by {
            assert(s.drop_first()[k] == s[k + 1]);
        }
        lemma_first_at(s.drop_first(), c, n - 1);
    }
}

/// Splitting `a c b` at its first `c` gives `a` and `b` when `a` lacks `c`.
proof fn lemma_split_once_at(a: Seq<char>, b: Seq<char>, c: char)
    requires
        lacks(a, c),
    ensures
        split_once(a + seq![c] + b, c) == Some((a, b)),
{
    let s = a + seq![c] + b;
    assert forall|k: int| 0 <= k < a.len() implies s[k] != c by {
        assert(s[k] == a[k]);
    }
    lemma_first_at(s, c, a.len() as int);
    assert(s.take(a.len() as int) =~= a);
    assert(s.skip(a.len() + 1int) =~= b);
}

/// Text of one-line lines splits back into those lines.
proof fn lemma_split_lines_text(ls: Seq<Seq<char>>)
    requires
        forall|i: int| 0 <= i < ls.len() ==> one_line(#[trigger] ls[i]),
    ensures
        split_lines(lines_text(ls)) == ls,
    decreases ls.len(),
{
    if ls.len() > 0 {
        let l = ls[0];
        let rest = ls.drop_first();
        assert forall|i: int| 0 <= i < rest.len() implies one_line(#[trigger] rest[i]) by {
            assert(rest[i] == ls[i + 1]);
        }
        lemma_split_lines_text(rest);
        let s = lines_text(ls);
        assert(s == l + seq!['\n'] + lines_text(rest));
        assert(one_line(ls[0]));
        assert forall|k: int| 0 <= k < l.len() implies s[k] != '\n' by {
            assert(s[k] == l[k]);
        }
        lemma_first_at(s, '\n', l.len() as int);
        assert(s.take(l.len() as int) =~= l);
        assert(s.skip(l.len() + 1int) =~= lines_text(rest));
        if l.len() > 0 {
            assert(l[l.len() - 1] != '\r');
        }
        assert(strip_cr(l) == l);
        assert(ls =~= seq![l] + rest);
    }
}

/// Reading `ls` from the state `st`, line after line.
pub open spec fn run_from(st: ParseState, ls: Seq<Seq<char>>) -> ParseState
    decreases ls.len(),
{
    if ls.len() == 0 {
        st
    } else {
        step(run_from(st, ls.drop_last()), ls.last())
    }
}

proof fn lemma_run_lines(ls: Seq<Seq<char>>)
    ensures
        run_lines(ls) == run_from((Seq::empty(), None), ls),
    decreases ls.len(),
{
    if ls.len() > 0 {
        lemma_run_lines(ls.drop_last());
    }
}

proof fn lemma_run_concat(st: ParseState, a: Seq<Seq<char>>, b: Seq<Seq<char>>)
    ensures
        run_from(st, a + b) == run_from(run_from(st, a), b),
    decreases b.len(),
{
    if b.len() == 0 {
        assert(a + b =~= a);
    } else {
        lemma_run_concat(st, a, b.drop_last());
        assert((a + b).drop_last() =~= a + b.drop_last());
        assert((a + b).last() == b.last());
    }
}

/// A numstat count written in decimal reads back.
proof fn lemma_count_reads_back(n: u64)
    ensures
        line_count(dec(n as nat)) == n,
        dec(n as nat).len() > 0,
        is_digit(dec(n as nat)[0]),
        lacks(dec(n as nat), '\t'),
{
    lemma_dec_digits(n as nat);
    let d = dec(n as nat);
    assert(is_digit(d[0]));
    assert(d != seq!['-']) by {
        if d == seq!['-'] {
            assert(d[0] == '-');
        }
    }
    assert(parse_u64_spec(d) == Some(n));
    assert forall|i: int| 0 <= i < d.len() implies d[i] != '\t' by {
        assert(is_digit(d[i]));
    }
}

/// A numstat line adds its file change to the open commit.
proof fn lemma_step_numstat(done: Seq<CommitView>, c: CommitView, f: FileChangeView)
    ensures
        step((done, Some(c)), numstat_line(f)) == (
            done,
            Some(CommitView { file_changes: c.file_changes.push(f), ..c }),
        ),
{
    let line = numstat_line(f);
    lemma_count_reads_back(f.added);
    lemma_count_reads_back(f.deleted);
    let a = dec(f.added as nat);
    assert(line[0] == a[0]);
    assert(!is_header(line)) by {
        if is_header(line) {
            assert(line.take(commit_prefix().len() as int)[0] == commit_prefix()[0]);
        }
    }
    assert(!blank(line)) by {
        assert(!is_whitespace(line[0]));
    }
    lemma_split_once_at(a, dec(f.deleted as nat) + seq!['\t'] + f.path, '\t');
    lemma_split_once_at(dec(f.deleted as nat), f.path, '\t');
    assert(numstat_fields(line) == Some((a, dec(f.deleted as nat), f.path)));
    assert(FileChangeView { path: f.path, added: line_count(a), deleted: line_count(dec(f.deleted as nat)) } == f);
}

/// A header line closes the open commit and opens `c`, with no file yet.
proof fn lemma_step_header(st: ParseState, c: CommitView)
    requires
        lacks(c.sha, '|'),
        lacks(c.author, '|'),
    ensures
        step(st, header_line(c)) == (
            match st.1 {
                Some(o) => st.0.push(o),
                None => st.0,
            },
            Some(CommitView { file_changes: Seq::empty(), ..c }),
        ),
{
    let line = header_line(c);
    let marker = seq!['_', '_', 'C', 'O', 'M', 'M', 'I', 'T', '_', '_'];
    assert(line.take(commit_prefix().len() as int) =~= commit_prefix());
    assert(is_header(line));
    assert(lacks(marker, '|'));
    lemma_split_once_at(marker, c.sha + seq!['|'] + (c.author + seq!['|'] + c.date), '|');
    lemma_split_once_at(c.sha, c.author + seq!['|'] + c.date, '|');
    lemma_split_once_at(c.author, c.date, '|');
    assert(header_fields(line) == Some((c.sha, c.author, c.date)));
}

/// Reading the first `k` numstat lines of `c` into the open commit.
proof fn lemma_run_numstat(done: Seq<CommitView>, c: CommitView, k: int)
    requires
        0 <= k <= c.file_changes.len(),
    ensures
        run_from(
            (done, Some(CommitView { file_changes: Seq::empty(), ..c })),
            c.file_changes.map_values(|f: FileChangeView| numstat_line(f)).take(k),
        ) == (done, Some(CommitView { file_changes: c.file_changes.take(k), ..c })),
    decreases k,
{
    let ls = c.file_changes.map_values(|f: FileChangeView| numstat_line(f));
    let c0 = CommitView { file_changes: Seq::empty(), ..c };
    if k == 0 {
        assert(ls.take(0) =~= Seq::<Seq<char>>::empty());
        assert(c.file_changes.take(0) =~= Seq::<FileChangeView>::empty());
    } else {
        lemma_run_numstat(done, c, k - 1);
        assert(ls.take(k).drop_last() =~= ls.take(k - 1));
        assert(ls.take(k).last() == numstat_line(c.file_changes[k - 1]));
        let ck = CommitView { file_changes: c.file_changes.take(k - 1), ..c };
        lemma_step_numstat(done, ck, c.file_changes[k - 1]);
        assert(c.file_changes.take(k - 1).push(c.file_changes[k - 1]) =~= c.file_changes.take(k));
    }
}

/// Reading the lines of `c` closes the open commit and leaves `c` open.
proof fn lemma_run_commit(st: ParseState, c: CommitView)
    requires
        lacks(c.sha, '|'),
        lacks(c.author, '|'),
    ensures
        run_from(st, commit_lines(c)) == (
            match st.1 {
                Some(o) => st.0.push(o),
                None => st.0,
            },
            Some(c),
        ),
{
    let ls = c.file_changes.map_values(|f: FileChangeView| numstat_line(f));
    let h = seq![header_line(c)];
    assert(commit_lines(c) == h + ls);
    lemma_run_concat(st, h, ls);
    assert(h.drop_last() =~= Seq::<Seq<char>>::empty());
    assert(run_from(st, h.drop_last()) == st);
    assert(h.last() == header_line(c));
    assert(run_from(st, h) == step(st, header_line(c)));
    lemma_step_header(st, c);
    let done = match st.1 {
        Some(o) => st.0.push(o),
        None => st.0,
    };
    lemma_run_numstat(done, c, c.file_changes.len() as int);
    assert(ls.take(c.file_changes.len() as int) =~= ls);
    assert(c.file_changes.take(c.file_changes.len() as int) =~= c.file_changes);
    assert(CommitView { file_changes: c.file_changes, ..c } == c);
}

/// Reading the lines of `cs` leaves all but the last closed and the last
/// open.
proof fn lemma_run_log(cs: Seq<CommitView>)
    requires
        renderable(cs),
    ensures
        run_from((Seq::empty(), None), log_lines(cs)) == (
            if cs.len() == 0 { (Seq::<CommitView>::empty(), None::<CommitView>) } else { (cs.drop_last(), Some(cs.last())) }
        ),
    decreases cs.len(),
{
    if cs.len() > 0 {
        let pre = cs.drop_last();
        assert(renderable(pre)) by {
            assert forall|i: int| 0 <= i < pre.len() implies #[trigger] pre[i] == cs[i] by {}
        }
        lemma_run_log(pre);
        lemma_run_concat((Seq::empty(), None), log_lines(pre), commit_lines(cs.last()));
        assert(lacks(cs[cs.len() - 1].sha, '|'));
        lemma_run_commit(run_from((Seq::empty(), None), log_lines(pre)), cs.last());
        if pre.len() > 0 {
            assert(pre.drop_last().push(pre.last()) =~= pre);
        }
    }
}

/// Every line of the text of renderable commits fits on one line.
proof fn lemma_log_lines_one_line(cs: Seq<CommitView>)
    requires
        renderable(cs),
    ensures
        forall|i: int| 0 <= i < log_lines(cs).len() ==> one_line(#[trigger] log_lines(cs)[i]),
    decreases cs.len(),
{
    if cs.len() > 0 {
        let pre = cs.drop_last();
        assert(renderable(pre)) by {
            assert forall|i: int| 0 <= i < pre.len() implies #[trigger] pre[i] == cs[i] by {}
        }
        lemma_log_lines_one_line(pre);
        let c = cs.last();
        assert(renderable(cs));
        assert(one_line(cs[cs.len() - 1].sha));
        let cl = commit_lines(c);
        assert forall|j: int| 0 <= j < cl.len() implies one_line(#[trigger] cl[j]) by {
            if j == 0 {
                let h = header_line(c);
                assert forall|k: int| 0 <= k < h.len() implies h[k] != '\n' && h[k] != '\r' by {
                    let marker = seq!['_', '_', 'C', 'O', 'M', 'M', 'I', 'T', '_', '_'];
                    let r2 = c.author + seq!['|'] + c.date;
                    let r1 = c.sha + seq!['|'] + r2;
                    if k >= 11 {
                        let k1 = k - 11;
                        assert(h[k] == r1[k1]);
                        if k1 > c.sha.len() {
                            let k2 = k1 - c.sha.len() - 1;
                            assert(r1[k1] == r2[k2]);
                            if k2 > c.author.len() {
                                assert(r2[k2] == c.date[k2 - c.author.len() - 1]);
                            }
                        }
                    }
                }
            } else {
                let f = c.file_changes[j - 1];
                assert(cl[j] == numstat_line(f));
                assert(one_line(f.path));
                lemma_dec_digits(f.added as nat);
                lemma_dec_digits(f.deleted as nat);
                let a = dec(f.added as nat);
                let d = dec(f.deleted as nat);
                let r = d + seq!['\t'] + f.path;
                let l = numstat_line(f);
                assert forall|k: int| 0 <= k < l.len() implies l[k] != '\n' && l[k] != '\r' by {
                    if k < a.len() {
                        assert(is_digit(a[k]));
                    } else if k > a.len() {
                        let k1 = k - a.len() - 1;
                        assert(l[k] == r[k1]);
                        if k1 < d.len() {
                            assert(is_digit(d[k1]));
                        } else if k1 > d.len() {
                            assert(r[k1] == f.path[k1 - d.len() - 1]);
                        }
                    }
                }
            }
        }
        let all = log_lines(cs);
        assert forall|i: int| 0 <= i < all.len() implies one_line(#[trigger] all[i]) by {
            if i < log_lines(pre).len() {
                assert(all[i] == log_lines(pre)[i]);
            } else {
                assert(all[i] == cl[i - log_lines(pre).len()]);
            }
        }
    }
}

/// Parsing the `git log --numstat` text of commits gives those commits back,
/// when hashes and authors hold no `|` and no field spans lines.
pub proof fn law_log_round_trip(cs: Seq<CommitView>)
    requires
        renderable(cs),
    ensures
        parse_log(log_text(cs)) == cs,
{
    lemma_log_lines_one_line(cs);
    lemma_split_lines_text(log_lines(cs));
    lemma_run_lines(log_lines(cs));
    lemma_run_log(cs);
    if cs.len() > 0 {
        assert(cs.drop_last().push(cs.last()) =~= cs);
    }
}

} // verus!
