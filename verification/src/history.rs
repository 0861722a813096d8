//! Turning what the history walk reads from git into commit records: the
//! per-file line counts of a patch, the short commit id, and the defaults
//! for missing fields.
use vstd::prelude::*;

use crate::models::metrics::ts_le;
use crate::models::{AnalysisOptions, CommitRecord, FileDelta, Timestamp};
use crate::utils::glob::{matches_any, path_match};
use crate::text::{chars_of, owned, push_str, slice_chars, string_of};
use crate::utils::date::{representable_utc, utc_representable};

verus! {

/// The walk's state over a patch: the files finished so far, the file being
/// counted, and its added and deleted lines.
pub struct PatchState {
    pub done: Seq<(Seq<char>, u64, u64)>,
    pub current: Seq<char>,
    pub additions: u64,
    pub deletions: u64,
}

/// The state after one patch line of file `path` with origin `origin`: a
/// new path closes the current file (unless it has no name) and starts
/// counting the new one; `+` and `-` lines count as added and deleted.
pub open spec fn patch_step(s: PatchState, path: Seq<char>, origin: char) -> PatchState {
    let t = if path != s.current {
        PatchState {
            done: if s.current.len() > 0 { s.done.push((s.current, s.additions, s.deletions)) } else { s.done },
            current: path,
            additions: 0,
            deletions: 0,
        }
    } else {
        s
    };
    if origin == '+' {
        PatchState { additions: (t.additions + 1) as u64, ..t }
    } else if origin == '-' {
        PatchState { deletions: (t.deletions + 1) as u64, ..t }
    } else {
        t
    }
}

/// The state after the patch lines `lines`.
pub open spec fn patch_walk(lines: Seq<(Seq<char>, char)>) -> PatchState
    decreases lines.len(),
{
    if lines.len() == 0 {
        PatchState { done: Seq::empty(), current: Seq::empty(), additions: 0, deletions: 0 }
    } else {
        patch_step(patch_walk(lines.drop_last()), lines.last().0, lines.last().1)
    }
}

/// The files of a patch with their added and deleted lines, in order: the
/// finished files, then the last one (unless it has no name).
pub open spec fn patch_files(lines: Seq<(Seq<char>, char)>) -> Seq<(Seq<char>, u64, u64)> {
    let s = patch_walk(lines);
    if s.current.len() > 0 {
        s.done.push((s.current, s.additions, s.deletions))
    } else {
        s.done
    }
}

/// The counts of the walk never exceed the number of lines.
proof fn lemma_patch_counts(lines: Seq<(Seq<char>, char)>)
    ensures
        patch_walk(lines).additions <= lines.len(),
        patch_walk(lines).deletions <= lines.len(),
    decreases lines.len(),
{
    if lines.len() > 0 {
        lemma_patch_counts(lines.drop_last());
    }
}

/// A file delta as plain values.
pub open spec fn delta_view(d: FileDelta) -> (Seq<char>, u64, u64) {
    (d.path@, d.additions, d.deletions)
}

/// Groups the lines of a patch (each with its file's path and its origin
/// character) into per-file added and deleted line counts, one per run of
/// lines of the same file.
pub fn group_patch_lines(lines: &Vec<(String, char)>) -> (files: Vec<FileDelta>)
    ensures
        files@.map_values(|d: FileDelta| delta_view(d)) == patch_files(lines@.map_values(|l: (String, char)| (l.0@, l.1))),
{
    let ghost ls = lines@.map_values(|l: (String, char)| (l.0@, l.1));
    let mut files: Vec<FileDelta> = Vec::new();
    let mut current = String::new();
    let mut additions: u64 = 0;
    let mut deletions: u64 = 0;
    let mut i: usize = 0;
    assert(ls.take(0) =~= Seq::<(Seq<char>, char)>::empty());
    while i < lines.len()
        invariant
            i <= lines@.len(),
            ls == lines@.map_values(|l: (String, char)| (l.0@, l.1)),
            files@.map_values(|d: FileDelta| delta_view(d)) == patch_walk(ls.take(i as int)).done,
            current@ == patch_walk(ls.take(i as int)).current,
            additions == patch_walk(ls.take(i as int)).additions,
            deletions == patch_walk(ls.take(i as int)).deletions,
        decreases lines@.len() - i,
    {
        let path = lines[i].0.as_str();
        let origin = lines[i].1;
        proof {
            assert(ls.take(i + 1).drop_last() =~= ls.take(i as int));
            assert(ls.take(i + 1).last() == (path@, origin));
            lemma_patch_counts(ls.take(i as int));
        }
        if crate::order::compare_str(path, current.as_str()) != 0 {
            if !chars_of(current.as_str()).is_empty() {
                let ghost before = files@;
                files.push(FileDelta { path: current, additions, deletions });
                assert(files@.map_values(|d: FileDelta| delta_view(d)) =~= before.map_values(|d: FileDelta| delta_view(d)).push(delta_view(files@.last())));
            }
            current = owned(path);
            additions = 0;
            deletions = 0;
        }
        if origin == '+' {
            additions = additions + 1;
        } else if origin == '-' {
            deletions = deletions + 1;
        }
        i = i + 1;
    }
    assert(ls.take(ls.len() as int) =~= ls);
    if !chars_of(current.as_str()).is_empty() {
        let ghost before = files@;
        files.push(FileDelta { path: current, additions, deletions });
        assert(files@.map_values(|d: FileDelta| delta_view(d)) =~= before.map_values(|d: FileDelta| delta_view(d)).push(delta_view(files@.last())));
    }
    files
}

/// The first 12 characters of a commit id (all of it when shorter).
pub fn short_id(full: &str) -> (id: String)
    ensures
        id@ == if full@.len() <= 12 { full@ } else { full@.take(12) },
{
    let v = chars_of(full);
    let n = if v.len() <= 12 { v.len() } else { 12 };
    let head = slice_chars(&v, 0, n);
    assert(head@ =~= if full@.len() <= 12 { full@ } else { full@.take(12) });
    string_of(&head)
}

/// The text of an optional field, or `fallback` when it is missing.
pub open spec fn or_default(o: Option<Seq<char>>, fallback: Seq<char>) -> Seq<char> {
    match o {
        Some(s) => s,
        None => fallback,
    }
}

/// Whether the walk reads one more commit: it reads at most `limit`, so it
/// goes on while it has read fewer.
pub fn walk_continues(read: usize, limit: usize) -> (more: bool)
    ensures
        more == (read < limit),
{
    read < limit
}

/// A commit as the walk records it: a missing summary reads `<no message>`,
/// a missing author name or email `unknown`, and a commit time chrono
/// cannot represent counts as the Unix epoch, so that chrono can represent
/// every recorded time.
pub fn commit_record(
    id: String,
    summary: Option<String>,
    author_name: Option<String>,
    author_email: Option<String>,
    seconds: i64,
    files: Vec<FileDelta>,
) -> (c: CommitRecord)
    ensures
        c.id@ == id@,
        c.summary@ == or_default(crate::opt_chars(summary), "<no message>"@),
        c.author_name@ == or_default(crate::opt_chars(author_name), "unknown"@),
        c.author_email@ == or_default(crate::opt_chars(author_email), "unknown"@),
        c.committed_at == if utc_representable(seconds, 0) {
            Timestamp { seconds, nanos: 0 }
        } else {
            Timestamp { seconds: 0, nanos: 0 }
        },
        utc_representable(c.committed_at.seconds, c.committed_at.nanos),
        c.files@ == files@,
{
    let summary = match summary {
        Some(s) => s,
        None => owned("<no message>"),
    };
    let author_name = match author_name {
        Some(s) => s,
        None => owned("unknown"),
    };
    let author_email = match author_email {
        Some(s) => s,
        None => owned("unknown"),
    };
    let committed_at = if representable_utc(seconds, 0) {
        Timestamp { seconds, nanos: 0 }
    } else {
        let epoch = Timestamp::unix_epoch();
        // Asking chrono about the epoch brings in that it can represent it.
        let epoch_ok = representable_utc(epoch.seconds, epoch.nanos);
        assert(epoch_ok);
        epoch
    };
    CommitRecord { id, summary, author_name, author_email, committed_at, files }
}

/// Some pattern of `patterns` matches `path`.
pub open spec fn any_match(patterns: Seq<String>, path: Seq<char>) -> bool {
    exists|i: int| 0 <= i < patterns.len() && path_match(#[trigger] patterns[i]@, path)
}

/// The options ask for path `path`: it matches an include pattern (or
/// there is none) and no exclude pattern.
pub open spec fn wanted(path: Seq<char>, o: AnalysisOptions) -> bool {
    (o.include_patterns@.len() == 0 || any_match(o.include_patterns@, path)) && !any_match(o.exclude_patterns@, path)
}

/// The time lies in the options' window, both bounds included.
pub open spec fn in_window(t: Timestamp, o: AnalysisOptions) -> bool {
    &&& match o.since {
        Some(s) => ts_le(s, t),
        None => true,
    }
    &&& match o.until {
        Some(u) => ts_le(t, u),
        None => true,
    }
}

/// The changes of `ds` whose paths the options ask for, in order.
pub open spec fn wanted_changes(ds: Seq<FileDelta>, o: AnalysisOptions) -> Seq<(Seq<char>, u64, u64)>
    decreases ds.len(),
{
    if ds.len() == 0 {
        Seq::empty()
    } else if wanted(ds.last().path@, o) {
        wanted_changes(ds.drop_last(), o).push(delta_view(ds.last()))
    } else {
        wanted_changes(ds.drop_last(), o)
    }
}

/// A commit is kept when it lies in the window, unless the path filters
/// removed every one of its changes.
pub open spec fn keeps(c: CommitRecord, o: AnalysisOptions) -> bool {
    in_window(c.committed_at, o) && (c.files@.len() == 0 || wanted_changes(c.files@, o).len() > 0)
}

/// The positions of the kept commits, in order.
pub open spec fn kept(cs: Seq<CommitRecord>, o: AnalysisOptions) -> Seq<int>
    decreases cs.len(),
{
    if cs.len() == 0 {
        Seq::empty()
    } else if keeps(cs.last(), o) {
        kept(cs.drop_last(), o).push(cs.len() - 1)
    } else {
        kept(cs.drop_last(), o)
    }
}

/// `out` is commit `c` with only the changes the options ask for.
pub open spec fn narrowed(c: CommitRecord, out: CommitRecord, o: AnalysisOptions) -> bool {
    &&& out.id@ == c.id@
    &&& out.summary@ == c.summary@
    &&& out.author_name@ == c.author_name@
    &&& out.author_email@ == c.author_email@
    &&& out.committed_at == c.committed_at
    &&& out.files@.map_values(|d: FileDelta| delta_view(d)) == wanted_changes(c.files@, o)
}

/// The changes of a commit whose paths the options ask for.
fn wanted_files(files: &Vec<FileDelta>, options: &AnalysisOptions) -> (out: Vec<FileDelta>)
    ensures
        out@.map_values(|d: FileDelta| delta_view(d)) == wanted_changes(files@, *options),
{
    let mut out: Vec<FileDelta> = Vec::new();
    let mut i: usize = 0;
    while i < files.len()
        invariant
            i <= files@.len(),
            out@.map_values(|d: FileDelta| delta_view(d)) == wanted_changes(files@.take(i as int), *options),
        decreases files@.len() - i,
    {
        let d = &files[i];
        proof {
            assert(files@.take(i + 1).drop_last() =~= files@.take(i as int));
            assert(files@.take(i + 1).last() == files@[i as int]);
        }
        let path = d.path.as_str();
        let included = options.include_patterns.len() == 0 || matches_any(options.include_patterns.as_slice(), path);
        let excluded = matches_any(options.exclude_patterns.as_slice(), path);
        if included && !excluded {
            let ghost before = out@;
            out.push(FileDelta { path: owned(path), additions: d.additions, deletions: d.deletions });
            assert(out@.map_values(|x: FileDelta| delta_view(x)) =~= before.map_values(|x: FileDelta| delta_view(x)).push(delta_view(files@[i as int])));
        }
        i = i + 1;
    }
    assert(files@.take(files@.len() as int) =~= files@);
    out
}

/// The history the options ask for: commits in the date window (bounds
/// included), each with only the changes to paths that match an include
/// pattern (when there is one) and no exclude pattern; a commit left with
/// no change by the path filters is left out.
pub fn filter_history(commits: &[CommitRecord], options: &AnalysisOptions) -> (out: Vec<CommitRecord>)
    ensures
        out@.len() == kept(commits@, *options).len(),
        forall|k: int| 0 <= k < out@.len() ==> narrowed(commits@[kept(commits@, *options)[k]], #[trigger] out@[k], *options),
{
    let ghost cs = commits@;
    let mut out: Vec<CommitRecord> = Vec::new();
    let mut i: usize = 0;
    while i < commits.len()
        invariant
            i <= cs.len(),
            cs == commits@,
            out@.len() == kept(cs.take(i as int), *options).len(),
            forall|k: int| 0 <= k < out@.len() ==> 0 <= #[trigger] kept(cs.take(i as int), *options)[k] < i,
            forall|k: int| 0 <= k < out@.len() ==> narrowed(cs[kept(cs.take(i as int), *options)[k]], #[trigger] out@[k], *options),
        decreases cs.len() - i,
    {
        let c = &commits[i];
        let ghost pre = cs.take(i as int);
        proof {
            assert(cs.take(i + 1).drop_last() =~= pre);
            assert(cs.take(i + 1).last() == cs[i as int]);
        }
        let t = c.committed_at;
        let after_since = match options.since {
            Some(s) => s.seconds < t.seconds || (s.seconds == t.seconds && s.nanos <= t.nanos),
            None => true,
        };
        let before_until = match options.until {
            Some(u) => t.seconds < u.seconds || (t.seconds == u.seconds && t.nanos <= u.nanos),
            None => true,
        };
        let files = wanted_files(&c.files, options);
        if after_since && before_until && (c.files.len() == 0 || files.len() > 0) {
            proof {
                assert(files@.map_values(|d: FileDelta| delta_view(d)).len() == files@.len());
            }
            out.push(CommitRecord {
                id: owned(c.id.as_str()),
                summary: owned(c.summary.as_str()),
                author_name: owned(c.author_name.as_str()),
                author_email: owned(c.author_email.as_str()),
                committed_at: t,
                files,
            });
        } else {
            proof {
                assert(files@.map_values(|d: FileDelta| delta_view(d)).len() == files@.len());
            }
        }
        i = i + 1;
    }
    assert(cs.take(cs.len() as int) =~= cs);
    out
}

} // verus!
