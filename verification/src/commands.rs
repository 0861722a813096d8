//! What the analysis commands print, as table rows and lines.
use vstd::prelude::*;

use crate::exporters::markdown::first;
use crate::models::{CommitRecord, CommitSummary, ContributorStats, Coupling, FileChurn, LanguageStat, RepoSnapshot, RepoStats};
use crate::models::metrics::files_churn;
use crate::report::views;
use crate::text::{chars_of, dec, owned, push_char, push_str, push_u64, slice_chars, string_of, u64_to_string};
use crate::utils::date::{day_format, format_utc, utc_format};

verus! {

/// `s` cut to `max` characters, the last one replaced by `…` when it is cut.
pub open spec fn truncated(s: Seq<char>, max: int) -> Seq<char> {
    if s.len() <= max {
        s
    } else {
        s.take(if max >= 1 { max - 1 } else { 0 }) + seq!['…']
    }
}

/// Shortens a string to at most `max` characters, ending it with `…` when
/// it had to be cut.
pub fn truncate(s: &str, max: usize) -> (r: String)
    ensures
        r@ == truncated(s@, max as int),
{
    let chars = chars_of(s);
    if chars.len() <= max {
        owned(s)
    } else {
        let keep = if max >= 1 { max - 1 } else { 0 };
        let mut r = string_of(&slice_chars(&chars, 0, keep));
        push_char(&mut r, '…');
        assert(r@ =~= truncated(s@, max as int));
        r
    }
}

/// The table rows of the contributors command: name, commits, lines added
/// and deleted, churn and files touched.
pub open spec fn contributor_table_row(c: ContributorStats) -> Seq<Seq<char>> {
    seq![c.name@, dec(c.commit_count as nat), dec(c.lines_added as nat), dec(c.lines_deleted as nat), dec((c.lines_added + c.lines_deleted) as nat), dec(c.files_touched as nat)]
}

/// The rows as plain values.
pub open spec fn row_views(rows: Seq<Vec<String>>) -> Seq<Seq<Seq<char>>> {
    rows.map_values(|r: Vec<String>| views(r@))
}

/// The rows of the contributors table: the first 20 contributors.
pub fn contributor_table(contributors: &Vec<ContributorStats>) -> (rows: Vec<Vec<String>>)
    requires
        forall|i: int| 0 <= i < contributors@.len() ==> #[trigger] contributors@[i].lines_added + contributors@[i].lines_deleted <= u64::MAX,
    ensures
        row_views(rows@) == first(contributors@, 20).map_values(|c: ContributorStats| contributor_table_row(c)),
{
    let n: usize = if contributors.len() <= 20 { contributors.len() } else { 20 };
    let ghost sel = first(contributors@, 20);
    let ghost f = |c: ContributorStats| contributor_table_row(c);
    assert(sel.len() == n);
    let mut rows: Vec<Vec<String>> = Vec::new();
    let mut k: usize = 0;
    while k < n
        invariant
            k <= n,
            n == sel.len(),
            n <= contributors@.len(),
            sel == first(contributors@, 20),
            forall|i: int| 0 <= i < n ==> #[trigger] sel[i] == contributors@[i],
            forall|i: int| 0 <= i < contributors@.len() ==> #[trigger] contributors@[i].lines_added + contributors@[i].lines_deleted <= u64::MAX,
            f == (|c: ContributorStats| contributor_table_row(c)),
            row_views(rows@) =~= sel.take(k as int).map_values(f),
        decreases n - k,
    {
        let c = &contributors[k];
        let mut r: Vec<String> = Vec::new();
        r.push(owned(c.name.as_str()));
        r.push(u64_to_string(c.commit_count));
        r.push(u64_to_string(c.lines_added));
        r.push(u64_to_string(c.lines_deleted));
        r.push(u64_to_string(c.total_churn()));
        r.push(u64_to_string(c.files_touched));
        assert(views(r@) =~= f(sel[k as int]));
        let ghost before = rows@;
        rows.push(r);
        assert(row_views(rows@) =~= row_views(before).push(f(sel[k as int])));
        assert(sel.take(k + 1).map_values(f) =~= sel.take(k as int).map_values(f).push(f(sel[k as int])));
        k = k + 1;
    }
    assert(sel.take(n as int) =~= sel);
    rows
}

/// A row of the churn table: path, commits, additions, deletions, churn.
pub open spec fn churn_table_row(f: FileChurn) -> Seq<Seq<char>> {
    seq![f.path@, dec(f.commit_count as nat), dec(f.additions as nat), dec(f.deletions as nat), dec((f.additions + f.deletions) as nat)]
}

/// The rows of the churn table: the first 25 files.
pub fn churn_table(files: &Vec<FileChurn>) -> (rows: Vec<Vec<String>>)
    requires
        forall|i: int| 0 <= i < files@.len() ==> #[trigger] files@[i].additions + files@[i].deletions <= u64::MAX,
    ensures
        row_views(rows@) == first(files@, 25).map_values(|x: FileChurn| churn_table_row(x)),
{
    let n: usize = if files.len() <= 25 { files.len() } else { 25 };
    let ghost sel = first(files@, 25);
    let ghost f = |x: FileChurn| churn_table_row(x);
    assert(sel.len() == n);
    let mut rows: Vec<Vec<String>> = Vec::new();
    let mut k: usize = 0;
    while k < n
        invariant
            k <= n,
            n == sel.len(),
            n <= files@.len(),
            sel == first(files@, 25),
            forall|i: int| 0 <= i < n ==> #[trigger] sel[i] == files@[i],
            forall|i: int| 0 <= i < files@.len() ==> #[trigger] files@[i].additions + files@[i].deletions <= u64::MAX,
            f == (|x: FileChurn| churn_table_row(x)),
            row_views(rows@) =~= sel.take(k as int).map_values(f),
        decreases n - k,
    {
        let x = &files[k];
        let mut r: Vec<String> = Vec::new();
        r.push(owned(x.path.as_str()));
        r.push(u64_to_string(x.commit_count));
        r.push(u64_to_string(x.additions));
        r.push(u64_to_string(x.deletions));
        r.push(u64_to_string(x.total_churn()));
        assert(views(r@) =~= f(sel[k as int]));
        let ghost before = rows@;
        rows.push(r);
        assert(row_views(rows@) =~= row_views(before).push(f(sel[k as int])));
        assert(sel.take(k + 1).map_values(f) =~= sel.take(k as int).map_values(f).push(f(sel[k as int])));
        k = k + 1;
    }
    assert(sel.take(n as int) =~= sel);
    rows
}

/// A row of the coupling table: the two paths and their co-changes.
pub open spec fn coupling_table_row(c: Coupling) -> Seq<Seq<char>> {
    seq![c.file_a@, c.file_b@, dec(c.co_changes as nat)]
}

/// The rows of the coupling table: the first 40 pairs.
pub fn coupling_table(pairs: &Vec<Coupling>) -> (rows: Vec<Vec<String>>)
    ensures
        row_views(rows@) == first(pairs@, 40).map_values(|c: Coupling| coupling_table_row(c)),
{
    let n: usize = if pairs.len() <= 40 { pairs.len() } else { 40 };
    let ghost sel = first(pairs@, 40);
    let ghost f = |c: Coupling| coupling_table_row(c);
    assert(sel.len() == n);
    let mut rows: Vec<Vec<String>> = Vec::new();
    let mut k: usize = 0;
    while k < n
        invariant
            k <= n,
            n == sel.len(),
            n <= pairs@.len(),
            sel == first(pairs@, 40),
            forall|i: int| 0 <= i < n ==> #[trigger] sel[i] == pairs@[i],
            f == (|c: Coupling| coupling_table_row(c)),
            row_views(rows@) =~= sel.take(k as int).map_values(f),
        decreases n - k,
    {
        let c = &pairs[k];
        let mut r: Vec<String> = Vec::new();
        r.push(owned(c.file_a.as_str()));
        r.push(owned(c.file_b.as_str()));
        r.push(u64_to_string(c.co_changes));
        assert(views(r@) =~= f(sel[k as int]));
        let ghost before = rows@;
        rows.push(r);
        assert(row_views(rows@) =~= row_views(before).push(f(sel[k as int])));
        assert(sel.take(k + 1).map_values(f) =~= sel.take(k as int).map_values(f).push(f(sel[k as int])));
        k = k + 1;
    }
    assert(sel.take(n as int) =~= sel);
    rows
}

/// The calendar day of a commit as chrono writes it, empty when chrono
/// cannot represent the commit time.
pub open spec fn commit_day(c: CommitRecord) -> Seq<char> {
    match utc_format(c.committed_at.seconds, c.committed_at.nanos, day_format()) {
        Some(d) => d,
        None => Seq::empty(),
    }
}

/// A row of the log table: id, day, author, churn, number of files and the
/// summary cut to 60 characters.
pub open spec fn log_table_row(c: CommitRecord) -> Seq<Seq<char>> {
    seq![c.id@, commit_day(c), c.author_name@, dec(files_churn(c.files@) as nat), dec(c.files@.len()), truncated(c.summary@, 60)]
}

/// The rows of the log table: the first 30 commits.
pub fn log_table(commits: &Vec<CommitRecord>) -> (rows: Vec<Vec<String>>)
    requires
        forall|i: int| 0 <= i < commits@.len() ==> files_churn(#[trigger] commits@[i].files@) <= u64::MAX,
    ensures
        row_views(rows@) == first(commits@, 30).map_values(|c: CommitRecord| log_table_row(c)),
{
    let n: usize = if commits.len() <= 30 { commits.len() } else { 30 };
    let ghost sel = first(commits@, 30);
    let ghost f = |c: CommitRecord| log_table_row(c);
    assert(sel.len() == n);
    let mut rows: Vec<Vec<String>> = Vec::new();
    let mut k: usize = 0;
    while k < n
        invariant
            k <= n,
            n == sel.len(),
            n <= commits@.len(),
            sel == first(commits@, 30),
            forall|i: int| 0 <= i < n ==> #[trigger] sel[i] == commits@[i],
            forall|i: int| 0 <= i < commits@.len() ==> files_churn(#[trigger] commits@[i].files@) <= u64::MAX,
            f == (|c: CommitRecord| log_table_row(c)),
            row_views(rows@) =~= sel.take(k as int).map_values(f),
        decreases n - k,
    {
        let c = &commits[k];
        let fmt = "%Y-%m-%d";
        proof { reveal_strlit("%Y-%m-%d"); }
        assert(fmt@ =~= day_format());
        let day = match format_utc(c.committed_at.seconds, c.committed_at.nanos, fmt) {
            Some(d) => d,
            None => String::new(),
        };
        let mut r: Vec<String> = Vec::new();
        r.push(owned(c.id.as_str()));
        r.push(day);
        r.push(owned(c.author_name.as_str()));
        r.push(u64_to_string(c.total_churn()));
        r.push(u64_to_string(c.files.len() as u64));
        r.push(truncate(c.summary.as_str(), 60));
        assert(views(r@) =~= f(sel[k as int]));
        let ghost before = rows@;
        rows.push(r);
        assert(row_views(rows@) =~= row_views(before).push(f(sel[k as int])));
        assert(sel.take(k + 1).map_values(f) =~= sel.take(k as int).map_values(f).push(f(sel[k as int])));
        k = k + 1;
    }
    assert(sel.take(n as int) =~= sel);
    rows
}

/// The scan command's one-line summary.
pub open spec fn scan_line(s: RepoSnapshot) -> Seq<char> {
    "Scanned "@ + dec(s.stats.commit_count as nat) + " commits | +"@ + dec(s.stats.lines_added as nat) + " -"@ + dec(
        s.stats.lines_deleted as nat,
    ) + " | contributors: "@ + dec(s.contributors@.len()) + " | files: "@ + dec(s.file_churn@.len())
}

/// The scan command's summary: commits, lines added and deleted, and the
/// numbers of contributors and files.
pub fn scan_summary(snapshot: &RepoSnapshot) -> (line: String)
    ensures
        line@ == scan_line(*snapshot),
{
    let mut line = String::new();
    push_str(&mut line, "Scanned ");
    push_u64(&mut line, snapshot.stats.commit_count);
    push_str(&mut line, " commits | +");
    push_u64(&mut line, snapshot.stats.lines_added);
    push_str(&mut line, " -");
    push_u64(&mut line, snapshot.stats.lines_deleted);
    push_str(&mut line, " | contributors: ");
    push_u64(&mut line, snapshot.contributors.len() as u64);
    push_str(&mut line, " | files: ");
    push_u64(&mut line, snapshot.file_churn.len() as u64);
    assert(line@ =~= scan_line(*snapshot));
    line
}

/// The rows of the stats command's main table: commits, lines added and
/// deleted, repository age, bus factor, and the churn of the largest commit
/// (0 with none).
pub open spec fn stats_rows(st: RepoStats) -> Seq<Seq<Seq<char>>> {
    seq![
        seq!["Commits"@, dec(st.commit_count as nat)],
        seq!["Lines added"@, dec(st.lines_added as nat)],
        seq!["Lines deleted"@, dec(st.lines_deleted as nat)],
        seq!["Repository age (days)"@, dec(st.repository_age_days as nat)],
        seq!["Bus factor"@, dec(st.bus_factor.bus_factor as nat)],
        seq!["Largest commit (churn)"@, if st.largest_commits@.len() > 0 { dec(st.largest_commits@[0].churn as nat) } else { "0"@ }],
    ]
}

/// A row of two cells.
fn pair_row(a: &str, b: String) -> (r: Vec<String>)
    ensures
        views(r@) == seq![a@, b@],
{
    let mut r: Vec<String> = Vec::new();
    r.push(owned(a));
    r.push(b);
    assert(views(r@) =~= seq![a@, b@]);
    r
}

/// The rows of the stats table.
pub fn stats_table(stats: &RepoStats) -> (rows: Vec<Vec<String>>)
    ensures
        row_views(rows@) == stats_rows(*stats),
{
    let mut rows: Vec<Vec<String>> = Vec::new();
    rows.push(pair_row("Commits", u64_to_string(stats.commit_count)));
    rows.push(pair_row("Lines added", u64_to_string(stats.lines_added)));
    rows.push(pair_row("Lines deleted", u64_to_string(stats.lines_deleted)));
    rows.push(pair_row("Repository age (days)", u64_to_string(stats.repository_age_days)));
    rows.push(pair_row("Bus factor", u64_to_string(stats.bus_factor.bus_factor)));
    let largest = if stats.largest_commits.len() > 0 {
        u64_to_string(stats.largest_commits[0].churn)
    } else {
        owned("0")
    };
    rows.push(pair_row("Largest commit (churn)", largest));
    assert(row_views(rows@) =~= stats_rows(*stats));
    rows
}

/// A row of the language table: language and churn.
pub open spec fn language_table_row(l: LanguageStat) -> Seq<Seq<char>> {
    seq![l.language@, dec(l.churn as nat)]
}

/// The rows of the stats command's language table.
pub fn language_table(langs: &Vec<LanguageStat>) -> (rows: Vec<Vec<String>>)
    ensures
        row_views(rows@) == langs@.map_values(|l: LanguageStat| language_table_row(l)),
{
    let ghost f = |l: LanguageStat| language_table_row(l);
    let mut rows: Vec<Vec<String>> = Vec::new();
    let mut k: usize = 0;
    while k < langs.len()
        invariant
            k <= langs@.len(),
            f == (|l: LanguageStat| language_table_row(l)),
            row_views(rows@) =~= langs@.take(k as int).map_values(f),
        decreases langs@.len() - k,
    {
        let l = &langs[k];
        let r = pair_row(l.language.as_str(), u64_to_string(l.churn));
        let ghost before = rows@;
        rows.push(r);
        assert(row_views(rows@) =~= row_views(before).push(f(langs@[k as int])));
        assert(langs@.take(k + 1).map_values(f) =~= langs@.take(k as int).map_values(f).push(f(langs@[k as int])));
        k = k + 1;
    }
    assert(langs@.take(langs@.len() as int) =~= langs@);
    rows
}

/// A row of the largest-commits table: id, author, churn, summary.
pub open spec fn largest_table_row(c: CommitSummary) -> Seq<Seq<char>> {
    seq![c.id@, c.author@, dec(c.churn as nat), c.summary@]
}

/// The rows of the stats command's largest-commits table.
pub fn largest_table(commits: &Vec<CommitSummary>) -> (rows: Vec<Vec<String>>)
    ensures
        row_views(rows@) == commits@.map_values(|c: CommitSummary| largest_table_row(c)),
{
    let ghost f = |c: CommitSummary| largest_table_row(c);
    let mut rows: Vec<Vec<String>> = Vec::new();
    let mut k: usize = 0;
    while k < commits.len()
        invariant
            k <= commits@.len(),
            f == (|c: CommitSummary| largest_table_row(c)),
            row_views(rows@) =~= commits@.take(k as int).map_values(f),
        decreases commits@.len() - k,
    {
        let c = &commits[k];
        let mut r: Vec<String> = Vec::new();
        r.push(owned(c.id.as_str()));
        r.push(owned(c.author.as_str()));
        r.push(u64_to_string(c.churn));
        r.push(owned(c.summary.as_str()));
        assert(views(r@) =~= f(commits@[k as int]));
        let ghost before = rows@;
        rows.push(r);
        assert(row_views(rows@) =~= row_views(before).push(f(commits@[k as int])));
        assert(commits@.take(k + 1).map_values(f) =~= commits@.take(k as int).map_values(f).push(f(commits@[k as int])));
        k = k + 1;
    }
    assert(commits@.take(commits@.len() as int) =~= commits@);
    rows
}

/// The column titles of the contributors table.
pub open spec fn contributor_table_titles() -> Seq<Seq<char>> {
    seq!["Contributor"@, "Commits"@, "+"@, "-"@, "Churn"@, "Files"@]
}

/// The value a contributor shows under the contributors-table column
/// `title`.
pub open spec fn contributor_column(c: ContributorStats, title: Seq<char>) -> Seq<char> {
    if title == "Contributor"@ {
        c.name@
    } else if title == "Commits"@ {
        dec(c.commit_count as nat)
    } else if title == "+"@ {
        dec(c.lines_added as nat)
    } else if title == "-"@ {
        dec(c.lines_deleted as nat)
    } else if title == "Churn"@ {
        dec((c.lines_added + c.lines_deleted) as nat)
    } else if title == "Files"@ {
        dec(c.files_touched as nat)
    } else {
        Seq::empty()
    }
}

/// The rows of the contributors table: the first 20 contributors.
pub open spec fn contributor_table_rows(cs: Seq<ContributorStats>) -> Seq<Seq<Seq<char>>> {
    first(cs, 20).map_values(|c: ContributorStats| contributor_table_row(c))
}

/// Each row of the contributors table (see `contributor_table`) holds, in
/// the column of each title, the value that title names for its
/// contributor: under `Commits` the commit count, under `Files` the files
/// touched, under `Churn` the lines added plus deleted, and so on.
pub proof fn law_contributor_table_columns(cs: Seq<ContributorStats>)
    ensures
        contributor_table_rows(cs) == first(cs, 20).map_values(|c: ContributorStats| contributor_table_row(c)),
        forall|k: int, j: int|
            0 <= k < contributor_table_rows(cs).len() && 0 <= j < 6 ==> #[trigger] contributor_table_rows(cs)[k][j]
                == contributor_column(cs[k], contributor_table_titles()[j]) && contributor_table_rows(cs)[k].len() == 6,
{
    reveal_strlit("Contributor");
    reveal_strlit("Commits");
    reveal_strlit("+");
    reveal_strlit("-");
    reveal_strlit("Churn");
    reveal_strlit("Files");
    let rows = contributor_table_rows(cs);
    let t = contributor_table_titles();
    assert forall|k: int, j: int| 0 <= k < rows.len() && 0 <= j < 6 implies #[trigger] rows[k][j]
        == contributor_column(cs[k], t[j]) && rows[k].len() == 6 by {
        assert(first(cs, 20)[k] == cs[k]);
        assert(rows[k] == contributor_table_row(cs[k]));
        assert(t[0].len() == 11 && t[1].len() == 7 && t[2].len() == 1 && t[3].len() == 1 && t[4].len() == 5 && t[5].len() == 5);
        assert(t[2][0] != t[3][0]);
        assert(t[4][0] != t[5][0]);
    }
}

/// The rows of the churn table: the first 25 files.
pub open spec fn churn_table_rows(xs: Seq<FileChurn>) -> Seq<Seq<Seq<char>>> {
    first(xs, 25).map_values(|x: FileChurn| churn_table_row(x))
}

/// Each row of the churn table (see `churn_table`) holds, under `File`,
/// `Commits`, `+`, `-` and `Churn`: the path, the commit count, the
/// additions, the deletions and their sum.
pub proof fn law_churn_table_columns(xs: Seq<FileChurn>)
    ensures
        churn_table_rows(xs) == first(xs, 25).map_values(|x: FileChurn| churn_table_row(x)),
        churn_table_rows(xs).len() == first(xs, 25).len(),
        forall|k: int| 0 <= k < churn_table_rows(xs).len() ==> #[trigger] churn_table_rows(xs)[k].len() == 5 && churn_table_rows(xs)[k][0] == xs[k].path@ && churn_table_rows(xs)[k][1] == dec(xs[k].commit_count as nat) && churn_table_rows(xs)[k][2] == dec(xs[k].additions as nat) && churn_table_rows(xs)[k][3] == dec(xs[k].deletions as nat) && churn_table_rows(xs)[k][4] == dec((xs[k].additions + xs[k].deletions) as nat),
{
    assert(churn_table_rows(xs) =~= first(xs, 25).map_values(|x: FileChurn| churn_table_row(x)));
    assert forall|k: int| 0 <= k < churn_table_rows(xs).len() implies #[trigger] churn_table_rows(xs)[k].len() == 5 && churn_table_rows(xs)[k][0] == xs[k].path@ && churn_table_rows(xs)[k][1] == dec(xs[k].commit_count as nat) && churn_table_rows(xs)[k][2] == dec(xs[k].additions as nat) && churn_table_rows(xs)[k][3] == dec(xs[k].deletions as nat) && churn_table_rows(xs)[k][4] == dec((xs[k].additions + xs[k].deletions) as nat) by {
        assert(first(xs, 25)[k] == xs[k]);
        assert(churn_table_rows(xs)[k] == churn_table_row(xs[k]));
    }
}

/// The rows of the coupling table: the first 40 pairs.
pub open spec fn coupling_table_rows(xs: Seq<Coupling>) -> Seq<Seq<Seq<char>>> {
    first(xs, 40).map_values(|x: Coupling| coupling_table_row(x))
}

/// Each row of the coupling table (see `coupling_table`) holds, under
/// `File A`, `File B` and `Co-changes`: the two paths and how often they
/// changed together.
pub proof fn law_coupling_table_columns(xs: Seq<Coupling>)
    ensures
        coupling_table_rows(xs) == first(xs, 40).map_values(|c: Coupling| coupling_table_row(c)),
        coupling_table_rows(xs).len() == first(xs, 40).len(),
        forall|k: int| 0 <= k < coupling_table_rows(xs).len() ==> #[trigger] coupling_table_rows(xs)[k].len() == 3 && coupling_table_rows(xs)[k][0] == xs[k].file_a@ && coupling_table_rows(xs)[k][1] == xs[k].file_b@ && coupling_table_rows(xs)[k][2] == dec(xs[k].co_changes as nat),
{
    assert(coupling_table_rows(xs) =~= first(xs, 40).map_values(|c: Coupling| coupling_table_row(c)));
    assert forall|k: int| 0 <= k < coupling_table_rows(xs).len() implies #[trigger] coupling_table_rows(xs)[k].len() == 3 && coupling_table_rows(xs)[k][0] == xs[k].file_a@ && coupling_table_rows(xs)[k][1] == xs[k].file_b@ && coupling_table_rows(xs)[k][2] == dec(xs[k].co_changes as nat) by {
        assert(first(xs, 40)[k] == xs[k]);
        assert(coupling_table_rows(xs)[k] == coupling_table_row(xs[k]));
    }
}

/// The rows of the log table: the first 30 commits.
pub open spec fn log_table_rows(xs: Seq<CommitRecord>) -> Seq<Seq<Seq<char>>> {
    first(xs, 30).map_values(|x: CommitRecord| log_table_row(x))
}

/// Each row of the log table (see `log_table`) holds, under `Commit`,
/// `Date`, `Author`, `Churn`, `Files` and `Summary`: the id, the commit
/// day, the author, the lines added plus deleted, the number of changed
/// files and the summary cut to 60 characters.
pub proof fn law_log_table_columns(xs: Seq<CommitRecord>)
    ensures
        log_table_rows(xs) == first(xs, 30).map_values(|c: CommitRecord| log_table_row(c)),
        log_table_rows(xs).len() == first(xs, 30).len(),
        forall|k: int| 0 <= k < log_table_rows(xs).len() ==> #[trigger] log_table_rows(xs)[k].len() == 6 && log_table_rows(xs)[k][0] == xs[k].id@ && log_table_rows(xs)[k][1] == commit_day(xs[k]) && log_table_rows(xs)[k][2] == xs[k].author_name@ && log_table_rows(xs)[k][3] == dec(files_churn(xs[k].files@) as nat) && log_table_rows(xs)[k][4] == dec(xs[k].files@.len()) && log_table_rows(xs)[k][5] == truncated(xs[k].summary@, 60),
{
    assert(log_table_rows(xs) =~= first(xs, 30).map_values(|c: CommitRecord| log_table_row(c)));
    assert forall|k: int| 0 <= k < log_table_rows(xs).len() implies #[trigger] log_table_rows(xs)[k].len() == 6 && log_table_rows(xs)[k][0] == xs[k].id@ && log_table_rows(xs)[k][1] == commit_day(xs[k]) && log_table_rows(xs)[k][2] == xs[k].author_name@ && log_table_rows(xs)[k][3] == dec(files_churn(xs[k].files@) as nat) && log_table_rows(xs)[k][4] == dec(xs[k].files@.len()) && log_table_rows(xs)[k][5] == truncated(xs[k].summary@, 60) by {
        assert(first(xs, 30)[k] == xs[k]);
        assert(log_table_rows(xs)[k] == log_table_row(xs[k]));
    }
}

/// The rows of the language table: one per language.
pub open spec fn language_table_rows(xs: Seq<LanguageStat>) -> Seq<Seq<Seq<char>>> {
    xs.map_values(|x: LanguageStat| language_table_row(x))
}

/// Each row of the language table (see `language_table`) holds, under
/// `Language` and `Churn`: the language and its churn.
pub proof fn law_language_table_columns(xs: Seq<LanguageStat>)
    ensures
        language_table_rows(xs) == xs.map_values(|l: LanguageStat| language_table_row(l)),
        language_table_rows(xs).len() == xs.len(),
        forall|k: int| 0 <= k < language_table_rows(xs).len() ==> #[trigger] language_table_rows(xs)[k].len() == 2 && language_table_rows(xs)[k][0] == xs[k].language@ && language_table_rows(xs)[k][1] == dec(xs[k].churn as nat),
{
    assert(language_table_rows(xs) =~= xs.map_values(|l: LanguageStat| language_table_row(l)));
    assert forall|k: int| 0 <= k < language_table_rows(xs).len() implies #[trigger] language_table_rows(xs)[k].len() == 2 && language_table_rows(xs)[k][0] == xs[k].language@ && language_table_rows(xs)[k][1] == dec(xs[k].churn as nat) by {
        assert(xs[k] == xs[k]);
        assert(language_table_rows(xs)[k] == language_table_row(xs[k]));
    }
}

/// The rows of the largest-commits table: one per commit.
pub open spec fn largest_table_rows(xs: Seq<CommitSummary>) -> Seq<Seq<Seq<char>>> {
    xs.map_values(|x: CommitSummary| largest_table_row(x))
}

/// Each row of the largest-commits table (see `largest_table`) holds,
/// under `Commit`, `Author`, `Churn` and `Summary`: the id, the author, the
/// churn and the summary.
pub proof fn law_largest_table_columns(xs: Seq<CommitSummary>)
    ensures
        largest_table_rows(xs) == xs.map_values(|c: CommitSummary| largest_table_row(c)),
        largest_table_rows(xs).len() == xs.len(),
        forall|k: int| 0 <= k < largest_table_rows(xs).len() ==> #[trigger] largest_table_rows(xs)[k].len() == 4 && largest_table_rows(xs)[k][0] == xs[k].id@ && largest_table_rows(xs)[k][1] == xs[k].author@ && largest_table_rows(xs)[k][2] == dec(xs[k].churn as nat) && largest_table_rows(xs)[k][3] == xs[k].summary@,
{
    assert(largest_table_rows(xs) =~= xs.map_values(|c: CommitSummary| largest_table_row(c)));
    assert forall|k: int| 0 <= k < largest_table_rows(xs).len() implies #[trigger] largest_table_rows(xs)[k].len() == 4 && largest_table_rows(xs)[k][0] == xs[k].id@ && largest_table_rows(xs)[k][1] == xs[k].author@ && largest_table_rows(xs)[k][2] == dec(xs[k].churn as nat) && largest_table_rows(xs)[k][3] == xs[k].summary@ by {
        assert(xs[k] == xs[k]);
        assert(largest_table_rows(xs)[k] == largest_table_row(xs[k]));
    }
}

/// The value the stats table shows on the row labeled `label`.
pub open spec fn stat_value(st: RepoStats, label: Seq<char>) -> Seq<char> {
    if label == "Commits"@ {
        dec(st.commit_count as nat)
    } else if label == "Lines added"@ {
        dec(st.lines_added as nat)
    } else if label == "Lines deleted"@ {
        dec(st.lines_deleted as nat)
    } else if label == "Repository age (days)"@ {
        dec(st.repository_age_days as nat)
    } else if label == "Bus factor"@ {
        dec(st.bus_factor.bus_factor as nat)
    } else if label == "Largest commit (churn)"@ {
        if st.largest_commits@.len() > 0 { dec(st.largest_commits@[0].churn as nat) } else { "0"@ }
    } else {
        Seq::empty()
    }
}

/// The stats table (see `stats_table`) has six rows labeled `Commits`,
/// `Lines added`, `Lines deleted`, `Repository age (days)`, `Bus factor` and
/// `Largest commit (churn)`, and each row shows next to its label the value
/// that label names.
pub proof fn law_stats_table_labels(st: RepoStats)
    ensures
        stats_rows(st).len() == 6,
        stats_rows(st)[0][0] == "Commits"@,
        stats_rows(st)[1][0] == "Lines added"@,
        stats_rows(st)[2][0] == "Lines deleted"@,
        stats_rows(st)[3][0] == "Repository age (days)"@,
        stats_rows(st)[4][0] == "Bus factor"@,
        stats_rows(st)[5][0] == "Largest commit (churn)"@,
        forall|i: int| 0 <= i < 6 ==> #[trigger] stats_rows(st)[i].len() == 2 && stats_rows(st)[i][1] == stat_value(st, stats_rows(st)[i][0]),
{
    reveal_strlit("Commits");
    reveal_strlit("Lines added");
    reveal_strlit("Lines deleted");
    reveal_strlit("Repository age (days)");
    reveal_strlit("Bus factor");
    reveal_strlit("Largest commit (churn)");
    let r = stats_rows(st);
    assert("Commits"@.len() == 7 && "Lines added"@.len() == 11 && "Lines deleted"@.len() == 13 && "Repository age (days)"@.len() == 21
        && "Bus factor"@.len() == 10 && "Largest commit (churn)"@.len() == 22);
    assert forall|i: int| 0 <= i < 6 implies #[trigger] r[i].len() == 2 && r[i][1] == stat_value(st, r[i][0]) by {}
}

/// The scan summary shows the commit count after `Scanned`, the lines
/// added after `+`, the lines deleted after `-`, the number of
/// contributors after `contributors:` and the number of files after
/// `files:`.
pub proof fn law_scan_line_counts(s: RepoSnapshot)
    ensures
        scan_line(s) == "Scanned "@ + dec(s.stats.commit_count as nat) + (" commits | +"@ + dec(s.stats.lines_added as nat)
            + " -"@ + dec(s.stats.lines_deleted as nat)) + (" | contributors: "@ + dec(s.contributors@.len()) + " | files: "@
            + dec(s.file_churn@.len())),
{
    assert(scan_line(s) =~= "Scanned "@ + dec(s.stats.commit_count as nat) + (" commits | +"@ + dec(s.stats.lines_added as nat)
        + " -"@ + dec(s.stats.lines_deleted as nat)) + (" | contributors: "@ + dec(s.contributors@.len()) + " | files: "@
        + dec(s.file_churn@.len())));
}

} // verus!
