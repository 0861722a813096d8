//! The Markdown report of a snapshot.
use vstd::prelude::*;

use crate::models::{AtRiskFile, ContributorStats, Coupling, FileChurn, LanguageStat, RepoSnapshot};
use crate::report::{lemma_occurs_mid, views};
use crate::text::{dec, lemma_occurs_left, lemma_occurs_right, occurs_at, occurs_in, owned, push_str, push_u64, u64_to_string};

verus! {

/// The cells of a table row, each as ` cell |`.
pub open spec fn md_cells(cells: Seq<Seq<char>>) -> Seq<char>
    decreases cells.len(),
{
    if cells.len() == 0 {
        Seq::empty()
    } else {
        md_cells(cells.drop_last()) + " "@ + cells.last() + " |"@
    }
}

/// A Markdown table row: `| a | b |` and a line break.
pub open spec fn md_row(cells: Seq<Seq<char>>) -> Seq<char> {
    "|"@ + md_cells(cells) + "\n"@
}

/// Table rows, one after the other.
pub open spec fn md_rows(rows: Seq<Seq<Seq<char>>>) -> Seq<char>
    decreases rows.len(),
{
    if rows.len() == 0 {
        Seq::empty()
    } else {
        md_rows(rows.drop_last()) + md_row(rows.last())
    }
}

/// The first `k` items of `s` (all of them when there are fewer).
pub open spec fn first<A>(s: Seq<A>, k: int) -> Seq<A> {
    if s.len() <= k {
        s
    } else {
        s.take(k)
    }
}

/// The cells of a language row.
pub open spec fn language_cells(l: LanguageStat) -> Seq<Seq<char>> {
    seq![l.language@, dec(l.churn as nat)]
}

/// The cells of a contributor row.
pub open spec fn contributor_cells(c: ContributorStats) -> Seq<Seq<char>> {
    seq![c.name@, dec(c.commit_count as nat), dec(c.lines_added as nat), dec(c.lines_deleted as nat), dec(c.files_touched as nat)]
}

/// The cells of a file churn row.
pub open spec fn file_cells(f: FileChurn) -> Seq<Seq<char>> {
    seq![f.path@, dec(f.commit_count as nat), dec(f.additions as nat), dec(f.deletions as nat), dec((f.additions + f.deletions) as nat)]
}

/// The cells of a coupling row.
pub open spec fn coupling_cells(c: Coupling) -> Seq<Seq<char>> {
    seq![c.file_a@, c.file_b@, dec(c.co_changes as nat)]
}

/// The cells of an at-risk row, with its author's share as written.
pub open spec fn at_risk_cells(f: AtRiskFile, share: Seq<char>) -> Seq<Seq<char>> {
    seq![f.path@, f.author@, share + "%"@]
}

/// Every file's churn fits in 64 bits.
pub open spec fn churn_fits(files: Seq<FileChurn>) -> bool {
    forall|i: int| 0 <= i < files.len() ==> #[trigger] files[i].additions + files[i].deletions <= u64::MAX
}

/// The heading and the repository stats.
pub open spec fn md_stats(s: RepoSnapshot) -> Seq<char> {
    let st = s.stats;
    "# Delta Report\n\n## Repository Stats\n\n- Commits: "@ + dec(st.commit_count as nat) + "\n- Lines added: "@ + dec(
        st.lines_added as nat,
    ) + "\n- Lines deleted: "@ + dec(st.lines_deleted as nat) + "\n- Repository age (days): "@ + dec(
        st.repository_age_days as nat,
    ) + "\n- Bus factor: "@ + dec(st.bus_factor.bus_factor as nat) + "\n"@
}

/// The language breakdown section, when there are languages.
pub open spec fn md_languages(langs: Seq<LanguageStat>) -> Seq<char> {
    if langs.len() == 0 {
        Seq::empty()
    } else {
        "\n## Language Breakdown\n\n| Language | Churn |\n| --- | --- |\n"@ + md_rows(langs.map_values(|l: LanguageStat| language_cells(l)))
    }
}

/// The contributor, hotspot and file churn sections.
pub open spec fn md_tables(s: RepoSnapshot, hotspots: Seq<Seq<Seq<char>>>) -> Seq<char> {
    "\n## Top Contributors\n\n| Contributor | Commits | + | - | Files |\n| --- | --- | --- | --- | --- |\n"@
        + md_rows(first(s.contributors@, 10).map_values(|c: ContributorStats| contributor_cells(c)))
        + "\n## Hotspots\n\n| File | Score | Commits | Churn |\n| --- | --- | --- | --- |\n"@ + md_rows(first(hotspots, 10))
        + "\n## File Churn\n\n| File | Commits | + | - | Churn |\n| --- | --- | --- | --- | --- |\n"@ + md_rows(
        first(s.file_churn@, 20).map_values(|f: FileChurn| file_cells(f)),
    )
}

/// The coupling section, when there are coupled pairs.
pub open spec fn md_coupling(pairs: Seq<Coupling>) -> Seq<char> {
    if pairs.len() == 0 {
        Seq::empty()
    } else {
        "\n## Logical Coupling\n\n| File A | File B | Co-changes |\n| --- | --- | --- |\n"@ + md_rows(
            first(pairs, 20).map_values(|c: Coupling| coupling_cells(c)),
        )
    }
}

/// The at-risk section, when there are at-risk files.
pub open spec fn md_at_risk(risks: Seq<AtRiskFile>, shares: Seq<Seq<char>>) -> Seq<char> {
    if risks.len() == 0 {
        Seq::empty()
    } else {
        "\n## At-Risk Files\n\n| File | Author | Share |\n| --- | --- | --- |\n"@ + md_rows(
            Seq::new(risks.len(), |i: int| at_risk_cells(risks[i], shares[i])),
        )
    }
}

/// The Markdown report: repository stats, the language breakdown, the top
/// 10 contributors, the top 10 hotspots (rows as given in `hotspots`), the
/// 20 files with most churn, the top 20 coupled pairs and the at-risk
/// files (shares as given in `shares`, in percent); the language, coupling
/// and at-risk sections only when they have rows.
pub open spec fn markdown_report(s: RepoSnapshot, hotspots: Seq<Seq<Seq<char>>>, shares: Seq<Seq<char>>) -> Seq<char> {
    md_stats(s) + md_languages(s.stats.language_breakdown@) + md_tables(s, hotspots) + md_coupling(s.coupling@)
        + md_at_risk(s.stats.bus_factor.at_risk_files@, shares)
}

/// Appends one table row.
fn push_md_row(out: &mut String, cells: &Vec<String>)
    ensures
        final(out)@ == old(out)@ + md_row(views(cells@)),
{
    let ghost o0 = out@;
    push_str(out, "|");
    let mut k: usize = 0;
    assert(views(cells@).take(0) =~= Seq::<Seq<char>>::empty());
    while k < cells.len()
        invariant
            k <= cells@.len(),
            out@ == o0 + "|"@ + md_cells(views(cells@).take(k as int)),
        decreases cells@.len() - k,
    {
        push_str(out, " ");
        push_str(out, cells[k].as_str());
        push_str(out, " |");
        proof {
            let v = views(cells@);
            assert(v.take(k + 1).drop_last() =~= v.take(k as int));
            assert(v.take(k + 1).last() == cells@[k as int]@);
        }
        k = k + 1;
    }
    assert(views(cells@).take(cells@.len() as int) =~= views(cells@));
    push_str(out, "\n");
}

/// Appending one more row.
proof fn lemma_md_rows_push(rows: Seq<Seq<Seq<char>>>, r: Seq<Seq<char>>)
    ensures
        md_rows(rows.push(r)) == md_rows(rows) + md_row(r),
{
    assert(rows.push(r).drop_last() =~= rows);
}

/// Appends the rows for the first `limit` contributors.
fn push_contributor_rows(out: &mut String, rows: &Vec<ContributorStats>, limit: usize)
    ensures
        final(out)@ == old(out)@ + md_rows(first(rows@, limit as int).map_values(|c: ContributorStats| contributor_cells(c))),
{
    let n: usize = if rows.len() <= limit { rows.len() } else { limit };
    let ghost sel = first(rows@, limit as int);
    let ghost f = |c: ContributorStats| contributor_cells(c);
    assert(sel.len() == n);
    let ghost o0 = out@;
    let mut k: usize = 0;
    assert(sel.take(0).map_values(f) =~= Seq::<Seq<Seq<char>>>::empty());
    while k < n
        invariant
            k <= n,
            n == sel.len(),
            n <= rows@.len(),
            sel == first(rows@, limit as int),
            forall|i: int| 0 <= i < n ==> #[trigger] sel[i] == rows@[i],
            f == (|c: ContributorStats| contributor_cells(c)),
            out@ == o0 + md_rows(sel.take(k as int).map_values(f)),
        decreases n - k,
    {
        let c = &rows[k];
        let mut cells: Vec<String> = Vec::new();
        cells.push(owned(c.name.as_str()));
        cells.push(u64_to_string(c.commit_count));
        cells.push(u64_to_string(c.lines_added));
        cells.push(u64_to_string(c.lines_deleted));
        cells.push(u64_to_string(c.files_touched));
        assert(views(cells@) =~= f(sel[k as int]));
        push_md_row(out, &cells);
        proof {
            assert(sel.take(k + 1).map_values(f) =~= sel.take(k as int).map_values(f).push(f(sel[k as int])));
            lemma_md_rows_push(sel.take(k as int).map_values(f), f(sel[k as int]));
        }
        k = k + 1;
    }
    assert(sel.take(n as int) =~= sel);
}

/// Appends the rows for the first `limit` files.
fn push_file_rows(out: &mut String, rows: &Vec<FileChurn>, limit: usize)
    requires
        churn_fits(first(rows@, limit as int)),
    ensures
        final(out)@ == old(out)@ + md_rows(first(rows@, limit as int).map_values(|x: FileChurn| file_cells(x))),
{
    let n: usize = if rows.len() <= limit { rows.len() } else { limit };
    let ghost sel = first(rows@, limit as int);
    let ghost f = |x: FileChurn| file_cells(x);
    assert(sel.len() == n);
    let ghost o0 = out@;
    let mut k: usize = 0;
    assert(sel.take(0).map_values(f) =~= Seq::<Seq<Seq<char>>>::empty());
    while k < n
        invariant
            k <= n,
            n == sel.len(),
            n <= rows@.len(),
            sel == first(rows@, limit as int),
            churn_fits(sel),
            forall|i: int| 0 <= i < n ==> #[trigger] sel[i] == rows@[i],
            f == (|x: FileChurn| file_cells(x)),
            out@ == o0 + md_rows(sel.take(k as int).map_values(f)),
        decreases n - k,
    {
        let x = &rows[k];
        assert(sel[k as int].additions + sel[k as int].deletions <= u64::MAX);
        let mut cells: Vec<String> = Vec::new();
        cells.push(owned(x.path.as_str()));
        cells.push(u64_to_string(x.commit_count));
        cells.push(u64_to_string(x.additions));
        cells.push(u64_to_string(x.deletions));
        cells.push(u64_to_string(x.total_churn()));
        assert(views(cells@) =~= f(sel[k as int]));
        push_md_row(out, &cells);
        proof {
            assert(sel.take(k + 1).map_values(f) =~= sel.take(k as int).map_values(f).push(f(sel[k as int])));
            lemma_md_rows_push(sel.take(k as int).map_values(f), f(sel[k as int]));
        }
        k = k + 1;
    }
    assert(sel.take(n as int) =~= sel);
}

/// Appends the rows for the first `limit` coupled pairs.
fn push_coupling_rows(out: &mut String, rows: &Vec<Coupling>, limit: usize)
    ensures
        final(out)@ == old(out)@ + md_rows(first(rows@, limit as int).map_values(|c: Coupling| coupling_cells(c))),
{
    let n: usize = if rows.len() <= limit { rows.len() } else { limit };
    let ghost sel = first(rows@, limit as int);
    let ghost f = |c: Coupling| coupling_cells(c);
    assert(sel.len() == n);
    let ghost o0 = out@;
    let mut k: usize = 0;
    assert(sel.take(0).map_values(f) =~= Seq::<Seq<Seq<char>>>::empty());
    while k < n
        invariant
            k <= n,
            n == sel.len(),
            n <= rows@.len(),
            sel == first(rows@, limit as int),
            forall|i: int| 0 <= i < n ==> #[trigger] sel[i] == rows@[i],
            f == (|c: Coupling| coupling_cells(c)),
            out@ == o0 + md_rows(sel.take(k as int).map_values(f)),
        decreases n - k,
    {
        let c = &rows[k];
        let mut cells: Vec<String> = Vec::new();
        cells.push(owned(c.file_a.as_str()));
        cells.push(owned(c.file_b.as_str()));
        cells.push(u64_to_string(c.co_changes));
        assert(views(cells@) =~= f(sel[k as int]));
        push_md_row(out, &cells);
        proof {
            assert(sel.take(k + 1).map_values(f) =~= sel.take(k as int).map_values(f).push(f(sel[k as int])));
            lemma_md_rows_push(sel.take(k as int).map_values(f), f(sel[k as int]));
        }
        k = k + 1;
    }
    assert(sel.take(n as int) =~= sel);
}

/// Appends given rows (their first `limit`).
fn push_given_rows(out: &mut String, rows: &Vec<Vec<String>>, limit: usize)
    ensures
        final(out)@ == old(out)@ + md_rows(first(rows@.map_values(|r: Vec<String>| views(r@)), limit as int)),
{
    let ghost all = rows@.map_values(|r: Vec<String>| views(r@));
    let n: usize = if rows.len() <= limit { rows.len() } else { limit };
    let ghost sel = first(all, limit as int);
    assert(sel.len() == n);
    let ghost o0 = out@;
    let mut k: usize = 0;
    assert(sel.take(0) =~= Seq::<Seq<Seq<char>>>::empty());
    while k < n
        invariant
            k <= n,
            n == sel.len(),
            n <= rows@.len(),
            all == rows@.map_values(|r: Vec<String>| views(r@)),
            sel == first(all, limit as int),
            forall|i: int| 0 <= i < n ==> #[trigger] sel[i] == all[i],
            out@ == o0 + md_rows(sel.take(k as int)),
        decreases n - k,
    {
        push_md_row(out, &rows[k]);
        proof {
            assert(sel.take(k + 1) =~= sel.take(k as int).push(sel[k as int]));
            lemma_md_rows_push(sel.take(k as int), sel[k as int]);
        }
        k = k + 1;
    }
    assert(sel.take(n as int) =~= sel);
}

/// Appends a line `label` and a number.
fn push_stat(out: &mut String, label: &str, n: u64)
    ensures
        final(out)@ == old(out)@ + label@ + dec(n as nat),
{
    push_str(out, label);
    push_u64(out, n);
}

/// Appends the language breakdown section.
fn push_languages(out: &mut String, langs: &Vec<LanguageStat>)
    ensures
        final(out)@ == old(out)@ + md_languages(langs@),
{
    if langs.len() == 0 {
        return;
    }
    let ghost o0 = out@;
    push_str(out, "\n## Language Breakdown\n\n| Language | Churn |\n| --- | --- |\n");
    let ghost head = out@;
    let ghost f = |l: LanguageStat| language_cells(l);
    let mut k: usize = 0;
    assert(langs@.take(0).map_values(f) =~= Seq::<Seq<Seq<char>>>::empty());
    while k < langs.len()
        invariant
            k <= langs@.len(),
            f == (|l: LanguageStat| language_cells(l)),
            out@ == head + md_rows(langs@.take(k as int).map_values(f)),
        decreases langs@.len() - k,
    {
        let l = &langs[k];
        let mut cells: Vec<String> = Vec::new();
        cells.push(owned(l.language.as_str()));
        cells.push(u64_to_string(l.churn));
        assert(views(cells@) =~= f(langs@[k as int]));
        push_md_row(out, &cells);
        proof {
            assert(langs@.take(k + 1).map_values(f) =~= langs@.take(k as int).map_values(f).push(f(langs@[k as int])));
            lemma_md_rows_push(langs@.take(k as int).map_values(f), f(langs@[k as int]));
        }
        k = k + 1;
    }
    assert(langs@.take(langs@.len() as int) =~= langs@);
    assert(out@ =~= o0 + md_languages(langs@));
}

/// Appends the at-risk section.
fn push_at_risk(out: &mut String, risks: &Vec<AtRiskFile>, shares: &Vec<String>)
    requires
        shares@.len() == risks@.len(),
    ensures
        final(out)@ == old(out)@ + md_at_risk(risks@, views(shares@)),
{
    if risks.len() == 0 {
        return;
    }
    let ghost o0 = out@;
    push_str(out, "\n## At-Risk Files\n\n| File | Author | Share |\n| --- | --- | --- |\n");
    let ghost head = out@;
    let ghost all = Seq::new(risks@.len(), |i: int| at_risk_cells(risks@[i], views(shares@)[i]));
    let mut k: usize = 0;
    assert(all.take(0) =~= Seq::<Seq<Seq<char>>>::empty());
    while k < risks.len()
        invariant
            k <= risks@.len(),
            shares@.len() == risks@.len(),
            all == Seq::new(risks@.len(), |i: int| at_risk_cells(risks@[i], views(shares@)[i])),
            out@ == head + md_rows(all.take(k as int)),
        decreases risks@.len() - k,
    {
        let f = &risks[k];
        let mut share = owned(shares[k].as_str());
        push_str(&mut share, "%");
        let mut cells: Vec<String> = Vec::new();
        cells.push(owned(f.path.as_str()));
        cells.push(owned(f.author.as_str()));
        cells.push(share);
        assert(views(cells@) =~= all[k as int]);
        push_md_row(out, &cells);
        proof {
            assert(all.take(k + 1) =~= all.take(k as int).push(all[k as int]));
            lemma_md_rows_push(all.take(k as int), all[k as int]);
        }
        k = k + 1;
    }
    assert(all.take(all.len() as int) =~= all);
    assert(out@ =~= o0 + md_at_risk(risks@, views(shares@)));
}

/// The snapshot as a Markdown report. The hotspot rows (cells: path,
/// score, commits, churn) and the at-risk authors' shares in percent come
/// rendered, one share per at-risk file.
pub fn export(snapshot: &RepoSnapshot, hotspots: &Vec<Vec<String>>, shares: &Vec<String>) -> (md: String)
    requires
        shares@.len() == snapshot.stats.bus_factor.at_risk_files@.len(),
        churn_fits(first(snapshot.file_churn@, 20)),
    ensures
        md@ == markdown_report(*snapshot, hotspots@.map_values(|r: Vec<String>| views(r@)), views(shares@)),
{
    let st = &snapshot.stats;
    let mut out = String::new();
    push_stat(&mut out, "# Delta Report\n\n## Repository Stats\n\n- Commits: ", st.commit_count);
    push_stat(&mut out, "\n- Lines added: ", st.lines_added);
    push_stat(&mut out, "\n- Lines deleted: ", st.lines_deleted);
    push_stat(&mut out, "\n- Repository age (days): ", st.repository_age_days);
    push_stat(&mut out, "\n- Bus factor: ", st.bus_factor.bus_factor);
    push_str(&mut out, "\n");
    assert(out@ =~= md_stats(*snapshot));
    let ghost p1 = out@;
    push_languages(&mut out, &st.language_breakdown);
    let ghost p2 = out@;
    push_str(&mut out, "\n## Top Contributors\n\n| Contributor | Commits | + | - | Files |\n| --- | --- | --- | --- | --- |\n");
    push_contributor_rows(&mut out, &snapshot.contributors, 10);
    push_str(&mut out, "\n## Hotspots\n\n| File | Score | Commits | Churn |\n| --- | --- | --- | --- |\n");
    push_given_rows(&mut out, hotspots, 10);
    push_str(&mut out, "\n## File Churn\n\n| File | Commits | + | - | Churn |\n| --- | --- | --- | --- | --- |\n");
    push_file_rows(&mut out, &snapshot.file_churn, 20);
    assert(out@ =~= p2 + md_tables(*snapshot, hotspots@.map_values(|r: Vec<String>| views(r@))));
    let ghost p3 = out@;
    if snapshot.coupling.len() > 0 {
        push_str(&mut out, "\n## Logical Coupling\n\n| File A | File B | Co-changes |\n| --- | --- | --- |\n");
        push_coupling_rows(&mut out, &snapshot.coupling, 20);
    }
    assert(out@ =~= p3 + md_coupling(snapshot.coupling@));
    push_at_risk(&mut out, &st.bus_factor.at_risk_files, shares);
    assert(out@ =~= markdown_report(*snapshot, hotspots@.map_values(|r: Vec<String>| views(r@)), views(shares@)));
    out
}

/// Every row stands in the rows written one after the other.
pub proof fn lemma_md_rows_occurs(rows: Seq<Seq<Seq<char>>>, k: int) -> (i: int)
    requires
        0 <= k < rows.len(),
    ensures
        occurs_at(md_rows(rows), md_row(rows[k]), i),
    decreases rows.len(),
{
    let pre = rows.drop_last();
    if k == rows.len() - 1 {
        let row = md_row(rows.last());
        assert(row.subrange(0, row.len() as int) =~= row);
        lemma_occurs_right(md_rows(pre), row, row, 0);
        md_rows(pre).len() as int
    } else {
        let j = lemma_md_rows_occurs(pre, k);
        assert(pre[k] == rows[k]);
        lemma_occurs_left(md_rows(pre), md_row(rows.last()), md_row(rows[k]), j);
        j
    }
}

/// The Markdown report has the Top Contributors header
/// `| Contributor | Commits | + | - | Files |`, and for each of the first 10
/// contributors a row that shows, under those headers, the name, the number
/// of commits, the lines added, the lines deleted and the files touched.
pub proof fn law_markdown_contributor_rows(s: RepoSnapshot, hotspots: Seq<Seq<Seq<char>>>, shares: Seq<Seq<char>>, k: int)
    requires
        0 <= k < s.contributors@.len(),
        k < 10,
    ensures
        occurs_in(markdown_report(s, hotspots, shares), "| Contributor | Commits | + | - | Files |\n"@),
        occurs_in(
            markdown_report(s, hotspots, shares),
            "| "@ + s.contributors@[k].name@ + " | "@ + dec(s.contributors@[k].commit_count as nat) + " | "@
                + dec(s.contributors@[k].lines_added as nat) + " | "@ + dec(s.contributors@[k].lines_deleted as nat)
                + " | "@ + dec(s.contributors@[k].files_touched as nat) + " |\n"@,
        ),
{
    reveal_strlit("| ");
    reveal_strlit(" | ");
    reveal_strlit(" |\n");
    reveal_strlit("|");
    reveal_strlit(" ");
    reveal_strlit(" |");
    reveal_strlit("\n");
    reveal_strlit("\n## Top Contributors\n\n");
    reveal_strlit("| Contributor | Commits | + | - | Files |\n");
    reveal_strlit("| --- | --- | --- | --- | --- |\n");
    reveal_strlit("\n## Top Contributors\n\n| Contributor | Commits | + | - | Files |\n| --- | --- | --- | --- | --- |\n");
    let c = s.contributors@[k];
    let row = "| "@ + c.name@ + " | "@ + dec(c.commit_count as nat) + " | "@ + dec(c.lines_added as nat) + " | "@
        + dec(c.lines_deleted as nat) + " | "@ + dec(c.files_touched as nat) + " |\n"@;
    let cells = first(s.contributors@, 10).map_values(|x: ContributorStats| contributor_cells(x));
    assert(first(s.contributors@, 10)[k] == c);
    assert(cells[k] == contributor_cells(c));
    assert(md_row(contributor_cells(c)) =~= row) by {
        let cs = contributor_cells(c);
        assert(cs.drop_last().drop_last().drop_last().drop_last().drop_last() =~= Seq::<Seq<char>>::empty());
        reveal_with_fuel(md_cells, 6);
    }
    let intro = "\n## Top Contributors\n\n"@;
    let header = "| Contributor | Commits | + | - | Files |\n"@;
    let rule = "| --- | --- | --- | --- | --- |\n"@;
    let top = "\n## Top Contributors\n\n| Contributor | Commits | + | - | Files |\n| --- | --- | --- | --- | --- |\n"@;
    assert(top =~= intro + header + rule);
    let rows = md_rows(cells);
    let rest = "\n## Hotspots\n\n| File | Score | Commits | Churn |\n| --- | --- | --- | --- |\n"@ + md_rows(first(hotspots, 10))
        + "\n## File Churn\n\n| File | Commits | + | - | Churn |\n| --- | --- | --- | --- | --- |\n"@ + md_rows(
        first(s.file_churn@, 20).map_values(|f: FileChurn| file_cells(f)),
    );
    let t = md_tables(s, hotspots);
    assert(t =~= top + rows + rest);
    let pre = md_stats(s) + md_languages(s.stats.language_breakdown@);
    let post = md_coupling(s.coupling@) + md_at_risk(s.stats.bus_factor.at_risk_files@, shares);
    let m = markdown_report(s, hotspots, shares);
    assert(m =~= pre + (t + post));
    // the header
    assert(header.subrange(0, header.len() as int) =~= header);
    lemma_occurs_right(intro, header, header, 0);
    lemma_occurs_left(intro + header, rule, header, intro.len() as int);
    lemma_occurs_left(top, rows + rest, header, intro.len() as int);
    assert(top + rows + rest =~= top + (rows + rest));
    lemma_occurs_left(t, post, header, intro.len() as int);
    lemma_occurs_right(pre, t + post, header, intro.len() as int);
    assert(occurs_at(m, header, pre.len() + intro.len() as int));
    // the row
    let i = lemma_md_rows_occurs(cells, k);
    lemma_occurs_right(top, rows, row, i);
    lemma_occurs_left(top + rows, rest, row, top.len() + i);
    lemma_occurs_left(t, post, row, top.len() + i);
    lemma_occurs_right(pre, t + post, row, top.len() + i);
    assert(occurs_at(m, row, pre.len() + top.len() + i));
}

/// A row of two cells reads `| a | b |`.
proof fn lemma_md_row2(a: Seq<char>, b: Seq<char>)
    ensures
        md_row(seq![a, b]) == "| "@ + a + " | "@ + b + " |\n"@,
{
    reveal_strlit("| ");
    reveal_strlit(" | ");
    reveal_strlit(" |\n");
    reveal_strlit("|");
    reveal_strlit(" ");
    reveal_strlit(" |");
    reveal_strlit("\n");
    let cs = seq![a, b];
    assert(cs.drop_last().drop_last() =~= Seq::<Seq<char>>::empty());
    assert(cs.drop_last() =~= seq![a]);
    reveal_with_fuel(md_cells, 3);
    assert(md_row(cs) =~= "| "@ + a + " | "@ + b + " |\n"@);
}

/// A row of three cells reads `| a | b | c |`.
proof fn lemma_md_row3(a: Seq<char>, b: Seq<char>, c: Seq<char>)
    ensures
        md_row(seq![a, b, c]) == "| "@ + a + " | "@ + b + " | "@ + c + " |\n"@,
{
    reveal_strlit("| ");
    reveal_strlit(" | ");
    reveal_strlit(" |\n");
    reveal_strlit("|");
    reveal_strlit(" ");
    reveal_strlit(" |");
    reveal_strlit("\n");
    let cs = seq![a, b, c];
    assert(cs.drop_last().drop_last().drop_last() =~= Seq::<Seq<char>>::empty());
    assert(cs.drop_last() =~= seq![a, b]);
    assert(cs.drop_last().drop_last() =~= seq![a]);
    reveal_with_fuel(md_cells, 4);
    assert(md_row(cs) =~= "| "@ + a + " | "@ + b + " | "@ + c + " |\n"@);
}

/// A row of five cells reads `| a | b | c | d | e |`.
proof fn lemma_md_row5(a: Seq<char>, b: Seq<char>, c: Seq<char>, d: Seq<char>, e: Seq<char>)
    ensures
        md_row(seq![a, b, c, d, e]) == "| "@ + a + " | "@ + b + " | "@ + c + " | "@ + d + " | "@ + e + " |\n"@,
{
    reveal_strlit("| ");
    reveal_strlit(" | ");
    reveal_strlit(" |\n");
    reveal_strlit("|");
    reveal_strlit(" ");
    reveal_strlit(" |");
    reveal_strlit("\n");
    let cs = seq![a, b, c, d, e];
    assert(cs.drop_last().drop_last().drop_last().drop_last().drop_last() =~= Seq::<Seq<char>>::empty());
    assert(cs.drop_last() =~= seq![a, b, c, d]);
    assert(cs.drop_last().drop_last() =~= seq![a, b, c]);
    assert(cs.drop_last().drop_last().drop_last() =~= seq![a, b]);
    assert(cs.drop_last().drop_last().drop_last().drop_last() =~= seq![a]);
    reveal_with_fuel(md_cells, 6);
    assert(md_row(cs) =~= "| "@ + a + " | "@ + b + " | "@ + c + " | "@ + d + " | "@ + e + " |\n"@);
}

/// The Markdown report has, for each of the 20 files with most churn
/// listed, a File Churn row that shows under `File`, `Commits`, `+`, `-`
/// and `Churn` its path, commit count, additions, deletions and their sum.
pub proof fn law_markdown_file_rows(s: RepoSnapshot, hotspots: Seq<Seq<Seq<char>>>, shares: Seq<Seq<char>>, k: int)
    requires
        0 <= k < s.file_churn@.len(),
        k < 20,
    ensures
        occurs_in(
            markdown_report(s, hotspots, shares),
            "| "@ + s.file_churn@[k].path@ + " | "@ + dec(s.file_churn@[k].commit_count as nat) + " | "@
                + dec(s.file_churn@[k].additions as nat) + " | "@ + dec(s.file_churn@[k].deletions as nat) + " | "@
                + dec((s.file_churn@[k].additions + s.file_churn@[k].deletions) as nat) + " |\n"@,
        ),
{
    let f = s.file_churn@[k];
    lemma_md_row5(f.path@, dec(f.commit_count as nat), dec(f.additions as nat), dec(f.deletions as nat), dec((f.additions + f.deletions) as nat));
    let row = md_row(file_cells(f));
    let cells = first(s.file_churn@, 20).map_values(|x: FileChurn| file_cells(x));
    assert(first(s.file_churn@, 20)[k] == f);
    assert(cells[k] == file_cells(f));
    let before = "\n## Top Contributors\n\n| Contributor | Commits | + | - | Files |\n| --- | --- | --- | --- | --- |\n"@
        + md_rows(first(s.contributors@, 10).map_values(|c: ContributorStats| contributor_cells(c)))
        + "\n## Hotspots\n\n| File | Score | Commits | Churn |\n| --- | --- | --- | --- |\n"@ + md_rows(first(hotspots, 10))
        + "\n## File Churn\n\n| File | Commits | + | - | Churn |\n| --- | --- | --- | --- | --- |\n"@;
    let t = md_tables(s, hotspots);
    assert(t =~= before + md_rows(cells));
    let i = lemma_md_rows_occurs(cells, k);
    lemma_occurs_right(before, md_rows(cells), row, i);
    let pre = md_stats(s) + md_languages(s.stats.language_breakdown@);
    let post = md_coupling(s.coupling@) + md_at_risk(s.stats.bus_factor.at_risk_files@, shares);
    assert(markdown_report(s, hotspots, shares) =~= pre + t + post);
    lemma_occurs_mid(pre, t, post, row, before.len() + i);
}

/// The Markdown report has, for each language of the breakdown, a row that
/// shows under `Language` and `Churn` the language and its churn.
pub proof fn law_markdown_language_rows(s: RepoSnapshot, hotspots: Seq<Seq<Seq<char>>>, shares: Seq<Seq<char>>, k: int)
    requires
        0 <= k < s.stats.language_breakdown@.len(),
    ensures
        occurs_in(
            markdown_report(s, hotspots, shares),
            "| "@ + s.stats.language_breakdown@[k].language@ + " | "@ + dec(s.stats.language_breakdown@[k].churn as nat) + " |\n"@,
        ),
{
    let langs = s.stats.language_breakdown@;
    let l = langs[k];
    lemma_md_row2(l.language@, dec(l.churn as nat));
    let row = md_row(language_cells(l));
    let cells = langs.map_values(|x: LanguageStat| language_cells(x));
    assert(cells[k] == language_cells(l));
    let head = "\n## Language Breakdown\n\n| Language | Churn |\n| --- | --- |\n"@;
    assert(md_languages(langs) == head + md_rows(cells));
    let i = lemma_md_rows_occurs(cells, k);
    lemma_occurs_right(head, md_rows(cells), row, i);
    let rest = md_tables(s, hotspots) + md_coupling(s.coupling@) + md_at_risk(s.stats.bus_factor.at_risk_files@, shares);
    assert(markdown_report(s, hotspots, shares) =~= md_stats(s) + md_languages(langs) + rest);
    lemma_occurs_mid(md_stats(s), md_languages(langs), rest, row, head.len() + i);
}

/// The Markdown report has, for each of the first 20 coupled pairs, a row
/// that shows under `File A`, `File B` and `Co-changes` the two paths and
/// how often they changed together.
pub proof fn law_markdown_coupling_rows(s: RepoSnapshot, hotspots: Seq<Seq<Seq<char>>>, shares: Seq<Seq<char>>, k: int)
    requires
        0 <= k < s.coupling@.len(),
        k < 20,
    ensures
        occurs_in(
            markdown_report(s, hotspots, shares),
            "| "@ + s.coupling@[k].file_a@ + " | "@ + s.coupling@[k].file_b@ + " | "@ + dec(s.coupling@[k].co_changes as nat) + " |\n"@,
        ),
{
    let pairs = s.coupling@;
    let c = pairs[k];
    lemma_md_row3(c.file_a@, c.file_b@, dec(c.co_changes as nat));
    let row = md_row(coupling_cells(c));
    let cells = first(pairs, 20).map_values(|x: Coupling| coupling_cells(x));
    assert(first(pairs, 20)[k] == c);
    assert(cells[k] == coupling_cells(c));
    let head = "\n## Logical Coupling\n\n| File A | File B | Co-changes |\n| --- | --- | --- |\n"@;
    assert(md_coupling(pairs) == head + md_rows(cells));
    let i = lemma_md_rows_occurs(cells, k);
    lemma_occurs_right(head, md_rows(cells), row, i);
    let pre = md_stats(s) + md_languages(s.stats.language_breakdown@) + md_tables(s, hotspots);
    let post = md_at_risk(s.stats.bus_factor.at_risk_files@, shares);
    assert(markdown_report(s, hotspots, shares) =~= pre + md_coupling(pairs) + post);
    lemma_occurs_mid(pre, md_coupling(pairs), post, row, head.len() + i);
}

/// The Markdown report has, for each at-risk file, a row that shows under
/// `File`, `Author` and `Share` its path, its dominant author and the share
/// given for it, followed by `%`.
pub proof fn law_markdown_at_risk_rows(s: RepoSnapshot, hotspots: Seq<Seq<Seq<char>>>, shares: Seq<Seq<char>>, k: int)
    requires
        0 <= k < s.stats.bus_factor.at_risk_files@.len(),
        shares.len() == s.stats.bus_factor.at_risk_files@.len(),
    ensures
        occurs_in(
            markdown_report(s, hotspots, shares),
            "| "@ + s.stats.bus_factor.at_risk_files@[k].path@ + " | "@ + s.stats.bus_factor.at_risk_files@[k].author@
                + " | "@ + shares[k] + "%"@ + " |\n"@,
        ),
{
    let risks = s.stats.bus_factor.at_risk_files@;
    let f = risks[k];
    lemma_md_row3(f.path@, f.author@, shares[k] + "%"@);
    let row = md_row(at_risk_cells(f, shares[k]));
    assert(row =~= "| "@ + f.path@ + " | "@ + f.author@ + " | "@ + shares[k] + "%"@ + " |\n"@);
    let cells = Seq::new(risks.len(), |i: int| at_risk_cells(risks[i], shares[i]));
    assert(cells[k] == at_risk_cells(f, shares[k]));
    let head = "\n## At-Risk Files\n\n| File | Author | Share |\n| --- | --- | --- |\n"@;
    let section = md_at_risk(risks, shares);
    assert(section == head + md_rows(cells));
    let i = lemma_md_rows_occurs(cells, k);
    lemma_occurs_right(head, md_rows(cells), row, i);
    let pre = md_stats(s) + md_languages(s.stats.language_breakdown@) + md_tables(s, hotspots) + md_coupling(s.coupling@);
    let whole = markdown_report(s, hotspots, shares);
    assert(whole == pre + section);
    lemma_occurs_right(pre, section, row, head.len() + i);
    assert(occurs_at(whole, row, pre.len() + head.len() + i));
}

/// The Markdown report opens with its title and the repository stats, each
/// after its own label: commits, lines added, lines deleted, repository
/// age in days and bus factor.
pub proof fn law_markdown_stats(s: RepoSnapshot, hotspots: Seq<Seq<Seq<char>>>, shares: Seq<Seq<char>>)
    ensures
        ({
            let st = s.stats;
            let head = "# Delta Report\n\n## Repository Stats\n\n- Commits: "@ + dec(st.commit_count as nat) + "\n- Lines added: "@
                + dec(st.lines_added as nat) + "\n- Lines deleted: "@ + dec(st.lines_deleted as nat)
                + "\n- Repository age (days): "@ + dec(st.repository_age_days as nat) + "\n- Bus factor: "@
                + dec(st.bus_factor.bus_factor as nat) + "\n"@;
            markdown_report(s, hotspots, shares).take(head.len() as int) == head
        }),
{
    let st = s.stats;
    let head = "# Delta Report\n\n## Repository Stats\n\n- Commits: "@ + dec(st.commit_count as nat) + "\n- Lines added: "@
        + dec(st.lines_added as nat) + "\n- Lines deleted: "@ + dec(st.lines_deleted as nat)
        + "\n- Repository age (days): "@ + dec(st.repository_age_days as nat) + "\n- Bus factor: "@
        + dec(st.bus_factor.bus_factor as nat) + "\n"@;
    let m = markdown_report(s, hotspots, shares);
    assert(md_stats(s) =~= head);
    assert(m.take(head.len() as int) =~= head);
}

} // verus!
