//! The command-line reports over `Metrics`: argument parsing and the text,
//! JSON and CSV renderings of each command.
use vstd::prelude::*;

use crate::rank::{rank_indices, ranking};
use crate::strmap::StrMap;
use crate::text::{dec, lemma_occurs_left, lemma_occurs_right, occurs_at, occurs_in, push_str, push_u64};
use crate::analytics::bus_factor::{bus_factor, half_cover_count};
use crate::{json_escape, json_escaped, ContributorStats, FileStats, Metrics};

verus! {

/// How a report is printed.
#[derive(Debug, Clone, Copy, PartialEq, Eq)]
pub enum OutputFormat {
    Text,
    Json,
    Csv,
}

/// `parts` joined with `sep` between consecutive parts.
pub open spec fn join(parts: Seq<Seq<char>>, sep: Seq<char>) -> Seq<char>
    decreases parts.len(),
{
    if parts.len() == 0 {
        Seq::empty()
    } else if parts.len() == 1 {
        parts[0]
    } else {
        join(parts.drop_last(), sep) + sep + parts.last()
    }
}

/// Every part, each preceded by `pre`.
pub open spec fn prefixed(parts: Seq<Seq<char>>, pre: Seq<char>) -> Seq<char>
    decreases parts.len(),
{
    if parts.len() == 0 {
        Seq::empty()
    } else {
        prefixed(parts.drop_last(), pre) + pre + parts.last()
    }
}

/// `s` with each `"` doubled, as in a quoted CSV field.
pub open spec fn csv_doubled(s: Seq<char>) -> Seq<char>
    decreases s.len(),
{
    if s.len() == 0 {
        Seq::empty()
    } else {
        csv_doubled(s.drop_last()) + if s.last() == '"' { seq!['"', '"'] } else { seq![s.last()] }
    }
}

/// Appends `s` with each `"` doubled.
fn push_csv_doubled(out: &mut String, s: &str)
    ensures
        final(out)@ == old(out)@ + csv_doubled(s@),
{
    let v = crate::text::chars_of(s);
    let ghost o0 = out@;
    let mut i: usize = 0;
    while i < v.len()
        invariant
            i <= v.len(),
            v@ == s@,
            out@ == o0 + csv_doubled(v@.take(i as int)),
        decreases v.len() - i,
    {
        if v[i] == '"' {
            crate::text::push_char(out, '"');
            crate::text::push_char(out, '"');
        } else {
            crate::text::push_char(out, v[i]);
        }
        proof {
            let pre = v@.take(i + 1);
            assert(pre.drop_last() =~= v@.take(i as int));
            assert(pre.last() == v@[i as int]);
            assert(out@ =~= o0 + csv_doubled(pre));
        }
        i = i + 1;
    }
    assert(v@.take(v.len() as int) =~= v@);
}

/// The modification counts of the file entries, in map order.
pub open spec fn modification_scores(s: Seq<(Seq<char>, FileStats)>) -> Seq<u64> {
    Seq::new(s.len(), |i: int| s[i].1.modifications)
}

/// The rows a report lists: the entries in ranking order, at most `limit`.
pub open spec fn top_rows<V>(s: Seq<(Seq<char>, V)>, scores: Seq<u64>, limit: int) -> Seq<(Seq<char>, V)> {
    let o = ranking(scores);
    let n = if o.len() < limit { o.len() as int } else { limit };
    Seq::new(n as nat, |i: int| s[o[i]])
}

/// One line of the churn table.
pub open spec fn churn_text_line(r: (Seq<char>, FileStats)) -> Seq<char> {
    "  "@ + r.0 + " | edits="@ + dec(r.1.modifications as nat) + " added="@ + dec(r.1.lines_added as nat)
        + " deleted="@ + dec(r.1.lines_deleted as nat)
}

/// One JSON object of the churn report.
pub open spec fn churn_json_item(r: (Seq<char>, FileStats)) -> Seq<char> {
    "{\"file\":\""@ + json_escaped(r.0) + "\",\"modifications\":"@ + dec(r.1.modifications as nat)
        + ",\"lines_added\":"@ + dec(r.1.lines_added as nat) + ",\"lines_deleted\":"@ + dec(
        r.1.lines_deleted as nat,
    ) + "}"@
}

/// One CSV record of the churn report.
pub open spec fn churn_csv_record(r: (Seq<char>, FileStats)) -> Seq<char> {
    "\""@ + csv_doubled(r.0) + "\","@ + dec(r.1.modifications as nat) + ","@ + dec(r.1.lines_added as nat)
        + ","@ + dec(r.1.lines_deleted as nat)
}

/// The churn report: the 20 most modified files (ties by path).
pub open spec fn churn_report(s: Seq<(Seq<char>, FileStats)>, output: OutputFormat) -> Seq<char> {
    let rows = top_rows(s, modification_scores(s), 20);
    match output {
        OutputFormat::Text => if rows.len() == 0 {
            "No churn data found."@
        } else {
            "File churn rankings\n"@ + join(rows.map_values(|r: (Seq<char>, FileStats)| churn_text_line(r)), "\n"@)
        },
        OutputFormat::Json => "["@ + join(rows.map_values(|r: (Seq<char>, FileStats)| churn_json_item(r)), ","@) + "]"@,
        OutputFormat::Csv => "file,modifications,lines_added,lines_deleted"@ + prefixed(
            rows.map_values(|r: (Seq<char>, FileStats)| churn_csv_record(r)),
            "\n"@,
        ),
    }
}

/// Joining one more part.
pub proof fn lemma_join_push(parts: Seq<Seq<char>>, sep: Seq<char>, x: Seq<char>)
    ensures
        join(parts.push(x), sep) == if parts.len() == 0 { x } else { join(parts, sep) + sep + x },
{
    assert(parts.push(x).drop_last() =~= parts);
}

/// Prefixing one more part.
pub proof fn lemma_prefixed_push(parts: Seq<Seq<char>>, pre: Seq<char>, x: Seq<char>)
    ensures
        prefixed(parts.push(x), pre) == prefixed(parts, pre) + pre + x,
{
    assert(parts.push(x).drop_last() =~= parts);
}

/// The ranking of a file map's entries by modification count.
fn file_order(m: &StrMap<FileStats>) -> (order: Vec<usize>)
    ensures
        order@.len() == m@.len(),
        ranking(modification_scores(m@)).len() == m@.len(),
        forall|i: int| 0 <= i < order@.len() ==> #[trigger] order@[i] < m@.len(),
        forall|i: int| 0 <= i < order@.len() ==> #[trigger] order@[i] as int == ranking(modification_scores(m@))[i],
{
    let n = m.len();
    let mut scores: Vec<u64> = Vec::new();
    let mut i: usize = 0;
    while i < n
        invariant
            i <= n,
            n == m@.len(),
            scores@ =~= modification_scores(m@).take(i as int),
        decreases n - i,
    {
        scores.push(m.value_at(i).modifications);
        i = i + 1;
    }
    assert(scores@ =~= modification_scores(m@));
    let order = rank_indices(&scores);
    proof {
        assert forall|i: int| 0 <= i < order@.len() implies #[trigger] order@[i] as int == ranking(modification_scores(m@))[i] by {
            assert(crate::rank::as_ints(order@)[i] == order@[i] as int);
        }
    }
    order
}

/// Appends one line of the churn table.
fn push_churn_text_line(out: &mut String, path: &String, s: &FileStats)
    ensures
        final(out)@ == old(out)@ + churn_text_line((path@, *s)),
{
    push_str(out, "  ");
    push_str(out, path.as_str());
    push_str(out, " | edits=");
    push_u64(out, s.modifications);
    push_str(out, " added=");
    push_u64(out, s.lines_added);
    push_str(out, " deleted=");
    push_u64(out, s.lines_deleted);
    assert(final(out)@ =~= old(out)@ + churn_text_line((path@, *s)));
}

/// Appends one JSON object of the churn report.
fn push_churn_json_item(out: &mut String, path: &String, s: &FileStats)
    ensures
        final(out)@ == old(out)@ + churn_json_item((path@, *s)),
{
    push_str(out, "{\"file\":\"");
    push_str(out, json_escape(path.as_str()).as_str());
    push_str(out, "\",\"modifications\":");
    push_u64(out, s.modifications);
    push_str(out, ",\"lines_added\":");
    push_u64(out, s.lines_added);
    push_str(out, ",\"lines_deleted\":");
    push_u64(out, s.lines_deleted);
    push_str(out, "}");
    assert(final(out)@ =~= old(out)@ + churn_json_item((path@, *s)));
}

/// Appends one CSV record of the churn report.
fn push_churn_csv_record(out: &mut String, path: &String, s: &FileStats)
    ensures
        final(out)@ == old(out)@ + churn_csv_record((path@, *s)),
{
    push_str(out, "\"");
    push_csv_doubled(out, path.as_str());
    push_str(out, "\",");
    push_u64(out, s.modifications);
    push_str(out, ",");
    push_u64(out, s.lines_added);
    push_str(out, ",");
    push_u64(out, s.lines_deleted);
    assert(final(out)@ =~= old(out)@ + churn_csv_record((path@, *s)));
}

/// The file churn report: the 20 most modified files, most modified first
/// (equal counts by path), as text, a JSON array or CSV.
pub fn render_churn(metrics: &Metrics, output: OutputFormat) -> (r: String)
    ensures
        r@ == churn_report(metrics.file_stats@, output),
{
    let m = &metrics.file_stats;
    let order = file_order(m);
    let n: usize = if order.len() < 20 { order.len() } else { 20 };
    let ghost s = m@;
    let ghost rows = top_rows(s, modification_scores(s), 20);
    assert(rows.len() == n);
    assert forall|k: int| 0 <= k < n implies #[trigger] rows[k] == s[order@[k] as int] by {}
    let mut out = String::new();
    match output {
        OutputFormat::Text => {
            if n == 0 {
                push_str(&mut out, "No churn data found.");
                return out;
            }
            push_str(&mut out, "File churn rankings\n");
            let ghost head = out@;
            let mut k: usize = 0;
            while k < n
                invariant
                    k <= n,
                    n <= order@.len(),
                    n == rows.len(),
                    s == m@,
                    forall|i: int| 0 <= i < order@.len() ==> #[trigger] order@[i] < s.len(),
                    forall|i: int| 0 <= i < n ==> #[trigger] rows[i] == s[order@[i] as int],
                    out@ == head + join(rows.take(k as int).map_values(|r: (Seq<char>, FileStats)| churn_text_line(r)), "\n"@),
                decreases n - k,
            {
                let idx = order[k];
                if k > 0 {
                    push_str(&mut out, "\n");
                }
                push_churn_text_line(&mut out, m.key_at(idx), m.value_at(idx));
                proof {
                    let f = |r: (Seq<char>, FileStats)| churn_text_line(r);
                    assert(rows.take(k + 1).map_values(f) =~= rows.take(k as int).map_values(f).push(f(rows[k as int])));
                    lemma_join_push(rows.take(k as int).map_values(f), "\n"@, f(rows[k as int]));
                }
                k = k + 1;
            }
            assert(rows.take(n as int) =~= rows);
        },
        OutputFormat::Json => {
            push_str(&mut out, "[");
            let ghost head = out@;
            let mut k: usize = 0;
            while k < n
                invariant
                    k <= n,
                    n <= order@.len(),
                    n == rows.len(),
                    s == m@,
                    forall|i: int| 0 <= i < order@.len() ==> #[trigger] order@[i] < s.len(),
                    forall|i: int| 0 <= i < n ==> #[trigger] rows[i] == s[order@[i] as int],
                    out@ == head + join(rows.take(k as int).map_values(|r: (Seq<char>, FileStats)| churn_json_item(r)), ","@),
                decreases n - k,
            {
                let idx = order[k];
                if k > 0 {
                    push_str(&mut out, ",");
                }
                push_churn_json_item(&mut out, m.key_at(idx), m.value_at(idx));
                proof {
                    let f = |r: (Seq<char>, FileStats)| churn_json_item(r);
                    assert(rows.take(k + 1).map_values(f) =~= rows.take(k as int).map_values(f).push(f(rows[k as int])));
                    lemma_join_push(rows.take(k as int).map_values(f), ","@, f(rows[k as int]));
                }
                k = k + 1;
            }
            assert(rows.take(n as int) =~= rows);
            push_str(&mut out, "]");
        },
        OutputFormat::Csv => {
            push_str(&mut out, "file,modifications,lines_added,lines_deleted");
            let ghost head = out@;
            let mut k: usize = 0;
            while k < n
                invariant
                    k <= n,
                    n <= order@.len(),
                    n == rows.len(),
                    s == m@,
                    forall|i: int| 0 <= i < order@.len() ==> #[trigger] order@[i] < s.len(),
                    forall|i: int| 0 <= i < n ==> #[trigger] rows[i] == s[order@[i] as int],
                    out@ == head + prefixed(rows.take(k as int).map_values(|r: (Seq<char>, FileStats)| churn_csv_record(r)), "\n"@),
                decreases n - k,
            {
                let idx = order[k];
                push_str(&mut out, "\n");
                push_churn_csv_record(&mut out, m.key_at(idx), m.value_at(idx));
                proof {
                    let f = |r: (Seq<char>, FileStats)| churn_csv_record(r);
                    assert(rows.take(k + 1).map_values(f) =~= rows.take(k as int).map_values(f).push(f(rows[k as int])));
                    lemma_prefixed_push(rows.take(k as int).map_values(f), "\n"@, f(rows[k as int]));
                }
                k = k + 1;
            }
            assert(rows.take(n as int) =~= rows);
        },
    }
    out
}

/// The views of a sequence of strings.
pub open spec fn views(v: Seq<String>) -> Seq<Seq<char>> {
    v.map_values(|x: String| x@)
}

/// Appends `parts` joined with `sep`.
pub(crate) fn push_join(out: &mut String, parts: &Vec<String>, sep: &str)
    ensures
        final(out)@ == old(out)@ + join(views(parts@), sep@),
{
    let ghost o0 = out@;
    let mut k: usize = 0;
    while k < parts.len()
        invariant
            k <= parts@.len(),
            out@ == o0 + join(views(parts@).take(k as int), sep@),
        decreases parts@.len() - k,
    {
        if k > 0 {
            push_str(out, sep);
        }
        push_str(out, parts[k].as_str());
        proof {
            assert(views(parts@).take(k + 1) =~= views(parts@).take(k as int).push(parts@[k as int]@));
            lemma_join_push(views(parts@).take(k as int), sep@, parts@[k as int]@);
            if k == 0 {
                assert(views(parts@).take(0) =~= Seq::<Seq<char>>::empty());
            }
        }
        k = k + 1;
    }
    assert(views(parts@).take(parts@.len() as int) =~= views(parts@));
}

/// Appends each of `parts`, each preceded by `pre`.
fn push_prefixed(out: &mut String, parts: &Vec<String>, pre: &str)
    ensures
        final(out)@ == old(out)@ + prefixed(views(parts@), pre@),
{
    let ghost o0 = out@;
    let mut k: usize = 0;
    assert(views(parts@).take(0) =~= Seq::<Seq<char>>::empty());
    while k < parts.len()
        invariant
            k <= parts@.len(),
            out@ == o0 + prefixed(views(parts@).take(k as int), pre@),
        decreases parts@.len() - k,
    {
        push_str(out, pre);
        push_str(out, parts[k].as_str());
        proof {
            assert(views(parts@).take(k + 1) =~= views(parts@).take(k as int).push(parts@[k as int]@));
            lemma_prefixed_push(views(parts@).take(k as int), pre@, parts@[k as int]@);
        }
        k = k + 1;
    }
    assert(views(parts@).take(parts@.len() as int) =~= views(parts@));
}

/// The ranking of `scores`, as indices.
fn order_of(scores: &Vec<u64>) -> (order: Vec<usize>)
    ensures
        order@.len() == scores@.len(),
        ranking(scores@).len() == scores@.len(),
        forall|i: int| 0 <= i < order@.len() ==> #[trigger] order@[i] < scores@.len(),
        forall|i: int| 0 <= i < order@.len() ==> #[trigger] order@[i] as int == ranking(scores@)[i],
{
    let order = rank_indices(scores);
    proof {
        assert forall|i: int| 0 <= i < order@.len() implies #[trigger] order@[i] as int == ranking(scores@)[i] by {
            assert(crate::rank::as_ints(order@)[i] == order@[i] as int);
        }
    }
    order
}

/// The values of a counting map, in map order.
pub open spec fn value_scores(s: Seq<(Seq<char>, u64)>) -> Seq<u64> {
    Seq::new(s.len(), |i: int| s[i].1)
}

/// The values of a counting map, in map order.
fn values_of(m: &StrMap<u64>) -> (v: Vec<u64>)
    ensures
        v@ == value_scores(m@),
{
    let n = m.len();
    let mut v: Vec<u64> = Vec::new();
    let mut i: usize = 0;
    while i < n
        invariant
            i <= n,
            n == m@.len(),
            v@ =~= value_scores(m@).take(i as int),
        decreases n - i,
    {
        v.push(*m.value_at(i));
        i = i + 1;
    }
    assert(v@ =~= value_scores(m@));
    v
}

/// `language:churn`, as the status report lists a language.
pub open spec fn lang_pair(r: (Seq<char>, u64)) -> Seq<char> {
    r.0 + ":"@ + dec(r.1 as nat)
}

/// One language as a JSON object.
pub open spec fn lang_json(r: (Seq<char>, u64)) -> Seq<char> {
    "{\"language\":\""@ + json_escaped(r.0) + "\",\"churn\":"@ + dec(r.1 as nat) + "}"@
}

/// The most modified file (ties by path), if any.
pub open spec fn most_modified(files: Seq<(Seq<char>, FileStats)>) -> Option<Seq<char>> {
    if files.len() == 0 {
        None
    } else {
        Some(files[ranking(modification_scores(files))[0]].0)
    }
}

/// The status report: totals, the number of contributors, the most
/// modified file and the languages by churn (ties by name), the top five
/// in text.
pub open spec fn status_report(m: Metrics, output: OutputFormat) -> Seq<char> {
    let langs = m.language_distribution@;
    let all = top_rows(langs, value_scores(langs), langs.len() as int);
    let top = top_rows(langs, value_scores(langs), 5);
    let most = most_modified(m.file_stats@);
    match output {
        OutputFormat::Text => "Repository status\n  commits: "@ + dec(m.total_commits as nat) + "\n  lines added: "@
            + dec(m.total_lines_added as nat) + "\n  lines deleted: "@ + dec(m.total_lines_deleted as nat)
            + "\n  contributors: "@ + dec(m.contributor_stats@.len()) + "\n  most modified file: "@ + match most {
            Some(p) => p,
            None => "n/a"@,
        } + "\n  language distribution (top): "@ + if top.len() == 0 {
            "n/a"@
        } else {
            join(top.map_values(|r: (Seq<char>, u64)| lang_pair(r)), ", "@)
        },
        OutputFormat::Json => "{\"commits\":"@ + dec(m.total_commits as nat) + ",\"lines_added\":"@ + dec(
            m.total_lines_added as nat,
        ) + ",\"lines_deleted\":"@ + dec(m.total_lines_deleted as nat) + ",\"contributors\":"@ + dec(
            m.contributor_stats@.len(),
        ) + ",\"most_modified_file\":"@ + match most {
            Some(p) => "\""@ + json_escaped(p) + "\""@,
            None => "null"@,
        } + ",\"language_distribution\":["@ + join(all.map_values(|r: (Seq<char>, u64)| lang_json(r)), ","@) + "]}"@,
        OutputFormat::Csv => "metric,value\ncommits,"@ + dec(m.total_commits as nat) + "\nlines_added,"@ + dec(
            m.total_lines_added as nat,
        ) + "\nlines_deleted,"@ + dec(m.total_lines_deleted as nat) + "\ncontributors,"@ + dec(
            m.contributor_stats@.len(),
        ) + "\nmost_modified_file,"@ + match most {
            Some(p) => p,
            None => Seq::empty(),
        },
    }
}

/// The languages of `m`, ranked by churn and cut to `limit`, rendered one
/// by one with `pair` (text) or as JSON objects.
fn language_items(m: &StrMap<u64>, limit: usize, text: bool) -> (items: Vec<String>)
    ensures
        views(items@) == top_rows(m@, value_scores(m@), limit as int).map_values(
            |r: (Seq<char>, u64)| if text { lang_pair(r) } else { lang_json(r) },
        ),
{
    let scores = values_of(m);
    let order = order_of(&scores);
    let n: usize = if order.len() < limit { order.len() } else { limit };
    let ghost s = m@;
    let ghost rows = top_rows(s, value_scores(s), limit as int);
    let ghost f = |r: (Seq<char>, u64)| if text { lang_pair(r) } else { lang_json(r) };
    assert(rows.len() == n);
    let mut items: Vec<String> = Vec::new();
    let mut k: usize = 0;
    while k < n
        invariant
            k <= n,
            n <= order@.len(),
            n == rows.len(),
            s == m@,
            scores@ == value_scores(s),
            order@.len() == s.len(),
            forall|i: int| 0 <= i < order@.len() ==> #[trigger] order@[i] < s.len(),
            forall|i: int| 0 <= i < n ==> #[trigger] rows[i] == s[order@[i] as int],
            f == (|r: (Seq<char>, u64)| if text { lang_pair(r) } else { lang_json(r) }),
            views(items@) =~= rows.take(k as int).map_values(f),
        decreases n - k,
    {
        let idx = order[k];
        let key = m.key_at(idx);
        let value = *m.value_at(idx);
        let mut item = String::new();
        if text {
            push_str(&mut item, key.as_str());
            push_str(&mut item, ":");
            push_u64(&mut item, value);
        } else {
            push_str(&mut item, "{\"language\":\"");
            push_str(&mut item, json_escape(key.as_str()).as_str());
            push_str(&mut item, "\",\"churn\":");
            push_u64(&mut item, value);
            push_str(&mut item, "}");
        }
        assert(item@ =~= f(rows[k as int]));
        items.push(item);
        proof {
            assert(rows.take(k + 1).map_values(f) =~= rows.take(k as int).map_values(f).push(f(rows[k as int])));
        }
        k = k + 1;
    }
    assert(rows.take(n as int) =~= rows);
    items
}

/// Appends a decimal number.
fn push_count(out: &mut String, label: &str, n: u64)
    ensures
        final(out)@ == old(out)@ + label@ + dec(n as nat),
{
    push_str(out, label);
    push_u64(out, n);
}

/// The repository status report: commit and line totals, the number of
/// contributors, the most modified file and the language distribution
/// (top five in text), as text, JSON or CSV.
pub fn render_status(metrics: &Metrics, output: OutputFormat) -> (r: String)
    ensures
        r@ == status_report(*metrics, output),
{
    let files = &metrics.file_stats;
    let order = file_order(files);
    let most: Option<&String> = if order.len() > 0 { Some(files.key_at(order[0])) } else { None };
    assert(most matches Some(p) ==> most_modified(files@) == Some(p@));
    assert(most is None ==> most_modified(files@) is None);
    let contributors = metrics.contributor_stats.len() as u64;
    assert(contributors as nat == metrics.contributor_stats@.len());
    let langs = &metrics.language_distribution;
    let mut out = String::new();
    match output {
        OutputFormat::Text => {
            let top = language_items(langs, 5, true);
            assert(views(top@) =~= top_rows(langs@, value_scores(langs@), 5).map_values(|r: (Seq<char>, u64)| lang_pair(r)));
            push_count(&mut out, "Repository status\n  commits: ", metrics.total_commits);
            push_count(&mut out, "\n  lines added: ", metrics.total_lines_added);
            push_count(&mut out, "\n  lines deleted: ", metrics.total_lines_deleted);
            push_count(&mut out, "\n  contributors: ", contributors);
            push_str(&mut out, "\n  most modified file: ");
            match most {
                Some(p) => push_str(&mut out, p.as_str()),
                None => push_str(&mut out, "n/a"),
            }
            push_str(&mut out, "\n  language distribution (top): ");
            if top.len() == 0 {
                push_str(&mut out, "n/a");
            } else {
                push_join(&mut out, &top, ", ");
            }
            assert(out@ =~= status_report(*metrics, output));
        },
        OutputFormat::Json => {
            let nl = langs.len();
            let all = language_items(langs, nl, false);
            assert(views(all@) =~= top_rows(langs@, value_scores(langs@), nl as int).map_values(|r: (Seq<char>, u64)| lang_json(r)));
            push_count(&mut out, "{\"commits\":", metrics.total_commits);
            push_count(&mut out, ",\"lines_added\":", metrics.total_lines_added);
            push_count(&mut out, ",\"lines_deleted\":", metrics.total_lines_deleted);
            push_count(&mut out, ",\"contributors\":", contributors);
            push_str(&mut out, ",\"most_modified_file\":");
            match most {
                Some(p) => {
                    push_str(&mut out, "\"");
                    push_str(&mut out, json_escape(p.as_str()).as_str());
                    push_str(&mut out, "\"");
                },
                None => push_str(&mut out, "null"),
            }
            push_str(&mut out, ",\"language_distribution\":[");
            push_join(&mut out, &all, ",");
            push_str(&mut out, "]}");
            assert(out@ =~= status_report(*metrics, output));
        },
        OutputFormat::Csv => {
            push_count(&mut out, "metric,value\ncommits,", metrics.total_commits);
            push_count(&mut out, "\nlines_added,", metrics.total_lines_added);
            push_count(&mut out, "\nlines_deleted,", metrics.total_lines_deleted);
            push_count(&mut out, "\ncontributors,", contributors);
            push_str(&mut out, "\nmost_modified_file,");
            match most {
                Some(p) => push_str(&mut out, p.as_str()),
                None => {},
            }
            assert(out@ =~= status_report(*metrics, output));
        },
    }
    assert(out@ =~= status_report(*metrics, output));
    out
}

/// The commit counts of the contributor entries, in map order.
pub open spec fn commit_scores(s: Seq<(Seq<char>, ContributorStats)>) -> Seq<u64> {
    Seq::new(s.len(), |i: int| s[i].1.commits)
}

/// How many contributors, most commits first, made at least half of the
/// commits (0 with no commit).
pub fn estimate_bus_factor(contributors: &StrMap<ContributorStats>) -> (k: u64)
    ensures
        k == bus_factor(commit_scores(contributors@)),
{
    let n = contributors.len();
    let mut scores: Vec<u64> = Vec::new();
    let mut i: usize = 0;
    while i < n
        invariant
            i <= n,
            n == contributors@.len(),
            scores@ =~= commit_scores(contributors@).take(i as int),
        decreases n - i,
    {
        scores.push(contributors.value_at(i).commits);
        i = i + 1;
    }
    assert(scores@ =~= commit_scores(contributors@));
    half_cover_count(&scores)
}

/// One line of the contributor table.
pub open spec fn contributor_text_line(r: (Seq<char>, ContributorStats)) -> Seq<char> {
    "  "@ + r.0 + " | commits="@ + dec(r.1.commits as nat) + " added="@ + dec(r.1.lines_added as nat) + " deleted="@
        + dec(r.1.lines_deleted as nat)
}

/// One contributor as a JSON object.
pub open spec fn contributor_json_item(r: (Seq<char>, ContributorStats)) -> Seq<char> {
    "{\"author\":\""@ + json_escaped(r.0) + "\",\"commits\":"@ + dec(r.1.commits as nat) + ",\"lines_added\":"@
        + dec(r.1.lines_added as nat) + ",\"lines_deleted\":"@ + dec(r.1.lines_deleted as nat) + "}"@
}

/// One contributor as a CSV record.
pub open spec fn contributor_csv_record(r: (Seq<char>, ContributorStats)) -> Seq<char> {
    "\""@ + csv_doubled(r.0) + "\","@ + dec(r.1.commits as nat) + ","@ + dec(r.1.lines_added as nat) + ","@ + dec(
        r.1.lines_deleted as nat,
    )
}

/// One rendering of a contributor row, by format.
pub open spec fn contributor_item(r: (Seq<char>, ContributorStats), output: OutputFormat) -> Seq<char> {
    match output {
        OutputFormat::Text => contributor_text_line(r),
        OutputFormat::Json => contributor_json_item(r),
        OutputFormat::Csv => contributor_csv_record(r),
    }
}

/// The contributor report: every contributor, most commits first (ties by
/// name), with the bus factor by commits.
pub open spec fn contributors_report(m: Metrics, output: OutputFormat) -> Seq<char> {
    let s = m.contributor_stats@;
    let rows = top_rows(s, commit_scores(s), s.len() as int);
    let items = rows.map_values(|r: (Seq<char>, ContributorStats)| contributor_item(r, output));
    let bf = dec(bus_factor(commit_scores(s)) as nat);
    match output {
        OutputFormat::Text => if rows.len() == 0 {
            "No contributor activity found."@
        } else {
            "Contributor activity (bus factor: "@ + bf + ")\n"@ + join(items, "\n"@)
        },
        OutputFormat::Json => "{\"bus_factor\":"@ + bf + ",\"contributors\":["@ + join(items, ","@) + "]}"@,
        OutputFormat::Csv => "bus_factor,"@ + bf + "\nauthor,commits,lines_added,lines_deleted"@ + prefixed(items, "\n"@),
    }
}

/// The contributor report: every contributor with commits, lines added and
/// deleted, most commits first (equal counts by name), and the bus factor,
/// as text, JSON or CSV.
pub fn render_contributors(metrics: &Metrics, output: OutputFormat) -> (r: String)
    ensures
        r@ == contributors_report(*metrics, output),
{
    let m = &metrics.contributor_stats;
    let bf = estimate_bus_factor(m);
    let n = m.len();
    let mut scores: Vec<u64> = Vec::new();
    let mut i: usize = 0;
    while i < n
        invariant
            i <= n,
            n == m@.len(),
            scores@ =~= commit_scores(m@).take(i as int),
        decreases n - i,
    {
        scores.push(m.value_at(i).commits);
        i = i + 1;
    }
    assert(scores@ =~= commit_scores(m@));
    let order = order_of(&scores);
    let ghost s = m@;
    let ghost rows = top_rows(s, commit_scores(s), s.len() as int);
    assert(rows.len() == n);
    let mut items: Vec<String> = Vec::new();
    let mut k: usize = 0;
    while k < n
        invariant
            k <= n,
            n == s.len(),
            n == rows.len(),
            s == m@,
            scores@ == commit_scores(s),
            order@.len() == n,
            rows == top_rows(s, commit_scores(s), s.len() as int),
            forall|i: int| 0 <= i < n ==> #[trigger] order@[i] < n,
            forall|i: int| 0 <= i < n ==> #[trigger] order@[i] as int == ranking(scores@)[i],
            items@.len() == k,
            forall|i: int| 0 <= i < k ==> #[trigger] items@[i]@ == contributor_item(rows[i], output),
        decreases n - k,
    {
        let idx = order[k];
        let name = m.key_at(idx);
        let c = m.value_at(idx);
        let mut item = String::new();
        match output {
            OutputFormat::Text => {
                push_str(&mut item, "  ");
                push_str(&mut item, name.as_str());
                push_count(&mut item, " | commits=", c.commits);
                push_count(&mut item, " added=", c.lines_added);
                push_count(&mut item, " deleted=", c.lines_deleted);
            },
            OutputFormat::Json => {
                push_str(&mut item, "{\"author\":\"");
                push_str(&mut item, json_escape(name.as_str()).as_str());
                push_count(&mut item, "\",\"commits\":", c.commits);
                push_count(&mut item, ",\"lines_added\":", c.lines_added);
                push_count(&mut item, ",\"lines_deleted\":", c.lines_deleted);
                push_str(&mut item, "}");
            },
            OutputFormat::Csv => {
                push_str(&mut item, "\"");
                push_csv_doubled(&mut item, name.as_str());
                push_count(&mut item, "\",", c.commits);
                push_count(&mut item, ",", c.lines_added);
                push_count(&mut item, ",", c.lines_deleted);
            },
        }
        assert(rows[k as int] == s[order@[k as int] as int]);
        assert(item@ =~= contributor_item(rows[k as int], output));
        items.push(item);
        k = k + 1;
    }
    let ghost its = rows.map_values(|r: (Seq<char>, ContributorStats)| contributor_item(r, output));
    assert(views(items@) =~= its);
    let mut out = String::new();
    match output {
        OutputFormat::Text => {
            if n == 0 {
                push_str(&mut out, "No contributor activity found.");
            } else {
                push_count(&mut out, "Contributor activity (bus factor: ", bf);
                push_str(&mut out, ")\n");
                push_join(&mut out, &items, "\n");
            }
        },
        OutputFormat::Json => {
            push_count(&mut out, "{\"bus_factor\":", bf);
            push_str(&mut out, ",\"contributors\":[");
            push_join(&mut out, &items, ",");
            push_str(&mut out, "]}");
        },
        OutputFormat::Csv => {
            push_count(&mut out, "bus_factor,", bf);
            push_str(&mut out, "\nauthor,commits,lines_added,lines_deleted");
            push_prefixed(&mut out, &items, "\n");
        },
    }
    assert(out@ =~= contributors_report(*metrics, output));
    out
}

/// A file's hotspot score: its modifications times its churn (at least 1).
pub open spec fn hotspot_score(f: FileStats) -> int {
    let churn = f.lines_added + f.lines_deleted;
    f.modifications * if churn > 1 { churn } else { 1 }
}

/// The hotspot scores of the file entries, in map order.
pub open spec fn hotspot_scores(s: Seq<(Seq<char>, FileStats)>) -> Seq<u64> {
    Seq::new(s.len(), |i: int| hotspot_score(s[i].1) as u64)
}

/// Every file's churn and hotspot score fit in 64 bits.
pub open spec fn hotspots_fit(s: Seq<(Seq<char>, FileStats)>) -> bool {
    forall|i: int| 0 <= i < s.len() ==> #[trigger] s[i].1.lines_added + s[i].1.lines_deleted <= u64::MAX
        && hotspot_score(s[i].1) <= u64::MAX
}

/// One rendering of a hotspot row, by format.
pub open spec fn hotspot_item(r: (Seq<char>, FileStats), output: OutputFormat) -> Seq<char> {
    let score = dec(hotspot_score(r.1) as nat);
    let edits = dec(r.1.modifications as nat);
    match output {
        OutputFormat::Text => "  "@ + r.0 + " | score="@ + score + " edits="@ + edits,
        OutputFormat::Json => "{\"file\":\""@ + json_escaped(r.0) + "\",\"score\":"@ + score + ",\"modifications\":"@ + edits + "}"@,
        OutputFormat::Csv => "\""@ + csv_doubled(r.0) + "\","@ + score + ","@ + edits,
    }
}

/// The hotspot report: the 20 files with the highest score (ties by path).
pub open spec fn hotspots_report(m: Metrics, output: OutputFormat) -> Seq<char> {
    let s = m.file_stats@;
    let rows = top_rows(s, hotspot_scores(s), 20);
    let items = rows.map_values(|r: (Seq<char>, FileStats)| hotspot_item(r, output));
    match output {
        OutputFormat::Text => if rows.len() == 0 {
            "No hotspot data found."@
        } else {
            "Hotspot analysis\n"@ + join(items, "\n"@)
        },
        OutputFormat::Json => "["@ + join(items, ","@) + "]"@,
        OutputFormat::Csv => "file,score,modifications"@ + prefixed(items, "\n"@),
    }
}

/// The hotspot report: the 20 files with the highest modifications times
/// churn, highest first (equal scores by path), as text, JSON or CSV.
pub fn render_hotspots(metrics: &Metrics, output: OutputFormat) -> (r: String)
    requires
        hotspots_fit(metrics.file_stats@),
    ensures
        r@ == hotspots_report(*metrics, output),
{
    let m = &metrics.file_stats;
    let n = m.len();
    let mut scores: Vec<u64> = Vec::new();
    let mut i: usize = 0;
    while i < n
        invariant
            i <= n,
            n == m@.len(),
            hotspots_fit(m@),
            scores@ =~= hotspot_scores(m@).take(i as int),
        decreases n - i,
    {
        let f = m.value_at(i);
        assert(m@[i as int].1.lines_added + m@[i as int].1.lines_deleted <= u64::MAX && hotspot_score(m@[i as int].1) <= u64::MAX);
        let churn = f.lines_added + f.lines_deleted;
        let factor = if churn > 1 { churn } else { 1 };
        scores.push(f.modifications * factor);
        i = i + 1;
    }
    assert(scores@ =~= hotspot_scores(m@));
    let order = order_of(&scores);
    let count: usize = if n < 20 { n } else { 20 };
    let ghost s = m@;
    let ghost rows = top_rows(s, hotspot_scores(s), 20);
    assert(rows.len() == count);
    let mut items: Vec<String> = Vec::new();
    let mut k: usize = 0;
    while k < count
        invariant
            k <= count,
            count <= n,
            n == s.len(),
            count == rows.len(),
            s == m@,
            scores@ == hotspot_scores(s),
            order@.len() == n,
            rows == top_rows(s, hotspot_scores(s), 20),
            hotspots_fit(s),
            forall|i: int| 0 <= i < n ==> #[trigger] order@[i] < n,
            forall|i: int| 0 <= i < n ==> #[trigger] order@[i] as int == ranking(scores@)[i],
            items@.len() == k,
            forall|i: int| 0 <= i < k ==> #[trigger] items@[i]@ == hotspot_item(rows[i], output),
        decreases count - k,
    {
        let idx = order[k];
        let path = m.key_at(idx);
        let f = m.value_at(idx);
        let score = scores[idx];
        let mut item = String::new();
        match output {
            OutputFormat::Text => {
                push_str(&mut item, "  ");
                push_str(&mut item, path.as_str());
                push_count(&mut item, " | score=", score);
                push_count(&mut item, " edits=", f.modifications);
            },
            OutputFormat::Json => {
                push_str(&mut item, "{\"file\":\"");
                push_str(&mut item, json_escape(path.as_str()).as_str());
                push_count(&mut item, "\",\"score\":", score);
                push_count(&mut item, ",\"modifications\":", f.modifications);
                push_str(&mut item, "}");
            },
            OutputFormat::Csv => {
                push_str(&mut item, "\"");
                push_csv_doubled(&mut item, path.as_str());
                push_count(&mut item, "\",", score);
                push_count(&mut item, ",", f.modifications);
            },
        }
        assert(rows[k as int] == s[order@[k as int] as int]);
        proof {
            let fs = s[idx as int].1;
            let c: int = fs.lines_added + fs.lines_deleted;
            let factor: int = if c > 1 { c } else { 1 };
            assert(fs.modifications * factor >= 0) by (nonlinear_arith)
                requires
                    fs.modifications >= 0,
                    factor >= 1,
            ;
            assert(hotspot_score(fs) <= u64::MAX);
        }
        assert(item@ =~= hotspot_item(rows[k as int], output));
        items.push(item);
        k = k + 1;
    }
    assert(views(items@) =~= rows.map_values(|r: (Seq<char>, FileStats)| hotspot_item(r, output)));
    let mut out = String::new();
    match output {
        OutputFormat::Text => {
            if count == 0 {
                push_str(&mut out, "No hotspot data found.");
            } else {
                push_str(&mut out, "Hotspot analysis\n");
                push_join(&mut out, &items, "\n");
            }
        },
        OutputFormat::Json => {
            push_str(&mut out, "[");
            push_join(&mut out, &items, ",");
            push_str(&mut out, "]");
        },
        OutputFormat::Csv => {
            push_str(&mut out, "file,score,modifications");
            push_prefixed(&mut out, &items, "\n");
        },
    }
    assert(out@ =~= hotspots_report(*metrics, output));
    out
}

/// One rendering of a timeline row, by format; `bar` is the row's bar in
/// text.
pub open spec fn timeline_item(r: (Seq<char>, u64), bar: Seq<char>, output: OutputFormat) -> Seq<char> {
    match output {
        OutputFormat::Text => "  "@ + r.0 + " "@ + bar + " ("@ + dec(r.1 as nat) + ")"@,
        OutputFormat::Json => "{\"date\":\""@ + json_escaped(r.0) + "\",\"commits\":"@ + dec(r.1 as nat) + "}"@,
        OutputFormat::Csv => r.0 + ","@ + dec(r.1 as nat),
    }
}

/// The timeline report: commits per date in date order; in text, each date
/// with its bar from `bars`.
pub open spec fn timeline_report(m: Metrics, output: OutputFormat, bars: Seq<Seq<char>>) -> Seq<char> {
    let s = m.commit_frequency@;
    let items = Seq::new(s.len(), |i: int| timeline_item(s[i], bars[i], output));
    match output {
        OutputFormat::Text => if s.len() == 0 {
            "No timeline data found."@
        } else {
            "Commit timeline\n"@ + join(items, "\n"@)
        },
        OutputFormat::Json => "["@ + join(items, ","@) + "]"@,
        OutputFormat::Csv => "date,commits"@ + prefixed(items, "\n"@),
    }
}

/// The commit timeline: commits per date in ascending date order, as text
/// (each date with its bar from `bars`, one per date), JSON or CSV.
pub fn render_timeline(metrics: &Metrics, output: OutputFormat, bars: &Vec<String>) -> (r: String)
    requires
        bars@.len() == metrics.commit_frequency@.len(),
    ensures
        r@ == timeline_report(*metrics, output, views(bars@)),
{
    let m = &metrics.commit_frequency;
    let n = m.len();
    let ghost s = m@;
    let mut items: Vec<String> = Vec::new();
    let mut k: usize = 0;
    while k < n
        invariant
            k <= n,
            n == s.len(),
            s == m@,
            bars@.len() == n,
            items@.len() == k,
            forall|i: int| 0 <= i < k ==> #[trigger] items@[i]@ == timeline_item(s[i], bars@[i]@, output),
        decreases n - k,
    {
        let date = m.key_at(k);
        let count = *m.value_at(k);
        let mut item = String::new();
        match output {
            OutputFormat::Text => {
                push_str(&mut item, "  ");
                push_str(&mut item, date.as_str());
                push_str(&mut item, " ");
                push_str(&mut item, bars[k].as_str());
                push_count(&mut item, " (", count);
                push_str(&mut item, ")");
            },
            OutputFormat::Json => {
                push_str(&mut item, "{\"date\":\"");
                push_str(&mut item, json_escape(date.as_str()).as_str());
                push_count(&mut item, "\",\"commits\":", count);
                push_str(&mut item, "}");
            },
            OutputFormat::Csv => {
                push_str(&mut item, date.as_str());
                push_count(&mut item, ",", count);
            },
        }
        assert(item@ =~= timeline_item(s[k as int], bars@[k as int]@, output));
        items.push(item);
        k = k + 1;
    }
    assert(views(items@) =~= Seq::new(s.len(), |i: int| timeline_item(s[i], views(bars@)[i], output)));
    let mut out = String::new();
    match output {
        OutputFormat::Text => {
            if n == 0 {
                push_str(&mut out, "No timeline data found.");
            } else {
                push_str(&mut out, "Commit timeline\n");
                push_join(&mut out, &items, "\n");
            }
        },
        OutputFormat::Json => {
            push_str(&mut out, "[");
            push_join(&mut out, &items, ",");
            push_str(&mut out, "]");
        },
        OutputFormat::Csv => {
            push_str(&mut out, "date,commits");
            push_prefixed(&mut out, &items, "\n");
        },
    }
    assert(out@ =~= timeline_report(*metrics, output, views(bars@)));
    out
}

/// Every part stands in the join of the parts.
pub proof fn lemma_join_occurs(parts: Seq<Seq<char>>, sep: Seq<char>, k: int) -> (i: int)
    requires
        0 <= k < parts.len(),
    ensures
        occurs_at(join(parts, sep), parts[k], i),
    decreases parts.len(),
{
    if parts.len() == 1 {
        assert(join(parts, sep).subrange(0, parts[0].len() as int) =~= parts[0]);
        0
    } else {
        let pre = parts.drop_last();
        let head = join(pre, sep) + sep;
        if k == parts.len() - 1 {
            assert(parts.last().subrange(0, parts.last().len() as int) =~= parts.last());
            lemma_occurs_right(head, parts.last(), parts.last(), 0);
            head.len() as int
        } else {
            let j = lemma_join_occurs(pre, sep, k);
            assert(pre[k] == parts[k]);
            lemma_occurs_left(join(pre, sep), sep, parts[k], j);
            lemma_occurs_left(head, parts.last(), parts[k], j);
            j
        }
    }
}

/// In the text churn report, every listed file has a line that shows its
/// path, then after `edits=` its modifications, after `added=` its lines
/// added and after `deleted=` its lines deleted.
pub proof fn law_churn_text_shows_counts(s: Seq<(Seq<char>, FileStats)>, k: int)
    requires
        0 <= k < top_rows(s, modification_scores(s), 20).len(),
    ensures
        occurs_in(
            churn_report(s, OutputFormat::Text),
            "  "@ + top_rows(s, modification_scores(s), 20)[k].0 + " | edits="@
                + dec(top_rows(s, modification_scores(s), 20)[k].1.modifications as nat) + " added="@
                + dec(top_rows(s, modification_scores(s), 20)[k].1.lines_added as nat) + " deleted="@
                + dec(top_rows(s, modification_scores(s), 20)[k].1.lines_deleted as nat),
        ),
{
    let rows = top_rows(s, modification_scores(s), 20);
    let r = rows[k];
    let line = "  "@ + r.0 + " | edits="@ + dec(r.1.modifications as nat) + " added="@ + dec(r.1.lines_added as nat)
        + " deleted="@ + dec(r.1.lines_deleted as nat);
    let lines = rows.map_values(|x: (Seq<char>, FileStats)| churn_text_line(x));
    assert(lines[k] == line);
    let i = lemma_join_occurs(lines, "\n"@, k);
    lemma_occurs_right("File churn rankings\n"@, join(lines, "\n"@), line, i);
    assert(occurs_at(churn_report(s, OutputFormat::Text), line, "File churn rankings\n"@.len() + i));
}

/// Every part stands in the parts written each after `pre`.
pub proof fn lemma_prefixed_occurs(parts: Seq<Seq<char>>, pre: Seq<char>, k: int) -> (i: int)
    requires
        0 <= k < parts.len(),
    ensures
        occurs_at(prefixed(parts, pre), parts[k], i),
    decreases parts.len(),
{
    let head = prefixed(parts.drop_last(), pre) + pre;
    if k == parts.len() - 1 {
        assert(parts.last().subrange(0, parts.last().len() as int) =~= parts.last());
        lemma_occurs_right(head, parts.last(), parts.last(), 0);
        head.len() as int
    } else {
        let j = lemma_prefixed_occurs(parts.drop_last(), pre, k);
        assert(parts.drop_last()[k] == parts[k]);
        lemma_occurs_left(prefixed(parts.drop_last(), pre), pre, parts[k], j);
        lemma_occurs_left(head, parts.last(), parts[k], j);
        j
    }
}

/// What stands in `mid` stands in `a + mid + b`.
pub proof fn lemma_occurs_mid(a: Seq<char>, mid: Seq<char>, b: Seq<char>, part: Seq<char>, i: int)
    requires
        occurs_at(mid, part, i),
    ensures
        occurs_at(a + mid + b, part, a.len() + i),
{
    lemma_occurs_right(a, mid, part, i);
    lemma_occurs_left(a + mid, b, part, a.len() + i);
}

/// In the JSON and CSV churn reports, every listed file's object (record)
/// carries its modifications under `modifications`, its lines added under
/// `lines_added` and its lines deleted under `lines_deleted` (the CSV
/// header's order).
pub proof fn law_churn_json_csv_show_counts(s: Seq<(Seq<char>, FileStats)>, k: int)
    requires
        0 <= k < top_rows(s, modification_scores(s), 20).len(),
    ensures
        occurs_in(
            churn_report(s, OutputFormat::Json),
            "{\"file\":\""@ + json_escaped(top_rows(s, modification_scores(s), 20)[k].0) + "\",\"modifications\":"@
                + dec(top_rows(s, modification_scores(s), 20)[k].1.modifications as nat) + ",\"lines_added\":"@
                + dec(top_rows(s, modification_scores(s), 20)[k].1.lines_added as nat) + ",\"lines_deleted\":"@
                + dec(top_rows(s, modification_scores(s), 20)[k].1.lines_deleted as nat) + "}"@,
        ),
        churn_report(s, OutputFormat::Csv).take(44) == "file,modifications,lines_added,lines_deleted"@,
        occurs_in(
            churn_report(s, OutputFormat::Csv),
            "\""@ + csv_doubled(top_rows(s, modification_scores(s), 20)[k].0) + "\","@
                + dec(top_rows(s, modification_scores(s), 20)[k].1.modifications as nat) + ","@
                + dec(top_rows(s, modification_scores(s), 20)[k].1.lines_added as nat) + ","@
                + dec(top_rows(s, modification_scores(s), 20)[k].1.lines_deleted as nat),
        ),
{
    let rows = top_rows(s, modification_scores(s), 20);
    let r = rows[k];
    let json = "{\"file\":\""@ + json_escaped(r.0) + "\",\"modifications\":"@ + dec(r.1.modifications as nat)
        + ",\"lines_added\":"@ + dec(r.1.lines_added as nat) + ",\"lines_deleted\":"@ + dec(r.1.lines_deleted as nat)
        + "}"@;
    let items = rows.map_values(|x: (Seq<char>, FileStats)| churn_json_item(x));
    assert(items[k] == json);
    let i = lemma_join_occurs(items, ","@, k);
    lemma_occurs_mid("["@, join(items, ","@), "]"@, json, i);
    assert(occurs_at(churn_report(s, OutputFormat::Json), json, "["@.len() + i));
    let csv = "\""@ + csv_doubled(r.0) + "\","@ + dec(r.1.modifications as nat) + ","@ + dec(r.1.lines_added as nat)
        + ","@ + dec(r.1.lines_deleted as nat);
    let recs = rows.map_values(|x: (Seq<char>, FileStats)| churn_csv_record(x));
    assert(recs[k] == csv);
    let j = lemma_prefixed_occurs(recs, "\n"@, k);
    let head = "file,modifications,lines_added,lines_deleted"@;
    lemma_occurs_right(head, prefixed(recs, "\n"@), csv, j);
    assert(occurs_at(churn_report(s, OutputFormat::Csv), csv, head.len() + j));
    reveal_strlit("file,modifications,lines_added,lines_deleted");
    assert(churn_report(s, OutputFormat::Csv).take(44) =~= head);
}

/// In every form of the contributor report, each contributor's line,
/// object or record shows its commits, then its lines added, then its lines
/// deleted, each under its own name.
pub proof fn law_contributors_report_show_counts(m: Metrics, k: int)
    requires
        0 <= k < top_rows(m.contributor_stats@, commit_scores(m.contributor_stats@), m.contributor_stats@.len() as int).len(),
    ensures
        occurs_in(
            contributors_report(m, OutputFormat::Text),
            "  "@ + top_rows(m.contributor_stats@, commit_scores(m.contributor_stats@), m.contributor_stats@.len() as int)[k].0
                + " | commits="@ + dec(top_rows(m.contributor_stats@, commit_scores(m.contributor_stats@), m.contributor_stats@.len() as int)[k].1.commits as nat)
                + " added="@ + dec(top_rows(m.contributor_stats@, commit_scores(m.contributor_stats@), m.contributor_stats@.len() as int)[k].1.lines_added as nat)
                + " deleted="@ + dec(top_rows(m.contributor_stats@, commit_scores(m.contributor_stats@), m.contributor_stats@.len() as int)[k].1.lines_deleted as nat),
        ),
        occurs_in(
            contributors_report(m, OutputFormat::Json),
            "{\"author\":\""@ + json_escaped(top_rows(m.contributor_stats@, commit_scores(m.contributor_stats@), m.contributor_stats@.len() as int)[k].0)
                + "\",\"commits\":"@ + dec(top_rows(m.contributor_stats@, commit_scores(m.contributor_stats@), m.contributor_stats@.len() as int)[k].1.commits as nat)
                + ",\"lines_added\":"@ + dec(top_rows(m.contributor_stats@, commit_scores(m.contributor_stats@), m.contributor_stats@.len() as int)[k].1.lines_added as nat)
                + ",\"lines_deleted\":"@ + dec(top_rows(m.contributor_stats@, commit_scores(m.contributor_stats@), m.contributor_stats@.len() as int)[k].1.lines_deleted as nat) + "}"@,
        ),
        occurs_in(
            contributors_report(m, OutputFormat::Csv),
            "\""@ + csv_doubled(top_rows(m.contributor_stats@, commit_scores(m.contributor_stats@), m.contributor_stats@.len() as int)[k].0)
                + "\","@ + dec(top_rows(m.contributor_stats@, commit_scores(m.contributor_stats@), m.contributor_stats@.len() as int)[k].1.commits as nat)
                + ","@ + dec(top_rows(m.contributor_stats@, commit_scores(m.contributor_stats@), m.contributor_stats@.len() as int)[k].1.lines_added as nat)
                + ","@ + dec(top_rows(m.contributor_stats@, commit_scores(m.contributor_stats@), m.contributor_stats@.len() as int)[k].1.lines_deleted as nat),
        ),
{
    let cs = m.contributor_stats@;
    let rows = top_rows(cs, commit_scores(cs), cs.len() as int);
    let r = rows[k];
    let bf = dec(bus_factor(commit_scores(cs)) as nat);
    let text = "  "@ + r.0 + " | commits="@ + dec(r.1.commits as nat) + " added="@ + dec(r.1.lines_added as nat)
        + " deleted="@ + dec(r.1.lines_deleted as nat);
    let ti = rows.map_values(|x: (Seq<char>, ContributorStats)| contributor_item(x, OutputFormat::Text));
    assert(ti[k] == text);
    let i = lemma_join_occurs(ti, "\n"@, k);
    let th = "Contributor activity (bus factor: "@ + bf + ")\n"@;
    lemma_occurs_right(th, join(ti, "\n"@), text, i);
    assert(occurs_at(contributors_report(m, OutputFormat::Text), text, th.len() + i));
    let json = "{\"author\":\""@ + json_escaped(r.0) + "\",\"commits\":"@ + dec(r.1.commits as nat) + ",\"lines_added\":"@
        + dec(r.1.lines_added as nat) + ",\"lines_deleted\":"@ + dec(r.1.lines_deleted as nat) + "}"@;
    let ji = rows.map_values(|x: (Seq<char>, ContributorStats)| contributor_item(x, OutputFormat::Json));
    assert(ji[k] == json);
    let j = lemma_join_occurs(ji, ","@, k);
    let jh = "{\"bus_factor\":"@ + bf + ",\"contributors\":["@;
    lemma_occurs_mid(jh, join(ji, ","@), "]}"@, json, j);
    assert(occurs_at(contributors_report(m, OutputFormat::Json), json, jh.len() + j));
    let csv = "\""@ + csv_doubled(r.0) + "\","@ + dec(r.1.commits as nat) + ","@ + dec(r.1.lines_added as nat) + ","@
        + dec(r.1.lines_deleted as nat);
    let ci = rows.map_values(|x: (Seq<char>, ContributorStats)| contributor_item(x, OutputFormat::Csv));
    assert(ci[k] == csv);
    let c = lemma_prefixed_occurs(ci, "\n"@, k);
    let ch = "bus_factor,"@ + bf + "\nauthor,commits,lines_added,lines_deleted"@;
    lemma_occurs_right(ch, prefixed(ci, "\n"@), csv, c);
    assert(occurs_at(contributors_report(m, OutputFormat::Csv), csv, ch.len() + c));
}

/// In every form of the hotspot report, each listed file shows as its score
/// its modifications times its churn (lines added plus deleted, at least
/// 1), and then its modifications.
pub proof fn law_hotspots_report_show_score(m: Metrics, k: int)
    requires
        0 <= k < top_rows(m.file_stats@, hotspot_scores(m.file_stats@), 20).len(),
    ensures
        ({
            let r = top_rows(m.file_stats@, hotspot_scores(m.file_stats@), 20)[k];
            let churn = r.1.lines_added + r.1.lines_deleted;
            let score = dec((r.1.modifications * (if churn > 1 { churn } else { 1 })) as nat);
            let edits = dec(r.1.modifications as nat);
            &&& occurs_in(hotspots_report(m, OutputFormat::Text), "  "@ + r.0 + " | score="@ + score + " edits="@ + edits)
            &&& occurs_in(
                hotspots_report(m, OutputFormat::Json),
                "{\"file\":\""@ + json_escaped(r.0) + "\",\"score\":"@ + score + ",\"modifications\":"@ + edits + "}"@,
            )
            &&& occurs_in(hotspots_report(m, OutputFormat::Csv), "\""@ + csv_doubled(r.0) + "\","@ + score + ","@ + edits)
        }),
{
    let fs = m.file_stats@;
    let rows = top_rows(fs, hotspot_scores(fs), 20);
    let r = rows[k];
    let churn = r.1.lines_added + r.1.lines_deleted;
    let score = dec((r.1.modifications * (if churn > 1 { churn } else { 1 })) as nat);
    let edits = dec(r.1.modifications as nat);
    let text = "  "@ + r.0 + " | score="@ + score + " edits="@ + edits;
    let ti = rows.map_values(|x: (Seq<char>, FileStats)| hotspot_item(x, OutputFormat::Text));
    assert(ti[k] == text);
    let i = lemma_join_occurs(ti, "\n"@, k);
    lemma_occurs_right("Hotspot analysis\n"@, join(ti, "\n"@), text, i);
    assert(occurs_at(hotspots_report(m, OutputFormat::Text), text, "Hotspot analysis\n"@.len() + i));
    let json = "{\"file\":\""@ + json_escaped(r.0) + "\",\"score\":"@ + score + ",\"modifications\":"@ + edits + "}"@;
    let ji = rows.map_values(|x: (Seq<char>, FileStats)| hotspot_item(x, OutputFormat::Json));
    assert(ji[k] == json);
    let j = lemma_join_occurs(ji, ","@, k);
    lemma_occurs_mid("["@, join(ji, ","@), "]"@, json, j);
    assert(occurs_at(hotspots_report(m, OutputFormat::Json), json, "["@.len() + j));
    let csv = "\""@ + csv_doubled(r.0) + "\","@ + score + ","@ + edits;
    let ci = rows.map_values(|x: (Seq<char>, FileStats)| hotspot_item(x, OutputFormat::Csv));
    assert(ci[k] == csv);
    let c = lemma_prefixed_occurs(ci, "\n"@, k);
    lemma_occurs_right("file,score,modifications"@, prefixed(ci, "\n"@), csv, c);
    assert(occurs_at(hotspots_report(m, OutputFormat::Csv), csv, "file,score,modifications"@.len() + c));
}

/// The status report opens with the totals, each under its own name: in
/// text `commits:`, `lines added:`, `lines deleted:` and `contributors:`
/// lines; in JSON the `commits`, `lines_added`, `lines_deleted` and
/// `contributors` members; in CSV the `commits`, `lines_added`,
/// `lines_deleted` and `contributors` metrics.
pub proof fn law_status_report_totals(m: Metrics)
    ensures
        ({
            let c = dec(m.total_commits as nat);
            let a = dec(m.total_lines_added as nat);
            let d = dec(m.total_lines_deleted as nat);
            let n = dec(m.contributor_stats@.len());
            let text = "Repository status\n  commits: "@ + c + "\n  lines added: "@ + a + "\n  lines deleted: "@ + d
                + "\n  contributors: "@ + n + "\n  most modified file: "@;
            let json = "{\"commits\":"@ + c + ",\"lines_added\":"@ + a + ",\"lines_deleted\":"@ + d + ",\"contributors\":"@
                + n + ",\"most_modified_file\":"@;
            let csv = "metric,value\ncommits,"@ + c + "\nlines_added,"@ + a + "\nlines_deleted,"@ + d + "\ncontributors,"@ + n
                + "\nmost_modified_file,"@;
            &&& status_report(m, OutputFormat::Text).take(text.len() as int) == text
            &&& status_report(m, OutputFormat::Json).take(json.len() as int) == json
            &&& status_report(m, OutputFormat::Csv).take(csv.len() as int) == csv
        }),
{
    let c = dec(m.total_commits as nat);
    let a = dec(m.total_lines_added as nat);
    let d = dec(m.total_lines_deleted as nat);
    let n = dec(m.contributor_stats@.len());
    let text = "Repository status\n  commits: "@ + c + "\n  lines added: "@ + a + "\n  lines deleted: "@ + d
        + "\n  contributors: "@ + n + "\n  most modified file: "@;
    let json = "{\"commits\":"@ + c + ",\"lines_added\":"@ + a + ",\"lines_deleted\":"@ + d + ",\"contributors\":"@ + n
        + ",\"most_modified_file\":"@;
    let csv = "metric,value\ncommits,"@ + c + "\nlines_added,"@ + a + "\nlines_deleted,"@ + d + "\ncontributors,"@ + n
        + "\nmost_modified_file,"@;
    let t = status_report(m, OutputFormat::Text);
    let j = status_report(m, OutputFormat::Json);
    let v = status_report(m, OutputFormat::Csv);
    assert(t.take(text.len() as int) =~= text);
    assert(j.take(json.len() as int) =~= json);
    assert(v.take(csv.len() as int) =~= csv);
}

/// In every form of the timeline report, each date shows its number of
/// commits: in text after the date and its bar, in parentheses; in JSON
/// under `commits`; in CSV after the date.
pub proof fn law_timeline_report_counts(m: Metrics, bars: Seq<Seq<char>>, k: int)
    requires
        0 <= k < m.commit_frequency@.len(),
        bars.len() == m.commit_frequency@.len(),
    ensures
        occurs_in(
            timeline_report(m, OutputFormat::Text, bars),
            "  "@ + m.commit_frequency@[k].0 + " "@ + bars[k] + " ("@ + dec(m.commit_frequency@[k].1 as nat) + ")"@,
        ),
        occurs_in(
            timeline_report(m, OutputFormat::Json, bars),
            "{\"date\":\""@ + json_escaped(m.commit_frequency@[k].0) + "\",\"commits\":"@ + dec(m.commit_frequency@[k].1 as nat) + "}"@,
        ),
        occurs_in(
            timeline_report(m, OutputFormat::Csv, bars),
            m.commit_frequency@[k].0 + ","@ + dec(m.commit_frequency@[k].1 as nat),
        ),
{
    let s = m.commit_frequency@;
    let r = s[k];
    let text = "  "@ + r.0 + " "@ + bars[k] + " ("@ + dec(r.1 as nat) + ")"@;
    let ti = Seq::new(s.len(), |i: int| timeline_item(s[i], bars[i], OutputFormat::Text));
    assert(ti[k] == text);
    let i = lemma_join_occurs(ti, "\n"@, k);
    lemma_occurs_right("Commit timeline\n"@, join(ti, "\n"@), text, i);
    assert(occurs_at(timeline_report(m, OutputFormat::Text, bars), text, "Commit timeline\n"@.len() + i));
    let json = "{\"date\":\""@ + json_escaped(r.0) + "\",\"commits\":"@ + dec(r.1 as nat) + "}"@;
    let ji = Seq::new(s.len(), |i: int| timeline_item(s[i], bars[i], OutputFormat::Json));
    assert(ji[k] == json);
    let j = lemma_join_occurs(ji, ","@, k);
    lemma_occurs_mid("["@, join(ji, ","@), "]"@, json, j);
    assert(occurs_at(timeline_report(m, OutputFormat::Json, bars), json, "["@.len() + j));
    let csv = r.0 + ","@ + dec(r.1 as nat);
    let ci = Seq::new(s.len(), |i: int| timeline_item(s[i], bars[i], OutputFormat::Csv));
    assert(ci[k] == csv);
    let c = lemma_prefixed_occurs(ci, "\n"@, k);
    lemma_occurs_right("date,commits"@, prefixed(ci, "\n"@), csv, c);
    assert(occurs_at(timeline_report(m, OutputFormat::Csv, bars), csv, "date,commits"@.len() + c));
}

/// The status report lists languages as `language:churn` in text (the top
/// five by churn) and as objects with the language under `language` and its
/// churn under `churn` in JSON (all of them).
pub proof fn law_status_report_languages(m: Metrics, k: int)
    requires
        0 <= k < top_rows(m.language_distribution@, value_scores(m.language_distribution@), m.language_distribution@.len() as int).len(),
    ensures
        ({
            let langs = m.language_distribution@;
            let r = top_rows(langs, value_scores(langs), langs.len() as int)[k];
            occurs_in(status_report(m, OutputFormat::Json), "{\"language\":\""@ + json_escaped(r.0) + "\",\"churn\":"@ + dec(r.1 as nat) + "}"@)
        }),
        ({
            let langs = m.language_distribution@;
            k < top_rows(langs, value_scores(langs), 5).len() ==> occurs_in(
                status_report(m, OutputFormat::Text),
                top_rows(langs, value_scores(langs), 5)[k].0 + ":"@ + dec(top_rows(langs, value_scores(langs), 5)[k].1 as nat),
            )
        }),
{
    let langs = m.language_distribution@;
    let all = top_rows(langs, value_scores(langs), langs.len() as int);
    let top = top_rows(langs, value_scores(langs), 5);
    let most = most_modified(m.file_stats@);
    let r = all[k];
    let json = "{\"language\":\""@ + json_escaped(r.0) + "\",\"churn\":"@ + dec(r.1 as nat) + "}"@;
    let ji = all.map_values(|x: (Seq<char>, u64)| lang_json(x));
    assert(ji[k] == json);
    let i = lemma_join_occurs(ji, ","@, k);
    let jh = "{\"commits\":"@ + dec(m.total_commits as nat) + ",\"lines_added\":"@ + dec(m.total_lines_added as nat)
        + ",\"lines_deleted\":"@ + dec(m.total_lines_deleted as nat) + ",\"contributors\":"@ + dec(m.contributor_stats@.len())
        + ",\"most_modified_file\":"@ + match most {
        Some(p) => "\""@ + json_escaped(p) + "\""@,
        None => "null"@,
    } + ",\"language_distribution\":["@;
    assert(status_report(m, OutputFormat::Json) == jh + join(ji, ","@) + "]}"@);
    lemma_occurs_mid(jh, join(ji, ","@), "]}"@, json, i);
    assert(occurs_at(status_report(m, OutputFormat::Json), json, jh.len() + i));
    if k < top.len() {
        let t = top[k];
        let pair = t.0 + ":"@ + dec(t.1 as nat);
        let ti = top.map_values(|x: (Seq<char>, u64)| lang_pair(x));
        assert(ti[k] == pair);
        let j = lemma_join_occurs(ti, ", "@, k);
        let th = "Repository status\n  commits: "@ + dec(m.total_commits as nat) + "\n  lines added: "@
            + dec(m.total_lines_added as nat) + "\n  lines deleted: "@ + dec(m.total_lines_deleted as nat)
            + "\n  contributors: "@ + dec(m.contributor_stats@.len()) + "\n  most modified file: "@ + match most {
            Some(p) => p,
            None => "n/a"@,
        } + "\n  language distribution (top): "@;
        assert(status_report(m, OutputFormat::Text) == th + join(ti, ", "@));
        lemma_occurs_right(th, join(ti, ", "@), pair, j);
        assert(occurs_at(status_report(m, OutputFormat::Text), pair, th.len() + j));
    }
}

} // verus!
