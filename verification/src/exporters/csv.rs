//! CSV exports of a snapshot, written with the `csv` crate.
use vstd::prelude::*;

use crate::models::{ContributorStats, FileChurn, RepoSnapshot};
use crate::report::views;
use crate::text::{dec, owned, u64_to_string};

verus! {

/// A CSV writer into memory: the `csv` crate's `Writer` over a byte
/// vector. Its fields are private; `csv_records` names the records it has
/// written.
#[verifier::external_body]
pub struct CsvSink {
    writer: csv::Writer<Vec<u8>>,
}

/// The `csv` crate's error.
#[verifier::external_type_specification]
#[verifier::external_body]
pub struct ExCsvError(csv::Error);

/// The records a CSV writer into memory has written, in order.
pub uninterp spec fn csv_records(w: CsvSink) -> Seq<Seq<Seq<char>>>;

/// The text the `csv` crate's default writer makes of `records`: fields
/// separated by commas, quoted where needed, each record ended by a line
/// break.
pub uninterp spec fn csv_text(records: Seq<Seq<Seq<char>>>) -> Seq<char>;

/// A CSV writer into memory (`Writer::from_writer(Vec::new())`); it has
/// written nothing.
#[verifier::external_body]
fn csv_writer() -> (w: CsvSink)
    ensures
        csv_records(w) == Seq::<Seq<Seq<char>>>::empty(),
{
    CsvSink { writer: csv::Writer::from_writer(Vec::new()) }
}

/// Writes one record (`Writer::write_record`) and hands the writer back.
/// Into memory no write fails (a `Vec<u8>` takes every byte), so the
/// default (not flexible) writer refuses a record exactly when its number of
/// fields differs from that of the first record written; then the writer is
/// dropped. An accepted record is one more record written.
#[verifier::external_body]
fn csv_write_record(w: CsvSink, record: &Vec<String>) -> (r: Result<CsvSink, csv::Error>)
    ensures
        r is Ok <==> (csv_records(w).len() == 0 || csv_records(w)[0].len() == record@.len()),
        r matches Ok(next) ==> csv_records(next) == csv_records(w).push(views(record@)),
{
    let mut w = w;
    match w.writer.write_record(record) {
        Ok(()) => Ok(w),
        Err(e) => Err(e),
    }
}

/// Flushes the writer and takes its bytes (`Writer::into_inner`), read as
/// UTF-8 (`String::from_utf8`): the CSV text of the records written.
/// Neither step fails here: flushing into a `Vec<u8>` cannot fail, and the
/// bytes are the fields' UTF-8 with only ASCII delimiters, quotes and line
/// ends added.
#[verifier::external_body]
fn csv_into_text(w: CsvSink) -> (r: Option<String>)
    ensures
        r is Some,
        r matches Some(s) ==> s@ == csv_text(csv_records(w)),
{
    match w.writer.into_inner() {
        Ok(bytes) => match String::from_utf8(bytes) {
            Ok(s) => Some(s),
            Err(_) => None,
        },
        Err(_) => None,
    }
}

/// Why an export failed.
#[derive(Debug, Clone, Copy, PartialEq, Eq)]
pub enum ExportError {
    /// The CSV writer refused a record: it has not as many fields as the
    /// first.
    Record,
}

/// The records as plain values.
pub open spec fn record_views(records: Seq<Vec<String>>) -> Seq<Seq<Seq<char>>> {
    records.map_values(|r: Vec<String>| views(r@))
}

/// Every record has as many fields as the first.
pub open spec fn uniform(records: Seq<Seq<Seq<char>>>) -> bool {
    forall|i: int| 0 <= i < records.len() ==> #[trigger] records[i].len() == records[0].len()
}

/// Writes records as CSV text. The writer refuses the records exactly when
/// they do not all have as many fields as the first.
pub fn write_csv(records: &Vec<Vec<String>>) -> (r: Result<String, ExportError>)
    ensures
        r is Ok <==> uniform(record_views(records@)),
        r is Err ==> r == Err::<String, ExportError>(ExportError::Record),
        r matches Ok(s) ==> s@ == csv_text(record_views(records@)),
{
    let ghost rv = record_views(records@);
    let mut w = csv_writer();
    let mut i: usize = 0;
    while i < records.len()
        invariant
            i <= records@.len(),
            rv == record_views(records@),
            csv_records(w) == rv.take(i as int),
            forall|k: int| 0 <= k < i ==> #[trigger] rv[k].len() == rv[0].len(),
        decreases records@.len() - i,
    {
        assert(rv[i as int] == views(records@[i as int]@));
        match csv_write_record(w, &records[i]) {
            Ok(next) => {
                w = next;
            },
            Err(_) => {
                assert(rv[i as int].len() != rv[0].len());
                return Err(ExportError::Record);
            },
        }
        assert(rv.take(i + 1) =~= rv.take(i as int).push(rv[i as int]));
        i = i + 1;
    }
    assert(rv.take(records@.len() as int) =~= rv);
    Ok(csv_into_text(w).unwrap())
}

/// The header of the file churn export.
pub open spec fn file_header() -> Seq<Seq<char>> {
    seq!["path"@, "commit_count"@, "additions"@, "deletions"@, "churn"@, "contributor_count"@]
}

/// The record of one file.
pub open spec fn file_record(f: FileChurn) -> Seq<Seq<char>> {
    seq![f.path@, dec(f.commit_count as nat), dec(f.additions as nat), dec(f.deletions as nat), dec((f.additions + f.deletions) as nat), dec(f.contributor_count as nat)]
}

/// The header of the contributor export.
pub open spec fn contributor_header() -> Seq<Seq<char>> {
    seq!["name"@, "commit_count"@, "lines_added"@, "lines_deleted"@, "files_touched"@]
}

/// The record of one contributor.
pub open spec fn contributor_record(c: ContributorStats) -> Seq<Seq<char>> {
    seq![c.name@, dec(c.commit_count as nat), dec(c.lines_added as nat), dec(c.lines_deleted as nat), dec(c.files_touched as nat)]
}

/// A record of literal fields.
fn record_of(fields: &[&str]) -> (r: Vec<String>)
    ensures
        views(r@) == fields@.map_values(|f: &str| f@),
{
    let mut r: Vec<String> = Vec::new();
    let mut i: usize = 0;
    while i < fields.len()
        invariant
            i <= fields@.len(),
            views(r@) =~= fields@.map_values(|f: &str| f@).take(i as int),
        decreases fields@.len() - i,
    {
        let ghost before = r@;
        r.push(owned(fields[i]));
        assert(views(r@) =~= views(before).push(fields@[i as int]@));
        i = i + 1;
    }
    assert(fields@.map_values(|f: &str| f@).take(fields@.len() as int) =~= fields@.map_values(|f: &str| f@));
    r
}

/// The records of the file churn export: a header, then one record per
/// file with its path, commits, additions, deletions, churn and number of
/// contributors.
pub fn file_churn_records(files: &Vec<FileChurn>) -> (records: Vec<Vec<String>>)
    requires
        forall|i: int| 0 <= i < files@.len() ==> #[trigger] files@[i].additions + files@[i].deletions <= u64::MAX,
    ensures
        record_views(records@) == seq![file_header()] + files@.map_values(|f: FileChurn| file_record(f)),
{
    let mut records: Vec<Vec<String>> = Vec::new();
    let header = record_of(&["path", "commit_count", "additions", "deletions", "churn", "contributor_count"]);
    assert(views(header@) =~= file_header());
    records.push(header);
    let ghost f = |x: FileChurn| file_record(x);
    let mut i: usize = 0;
    while i < files.len()
        invariant
            i <= files@.len(),
            forall|k: int| 0 <= k < files@.len() ==> #[trigger] files@[k].additions + files@[k].deletions <= u64::MAX,
            f == (|x: FileChurn| file_record(x)),
            record_views(records@) =~= seq![file_header()] + files@.map_values(f).take(i as int),
        decreases files@.len() - i,
    {
        let x = &files[i];
        let mut r: Vec<String> = Vec::new();
        r.push(owned(x.path.as_str()));
        r.push(u64_to_string(x.commit_count));
        r.push(u64_to_string(x.additions));
        r.push(u64_to_string(x.deletions));
        r.push(u64_to_string(x.total_churn()));
        r.push(u64_to_string(x.contributor_count));
        assert(views(r@) =~= f(files@[i as int]));
        let ghost before = records@;
        records.push(r);
        assert(record_views(records@) =~= record_views(before).push(f(files@[i as int])));
        i = i + 1;
    }
    assert(files@.map_values(f).take(files@.len() as int) =~= files@.map_values(f));
    records
}

/// The records of the contributor export: a header, then one record per
/// contributor with their name, commits, lines added and deleted, and
/// files touched.
pub fn contributor_records(contributors: &Vec<ContributorStats>) -> (records: Vec<Vec<String>>)
    ensures
        record_views(records@) == seq![contributor_header()] + contributors@.map_values(|c: ContributorStats| contributor_record(c)),
{
    let mut records: Vec<Vec<String>> = Vec::new();
    let header = record_of(&["name", "commit_count", "lines_added", "lines_deleted", "files_touched"]);
    assert(views(header@) =~= contributor_header());
    records.push(header);
    let ghost f = |c: ContributorStats| contributor_record(c);
    let mut i: usize = 0;
    while i < contributors.len()
        invariant
            i <= contributors@.len(),
            f == (|c: ContributorStats| contributor_record(c)),
            record_views(records@) =~= seq![contributor_header()] + contributors@.map_values(f).take(i as int),
        decreases contributors@.len() - i,
    {
        let c = &contributors[i];
        let mut r: Vec<String> = Vec::new();
        r.push(owned(c.name.as_str()));
        r.push(u64_to_string(c.commit_count));
        r.push(u64_to_string(c.lines_added));
        r.push(u64_to_string(c.lines_deleted));
        r.push(u64_to_string(c.files_touched));
        assert(views(r@) =~= f(contributors@[i as int]));
        let ghost before = records@;
        records.push(r);
        assert(record_views(records@) =~= record_views(before).push(f(contributors@[i as int])));
        i = i + 1;
    }
    assert(contributors@.map_values(f).take(contributors@.len() as int) =~= contributors@.map_values(f));
    records
}

/// The snapshot's file churn as CSV: a header, then one record per file
/// (see `file_record`). Every record has the header's six fields, so the
/// export always succeeds.
pub fn export_file_churn(snapshot: &RepoSnapshot) -> (r: Result<String, ExportError>)
    requires
        forall|i: int| 0 <= i < snapshot.file_churn@.len() ==> #[trigger] snapshot.file_churn@[i].additions + snapshot.file_churn@[i].deletions <= u64::MAX,
    ensures
        r matches Ok(s) && s@ == csv_text(seq![file_header()] + snapshot.file_churn@.map_values(|f: FileChurn| file_record(f))),
{
    let records = file_churn_records(&snapshot.file_churn);
    proof {
        let rv = record_views(records@);
        assert forall|i: int| 0 <= i < rv.len() implies #[trigger] rv[i].len() == rv[0].len() by {
            assert(rv[0] == file_header());
            if i > 0 {
                assert(rv[i] == file_record(snapshot.file_churn@[i - 1]));
            }
        }
    }
    write_csv(&records)
}

/// The snapshot's contributors as CSV: a header, then one record per
/// contributor (see `contributor_record`). Every record has the header's
/// five fields, so the export always succeeds.
pub fn export_contributors(snapshot: &RepoSnapshot) -> (r: Result<String, ExportError>)
    ensures
        r matches Ok(s) && s@ == csv_text(seq![contributor_header()] + snapshot.contributors@.map_values(|c: ContributorStats| contributor_record(c))),
{
    let records = contributor_records(&snapshot.contributors);
    proof {
        let rv = record_views(records@);
        assert forall|i: int| 0 <= i < rv.len() implies #[trigger] rv[i].len() == rv[0].len() by {
            assert(rv[0] == contributor_header());
            if i > 0 {
                assert(rv[i] == contributor_record(snapshot.contributors@[i - 1]));
            }
        }
    }
    write_csv(&records)
}

/// The value a contributor carries under the CSV header `name`.
pub open spec fn contributor_field(c: ContributorStats, name: Seq<char>) -> Seq<char> {
    if name == "name"@ {
        c.name@
    } else if name == "commit_count"@ {
        dec(c.commit_count as nat)
    } else if name == "lines_added"@ {
        dec(c.lines_added as nat)
    } else if name == "lines_deleted"@ {
        dec(c.lines_deleted as nat)
    } else if name == "files_touched"@ {
        dec(c.files_touched as nat)
    } else {
        Seq::empty()
    }
}

/// The records that the contributor export writes: the header, then one
/// record per contributor.
pub open spec fn contributor_export_records(cs: Seq<ContributorStats>) -> Seq<Seq<Seq<char>>> {
    seq![contributor_header()] + cs.map_values(|c: ContributorStats| contributor_record(c))
}

/// The records that the contributor export writes (see
/// `export_contributors`) hold under each header the value that header
/// names: the header is `name,commit_count,lines_added,lines_deleted,
/// files_touched`, and the field of a contributor's record under
/// `commit_count` is its commit count, the one under `files_touched` the
/// files it touched, and so on for every column.
pub proof fn law_contributor_csv_columns(cs: Seq<ContributorStats>)
    ensures
        contributor_export_records(cs) == seq![contributor_header()] + cs.map_values(
            |c: ContributorStats| contributor_record(c),
        ),
        contributor_export_records(cs)[0] == seq!["name"@, "commit_count"@, "lines_added"@, "lines_deleted"@, "files_touched"@],
        forall|k: int, j: int|
            0 <= k < cs.len() && 0 <= j < 5 ==> #[trigger] contributor_export_records(cs)[k + 1][j] == contributor_field(
                cs[k],
                contributor_export_records(cs)[0][j],
            ) && contributor_export_records(cs)[k + 1].len() == 5,
{
    reveal_strlit("name");
    reveal_strlit("commit_count");
    reveal_strlit("lines_added");
    reveal_strlit("lines_deleted");
    reveal_strlit("files_touched");
    let records = contributor_export_records(cs);
    assert(records[0] == contributor_header());
    assert forall|k: int, j: int| 0 <= k < cs.len() && 0 <= j < 5 implies #[trigger] records[k + 1][j]
        == contributor_field(cs[k], contributor_header()[j]) && records[k + 1].len() == 5 by {
        assert(records[k + 1] == contributor_record(cs[k]));
        let h = contributor_header();
        assert(h[0] != h[1] && h[0] != h[2] && h[0] != h[3] && h[0] != h[4]) by {
            assert(h[0].len() != h[1].len() && h[0].len() != h[2].len() && h[0].len() != h[3].len() && h[0].len() != h[4].len());
        }
        assert(h[1] != h[2] && h[1] != h[3] && h[1] != h[4]) by {
            assert(h[1].len() != h[2].len() && h[1].len() != h[3].len() && h[1].len() != h[4].len());
        }
        assert(h[2] != h[3] && h[2] != h[4]) by {
            assert(h[2].len() != h[3].len() && h[2].len() != h[4].len());
        }
        assert(h[3] != h[4]) by {
            assert(h[3][0] != h[4][0]);
        }
    }
}

/// The records that the file churn export writes: the header, then one
/// record per file.
pub open spec fn file_export_records(fs: Seq<FileChurn>) -> Seq<Seq<Seq<char>>> {
    seq![file_header()] + fs.map_values(|f: FileChurn| file_record(f))
}

/// The records that the file churn export writes (see `export_file_churn`)
/// have the header `path,commit_count,additions,deletions,churn,
/// contributor_count`, and each file's record holds under those headers its
/// path, commit count, additions, deletions, their sum and its number of
/// contributors.
pub proof fn law_file_csv_columns(fs: Seq<FileChurn>)
    ensures
        file_export_records(fs) == seq![file_header()] + fs.map_values(|f: FileChurn| file_record(f)),
        file_export_records(fs)[0] == seq!["path"@, "commit_count"@, "additions"@, "deletions"@, "churn"@, "contributor_count"@],
        forall|k: int| 0 <= k < fs.len() ==> #[trigger] file_export_records(fs)[k + 1].len() == 6
            && file_export_records(fs)[k + 1][0] == fs[k].path@
            && file_export_records(fs)[k + 1][1] == dec(fs[k].commit_count as nat)
            && file_export_records(fs)[k + 1][2] == dec(fs[k].additions as nat)
            && file_export_records(fs)[k + 1][3] == dec(fs[k].deletions as nat)
            && file_export_records(fs)[k + 1][4] == dec((fs[k].additions + fs[k].deletions) as nat)
            && file_export_records(fs)[k + 1][5] == dec(fs[k].contributor_count as nat),
{
    assert forall|k: int| 0 <= k < fs.len() implies #[trigger] file_export_records(fs)[k + 1] == file_record(fs[k]) by {}
}

} // verus!
