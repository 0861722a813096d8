use delta::analytics::engine::analyze_at;
use delta::cache::cache_key;
use delta::cli::{CommonArgs, ExportFormat};
use delta::commands::{
    churn_table, contributor_table, coupling_table, language_table, largest_table, log_table, scan_summary,
    stats_table, truncate,
};
use delta::exporters::csv::{export_contributors, export_file_churn, write_csv, ExportError};
use delta::exporters::markdown;
use delta::history::{commit_record, group_patch_lines, short_id, walk_continues};
use delta::models::{AnalysisOptions, CommitRecord, Coupling, FileDelta, RepoSnapshot, TimelineGranularity, Timestamp};

fn at(seconds: i64) -> Timestamp {
    Timestamp { seconds, nanos: 0 }
}

fn one_commit_snapshot() -> RepoSnapshot {
    let commits = vec![CommitRecord {
        id: "c1".into(),
        summary: "first".into(),
        author_name: "alice".into(),
        author_email: "a@x".into(),
        committed_at: at(86_400 * 2),
        files: vec![FileDelta { path: "a.rs".into(), additions: 3, deletions: 1 }],
    }];
    analyze_at(commits, TimelineGranularity::Day, at(86_400 * 2))
}

fn strings(words: &[&str]) -> Vec<String> {
    words.iter().map(|w| w.to_string()).collect()
}

#[test]
fn markdown_report_of_a_small_history() {
    let snap = one_commit_snapshot();
    let hotspots = vec![strings(&["a.rs", "1.000", "1", "4"])];
    let shares = strings(&["100"]);
    let md = markdown::export(&snap, &hotspots, &shares);
    let expected = "# Delta Report\n\n## Repository Stats\n\n- Commits: 1\n- Lines added: 3\n- Lines deleted: 1\n- Repository age (days): 0\n- Bus factor: 1\n\
\n## Language Breakdown\n\n| Language | Churn |\n| --- | --- |\n| rs | 4 |\n\
\n## Top Contributors\n\n| Contributor | Commits | + | - | Files |\n| --- | --- | --- | --- | --- |\n| alice | 1 | 3 | 1 | 1 |\n\
\n## Hotspots\n\n| File | Score | Commits | Churn |\n| --- | --- | --- | --- |\n| a.rs | 1.000 | 1 | 4 |\n\
\n## File Churn\n\n| File | Commits | + | - | Churn |\n| --- | --- | --- | --- | --- |\n| a.rs | 1 | 3 | 1 | 4 |\n\
\n## At-Risk Files\n\n| File | Author | Share |\n| --- | --- | --- |\n| a.rs | alice | 100% |\n";
    assert_eq!(md, expected);
}

#[test]
fn markdown_lists_coupling_when_present() {
    let mut snap = one_commit_snapshot();
    snap.coupling = vec![Coupling { file_a: "a.rs".into(), file_b: "b.rs".into(), co_changes: 3 }];
    let shares = strings(&["100"]);
    let md = markdown::export(&snap, &vec![], &shares);
    assert!(md.contains("\n## Logical Coupling\n\n| File A | File B | Co-changes |\n| --- | --- | --- |\n| a.rs | b.rs | 3 |\n"));
}

#[test]
fn csv_exports_write_headers_and_records() {
    let snap = one_commit_snapshot();
    assert_eq!(
        export_file_churn(&snap).unwrap(),
        "path,commit_count,additions,deletions,churn,contributor_count\na.rs,1,3,1,4,1\n"
    );
    assert_eq!(
        export_contributors(&snap).unwrap(),
        "name,commit_count,lines_added,lines_deleted,files_touched\nalice,1,3,1,1\n"
    );
    assert_eq!(write_csv(&vec![strings(&["a,b", "c"])]).unwrap(), "\"a,b\",c\n");
}

#[test]
fn csv_refuses_records_of_unequal_length() {
    assert_eq!(write_csv(&vec![strings(&["a", "b"]), strings(&["c"])]), Err(ExportError::Record));
    assert_eq!(write_csv(&vec![strings(&["a"]), strings(&["b"]), strings(&["c", "d"])]), Err(ExportError::Record));
    assert_eq!(write_csv(&vec![]).unwrap(), "");
    assert_eq!(write_csv(&vec![strings(&["x\"y"]), strings(&["z"])]).unwrap(), "\"x\"\"y\"\nz\n");
}

#[test]
fn cache_key_captures_every_option() {
    let options = AnalysisOptions {
        limit: 5000,
        since: Some(at(100)),
        until: None,
        include_patterns: strings(&["*.rs", "src/**"]),
        exclude_patterns: vec![],
        granularity: TimelineGranularity::Week,
    };
    assert_eq!(cache_key("/repo", &options), "/repo|5000|100|0|*.rs\u{1}src/**||week");
    let other = AnalysisOptions { until: Some(at(-5)), ..options };
    assert_eq!(cache_key("/repo", &other), "/repo|5000|100|-5|*.rs\u{1}src/**||week");
}

#[test]
fn cache_keys_differ_for_different_requests() {
    let base = AnalysisOptions {
        limit: 10,
        since: None,
        until: Some(at(50)),
        include_patterns: strings(&["a", "b"]),
        exclude_patterns: vec![],
        granularity: TimelineGranularity::Day,
    };
    let key = cache_key("/r", &base);
    let variants = vec![
        AnalysisOptions { limit: 11, ..base.clone() },
        AnalysisOptions { since: Some(at(1)), ..base.clone() },
        AnalysisOptions { until: None, ..base.clone() },
        AnalysisOptions { include_patterns: strings(&["a"]), exclude_patterns: strings(&["b"]), ..base.clone() },
        AnalysisOptions { granularity: TimelineGranularity::Year, ..base.clone() },
        AnalysisOptions { include_patterns: strings(&["", "a", "b"]), ..base.clone() },
        AnalysisOptions { include_patterns: strings(&["a", "b", ""]), ..base.clone() },
    ];
    for v in &variants {
        assert_ne!(cache_key("/r", v), key);
    }
    assert_ne!(cache_key("/s", &base), key);
    assert_eq!(cache_key("/r", &base.clone()), key);
}

fn common(since: Option<&str>, until: Option<&str>) -> CommonArgs {
    CommonArgs {
        path: ".".into(),
        limit: 10,
        refresh_cache: false,
        since: since.map(|s| s.to_string()),
        until: until.map(|s| s.to_string()),
        include_patterns: strings(&["*.rs"]),
        exclude_patterns: strings(&["target/**"]),
        json: false,
    }
}

#[test]
fn common_args_become_analysis_options() {
    let o = common(Some("2024-01-15"), None).to_options(TimelineGranularity::Month).unwrap();
    assert_eq!(o.limit, 10);
    assert_eq!(o.since, Some(at(1_705_276_800)));
    assert_eq!(o.until, None);
    assert_eq!(o.include_patterns, strings(&["*.rs"]));
    assert_eq!(o.exclude_patterns, strings(&["target/**"]));
    assert_eq!(o.granularity, TimelineGranularity::Month);
    assert_eq!(
        common(None, Some("bad")).to_options(TimelineGranularity::Day).unwrap_err(),
        "could not parse date 'bad': expected YYYY-MM-DD or an RFC 3339 timestamp"
    );
}

#[test]
fn export_formats_have_names() {
    assert_eq!(ExportFormat::Json.to_string(), "json");
    assert_eq!(ExportFormat::Csv.name(), "csv");
    assert_eq!(ExportFormat::Markdown.to_string(), "markdown");
    assert_eq!(TimelineGranularity::Week.to_string(), "week");
}

#[test]
fn truncate_marks_cut_text() {
    assert_eq!(truncate("hello", 3), "he…");
    assert_eq!(truncate("hi", 3), "hi");
    assert_eq!(truncate("hello", 0), "…");
    assert_eq!(truncate("héllo wörld", 5), "héll…");
}

#[test]
fn command_tables() {
    let snap = one_commit_snapshot();
    assert_eq!(contributor_table(&snap.contributors), vec![strings(&["alice", "1", "3", "1", "4", "1"])]);
    assert_eq!(churn_table(&snap.file_churn), vec![strings(&["a.rs", "1", "3", "1", "4"])]);
    assert_eq!(language_table(&snap.stats.language_breakdown), vec![strings(&["rs", "4"])]);
    assert_eq!(largest_table(&snap.stats.largest_commits), vec![strings(&["c1", "alice", "4", "first"])]);
    assert_eq!(log_table(&snap.commits), vec![strings(&["c1", "1970-01-03", "alice", "4", "1", "first"])]);
    assert_eq!(
        stats_table(&snap.stats),
        vec![
            strings(&["Commits", "1"]),
            strings(&["Lines added", "3"]),
            strings(&["Lines deleted", "1"]),
            strings(&["Repository age (days)", "0"]),
            strings(&["Bus factor", "1"]),
            strings(&["Largest commit (churn)", "4"]),
        ]
    );
    assert_eq!(scan_summary(&snap), "Scanned 1 commits | +3 -1 | contributors: 1 | files: 1");
    let pairs: Vec<Coupling> = (0..50)
        .map(|i| Coupling { file_a: format!("a{i}"), file_b: format!("b{i}"), co_changes: 1 })
        .collect();
    assert_eq!(coupling_table(&pairs).len(), 40);
    assert_eq!(coupling_table(&pairs)[0], strings(&["a0", "b0", "1"]));
}

#[test]
fn patch_lines_group_into_file_deltas() {
    let lines: Vec<(String, char)> = [("a.rs", 'F'), ("a.rs", '+'), ("a.rs", '+'), ("a.rs", '-'), ("b.rs", 'H'), ("b.rs", '-'), ("a.rs", '+')]
        .iter()
        .map(|(p, c)| (p.to_string(), *c))
        .collect();
    let files = group_patch_lines(&lines);
    let got: Vec<(String, u64, u64)> = files.iter().map(|f| (f.path.clone(), f.additions, f.deletions)).collect();
    assert_eq!(got, vec![("a.rs".to_string(), 2, 1), ("b.rs".to_string(), 0, 1), ("a.rs".to_string(), 1, 0)]);

    let unnamed: Vec<(String, char)> = vec![(String::new(), '+'), ("c".to_string(), '+')];
    let got: Vec<(String, u64, u64)> =
        group_patch_lines(&unnamed).iter().map(|f| (f.path.clone(), f.additions, f.deletions)).collect();
    assert_eq!(got, vec![("c".to_string(), 1, 0)]);
    assert!(group_patch_lines(&vec![]).is_empty());
}

#[test]
fn commit_records_fill_in_defaults() {
    assert_eq!(short_id("0123456789abcdef0123"), "0123456789ab");
    assert_eq!(short_id("abc"), "abc");
    let c = commit_record("id".into(), None, None, Some("e@x".into()), 1_700_000_000, vec![]);
    assert_eq!(c.summary, "<no message>");
    assert_eq!(c.author_name, "unknown");
    assert_eq!(c.author_email, "e@x");
    assert_eq!(c.committed_at, at(1_700_000_000));
    let far = commit_record("id".into(), Some("s".into()), Some("n".into()), None, i64::MAX, vec![]);
    assert_eq!(far.committed_at, at(0));
    assert_eq!(far.author_email, "unknown");
}

#[test]
fn walk_stops_at_the_limit() {
    assert!(walk_continues(0, 1));
    assert!(walk_continues(4, 5));
    assert!(!walk_continues(5, 5));
    assert!(!walk_continues(0, 0));
}
