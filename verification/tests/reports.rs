use delta::command_line::{parse_cli_args, usage, CommandName};
use delta::report::{
    estimate_bus_factor, render_churn, render_contributors, render_hotspots, render_status, render_timeline,
    OutputFormat,
};
use delta::{collect_metrics, CommitRecord, FileChange, Metrics};

fn change(path: &str, added: u64, deleted: u64) -> FileChange {
    FileChange { path: path.to_string(), added, deleted }
}

fn commit(sha: &str, author: &str, date: &str, changes: Vec<FileChange>) -> CommitRecord {
    CommitRecord { sha: sha.to_string(), author: author.to_string(), date: date.to_string(), file_changes: changes }
}

fn sample() -> Metrics {
    let commits = vec![
        commit("c1", "alice", "2026-01-01", vec![change("src/main.rs", 10, 2), change("README.md", 4, 1)]),
        commit("c2", "bob", "2026-01-02", vec![change("src/main.rs", 3, 3)]),
        commit("c3", "alice", "2026-01-02", vec![change("docs/x.md", 1, 0)]),
    ];
    collect_metrics(&commits, None)
}

fn args(words: &[&str]) -> Vec<String> {
    words.iter().map(|w| w.to_string()).collect()
}

#[test]
fn status_report_in_three_formats() {
    let m = sample();
    assert_eq!(
        render_status(&m, OutputFormat::Text),
        "Repository status\n  commits: 3\n  lines added: 18\n  lines deleted: 6\n  contributors: 2\n  most modified file: src/main.rs\n  language distribution (top): rs:18, md:6"
    );
    assert_eq!(
        render_status(&m, OutputFormat::Json),
        "{\"commits\":3,\"lines_added\":18,\"lines_deleted\":6,\"contributors\":2,\"most_modified_file\":\"src/main.rs\",\"language_distribution\":[{\"language\":\"rs\",\"churn\":18},{\"language\":\"md\",\"churn\":6}]}"
    );
    assert_eq!(
        render_status(&m, OutputFormat::Csv),
        "metric,value\ncommits,3\nlines_added,18\nlines_deleted,6\ncontributors,2\nmost_modified_file,src/main.rs"
    );
}

#[test]
fn status_report_without_history() {
    let m = collect_metrics(&[], None);
    assert!(render_status(&m, OutputFormat::Text).ends_with("most modified file: n/a\n  language distribution (top): n/a"));
    assert!(render_status(&m, OutputFormat::Json).ends_with("\"most_modified_file\":null,\"language_distribution\":[]}"));
    assert!(render_status(&m, OutputFormat::Csv).ends_with("\nmost_modified_file,"));
}

#[test]
fn contributors_report_in_three_formats() {
    let m = sample();
    assert_eq!(
        render_contributors(&m, OutputFormat::Text),
        "Contributor activity (bus factor: 1)\n  alice | commits=2 added=15 deleted=3\n  bob | commits=1 added=3 deleted=3"
    );
    assert_eq!(
        render_contributors(&m, OutputFormat::Json),
        "{\"bus_factor\":1,\"contributors\":[{\"author\":\"alice\",\"commits\":2,\"lines_added\":15,\"lines_deleted\":3},{\"author\":\"bob\",\"commits\":1,\"lines_added\":3,\"lines_deleted\":3}]}"
    );
    assert_eq!(
        render_contributors(&m, OutputFormat::Csv),
        "bus_factor,1\nauthor,commits,lines_added,lines_deleted\n\"alice\",2,15,3\n\"bob\",1,3,3"
    );
    let empty = collect_metrics(&[], None);
    assert_eq!(render_contributors(&empty, OutputFormat::Text), "No contributor activity found.");
}

#[test]
fn bus_factor_by_commits() {
    let m = sample();
    assert_eq!(estimate_bus_factor(&m.contributor_stats), 1);
    let commits = vec![
        commit("1", "a", "d", vec![change("f", 1, 0)]),
        commit("2", "b", "d", vec![change("f", 1, 0)]),
        commit("3", "c", "d", vec![change("f", 1, 0)]),
    ];
    let even = collect_metrics(&commits, None);
    assert_eq!(estimate_bus_factor(&even.contributor_stats), 2);
    assert_eq!(estimate_bus_factor(&collect_metrics(&[], None).contributor_stats), 0);
}

#[test]
fn hotspots_report_in_three_formats() {
    let m = sample();
    assert_eq!(
        render_hotspots(&m, OutputFormat::Text),
        "Hotspot analysis\n  src/main.rs | score=36 edits=2\n  README.md | score=5 edits=1\n  docs/x.md | score=1 edits=1"
    );
    assert_eq!(
        render_hotspots(&m, OutputFormat::Json),
        "[{\"file\":\"src/main.rs\",\"score\":36,\"modifications\":2},{\"file\":\"README.md\",\"score\":5,\"modifications\":1},{\"file\":\"docs/x.md\",\"score\":1,\"modifications\":1}]"
    );
    assert_eq!(
        render_hotspots(&m, OutputFormat::Csv),
        "file,score,modifications\n\"src/main.rs\",36,2\n\"README.md\",5,1\n\"docs/x.md\",1,1"
    );
    let empty = collect_metrics(&[], None);
    assert_eq!(render_hotspots(&empty, OutputFormat::Text), "No hotspot data found.");
}

#[test]
fn churn_report_quotes_csv_paths() {
    let commits = vec![commit("1", "a", "d", vec![change("we\"ird.rs", 1, 1)])];
    let m = collect_metrics(&commits, None);
    assert_eq!(
        render_churn(&m, OutputFormat::Csv),
        "file,modifications,lines_added,lines_deleted\n\"we\"\"ird.rs\",1,1,1"
    );
    assert_eq!(
        render_churn(&m, OutputFormat::Json),
        "[{\"file\":\"we\\\"ird.rs\",\"modifications\":1,\"lines_added\":1,\"lines_deleted\":1}]"
    );
}

#[test]
fn timeline_report_in_three_formats() {
    let m = sample();
    let bars = vec!["▁".to_string(), "█".to_string()];
    assert_eq!(
        render_timeline(&m, OutputFormat::Text, &bars),
        "Commit timeline\n  2026-01-01 ▁ (1)\n  2026-01-02 █ (2)"
    );
    assert_eq!(
        render_timeline(&m, OutputFormat::Json, &bars),
        "[{\"date\":\"2026-01-01\",\"commits\":1},{\"date\":\"2026-01-02\",\"commits\":2}]"
    );
    assert_eq!(render_timeline(&m, OutputFormat::Csv, &bars), "date,commits\n2026-01-01,1\n2026-01-02,2");
    let empty = collect_metrics(&[], None);
    assert_eq!(render_timeline(&empty, OutputFormat::Text, &vec![]), "No timeline data found.");
}

#[test]
fn command_line_is_read() {
    let (command, options, output) =
        parse_cli_args(args(&["delta", "churn", "--repo", "/tmp/x", "--file-type", "rs", "--output", "json"])).unwrap();
    assert_eq!(command, CommandName::Churn);
    assert_eq!(options.repo, "/tmp/x");
    assert_eq!(options.file_type.as_deref(), Some("rs"));
    assert_eq!(options.author, None);
    assert_eq!(output, OutputFormat::Json);

    let (command, options, output) = parse_cli_args(args(&["delta", "timeline"])).unwrap();
    assert_eq!(command, CommandName::Timeline);
    assert_eq!(options.repo, ".");
    assert_eq!(output, OutputFormat::Text);
}

#[test]
fn command_line_errors() {
    assert_eq!(parse_cli_args(args(&["delta"])).unwrap_err(), "Missing command.");
    assert_eq!(parse_cli_args(args(&["delta", "bogus"])).unwrap_err(), "Unknown command 'bogus'.");
    assert_eq!(parse_cli_args(args(&["delta", "-h"])).unwrap_err(), "");
    assert_eq!(parse_cli_args(args(&["delta", "--help"])).unwrap_err(), "");
    assert_eq!(
        parse_cli_args(args(&["delta", "status", "--author"])).unwrap_err(),
        "Flag '--author' requires a value."
    );
    assert_eq!(
        parse_cli_args(args(&["delta", "status", "--output", "xml"])).unwrap_err(),
        "Unsupported output format 'xml'."
    );
    assert_eq!(parse_cli_args(args(&["delta", "status", "--nope", "v"])).unwrap_err(), "Unknown flag '--nope'.");
    assert!(usage().starts_with("Usage: delta <status|churn|hotspots|contributors|timeline>"));
}
