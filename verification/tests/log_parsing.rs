use delta::{collect_metrics, json_escape, parse_git_log_output, CommitRecord, FileChange};

#[test]
fn parses_git_numstat_log() {
    let input = "\
__COMMIT__|aaa111|alice|2026-01-01
10\t2\tsrc/main.rs
-\t-\tassets/logo.png

__COMMIT__|bbb222|bob|2026-01-02
3\t1\tREADME.md
";

    let commits = parse_git_log_output(input);
    assert_eq!(commits.len(), 2);
    assert_eq!(commits[0].sha, "aaa111");
    assert_eq!(commits[0].author, "alice");
    assert_eq!(commits[0].file_changes.len(), 2);
    assert_eq!(commits[0].file_changes[1].added, 0);
    assert_eq!(commits[0].file_changes[1].deleted, 0);
}

#[test]
fn filters_metrics_by_file_type() {
    let commits = vec![CommitRecord {
        sha: "aaa111".to_string(),
        author: "alice".to_string(),
        date: "2026-01-01".to_string(),
        file_changes: vec![
            FileChange {
                path: "src/main.rs".to_string(),
                added: 10,
                deleted: 3,
            },
            FileChange {
                path: "README.md".to_string(),
                added: 4,
                deleted: 1,
            },
        ],
    }];

    let metrics = collect_metrics(&commits, Some(".rs"));
    assert_eq!(metrics.total_commits, 1);
    assert_eq!(metrics.total_lines_added, 10);
    assert_eq!(metrics.total_lines_deleted, 3);
    assert_eq!(metrics.file_stats.len(), 1);
    assert!(metrics.file_stats.contains_key("src/main.rs"));
}

#[test]
fn parser_edge_cases() {
    let input = "stray\t1\tline\r\n__COMMIT__|short\n1\t1\tx.rs\n__COMMIT__|s|a|d|with|bars\r\n+7\tnope\tpath\twith\ttabs\r\n  \t \n2\t3\n";
    let commits = parse_git_log_output(input);
    assert_eq!(commits.len(), 1);
    assert_eq!(commits[0].sha, "s");
    assert_eq!(commits[0].author, "a");
    assert_eq!(commits[0].date, "d|with|bars");
    assert_eq!(commits[0].file_changes.len(), 1);
    assert_eq!(commits[0].file_changes[0].path, "path\twith\ttabs");
    assert_eq!(commits[0].file_changes[0].added, 7);
    assert_eq!(commits[0].file_changes[0].deleted, 0);
    assert!(parse_git_log_output("").is_empty());
}

#[test]
fn metrics_tally_per_key() {
    let commits = parse_git_log_output(
        "__COMMIT__|1|alice|2024-01-01\n5\t1\ta.rs\n2\t2\tREADME\n__COMMIT__|2|bob|2024-01-01\n1\t0\ta.rs\n__COMMIT__|3|alice|2024-01-02\n",
    );
    let metrics = collect_metrics(&commits, None);
    assert_eq!(metrics.total_commits, 2);
    assert_eq!(metrics.total_lines_added, 8);
    assert_eq!(metrics.total_lines_deleted, 3);
    assert_eq!(*metrics.commit_frequency.get("2024-01-01").unwrap(), 2);
    assert!(metrics.commit_frequency.get("2024-01-02").is_none());
    let alice = metrics.contributor_stats.get("alice").unwrap();
    assert_eq!((alice.commits, alice.lines_added, alice.lines_deleted), (1, 7, 3));
    let a = metrics.file_stats.get("a.rs").unwrap();
    assert_eq!((a.modifications, a.lines_added, a.lines_deleted), (2, 6, 1));
    assert_eq!(*metrics.language_distribution.get("rs").unwrap(), 7);
    assert_eq!(*metrics.language_distribution.get("unknown").unwrap(), 4);
}

#[test]
fn json_escape_escapes_specials() {
    assert_eq!(json_escape("a\"b\\c\nd\re\tf"), "a\\\"b\\\\c\\nd\\re\\tf");
    assert_eq!(json_escape("plain"), "plain");
}

#[test]
fn json_escape_reads_back_as_json() {
    for s in ["", "plain", "a\"b", "back\\slash", "line\nbreak\r\tend", "ünïcødé ✓", "/\"\\\n"] {
        let quoted = format!("\"{}\"", json_escape(s));
        assert_eq!(serde_json::from_str::<String>(&quoted).unwrap(), s);
    }
}

fn render_log(commits: &[CommitRecord]) -> String {
    let mut text = String::new();
    for c in commits {
        text.push_str(&format!("__COMMIT__|{}|{}|{}\n", c.sha, c.author, c.date));
        for f in &c.file_changes {
            text.push_str(&format!("{}\t{}\t{}\n", f.added, f.deleted, f.path));
        }
    }
    text
}

#[test]
fn rendered_log_parses_back() {
    let commits = vec![
        CommitRecord {
            sha: "abc".into(),
            author: "Ann Lee".into(),
            date: "2024-01-02|odd".into(),
            file_changes: vec![
                FileChange { path: "src/a b.rs".into(), added: 0, deleted: 18446744073709551615 },
                FileChange { path: "tab\there".into(), added: 7, deleted: 0 },
            ],
        },
        CommitRecord { sha: "".into(), author: "".into(), date: "".into(), file_changes: vec![] },
        CommitRecord {
            sha: "def".into(),
            author: "bo".into(),
            date: "2024-01-03".into(),
            file_changes: vec![FileChange { path: "".into(), added: 1, deleted: 2 }],
        },
    ];
    assert_eq!(parse_git_log_output(&render_log(&commits)), commits);
    assert_eq!(parse_git_log_output(&render_log(&[])), vec![]);
}
