use chrono::{TimeZone, Utc};

use delta::analytics::bus_factor::{build_bus_factor, half_cover_count};
use delta::analytics::coupling::build_coupling;
use delta::analytics::engine::{
    accumulate, analyze_at, build_ownership, largest_commits, repository_age_days, ContributorBuilder,
    FileChurnBuilder,
};
use delta::analytics::languages::{build_language_breakdown, language_key_of};
use delta::analytics::timeline::{bucket_key, build_timeline, count_buckets};
use delta::models::{CommitRecord, ContributorStats, FileChurn, FileDelta, TimelineGranularity, Timestamp};
use delta::strmap::StrMap;

fn now() -> Timestamp {
    let t = Utc::now();
    Timestamp { seconds: t.timestamp(), nanos: t.timestamp_subsec_nanos() }
}

fn at(seconds: i64) -> Timestamp {
    Timestamp { seconds, nanos: 0 }
}

fn commit_with(id: &str, files: &[&str]) -> CommitRecord {
    CommitRecord {
        id: id.into(),
        summary: "s".into(),
        author_name: "x".into(),
        author_email: "x@x".into(),
        committed_at: now(),
        files: files
            .iter()
            .map(|p| FileDelta { path: (*p).into(), additions: 1, deletions: 1 })
            .collect(),
    }
}

fn commit_by(id: &str, author: &str, when: i64, files: &[(&str, u64, u64)]) -> CommitRecord {
    CommitRecord {
        id: id.into(),
        summary: format!("summary {id}"),
        author_name: author.into(),
        author_email: format!("{author}@example.com"),
        committed_at: at(when),
        files: files
            .iter()
            .map(|(p, a, d)| FileDelta { path: (*p).into(), additions: *a, deletions: *d })
            .collect(),
    }
}

fn churn(path: &str, additions: u64, deletions: u64) -> FileChurn {
    FileChurn {
        path: path.into(),
        commit_count: 1,
        additions,
        deletions,
        contributor_count: 1,
        last_modified: now(),
    }
}

#[test]
fn coupling_counts_co_changes() {
    let commits = vec![
        commit_with("1", &["a.rs", "b.rs", "c.rs"]),
        commit_with("2", &["a.rs", "b.rs"]),
        commit_with("3", &["c.rs", "d.rs"]),
    ];

    let pairs = build_coupling(&commits);
    let ab = pairs.iter().find(|c| c.file_a == "a.rs" && c.file_b == "b.rs").unwrap();
    assert_eq!(ab.co_changes, 2);
}

#[test]
fn coupling_orders_pairs_lexicographically() {
    let commits = vec![commit_with("1", &["z.rs", "a.rs"])];
    let pairs = build_coupling(&commits);
    assert_eq!(pairs[0].file_a, "a.rs");
    assert_eq!(pairs[0].file_b, "z.rs");
}

#[test]
fn coupling_skips_bulk_commits() {
    let many: Vec<String> = (0..200).map(|i| format!("f{i}.rs")).collect();
    let refs: Vec<&str> = many.iter().map(|s| s.as_str()).collect();
    let commits = vec![commit_with("bulk", &refs)];
    assert!(build_coupling(&commits).is_empty());
}

#[test]
fn coupling_ranks_pairs_by_co_changes() {
    let commits = vec![
        commit_with("1", &["a.rs", "b.rs", "c.rs"]),
        commit_with("2", &["c.rs", "b.rs"]),
    ];
    let pairs = build_coupling(&commits);
    let got: Vec<(String, String, u64)> =
        pairs.iter().map(|c| (c.file_a.clone(), c.file_b.clone(), c.co_changes)).collect();
    assert_eq!(got[0], ("b.rs".to_string(), "c.rs".to_string(), 2));
    assert_eq!(got.len(), 3);
    assert!(got[1..].iter().all(|p| p.2 == 1));
}

#[test]
fn language_breakdown_groups_extensions() {
    let files = vec![churn("src/main.rs", 10, 2), churn("src/lib.rs", 5, 1), churn("README", 4, 1)];

    let langs = build_language_breakdown(&files);
    assert_eq!(langs[0].language, "rs");
    assert_eq!(langs[0].churn, 18);
}

#[test]
fn language_breakdown_groups_files_without_extension_as_unknown() {
    let files = vec![churn("README", 4, 1), churn("a/b.tar-gz", 3, 0), churn("X.RS", 1, 0), churn("x.rs", 1, 0)];
    let langs = build_language_breakdown(&files);
    let got: Vec<(String, u64)> = langs.iter().map(|l| (l.language.clone(), l.churn)).collect();
    assert_eq!(got, vec![("unknown".to_string(), 8), ("rs".to_string(), 2)]);
    assert_eq!(language_key_of("dir.v2/file"), "unknown");
    assert_eq!(language_key_of("archive."), "unknown");
    assert_eq!(language_key_of("Makefile"), "unknown");
    assert_eq!(language_key_of("src/App.Py3"), "py3");
}

#[test]
fn language_breakdown_keeps_twelve() {
    let files: Vec<FileChurn> = (0..15).map(|i| churn(&format!("f.e{i}"), 100 - i, 0)).collect();
    let langs = build_language_breakdown(&files);
    assert_eq!(langs.len(), 12);
    assert_eq!(langs[0].language, "e0");
    assert_eq!(langs[11].language, "e11");
}

fn file_builder(path: &str, author: &str, churn: u64) -> FileChurnBuilder {
    let mut b = FileChurnBuilder::new(path);
    b.contributors.entry_index(author, ());
    let k = b.contributor_churn.entry_index(author, 0);
    b.contributor_churn.set_value(k, churn);
    b.additions = churn;
    b.deletions = 0;
    b
}

#[test]
fn ownership_reports_dominant_share() {
    let mut files: StrMap<FileChurnBuilder> = StrMap::new();
    let mut b = file_builder("a.rs", "alice", 90);
    b.contributors.entry_index("bob", ());
    let k = b.contributor_churn.entry_index("bob", 0);
    b.contributor_churn.set_value(k, 10);
    files.entry_index("a.rs", b);

    let ownership = build_ownership(&files);
    assert_eq!(ownership[0].dominant_author, "alice");
    let share = ownership[0].dominant_churn as f64 / ownership[0].total_churn as f64;
    assert!((share - 0.9).abs() < 1e-9);
    assert_eq!(ownership[0].contributor_count, 2);
}

fn contributor(name: &str, churn: u64) -> ContributorStats {
    let mut c = ContributorBuilder::new(name);
    c.lines_added = churn;
    c.build()
}

#[test]
fn bus_factor_counts_contributors_covering_half_the_churn() {
    let contributors = vec![contributor("a", 60), contributor("b", 30), contributor("c", 10)];
    let ownership = vec![];
    let bf = build_bus_factor(&contributors, &ownership);
    assert_eq!(bf.bus_factor, 1);
}

#[test]
fn bus_factor_flags_single_owner_files() {
    let contributors = vec![contributor("a", 100)];

    let mut files: StrMap<FileChurnBuilder> = StrMap::new();
    files.entry_index("solo.rs", file_builder("solo.rs", "a", 100));

    let ownership = build_ownership(&files);
    let bf = build_bus_factor(&contributors, &ownership);
    assert_eq!(bf.at_risk_files.len(), 1);
    assert_eq!(bf.at_risk_files[0].path, "solo.rs");
}

#[test]
fn bus_factor_needs_more_contributors_for_even_churn() {
    assert_eq!(half_cover_count(&vec![10, 10, 10, 10]), 2);
    assert_eq!(half_cover_count(&vec![10, 40, 10, 41]), 2);
    assert_eq!(half_cover_count(&vec![0, 0]), 0);
    assert_eq!(half_cover_count(&vec![]), 0);
    assert_eq!(half_cover_count(&vec![1, 1, 1]), 2);
}

#[test]
fn at_risk_uses_eighty_five_percent() {
    let mut files: StrMap<FileChurnBuilder> = StrMap::new();
    // 85 of 100: at risk
    let mut b = file_builder("a.rs", "alice", 85);
    b.contributors.entry_index("bob", ());
    let k = b.contributor_churn.entry_index("bob", 0);
    b.contributor_churn.set_value(k, 15);
    b.additions = 100;
    files.entry_index("a.rs", b);
    // 84 of 100: not at risk
    let mut c = file_builder("b.rs", "alice", 84);
    c.contributors.entry_index("bob", ());
    let k = c.contributor_churn.entry_index("bob", 0);
    c.contributor_churn.set_value(k, 16);
    c.additions = 100;
    files.entry_index("b.rs", c);

    let ownership = build_ownership(&files);
    let bf = build_bus_factor(&[], &ownership);
    assert_eq!(bf.at_risk_files.len(), 1);
    assert_eq!(bf.at_risk_files[0].path, "a.rs");
    assert_eq!(bf.at_risk_files[0].author, "alice");
    assert_eq!(bf.at_risk_files[0].author_churn, 85);
    assert_eq!(bf.at_risk_files[0].churn, 100);
}

#[test]
fn timeline_buckets_commits_by_day() {
    let n = now();
    let commits = vec![
        CommitRecord { committed_at: n, ..commit_with("1", &["a.rs"]) },
        CommitRecord { committed_at: at(n.seconds - 3600), ..commit_with("2", &["a.rs"]) },
    ];

    let timeline = build_timeline(&commits, TimelineGranularity::Day);
    assert_eq!(timeline.iter().map(|t| t.commits).sum::<u64>(), 2);
}

#[test]
fn timeline_groups_across_days_into_one_month_bucket() {
    let base = Utc.with_ymd_and_hms(2024, 3, 1, 0, 0, 0).unwrap().timestamp();
    let commits = vec![
        CommitRecord { committed_at: at(base), ..commit_with("1", &["a.rs"]) },
        CommitRecord { committed_at: at(base + 20 * 86_400), ..commit_with("2", &["a.rs"]) },
    ];

    let timeline = build_timeline(&commits, TimelineGranularity::Month);
    assert_eq!(timeline.len(), 1);
    assert_eq!(timeline[0].commits, 2);
    assert_eq!(timeline[0].date, "2024-03");
}

#[test]
fn bucket_keys_per_granularity() {
    // 2024-03-05 is in ISO week 10 of 2024; 2021-01-03 is in week 53 of 2020.
    let t = at(Utc.with_ymd_and_hms(2024, 3, 5, 12, 0, 0).unwrap().timestamp());
    assert_eq!(bucket_key(t, TimelineGranularity::Day).unwrap(), "2024-03-05");
    assert_eq!(bucket_key(t, TimelineGranularity::Week).unwrap(), "2024-W10");
    assert_eq!(bucket_key(t, TimelineGranularity::Month).unwrap(), "2024-03");
    assert_eq!(bucket_key(t, TimelineGranularity::Year).unwrap(), "2024");
    let u = at(Utc.with_ymd_and_hms(2021, 1, 3, 0, 0, 0).unwrap().timestamp());
    assert_eq!(bucket_key(u, TimelineGranularity::Week).unwrap(), "2020-W53");
    let v = at(Utc.with_ymd_and_hms(2024, 1, 2, 0, 0, 0).unwrap().timestamp());
    assert_eq!(bucket_key(v, TimelineGranularity::Week).unwrap(), "2024-W01");
    assert!(bucket_key(at(i64::MAX), TimelineGranularity::Day).is_none());
}

#[test]
fn count_buckets_sorts_and_counts() {
    let keys: Vec<String> = ["2024-02", "2024-01", "2024-02", "2023-12"].iter().map(|s| s.to_string()).collect();
    let points = count_buckets(&keys);
    let got: Vec<(String, u64)> = points.iter().map(|p| (p.date.clone(), p.commits)).collect();
    assert_eq!(
        got,
        vec![("2023-12".to_string(), 1), ("2024-01".to_string(), 1), ("2024-02".to_string(), 2)]
    );
    assert!(count_buckets(&vec![]).is_empty());
}

fn history() -> Vec<CommitRecord> {
    vec![
        commit_by("c3", "bob", 3_000_000, &[("src/a.rs", 5, 5), ("README.md", 1, 0)]),
        commit_by("c2", "alice", 2_000_000, &[("src/a.rs", 10, 2), ("src/b.rs", 3, 3)]),
        commit_by("c1", "alice", 1_000_000, &[("src/a.rs", 20, 0)]),
    ]
}

#[test]
fn accumulate_tallies_authors_and_files() {
    let commits = history();
    let (contributors, files) = accumulate(&commits);
    assert_eq!(contributors.len(), 2);
    let alice = contributors.get("alice").unwrap();
    assert_eq!(alice.commit_count, 2);
    assert_eq!(alice.lines_added, 33);
    assert_eq!(alice.lines_deleted, 5);
    assert_eq!(alice.files_touched.len(), 2);
    let a = files.get("src/a.rs").unwrap();
    assert_eq!(a.commit_count, 3);
    assert_eq!(a.additions, 35);
    assert_eq!(a.deletions, 7);
    assert_eq!(a.contributors.len(), 2);
    assert_eq!(*a.contributor_churn.get("alice").unwrap(), 32);
    assert_eq!(*a.contributor_churn.get("bob").unwrap(), 10);
    assert_eq!(a.last_modified, at(3_000_000));
}

#[test]
fn analyze_builds_a_consistent_snapshot() {
    let commits = history();
    let snap = analyze_at(commits, TimelineGranularity::Year, at(3_000_000 + 10 * 86_400 + 5));
    assert_eq!(snap.stats.commit_count, 3);
    assert_eq!(snap.stats.lines_added, 39);
    assert_eq!(snap.stats.lines_deleted, 10);
    assert_eq!(snap.stats.repository_age_days, 10 + 2_000_000 / 86_400);

    let names: Vec<&str> = snap.contributors.iter().map(|c| c.name.as_str()).collect();
    assert_eq!(names, vec!["alice", "bob"]);
    // the contributors account for every line and commit
    assert_eq!(snap.contributors.iter().map(|c| c.lines_added).sum::<u64>(), snap.stats.lines_added);
    assert_eq!(snap.contributors.iter().map(|c| c.lines_deleted).sum::<u64>(), snap.stats.lines_deleted);
    assert_eq!(snap.contributors.iter().map(|c| c.commit_count).sum::<u64>(), snap.stats.commit_count);
    // and the files for all churn
    assert_eq!(
        snap.file_churn.iter().map(|f| f.additions + f.deletions).sum::<u64>(),
        snap.stats.lines_added + snap.stats.lines_deleted
    );

    let paths: Vec<&str> = snap.file_churn.iter().map(|f| f.path.as_str()).collect();
    assert_eq!(paths, vec!["src/a.rs", "src/b.rs", "README.md"]);
    assert_eq!(snap.file_churn[0].contributor_count, 2);
    // and the timeline for every commit
    assert_eq!(snap.timeline.iter().map(|t| t.commits).sum::<u64>(), snap.stats.commit_count);

    assert_eq!(snap.ownership[0].path, "src/a.rs");
    assert_eq!(snap.ownership[0].dominant_author, "alice");
    assert_eq!(snap.ownership[0].dominant_churn, 32);
    assert_eq!(snap.ownership[0].total_churn, 42);

    assert_eq!(snap.stats.largest_commits[0].id, "c1");
    assert_eq!(snap.stats.largest_commits[0].churn, 20);
    assert_eq!(snap.stats.largest_commits.len(), 3);

    assert_eq!(snap.stats.bus_factor.bus_factor, 1);
    assert_eq!(snap.timeline.len(), 1);
    assert_eq!(snap.timeline[0].date, "1970");
    assert_eq!(snap.timeline[0].commits, 3);
    assert_eq!(snap.stats.language_breakdown[0].language, "rs");
    assert_eq!(snap.stats.language_breakdown[0].churn, 48);
    assert_eq!(snap.commits.len(), 3);
    assert_eq!(snap.generated_at, at(3_000_000 + 10 * 86_400 + 5));
}

#[test]
fn largest_commits_keep_history_order_on_ties() {
    let commits = vec![
        commit_by("a", "x", 1, &[("f", 1, 1)]),
        commit_by("b", "x", 2, &[("f", 2, 0)]),
        commit_by("c", "x", 3, &[("f", 5, 0)]),
    ];
    let largest = largest_commits(&commits);
    let ids: Vec<&str> = largest.iter().map(|c| c.id.as_str()).collect();
    assert_eq!(ids, vec!["c", "a", "b"]);
}

#[test]
fn repository_age_counts_whole_days() {
    let commits = vec![commit_by("a", "x", 86_400 * 3, &[]), commit_by("b", "x", 86_400, &[])];
    assert_eq!(repository_age_days(&commits, at(86_400 * 5 - 1)), 3);
    assert_eq!(repository_age_days(&commits, at(0)), 0);
    assert_eq!(repository_age_days(&[], at(86_400 * 5)), 0);
}

#[test]
fn timeline_leaves_out_only_unrepresentable_times() {
    let commits = vec![
        CommitRecord { committed_at: at(0), ..commit_with("1", &["a.rs"]) },
        CommitRecord { committed_at: at(i64::MAX), ..commit_with("2", &["a.rs"]) },
        CommitRecord { committed_at: at(86_400), ..commit_with("3", &["a.rs"]) },
    ];
    let timeline = build_timeline(&commits, TimelineGranularity::Year);
    assert_eq!(timeline.len(), 1);
    assert_eq!(timeline[0].date, "1970");
    assert_eq!(timeline[0].commits, 2);
}
