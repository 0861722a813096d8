use delta::utils::glob::{matches_any, path_matches, wildcard_match};

#[test]
fn wildcard_star_and_question() {
    assert!(wildcard_match("*.rs", "main.rs"));
    assert!(wildcard_match("*.rs", "src/main.rs"));
    assert!(!wildcard_match("*.rs", "main.rsx"));
    assert!(wildcard_match("main.?s", "main.rs"));
    assert!(wildcard_match("a*c", "abc"));
    assert!(wildcard_match("*", "anything"));
}

#[test]
fn basename_matching_for_extension_filters() {
    assert!(path_matches("*.rs", "deeply/nested/main.rs"));
    assert!(!path_matches("*.rs", "deeply/nested/main.md"));
    assert!(path_matches("src/**", "src/foo/bar.rs"));
    assert!(!path_matches("tests/**", "src/foo/bar.rs"));
}

#[test]
fn matches_any_applies_whole_list() {
    let patterns = vec!["*.rs".to_string(), "*.md".to_string()];
    assert!(matches_any(&patterns, "README.md"));
    assert!(!matches_any(&patterns, "Cargo.toml"));
}

#[test]
fn star_in_text_is_matched_by_star_in_pattern() {
    assert!(wildcard_match("*a", "*ba"));
    assert!(wildcard_match("a*b*c", "axxbyyc"));
    assert!(!wildcard_match("a*b*c", "axxbyy"));
    assert!(wildcard_match("", ""));
    assert!(!wildcard_match("", "x"));
    assert!(wildcard_match("**", ""));
    assert!(!wildcard_match("?", ""));
}

#[test]
fn pattern_with_slash_needs_whole_path() {
    assert!(!path_matches("src/*.rs", "lib/src/main.rs"));
    assert!(path_matches("src/*.rs", "src/main.rs"));
    assert!(path_matches("main.rs", "a/b/main.rs"));
    assert!(!path_matches("a*", "a/b"));
    assert!(path_matches("*", "file"));
}
