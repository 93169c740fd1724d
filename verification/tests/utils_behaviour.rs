use tep::utils::parse::{line_contains_marker, line_range_at, parse_scan_limit};
use tep::utils::path::{normalize_lexically, normalize_to_workspace, resolve_from_workspace};
use tep::utils::time::now_utc;

#[test]
fn smoke_test() {
    assert_eq!(2 + 2, 4);
}

#[test]
fn parse_scan_limit_stops_at_first_ignoreafter() {
    let input = "a\n#tepignoreafter\nb\n#tepignoreafter\nc";
    assert_eq!(parse_scan_limit(input, "#tepignoreafter"), 2);
}

#[test]
fn parse_scan_limit_defaults_to_full_len() {
    let input = "a\nb\nc";
    assert_eq!(parse_scan_limit(input, "#tepignoreafter"), input.len());
}

#[test]
fn parse_scan_limit_counts_bytes() {
    let input = "żó\n#tepignoreafter";
    assert_eq!(parse_scan_limit(input, "#tepignoreafter"), 5);
}

#[test]
fn line_range_at_finds_current_line() {
    let input = "one\ntwo marker\nthree";
    let offset = input.find("marker").unwrap();
    let range = line_range_at(input, offset);
    assert_eq!(&input[range], "two marker");
}

#[test]
fn line_contains_marker_checks_only_current_line() {
    let input = "one #tepignore\ntwo anchor\nthree #tepignore";
    let offset = input.find("anchor").unwrap();
    assert!(!line_contains_marker(input, offset, "#tepignore"));
}

#[test]
fn line_contains_marker_sees_marker_on_same_line() {
    let input = "one\nanchor #tepignore\nthree";
    let offset = input.find("anchor").unwrap();
    assert!(line_contains_marker(input, offset, "#tepignore"));
}

#[test]
fn normalize_lexically_removes_dot_and_parent_segments() {
    let normalized = normalize_lexically("./docs/../README.md");
    assert_eq!(normalized, "README.md");
}

#[test]
fn normalize_to_workspace_returns_workspace_relative_path() {
    let normalized = normalize_to_workspace("/tmp/project/./docs/../README.md", "/tmp/project");
    assert_eq!(normalized, "./README.md");
}

#[test]
fn normalize_to_workspace_keeps_outside_absolute_path() {
    let normalized = normalize_to_workspace("/var/tmp/file.md", "/tmp/project");
    assert_eq!(normalized, "/var/tmp/file.md");
}

#[test]
fn resolve_from_workspace_joins_relative_path() {
    let resolved = resolve_from_workspace("./docs/a.md", "/tmp/project");
    assert_eq!(resolved, "/tmp/project/./docs/a.md");
}

#[test]
fn resolve_from_workspace_keeps_absolute_path() {
    let resolved = resolve_from_workspace("/etc/x.md", "/tmp/project");
    assert_eq!(resolved, "/etc/x.md");
}

#[test]
fn now_utc_returns_numeric_unix_seconds_string() {
    let value = now_utc();
    assert!(!value.is_empty());
    assert!(value.chars().all(|c| c.is_ascii_digit()));
}
