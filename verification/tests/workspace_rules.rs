use tep::db::{
    choose_workspace_root, detect_schema_version, find_workspace_root, nearest_root, plan_migrations,
    schema_sql, workspace_paths_for, workspace_probe_paths,
};
use tep::dto::{health_has_issues, HealthDto};
use tep::errors::TepError;
use tep::filter::tep_ignore_filter::{sort_and_dedup_paths, TepIgnoreFilter};
use tep::output::styles::{paint, strip_ansi, ANSI_CYAN};

#[test]
fn workspace_paths_are_under_the_root() {
    let p = workspace_paths_for("/w");
    assert_eq!(p.tep_dir, "/w/.tep");
    assert_eq!(p.db_file, "/w/.tep/tep.db");
    assert_eq!(p.ignore_file, "/w/.tepignore");
}

#[test]
fn missing_workspace_is_reported() {
    let r = find_workspace_root("/nonexistent-tep-dir/a/b");
    assert_eq!(
        r,
        Err("no tep workspace found from /nonexistent-tep-dir/a/b\nrun `tep init` in the project root to create one".to_string())
    );
}

#[test]
fn schema_version_is_read_off_the_tables() {
    assert_eq!(detect_schema_version(false, false, false, false), 0);
    assert_eq!(detect_schema_version(true, false, true, true), 1);
    assert_eq!(detect_schema_version(true, true, false, true), 2);
    assert_eq!(detect_schema_version(true, true, true, false), 3);
    assert_eq!(detect_schema_version(true, true, true, true), 4);
}

#[test]
fn migrations_run_from_the_later_version() {
    let p = plan_migrations(1, 2);
    assert!(!p.to_v2 && p.to_v3 && p.add_anchor_description);
    assert_eq!(p.final_version, 3);
    let settled = plan_migrations(p.final_version, 4);
    assert!(!settled.to_v2 && !settled.to_v3 && !settled.add_anchor_description);
    assert_eq!(settled.final_version, 3);
    assert_eq!(plan_migrations(7, 0).final_version, 7);
}

#[test]
fn legacy_workspace_db_is_migrated_to_version_three() {
    // entities without a description column, no other tables, user_version 0;
    // the base schema then creates anchors with all their columns
    let detected = detect_schema_version(true, false, true, true);
    assert_eq!(detected, 1);
    let p = plan_migrations(0, detected);
    assert!(p.to_v2 && p.to_v3 && p.add_anchor_description);
    assert_eq!(p.final_version, 3);
}

#[test]
fn version_three_db_without_anchor_description_is_upgraded() {
    let detected = detect_schema_version(true, true, true, false);
    let p = plan_migrations(3, detected);
    assert!(!p.to_v2 && !p.to_v3);
    assert!(p.add_anchor_description);
    assert_eq!(p.final_version, 3);
}

#[test]
fn fresh_workspace_db_is_at_version_three() {
    let p = plan_migrations(0, detect_schema_version(true, true, true, true));
    assert!(!p.to_v2 && !p.to_v3 && !p.add_anchor_description);
    assert_eq!(p.final_version, 3);
}

#[test]
fn workspace_root_is_the_deepest_probe_that_answers_yes() {
    assert_eq!(nearest_root(&vec![true, false, true, false]), Some(2));
    assert_eq!(nearest_root(&vec![false, false]), None);
    let probes = workspace_probe_paths("/a/b/c.txt", false);
    assert_eq!(probes, vec!["/.tep/tep.db", "/a/.tep/tep.db", "/a/b/.tep/tep.db"]);
    let probes = workspace_probe_paths("/a/b", true);
    assert_eq!(probes.len(), 3);
    assert_eq!(choose_workspace_root("/a/b", &vec![true, true, false]), Ok("/a".to_string()));
    assert_eq!(choose_workspace_root("/a/b", &vec![false, false, true]), Ok("/a/b".to_string()));
    assert!(choose_workspace_root("/a/b", &vec![false, false, false])
        .unwrap_err()
        .contains("run `tep init`"));
}

#[test]
fn schema_creates_all_tables() {
    let sql = schema_sql();
    for table in ["entities", "anchors", "anchor_entities", "entity_links"] {
        assert!(sql.contains(&format!("CREATE TABLE IF NOT EXISTS {table}")));
    }
}

#[test]
fn scanned_paths_are_sorted_by_component_and_deduplicated() {
    let paths = vec![
        "./b.txt".to_string(),
        "./a.txt".to_string(),
        "./a.txt".to_string(),
        "/var/x.md".to_string(),
        "./a/b.txt".to_string(),
        "./a.b".to_string(),
    ];
    let sorted = sort_and_dedup_paths(&paths);
    assert_eq!(sorted, vec!["/var/x.md", "./a/b.txt", "./a.b", "./a.txt", "./b.txt"]);
}

#[test]
fn ignore_file_is_special() {
    let f = TepIgnoreFilter::for_workspace_root("/w");
    assert!(f.is_special_internal_file("/w/.tepignore"));
    assert!(f.is_special_internal_file("./docs/.tepignore"));
    assert!(!f.is_special_internal_file("/w/a.txt"));
}

#[test]
fn inputs_resolve_against_the_workspace() {
    let f = TepIgnoreFilter::for_workspace_root("/w");
    assert_eq!(f.resolve_input("./a.txt"), "./a.txt");
    assert_eq!(f.resolve_input("/etc/x"), "/etc/x");
    assert_eq!(f.normalize_path("/w/docs/../a.txt"), "./a.txt");
}

#[test]
fn paint_then_strip_gives_the_text_back() {
    let painted = paint(ANSI_CYAN, "anchor:1");
    assert_eq!(painted, "\x1b[36manchor:1\x1b[0m");
    assert_eq!(strip_ansi(&painted), "anchor:1");
}

#[test]
fn not_implemented_error_message() {
    assert_eq!(TepError::NotImplemented("reset").message(), "not implemented: reset");
}

fn clean_health() -> HealthDto {
    HealthDto {
        files_scanned: 1,
        anchors_seen: 1,
        anchors_healthy: 1,
        anchors_moved: 0,
        anchors_missing: 0,
        duplicate_anchor_ids: 0,
        unknown_anchor_ids: 0,
        entities_without_anchors: 0,
        anchors_without_entities: 0,
        metadata_warnings: 0,
        issues: vec![],
    }
}

#[test]
fn health_check_exits_zero_when_clean() {
    assert!(!health_has_issues(&clean_health()));
}

#[test]
fn health_check_exits_non_zero_when_issues_exist() {
    let mut d = clean_health();
    d.duplicate_anchor_ids = 1;
    assert!(health_has_issues(&d));
}
