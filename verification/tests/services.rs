use tep::anchor::{parse_anchors, Anchor};
use tep::entity::Entity;
use tep::service::anchor_service::{
    anchor_actions, anchor_not_found_message, find_duplicate_name, AnchorPlacement, AnchorSync,
};
use tep::service::entity_context::snippet_from_text;
use tep::service::entity_service::{entity_not_found_message, EntityAutoResult};
use tep::service::health_service::HealthAudit;
use tep::service::workspace_parse_service::collect_parsed_workspace_files;
use tep::service::workspace_service::WorkspaceService;
use tep::tep_tag::{parse_anchor_tags, parse_entity_tags, parse_relation_tags};
use tep::utils::workspace_scanner::{collect_workspace_files, WorkspaceFile};

fn stored_anchor(id: i64, name: &str, file: &str, line: i64, shift: i64, offset: i64) -> Anchor {
    Anchor {
        anchor_id: id,
        version: 1,
        name: Some(name.into()),
        file_path: file.into(),
        line: Some(line),
        shift: Some(shift),
        offset: Some(offset),
        description: None,
        created_at: "1".into(),
        updated_at: "1".into(),
    }
}

#[test]
fn health_reports_entities_without_anchors() {
    let mut audit = HealthAudit::new();
    audit.report_entities_without_anchors(&vec![Entity {
        entity_id: 1,
        name: "student".into(),
        entity_ref: None,
        description: None,
        created_at: "1".into(),
        updated_at: "1".into(),
    }]);
    assert_eq!(audit.report.issue_counts.entities_without_anchors, 1);
    assert_eq!(audit.report.groups.entities_without_anchors, vec!["1 (student)".to_string()]);
}

#[test]
fn health_reports_anchors_without_entities() {
    let mut audit = HealthAudit::new();
    audit.report_anchors_without_entities(&vec![stored_anchor(4, "a", "./docs/a.md", 1, 0, 0)]);
    assert_eq!(audit.report.issue_counts.anchors_without_entities, 1);
    assert_eq!(audit.report.groups.anchors_without_entities, vec!["4 ./docs/a.md".to_string()]);
}

#[test]
fn health_judges_healthy_moved_and_unknown_anchors() {
    let text = "[#!#tep:my_anchor](student)\n#!#tep:[other](student)";
    let anchors = parse_anchors(text);
    assert_eq!(anchors.len(), 2);
    let mut audit = HealthAudit::new();
    assert!(audit.begin_file(anchors.len(), 0));
    assert!(audit.check_anchor_name(&anchors[0].anchor_name, "./docs/student.md"));
    audit.judge_anchor(
        &anchors[0],
        "./docs/student.md",
        "./docs/student.md",
        Some(stored_anchor(1, "my_anchor", "./docs/student.md", 1, 0, 0)),
    );
    assert_eq!(audit.report.anchors_healthy, 1);
    assert!(audit.check_anchor_name(&anchors[1].anchor_name, "./docs/student.md"));
    audit.judge_anchor(
        &anchors[1],
        "./docs/student.md",
        "./docs/student.md",
        Some(stored_anchor(2, "other", "./docs/student.md", 1, 0, 0)),
    );
    assert_eq!(audit.report.issue_counts.anchors_moved, 1);
    assert_eq!(
        audit.report.groups.moved_anchors[0],
        "anchor 'other' metadata drifted in ./docs/student.md (db: ./docs/student.md Some(1):Some(0) [Some(0)], file: ./docs/student.md 2:0 [28])"
    );
    let mut again = HealthAudit::new();
    again.judge_anchor(&anchors[0], "./a.md", "./a.md", None);
    assert_eq!(again.report.issue_counts.unknown_anchor_ids, 1);
    assert_eq!(
        again.report.groups.unknown_anchor_ids[0],
        "anchor 'my_anchor' found in file but does not exist in the database (./a.md)"
    );
}

#[test]
fn health_reports_duplicate_names() {
    let mut audit = HealthAudit::new();
    assert!(audit.begin_file(2, 0));
    assert!(audit.check_anchor_name("dup", "./bad.md"));
    assert!(!audit.check_anchor_name("dup", "./bad.md"));
    assert_eq!(audit.report.groups.duplicate_anchor_ids[0], "anchor 'dup' appears multiple times in ./bad.md");
    assert!(audit.begin_file(1, 0));
    assert!(!audit.check_anchor_name("dup", "./other.md"));
    assert_eq!(
        audit.report.groups.duplicate_anchor_ids[1],
        "anchor 'dup' appears in multiple files: ./bad.md and ./other.md"
    );
    assert_eq!(audit.report.issue_counts.duplicate_anchor_ids, 2);
    assert_eq!(audit.report.files_scanned, 2);
    assert_eq!(audit.report.anchors_seen, 3);
}

#[test]
fn health_reports_missing_anchor_of_scanned_file() {
    let mut audit = HealthAudit::new();
    audit.judge_declaration(Some(2));
    audit.report_missing(
        &vec![stored_anchor(1, "gone", "./note.txt", 1, 0, 0), stored_anchor(2, "kept", "./note.txt", 2, 0, 5), stored_anchor(3, "elsewhere", "./x.txt", 1, 0, 0)],
        &vec!["./note.txt".to_string()],
    );
    assert_eq!(audit.report.issue_counts.anchors_missing, 1);
    assert_eq!(
        audit.report.groups.missing_anchors,
        vec!["missing anchor 1 recorded in db but not found in file ./note.txt".to_string()]
    );
    assert_eq!(audit.report.anchors_healthy, 1);
}

#[test]
fn begin_file_passes_over_files_without_tags() {
    let mut audit = HealthAudit::new();
    assert!(!audit.begin_file(0, 0));
    assert_eq!(audit.report.files_scanned, 0);
}

#[test]
fn duplicate_anchor_names_in_same_file_warn_and_continue() {
    let tags = parse_anchor_tags("#!#tep:[foo](student)\n#!#tep:[foo](teacher)\n");
    assert_eq!(find_duplicate_name(&tags).as_deref(), Some("foo"));
    let mut sync = AnchorSync::new();
    assert!(!sync.begin_file(&tags, "/w/bad.txt"));
    assert!(sync
        .result
        .warnings
        .iter()
        .any(|w| w.contains("duplicate anchor name 'foo'")));
    assert_eq!(sync.result.warnings[0], "duplicate anchor name 'foo' found in the same file /w/bad.txt");
    assert_eq!(sync.result.anchors_seen, 0);
}

#[test]
fn sync_counts_created_anchor_with_relations_and_description() {
    let tags = parse_anchor_tags("#!#tep:[myanchor](student){description=\"Entry point\"}");
    let mut sync = AnchorSync::new();
    assert!(sync.begin_file(&tags, "/w/note.txt"));
    sync.anchor_synced(&tags[0], 7, true, 1);
    let drop = sync.finish_file(tags.len(), &vec![3, 7]);
    assert_eq!(drop, vec![3]);
    assert_eq!(sync.result.anchors_created, 1);
    assert_eq!(sync.result.relations_synced, 1);
    assert_eq!(sync.result.metadata_updated, 1);
    assert_eq!(sync.result.anchors_dropped, 1);
    assert_eq!(sync.result.files_processed, 1);
    assert_eq!(sync.result.anchors_seen, 1);
}

#[test]
fn sync_warns_on_unknown_anchor_metadata() {
    let tags = parse_anchor_tags("#!#tep:[myanchor](student){foo=\"bar\"}");
    let mut sync = AnchorSync::new();
    assert!(sync.begin_file(&tags, "/w/note.txt"));
    sync.anchor_synced(&tags[0], 1, false, 1);
    assert!(sync
        .result
        .warnings
        .iter()
        .any(|w| w.contains("unknown metadata field 'foo'")));
    assert_eq!(sync.result.warnings, vec!["unknown metadata field 'foo' in anchor myanchor".to_string()]);
    assert_eq!(sync.result.metadata_updated, 0);
}

#[test]
fn not_found_messages() {
    assert_eq!(anchor_not_found_message("nonexistent"), "anchor not found: nonexistent");
    assert_eq!(entity_not_found_message("ghost"), "entity not found: ghost");
}

#[test]
fn auto_merges_entity_metadata_and_warns_on_overwrite() {
    let text = "#!#tep:(student){ref=\"./docs/student.md\", description=\"A learner\"}\n#!#tep:(student){description=\"Learner v2\"}\n";
    let tags = parse_entity_tags(text);
    let mut result = EntityAutoResult::default();
    assert!(result.begin_file(tags.len(), 0));
    let first = result.entity_declared(&tags[0], &None, &None, "./a.txt");
    assert_eq!(first.entity_ref.as_deref(), Some("./docs/student.md"));
    assert_eq!(first.description.as_deref(), Some("A learner"));
    let second = result.entity_declared(&tags[1], &first.entity_ref, &first.description, "./a.txt");
    assert_eq!(second.entity_ref, None);
    assert_eq!(second.description.as_deref(), Some("Learner v2"));
    assert_eq!(result.refs_filled, 1);
    assert_eq!(result.descriptions_filled, 2);
    assert_eq!(result.entities_ensured, 2);
    assert!(result.warnings.iter().any(|w| w.contains("description overwritten")));
    assert_eq!(result.warnings, vec!["entity 'student' description overwritten by later declaration".to_string()]);
}

#[test]
fn auto_fills_ref_from_declaring_file() {
    let tags = parse_entity_tags("#!#tep:(student)");
    let mut result = EntityAutoResult::default();
    let updates = result.entity_declared(&tags[0], &None, &None, "./docs/student.md");
    assert_eq!(updates.entity_ref.as_deref(), Some("./docs/student.md"));
    assert_eq!(updates.description, None);
    let again = result.entity_declared(&tags[0], &updates.entity_ref, &None, "./docs/student.md");
    assert_eq!(again.entity_ref, None);
    assert_eq!(result.refs_filled, 1);
}

#[test]
fn auto_creates_relations_from_tags() {
    let tags = parse_relation_tags("#!#tep:(student)->(subject){description=\"has subject\"}\n");
    let mut result = EntityAutoResult::default();
    let relation = result.relation_declared(&tags[0], &None);
    assert_eq!(relation, "has subject");
    assert_eq!(result.relations_synced, 1);
    assert_eq!(result.entities_ensured, 2);
    let plain = parse_relation_tags("#!#tep:(a)->(b)");
    let relation = result.relation_declared(&plain[0], &Some("old".to_string()));
    assert_eq!(relation, "related to");
    assert_eq!(result.warnings, vec!["relation 'a -> b' description overwritten by later declaration".to_string()]);
}

#[test]
fn auto_warns_on_unknown_entity_metadata_fields() {
    let tags = parse_entity_tags("#!#tep:(student){foo=\"bar\"}\n");
    let mut result = EntityAutoResult::default();
    result.entity_declared(&tags[0], &Some("./x".into()), &None, "./a.txt");
    assert!(result
        .warnings
        .iter()
        .any(|w| w.contains("unknown metadata field 'foo'")));
    assert_eq!(result.warnings, vec!["unknown metadata field 'foo' in entity student".to_string()]);
}

#[test]
fn snippet_respects_file_start_boundary() {
    let snippet = snippet_from_text("anchor at start\nrest\n", Some(1)).unwrap();
    assert!(snippet.contains("anchor at start"));
    assert_eq!(snippet, "anchor at start\nrest");
}

#[test]
fn snippet_respects_file_end_boundary() {
    let snippet = snippet_from_text("before\nanchor at end", Some(2)).unwrap();
    assert!(snippet.contains("anchor at end"));
}

#[test]
fn snippet_snaps_to_line_boundaries() {
    let snippet = snippet_from_text("one\ntwo anchor target\nthree\n", Some(2)).unwrap();
    assert!(snippet.contains("two anchor target"));
    assert!(snippet.starts_with("one") || snippet.starts_with("two"));
}

#[test]
fn snippet_window_keeps_three_lines_before_and_six_after() {
    let text: String = (1..=20).map(|i| format!("l{i}\n")).collect();
    let snippet = snippet_from_text(&text, Some(10)).unwrap();
    assert_eq!(snippet, "l7\nl8\nl9\nl10\nl11\nl12\nl13\nl14\nl15\nl16");
}

#[test]
fn snippet_is_none_outside_the_text() {
    assert_eq!(snippet_from_text("a\nb\n", Some(3)), None);
    assert_eq!(snippet_from_text("a\nb\n", Some(0)), None);
    assert_eq!(snippet_from_text("a\nb\n", None), None);
    assert_eq!(snippet_from_text("\n", Some(1)), None);
}

#[test]
fn snippet_stops_at_byte_budget() {
    let long = "x".repeat(3000);
    let text = format!("{long}\n{long}\n{long}\n");
    let snippet = snippet_from_text(&text, Some(1)).unwrap();
    assert_eq!(snippet, long);
}

#[test]
fn scanner_maps_paths_to_files() {
    let files = collect_workspace_files("/w", &vec!["./a.md".to_string(), "/etc/b.md".to_string()]);
    assert_eq!(files.len(), 2);
    assert_eq!(files[0].absolute_path, "/w/./a.md");
    assert_eq!(files[0].display_path, "./a.md");
    assert_eq!(files[1].absolute_path, "/etc/b.md");
}

#[test]
fn auto_warns_and_skips_unreadable_files() {
    let good = WorkspaceFile { absolute_path: "/w/good.txt".into(), display_path: "./good.txt".into() };
    let bad = WorkspaceFile { absolute_path: "/w/binary.bin".into(), display_path: "./binary.bin".into() };
    let (parsed, warnings) = collect_parsed_workspace_files(vec![
        (good, Ok("#!#tep:(student)\n#!#tep:[a](student)".to_string())),
        (bad, Err("stream did not contain valid UTF-8".to_string())),
    ]);
    assert_eq!(parsed.len(), 1);
    assert_eq!(parsed[0].entity_tags.len(), 1);
    assert_eq!(parsed[0].anchor_tags.len(), 1);
    assert_eq!(parsed[0].parsed_anchors.len(), 1);
    assert_eq!(parsed[0].parsed_declarations.len(), 1);
    assert_eq!(
        warnings,
        vec!["skipping unreadable file /w/binary.bin: stream did not contain valid UTF-8".to_string()]
    );
}

#[test]
fn reset_confirmation_accepts_y_and_yes() {
    assert!(WorkspaceService::is_confirmation("y\n"));
    assert!(WorkspaceService::is_confirmation("  YES "));
    assert!(!WorkspaceService::is_confirmation("no"));
    assert!(!WorkspaceService::is_confirmation(""));
}

#[test]
fn init_reports_workspace_files() {
    let r = WorkspaceService::init_result();
    assert_eq!(r.tep_dir, ".tep");
    assert_eq!(r.db_file, ".tep/tep.db");
    assert_eq!(r.ignore_file, ".tepignore");
}

#[test]
fn anchors_stay_in_their_file() {
    let stored = stored_anchor(3, "a", "./docs/a.md", 1, 0, 0);
    assert_eq!(
        tep::service::anchor_service::anchor_location(&stored, "/w/docs/a.md", "/w"),
        Ok("./docs/a.md".to_string())
    );
    assert_eq!(
        tep::service::anchor_service::anchor_location(&stored, "/w/docs/b.md", "/w"),
        Err("materialized anchor 3 is already associated with ./docs/a.md and cannot also be updated from /w/docs/b.md".to_string())
    );
}

#[test]
fn update_replaces_only_given_fields() {
    let current = Entity {
        entity_id: 9,
        name: "student".into(),
        entity_ref: Some("./a.md".into()),
        description: Some("A learner".into()),
        created_at: "1".into(),
        updated_at: "2".into(),
    };
    let changes = tep::entity::UpdateEntity {
        name: Some("Student.Profile".into()),
        entity_ref: None,
        description: Some("Profile".into()),
    };
    let updated = tep::entity::apply_update(&current, &changes).unwrap();
    assert_eq!(updated.name, "student.profile");
    assert_eq!(updated.entity_ref.as_deref(), Some("./a.md"));
    assert_eq!(updated.description.as_deref(), Some("Profile"));
    let bad = tep::entity::UpdateEntity { name: Some("123".into()), entity_ref: None, description: None };
    assert_eq!(
        tep::entity::apply_update(&current, &bad).err(),
        Some("entity name cannot be purely numeric")
    );
}

#[test]
fn anchor_actions_follow_the_tag_and_the_stored_anchor() {
    let tags = parse_anchor_tags("x\n  #!#tep:[myanchor](student){description=\"Entry point\"}");
    let tag = &tags[0];
    let fresh = anchor_actions(tag, None);
    assert_eq!(fresh.placement, AnchorPlacement::Create);
    assert_eq!(fresh.line, 2);
    assert_eq!(fresh.shift, 2);
    assert_eq!(fresh.offset, 4);
    assert!(fresh.replace_entities);
    assert_eq!(fresh.description.as_deref(), Some("Entry point"));
    let again = anchor_actions(tag, Some(9));
    assert_eq!(again.placement, AnchorPlacement::Relocate(9));

    let bare = parse_anchor_tags("#!#tep:[other]");
    if let Some(t) = bare.first() {
        let a = anchor_actions(t, Some(3));
        assert!(!a.replace_entities);
        assert_eq!(a.description, None);
    }
}
