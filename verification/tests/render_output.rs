use tep::dto::{EntityDto, LinkDto};
use tep::output::render::{append_entity_metadata, append_link_block, render_entity_header};
use tep::output::workspace_output::format_init_result;
use tep::service::workspace_service::InitResult;

fn sample_entity_dto() -> EntityDto {
    EntityDto {
        id: 42,
        name: "student".into(),
        entity_ref: Some("./docs/student.md".into()),
        description: Some("A learner".into()),
    }
}

#[test]
fn renders_entity_header() {
    let rendered = render_entity_header(&sample_entity_dto());
    assert_eq!(rendered, "42 (student)\n");
}

#[test]
fn appends_entity_metadata() {
    let mut out = String::new();
    append_entity_metadata(&mut out, &sample_entity_dto());
    assert!(out.contains("ref:"));
    assert!(out.contains("description: A learner"));
}

#[test]
fn append_link_block_shows_direction_and_relation() {
    let mut out = String::new();
    let links = vec![
        LinkDto {
            direction: "->".into(),
            entity: EntityDto {
                id: 10,
                name: "subject".into(),
                entity_ref: Some("./docs/subject.md".into()),
                description: None,
            },
            relation: "student has subjects".into(),
            depth: 1,
        },
        LinkDto {
            direction: "<-".into(),
            entity: EntityDto {
                id: 5,
                name: "teacher".into(),
                entity_ref: None,
                description: None,
            },
            relation: "teacher mentors student".into(),
            depth: 2,
        },
    ];
    append_link_block(&mut out, &links);
    assert!(out.contains("links:"));
    assert!(out.contains("-> 10 (subject) [./docs/subject.md]  student has subjects"));
    assert!(out.contains("<- 5 (teacher)  teacher mentors student  [depth:2]"));
}

#[test]
fn append_link_block_writes_nothing_without_links() {
    let mut out = String::from("x");
    append_link_block(&mut out, &[]);
    assert_eq!(out, "x");
}

#[test]
fn formats_init_result() {
    let rendered = format_init_result(&InitResult {
        tep_dir: ".tep".into(),
        db_file: ".tep/tep.db".into(),
        ignore_file: ".tep_ignore".into(),
    });

    assert!(rendered.contains("Initialized empty tep workspace in .tep"));
    assert!(rendered.contains("Database: .tep/tep.db"));
    assert!(rendered.contains("Ignore file: .tep_ignore"));
}

#[test]
fn init_result_text_is_exact() {
    let rendered = format_init_result(&InitResult {
        tep_dir: "/w/.tep".into(),
        db_file: "/w/.tep/tep.db".into(),
        ignore_file: "/w/.tepignore".into(),
    });
    assert_eq!(
        rendered,
        "Initialized empty tep workspace in /w/.tep\nDatabase: /w/.tep/tep.db\nIgnore file: /w/.tepignore\n"
    );
}
