use tep::anchor::Anchor;
use tep::dto::{anchor_show_to_dto, anchor_to_dto, entity_context_to_dto, entity_show_to_dto, entity_to_dto};
use tep::entity::{Entity, EntityLink};
use tep::service::anchor_service::AnchorShowResult;
use tep::service::entity_service::{
    EntityContextAnchor, EntityContextResult, EntityShowResult, LinkedEntityContext,
};

fn sample_entity() -> Entity {
    Entity {
        entity_id: 42,
        name: "auth.flow".into(),
        entity_ref: Some("./src/auth.rs".into()),
        description: Some("Auth flow".into()),
        created_at: "1".into(),
        updated_at: "2".into(),
    }
}

fn sample_anchor() -> Anchor {
    Anchor {
        anchor_id: 7,
        version: 1,
        name: Some("auth.entry".into()),
        file_path: "./src/auth.rs".into(),
        line: Some(10),
        shift: Some(2),
        offset: Some(100),
        description: None,
        created_at: "1".into(),
        updated_at: "2".into(),
    }
}

fn sample_link(from: i64, to: i64, relation: &str, depth: usize) -> LinkedEntityContext {
    LinkedEntityContext {
        link: EntityLink {
            from_entity_id: from,
            to_entity_id: to,
            relation: relation.into(),
            created_at: "1".into(),
            updated_at: "2".into(),
        },
        entity: Entity {
            entity_id: to,
            name: "token".into(),
            entity_ref: Some("./src/token.rs".into()),
            description: None,
            created_at: "1".into(),
            updated_at: "2".into(),
        },
        depth,
    }
}

#[test]
fn entity_to_dto_maps_all_fields() {
    let dto = entity_to_dto(&sample_entity());
    assert_eq!(dto.id, 42);
    assert_eq!(dto.name, "auth.flow");
    assert_eq!(dto.entity_ref.as_deref(), Some("./src/auth.rs"));
    assert_eq!(dto.description.as_deref(), Some("Auth flow"));
}

#[test]
fn anchor_to_dto_maps_all_fields() {
    let dto = anchor_to_dto(&sample_anchor());
    assert_eq!(dto.id, 7);
    assert_eq!(dto.name, "auth.entry");
    assert_eq!(dto.file, "./src/auth.rs");
    assert_eq!(dto.line, Some(10));
    assert_eq!(dto.shift, Some(2));
    assert_eq!(dto.offset, Some(100));
}

#[test]
fn entity_show_to_dto_maps_anchors_and_links() {
    let outgoing = sample_link(42, 10, "produces token", 1);
    let incoming = sample_link(5, 42, "caller uses auth", 1);

    let dto = entity_show_to_dto(&EntityShowResult {
        entity: sample_entity(),
        anchors: vec![sample_anchor()],
        linked_entities: vec![outgoing, incoming],
    });

    assert_eq!(dto.entity.id, 42);
    assert_eq!(dto.anchors.len(), 1);
    assert_eq!(dto.anchors[0].id, 7);
    assert_eq!(dto.links.len(), 2);
    assert!(dto
        .links
        .iter()
        .any(|l| l.direction == "->" && l.relation == "produces token"));
    assert!(dto
        .links
        .iter()
        .any(|l| l.direction == "<-" && l.relation == "caller uses auth"));
}

#[test]
fn anchor_show_to_dto_maps_anchor_and_entities() {
    let dto = anchor_show_to_dto(&AnchorShowResult {
        anchor: sample_anchor(),
        entities: vec![sample_entity()],
    });
    assert_eq!(dto.anchor.id, 7);
    assert_eq!(dto.anchor.name, "auth.entry");
    assert_eq!(dto.entities.len(), 1);
    assert_eq!(dto.entities[0].id, 42);
    assert_eq!(dto.entities[0].name, "auth.flow");
}

#[test]
fn entity_context_to_dto_includes_snippet_and_links() {
    let dto = entity_context_to_dto(&EntityContextResult {
        entity: sample_entity(),
        anchors: vec![EntityContextAnchor {
            anchor: sample_anchor(),
            snippet: Some("fn authenticate() {}".into()),
        }],
        linked_entities: vec![sample_link(42, 10, "produces token", 1)],
    });
    assert_eq!(dto.entity.id, 42);
    assert_eq!(dto.anchors.len(), 1);
    assert_eq!(dto.anchors[0].snippet.as_deref(), Some("fn authenticate() {}"));
    assert_eq!(dto.links.len(), 1);
    assert_eq!(dto.links[0].direction, "->");
    assert_eq!(dto.links[0].relation, "produces token");
}

#[test]
fn link_direction_outgoing_when_from_is_root() {
    let link = sample_link(42, 10, "outgoing", 1);
    let dto = entity_show_to_dto(&EntityShowResult {
        entity: sample_entity(),
        anchors: vec![],
        linked_entities: vec![link],
    });
    assert_eq!(dto.links[0].direction, "->");
}

#[test]
fn link_direction_incoming_when_to_is_root() {
    let link = sample_link(99, 42, "incoming", 1);
    let dto = entity_show_to_dto(&EntityShowResult {
        entity: sample_entity(),
        anchors: vec![],
        linked_entities: vec![link],
    });
    assert_eq!(dto.links[0].direction, "<-");
}

#[test]
fn anchor_without_name_maps_to_empty_name() {
    let mut anchor = sample_anchor();
    anchor.name = None;
    anchor.line = None;
    let dto = anchor_to_dto(&anchor);
    assert_eq!(dto.name, "");
    assert_eq!(dto.line, None);
}
