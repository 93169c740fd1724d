use tep::entity::{Entity, EntityLink};
use tep::service::entity_link_context::{record_link_context, LinkContextSearch};
use tep::service::link_walk::link_context_in_graph;
use tep::service::entity_service::LinkedEntityContext;

fn entity(id: i64, name: &str) -> Entity {
    Entity {
        entity_id: id,
        name: name.into(),
        entity_ref: None,
        description: None,
        created_at: "1".into(),
        updated_at: "1".into(),
    }
}

fn link(from: i64, to: i64, relation: &str) -> EntityLink {
    EntityLink {
        from_entity_id: from,
        to_entity_id: to,
        relation: relation.into(),
        created_at: "1".into(),
        updated_at: "1".into(),
    }
}

/// Runs the walk over an in-memory graph: outgoing links first, then
/// incoming ones, each ordered by the other end's id.
fn walk(entities: &[Entity], links: &[EntityLink], root: i64, depth: usize) -> Vec<LinkedEntityContext> {
    let find = |id: i64| entities.iter().find(|e| e.entity_id == id).unwrap().clone();
    let mut search = LinkContextSearch::new(root, depth);
    while let Some((id, d)) = search.next_entity() {
        let mut outgoing: Vec<(EntityLink, Entity)> = links
            .iter()
            .filter(|l| l.from_entity_id == id)
            .map(|l| (l.clone(), find(l.to_entity_id)))
            .collect();
        outgoing.sort_by_key(|(_, e)| e.entity_id);
        let mut incoming: Vec<(EntityLink, Entity)> = links
            .iter()
            .filter(|l| l.to_entity_id == id)
            .map(|l| (l.clone(), find(l.from_entity_id)))
            .collect();
        incoming.sort_by_key(|(_, e)| e.entity_id);
        outgoing.extend(incoming);
        search.visit(d + 1, outgoing);
    }
    search.finish()
}

#[test]
fn returns_empty_for_zero_depth() {
    let entities = vec![entity(1, "student")];
    let linked = walk(&entities, &[], 1, 0);
    assert!(linked.is_empty());
}

#[test]
fn traverses_bidirectional_neighborhood_and_dedupes_root() {
    let entities = vec![
        entity(1, "student"),
        entity(2, "subject"),
        entity(3, "teacher"),
        entity(4, "department"),
    ];
    let links = vec![
        link(1, 2, "student has subjects"),
        link(3, 1, "teacher mentors student"),
        link(4, 3, "department employs teacher"),
    ];
    let linked = walk(&entities, &links, 1, 2);

    assert_eq!(linked.len(), 3);
    assert!(linked.iter().any(|item| item.entity.name == "subject" && item.depth == 1));
    assert!(linked.iter().any(|item| item.entity.name == "teacher" && item.depth == 1));
    assert!(linked.iter().any(|item| item.entity.name == "department" && item.depth == 2));
    assert!(!linked.iter().any(|item| item.entity.name == "student"));
}

#[test]
fn prefers_shallower_path_then_lexical_edge_for_ties() {
    let entities = vec![entity(1, "root"), entity(2, "alpha"), entity(3, "beta")];
    let links = vec![
        link(1, 2, "root to alpha"),
        link(3, 1, "beta to root"),
        link(3, 2, "beta to alpha"),
    ];
    let linked = walk(&entities, &links, 2, 2);
    let root = linked.iter().find(|item| item.entity.name == "root").unwrap();
    assert_eq!(root.depth, 1);
    assert_eq!((root.link.from_entity_id, root.link.to_entity_id), (1, 2));
}

#[test]
fn context_traverses_link_depth_and_dedupes_entities() {
    let entities = vec![
        entity(1, "student"),
        entity(2, "subject"),
        entity(3, "semester"),
        entity(4, "teacher"),
        entity(5, "department"),
    ];
    let links = vec![
        link(1, 2, "student has subjects"),
        link(2, 3, "subject is scheduled in semester"),
        link(3, 1, "semester contains student records"),
        link(4, 1, "teacher mentors student"),
        link(5, 4, "department employs teacher"),
    ];
    let linked = walk(&entities, &links, 1, 2);
    assert_eq!(linked.len(), 4);
}

#[test]
fn result_is_ordered_by_depth_then_id() {
    let entities = vec![entity(1, "a"), entity(7, "b"), entity(3, "c"), entity(9, "d")];
    let links = vec![link(1, 7, "x"), link(3, 1, "y"), link(7, 9, "z")];
    let linked = walk(&entities, &links, 1, 5);
    let order: Vec<(usize, i64)> = linked.iter().map(|c| (c.depth, c.entity.entity_id)).collect();
    assert_eq!(order, vec![(1, 3), (1, 7), (2, 9)]);
}

#[test]
fn record_ignores_the_root() {
    let mut d = Vec::new();
    record_link_context(&mut d, 1, link(2, 1, "r"), entity(1, "root"), 1);
    assert!(d.is_empty());
}

#[test]
fn record_keeps_shallower_entry() {
    let mut d = Vec::new();
    record_link_context(&mut d, 1, link(1, 5, "first"), entity(5, "e"), 1);
    record_link_context(&mut d, 1, link(4, 5, "deeper"), entity(5, "e"), 2);
    assert_eq!(d.len(), 1);
    assert_eq!(d[0].link.relation, "first");
    record_link_context(&mut d, 1, link(0, 5, "tie smaller edge"), entity(5, "e"), 1);
    assert_eq!(d[0].link.relation, "tie smaller edge");
    record_link_context(&mut d, 1, link(9, 5, "tie larger edge"), entity(5, "e"), 1);
    assert_eq!(d[0].link.relation, "tie smaller edge");
}

#[test]
fn record_twice_changes_nothing() {
    let mut d = Vec::new();
    record_link_context(&mut d, 1, link(1, 5, "r"), entity(5, "e"), 1);
    record_link_context(&mut d, 1, link(1, 5, "r"), entity(5, "e"), 1);
    assert_eq!(d.len(), 1);
    assert_eq!(d[0].depth, 1);
}

#[test]
fn one_visit_keeps_least_edge_whatever_the_order() {
    let mut search = LinkContextSearch::new(1, 2);
    assert_eq!(search.next_entity(), Some((1, 0)));
    search.visit(
        1,
        vec![
            (link(1, 7, "larger"), entity(7, "e")),
            (link(1, 5, "other"), entity(5, "f")),
            (link(1, 1, "self"), entity(1, "root")),
            (link(0, 7, "smaller"), entity(7, "e")),
        ],
    );
    let found = search.finish();
    assert_eq!(found.len(), 2);
    assert_eq!(found[0].entity.entity_id, 5);
    assert_eq!(found[1].entity.entity_id, 7);
    assert_eq!(found[1].link.relation, "smaller");
    assert_eq!(found[1].depth, 1);
}

fn graph(entities: &[Entity], links: &[EntityLink]) -> Vec<(EntityLink, Entity, Entity)> {
    let find = |id: i64| entities.iter().find(|e| e.entity_id == id).unwrap().clone();
    links
        .iter()
        .map(|l| (l.clone(), find(l.from_entity_id), find(l.to_entity_id)))
        .collect()
}

#[test]
fn whole_walk_over_a_graph_matches_the_stepwise_walk() {
    let entities = vec![
        entity(1, "student"),
        entity(2, "subject"),
        entity(3, "semester"),
        entity(4, "teacher"),
        entity(5, "department"),
        entity(6, "far"),
    ];
    let links = vec![
        link(1, 2, "student has subjects"),
        link(2, 3, "subject is scheduled in semester"),
        link(3, 1, "semester contains student records"),
        link(4, 1, "teacher mentors student"),
        link(5, 4, "department employs teacher"),
        link(6, 5, "far away"),
    ];
    let g = graph(&entities, &links);
    for depth in 0..4 {
        let key = |v: Vec<LinkedEntityContext>| -> Vec<(usize, i64, i64, i64)> {
            v.iter()
                .map(|c| (c.depth, c.entity.entity_id, c.link.from_entity_id, c.link.to_entity_id))
                .collect()
        };
        let stepwise = key(walk(&entities, &links, 1, depth));
        let whole = key(link_context_in_graph(1, depth, &g));
        assert_eq!(whole, stepwise);
    }
    let whole = link_context_in_graph(1, 2, &g);
    let order: Vec<(usize, i64)> = whole.iter().map(|c| (c.depth, c.entity.entity_id)).collect();
    assert_eq!(order, vec![(1, 2), (1, 3), (1, 4), (2, 5)]);
    assert!(link_context_in_graph(1, 0, &g).is_empty());
}

#[test]
fn whole_walk_takes_the_least_edge_at_equal_depth() {
    let entities = vec![entity(1, "root"), entity(2, "alpha"), entity(3, "beta")];
    let links = vec![
        link(1, 2, "root to alpha"),
        link(3, 1, "beta to root"),
        link(3, 2, "beta to alpha"),
    ];
    let g = graph(&entities, &links);
    let linked = link_context_in_graph(2, 2, &g);
    let root = linked.iter().find(|item| item.entity.name == "root").unwrap();
    assert_eq!(root.depth, 1);
    assert_eq!((root.link.from_entity_id, root.link.to_entity_id), (1, 2));
}
