//! Flat, serializable views of entities, anchors, links and the service
//! results, shared by the text and JSON renderers.
use vstd::prelude::*;
use vstd::string::StringExecFns;

use crate::anchor::Anchor;
use crate::entity::Entity;
use crate::service::anchor_service::{AnchorShowResult, AnchorSyncResult};
use crate::service::entity_service::{
    EntityAutoResult, EntityContextAnchor, EntityContextResult, EntityShowResult,
    LinkedEntityContext,
};
use crate::service::health_service::HealthReport;
use crate::text::{clone_opt_string, clone_string, clone_strings, extend_strings};

verus! {

/// Flat entity representation.
#[derive(Debug, Clone)]
pub struct EntityDto {
    pub id: i64,
    pub name: String,
    pub entity_ref: Option<String>,
    pub description: Option<String>,
}

/// Flat anchor representation.
#[derive(Debug, Clone)]
pub struct AnchorDto {
    pub id: i64,
    pub name: String,
    pub file: String,
    pub line: Option<i64>,
    pub shift: Option<i64>,
    pub offset: Option<i64>,
}

/// A directional link in the entity graph.
#[derive(Debug, Clone)]
pub struct LinkDto {
    /// `"->"` (outgoing from root) or `"<-"` (incoming to root)
    pub direction: String,
    pub entity: EntityDto,
    pub relation: String,
    pub depth: usize,
}

#[derive(Debug)]
pub struct EntityShowDto {
    pub entity: EntityDto,
    pub anchors: Vec<AnchorDto>,
    pub links: Vec<LinkDto>,
}

#[derive(Debug)]
pub struct EntityContextDto {
    pub entity: EntityDto,
    pub anchors: Vec<AnchorContextDto>,
    pub links: Vec<LinkDto>,
}

#[derive(Debug)]
pub struct AnchorContextDto {
    pub anchor: AnchorDto,
    pub snippet: Option<String>,
}

#[derive(Debug)]
pub struct AnchorShowDto {
    pub anchor: AnchorDto,
    pub entities: Vec<EntityDto>,
}

#[derive(Debug)]
pub struct EntityAutoDto {
    pub files_processed: usize,
    pub declarations_seen: usize,
    pub relations_seen: usize,
    pub entities_ensured: usize,
    pub refs_filled: usize,
    pub descriptions_filled: usize,
    pub relations_synced: usize,
    pub warnings: Vec<String>,
}

#[derive(Debug)]
pub struct AnchorSyncDto {
    pub files_processed: usize,
    pub anchors_seen: usize,
    pub anchors_created: usize,
    pub anchors_dropped: usize,
    pub relations_synced: usize,
    pub metadata_updated: usize,
    pub warnings: Vec<String>,
}

#[derive(Debug)]
pub struct HealthDto {
    pub files_scanned: usize,
    pub anchors_seen: usize,
    pub anchors_healthy: usize,
    pub anchors_moved: usize,
    pub anchors_missing: usize,
    pub duplicate_anchor_ids: usize,
    pub unknown_anchor_ids: usize,
    pub entities_without_anchors: usize,
    pub anchors_without_entities: usize,
    pub metadata_warnings: usize,
    pub issues: Vec<String>,
}

// --- What each conversion keeps ---

pub open spec fn entity_dto_of(e: Entity, d: EntityDto) -> bool {
    &&& d.id == e.entity_id
    &&& d.name == e.name
    &&& d.entity_ref == e.entity_ref
    &&& d.description == e.description
}

pub open spec fn anchor_dto_of(a: Anchor, d: AnchorDto) -> bool {
    &&& d.id == a.anchor_id
    &&& d.name@ == match a.name {
        Some(n) => n@,
        None => Seq::<char>::empty(),
    }
    &&& d.file == a.file_path
    &&& d.line == a.line
    &&& d.shift == a.shift
    &&& d.offset == a.offset
}

/// `->` when the link leaves the root entity, `<-` otherwise.
pub open spec fn direction_of(root_id: i64, item: LinkedEntityContext) -> Seq<char> {
    if item.link.from_entity_id == root_id {
        "->"@
    } else {
        "<-"@
    }
}

pub open spec fn link_dto_of(root_id: i64, item: LinkedEntityContext, d: LinkDto) -> bool {
    &&& d.direction@ == direction_of(root_id, item)
    &&& entity_dto_of(item.entity, d.entity)
    &&& d.relation == item.link.relation
    &&& d.depth == item.depth
}

pub open spec fn links_dto_of(root_id: i64, items: Seq<LinkedEntityContext>, ds: Seq<LinkDto>) -> bool {
    &&& ds.len() == items.len()
    &&& forall|i: int| 0 <= i < items.len() ==> link_dto_of(root_id, #[trigger] items[i], ds[i])
}

pub open spec fn anchors_dto_of(items: Seq<Anchor>, ds: Seq<AnchorDto>) -> bool {
    &&& ds.len() == items.len()
    &&& forall|i: int| 0 <= i < items.len() ==> anchor_dto_of(#[trigger] items[i], ds[i])
}

pub open spec fn entities_dto_of(items: Seq<Entity>, ds: Seq<EntityDto>) -> bool {
    &&& ds.len() == items.len()
    &&& forall|i: int| 0 <= i < items.len() ==> entity_dto_of(#[trigger] items[i], ds[i])
}

// --- Conversions ---

pub fn entity_to_dto(e: &Entity) -> (d: EntityDto)
    ensures
        entity_dto_of(*e, d),
{
    EntityDto {
        id: e.entity_id,
        name: clone_string(&e.name),
        entity_ref: clone_opt_string(&e.entity_ref),
        description: clone_opt_string(&e.description),
    }
}

pub fn anchor_to_dto(a: &Anchor) -> (d: AnchorDto)
    ensures
        anchor_dto_of(*a, d),
{
    let name = match &a.name {
        Some(n) => clone_string(n),
        None => String::new(),
    };
    AnchorDto {
        id: a.anchor_id,
        name,
        file: clone_string(&a.file_path),
        line: a.line,
        shift: a.shift,
        offset: a.offset,
    }
}

fn link_to_dto(root_id: i64, item: &LinkedEntityContext) -> (d: LinkDto)
    ensures
        link_dto_of(root_id, *item, d),
{
    let direction = if item.link.from_entity_id == root_id {
        String::from_str("->")
    } else {
        String::from_str("<-")
    };
    LinkDto {
        direction,
        entity: entity_to_dto(&item.entity),
        relation: clone_string(&item.link.relation),
        depth: item.depth,
    }
}

fn links_to_dto(root_id: i64, items: &Vec<LinkedEntityContext>) -> (ds: Vec<LinkDto>)
    ensures
        links_dto_of(root_id, items@, ds@),
{
    let mut ds: Vec<LinkDto> = Vec::new();
    let mut i: usize = 0;
    while i < items.len()
        invariant
            i <= items.len(),
            ds@.len() == i,
            forall|j: int| 0 <= j < i ==> link_dto_of(root_id, #[trigger] items@[j], ds@[j]),
        decreases items.len() - i,
    {
        ds.push(link_to_dto(root_id, &items[i]));
        i += 1;
    }
    ds
}

fn anchors_to_dto(items: &Vec<Anchor>) -> (ds: Vec<AnchorDto>)
    ensures
        anchors_dto_of(items@, ds@),
{
    let mut ds: Vec<AnchorDto> = Vec::new();
    let mut i: usize = 0;
    while i < items.len()
        invariant
            i <= items.len(),
            ds@.len() == i,
            forall|j: int| 0 <= j < i ==> anchor_dto_of(#[trigger] items@[j], ds@[j]),
        decreases items.len() - i,
    {
        ds.push(anchor_to_dto(&items[i]));
        i += 1;
    }
    ds
}

/// Converts a list of anchors.
pub fn anchors_to_dtos(items: &Vec<Anchor>) -> (ds: Vec<AnchorDto>)
    ensures
        anchors_dto_of(items@, ds@),
{
    anchors_to_dto(items)
}

/// Converts a list of entities.
pub fn entities_to_dtos(items: &Vec<Entity>) -> (ds: Vec<EntityDto>)
    ensures
        entities_dto_of(items@, ds@),
{
    let mut ds: Vec<EntityDto> = Vec::new();
    let mut i: usize = 0;
    while i < items.len()
        invariant
            i <= items.len(),
            ds@.len() == i,
            forall|j: int| 0 <= j < i ==> entity_dto_of(#[trigger] items@[j], ds@[j]),
        decreases items.len() - i,
    {
        ds.push(entity_to_dto(&items[i]));
        i += 1;
    }
    ds
}

pub fn entity_show_to_dto(result: &EntityShowResult) -> (d: EntityShowDto)
    ensures
        entity_dto_of(result.entity, d.entity),
        anchors_dto_of(result.anchors@, d.anchors@),
        links_dto_of(result.entity.entity_id, result.linked_entities@, d.links@),
{
    let root_id = result.entity.entity_id;
    EntityShowDto {
        entity: entity_to_dto(&result.entity),
        anchors: anchors_to_dto(&result.anchors),
        links: links_to_dto(root_id, &result.linked_entities),
    }
}

pub open spec fn context_anchor_dto_of(a: EntityContextAnchor, d: AnchorContextDto) -> bool {
    anchor_dto_of(a.anchor, d.anchor) && d.snippet == a.snippet
}

pub fn entity_context_to_dto(result: &EntityContextResult) -> (d: EntityContextDto)
    ensures
        entity_dto_of(result.entity, d.entity),
        d.anchors@.len() == result.anchors@.len(),
        forall|i: int|
            0 <= i < result.anchors@.len() ==> context_anchor_dto_of(
                #[trigger] result.anchors@[i],
                d.anchors@[i],
            ),
        links_dto_of(result.entity.entity_id, result.linked_entities@, d.links@),
{
    let root_id = result.entity.entity_id;
    let mut anchors: Vec<AnchorContextDto> = Vec::new();
    let mut i: usize = 0;
    while i < result.anchors.len()
        invariant
            i <= result.anchors@.len(),
            anchors@.len() == i,
            forall|j: int|
                0 <= j < i ==> context_anchor_dto_of(#[trigger] result.anchors@[j], anchors@[j]),
        decreases result.anchors.len() - i,
    {
        let a = &result.anchors[i];
        anchors.push(
            AnchorContextDto { anchor: anchor_to_dto(&a.anchor), snippet: clone_opt_string(&a.snippet) },
        );
        i += 1;
    }
    EntityContextDto {
        entity: entity_to_dto(&result.entity),
        anchors,
        links: links_to_dto(root_id, &result.linked_entities),
    }
}

pub fn anchor_show_to_dto(result: &AnchorShowResult) -> (d: AnchorShowDto)
    ensures
        anchor_dto_of(result.anchor, d.anchor),
        entities_dto_of(result.entities@, d.entities@),
{
    AnchorShowDto { anchor: anchor_to_dto(&result.anchor), entities: entities_to_dtos(&result.entities) }
}

pub fn anchor_sync_to_dto(result: &AnchorSyncResult) -> (d: AnchorSyncDto)
    ensures
        d.files_processed == result.files_processed,
        d.anchors_seen == result.anchors_seen,
        d.anchors_created == result.anchors_created,
        d.anchors_dropped == result.anchors_dropped,
        d.relations_synced == result.relations_synced,
        d.metadata_updated == result.metadata_updated,
        d.warnings@ == result.warnings@,
{
    AnchorSyncDto {
        files_processed: result.files_processed,
        anchors_seen: result.anchors_seen,
        anchors_created: result.anchors_created,
        anchors_dropped: result.anchors_dropped,
        relations_synced: result.relations_synced,
        metadata_updated: result.metadata_updated,
        warnings: clone_strings(&result.warnings),
    }
}

pub fn entity_auto_to_dto(result: &EntityAutoResult) -> (d: EntityAutoDto)
    ensures
        d.files_processed == result.files_processed,
        d.declarations_seen == result.declarations_seen,
        d.relations_seen == result.relations_seen,
        d.entities_ensured == result.entities_ensured,
        d.refs_filled == result.refs_filled,
        d.descriptions_filled == result.descriptions_filled,
        d.relations_synced == result.relations_synced,
        d.warnings@ == result.warnings@,
{
    EntityAutoDto {
        files_processed: result.files_processed,
        declarations_seen: result.declarations_seen,
        relations_seen: result.relations_seen,
        entities_ensured: result.entities_ensured,
        refs_filled: result.refs_filled,
        descriptions_filled: result.descriptions_filled,
        relations_synced: result.relations_synced,
        warnings: clone_strings(&result.warnings),
    }
}

/// The issues of a report, group after group.
pub open spec fn report_issues(report: HealthReport) -> Seq<String> {
    report.groups.moved_anchors@ + report.groups.missing_anchors@
        + report.groups.duplicate_anchor_ids@ + report.groups.unknown_anchor_ids@
        + report.groups.entities_without_anchors@ + report.groups.anchors_without_entities@
}

/// A health report flattened; the report carries no metadata warnings, so
/// that count is zero.
pub fn health_to_dto(report: &HealthReport) -> (d: HealthDto)
    ensures
        d.files_scanned == report.files_scanned,
        d.anchors_seen == report.anchors_seen,
        d.anchors_healthy == report.anchors_healthy,
        d.anchors_moved == report.issue_counts.anchors_moved,
        d.anchors_missing == report.issue_counts.anchors_missing,
        d.duplicate_anchor_ids == report.issue_counts.duplicate_anchor_ids,
        d.unknown_anchor_ids == report.issue_counts.unknown_anchor_ids,
        d.entities_without_anchors == report.issue_counts.entities_without_anchors,
        d.anchors_without_entities == report.issue_counts.anchors_without_entities,
        d.metadata_warnings == 0,
        d.issues@ == report_issues(*report),
{
    let mut issues: Vec<String> = Vec::new();
    extend_strings(&mut issues, &report.groups.moved_anchors);
    extend_strings(&mut issues, &report.groups.missing_anchors);
    extend_strings(&mut issues, &report.groups.duplicate_anchor_ids);
    extend_strings(&mut issues, &report.groups.unknown_anchor_ids);
    extend_strings(&mut issues, &report.groups.entities_without_anchors);
    extend_strings(&mut issues, &report.groups.anchors_without_entities);
    proof {
        assert(issues@ =~= report_issues(*report));
    }
    HealthDto {
        files_scanned: report.files_scanned,
        anchors_seen: report.anchors_seen,
        anchors_healthy: report.anchors_healthy,
        anchors_moved: report.issue_counts.anchors_moved,
        anchors_missing: report.issue_counts.anchors_missing,
        duplicate_anchor_ids: report.issue_counts.duplicate_anchor_ids,
        unknown_anchor_ids: report.issue_counts.unknown_anchor_ids,
        entities_without_anchors: report.issue_counts.entities_without_anchors,
        anchors_without_entities: report.issue_counts.anchors_without_entities,
        metadata_warnings: 0,
        issues,
    }
}

/// Whether a health result shows any problem; `health --check` fails
/// exactly then.
pub open spec fn has_issues(d: HealthDto) -> bool {
    d.anchors_moved > 0 || d.anchors_missing > 0 || d.duplicate_anchor_ids > 0
        || d.unknown_anchor_ids > 0 || d.entities_without_anchors > 0
        || d.anchors_without_entities > 0 || d.metadata_warnings > 0
}

pub fn health_has_issues(d: &HealthDto) -> (r: bool)
    ensures
        r == has_issues(*d),
{
    d.anchors_moved > 0 || d.anchors_missing > 0 || d.duplicate_anchor_ids > 0
        || d.unknown_anchor_ids > 0 || d.entities_without_anchors > 0
        || d.anchors_without_entities > 0 || d.metadata_warnings > 0
}

} // verus!
