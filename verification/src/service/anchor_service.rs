//! Anchor sync and show: the results, and the rules by which the anchors
//! found in a file update the stored anchors.
//!
//! The store is queried and written outside; the sync is a state machine
//! fed, file by file and anchor by anchor, with what the store answered.
use vstd::prelude::*;
use vstd::string::StringExecFns;

use crate::anchor::Anchor;
use crate::entity::Entity;
use crate::service::entity_service::{collect_metadata_warnings, metadata_warning_lines};
use crate::tep_tag::{meta_get, strings_view, ParsedAnchorTag};
use crate::text::int_str;
use crate::text::{append_i64, str_eq};
use crate::utils::path::{normalize_to_workspace, spec_normalize_to_workspace};

verus! {

#[derive(Debug, Clone)]
pub struct AnchorSyncResult {
    pub files_processed: usize,
    pub anchors_created: usize,
    pub anchors_seen: usize,
    pub anchors_dropped: usize,
    pub relations_synced: usize,
    pub metadata_updated: usize,
    pub warnings: Vec<String>,
}

impl Default for AnchorSyncResult {
    fn default() -> (r: AnchorSyncResult)
        ensures
            r.files_processed == 0 && r.anchors_created == 0 && r.anchors_seen == 0
                && r.anchors_dropped == 0 && r.relations_synced == 0 && r.metadata_updated == 0
                && r.warnings@.len() == 0,
    {
        AnchorSyncResult {
            files_processed: 0,
            anchors_created: 0,
            anchors_seen: 0,
            anchors_dropped: 0,
            relations_synced: 0,
            metadata_updated: 0,
            warnings: Vec::new(),
        }
    }
}

pub struct AnchorShowResult {
    pub anchor: Anchor,
    pub entities: Vec<Entity>,
}


/// The names of the anchors, in order.
pub open spec fn tag_names(tags: Seq<ParsedAnchorTag>) -> Seq<Seq<char>> {
    Seq::new(tags.len(), |i: int| tags[i].anchor_name@)
}

/// The first name, searching from index `j`, that already occurred before
/// it.
pub open spec fn first_repeat(names: Seq<Seq<char>>, j: int) -> Option<Seq<char>>
    decreases names.len() - j,
{
    if j < 0 || j >= names.len() {
        None
    } else if names.take(j).contains(names[j]) {
        Some(names[j])
    } else {
        first_repeat(names, j + 1)
    }
}

proof fn lemma_first_repeat_from(names: Seq<Seq<char>>, j: int)
    requires
        0 <= j <= names.len(),
    ensures
        first_repeat(names, j) is None <==> forall|a: int, b: int|
            0 <= a < b < names.len() && j <= b ==> names[a] != names[b],
        first_repeat(names, j) matches Some(n) ==> exists|b: int|
            j <= b < names.len() && names[b] == n && (exists|a: int| 0 <= a < b && names[a] == n)
                && forall|a2: int, b2: int| 0 <= a2 < b2 < b && j <= b2 ==> names[a2] != names[b2],
    decreases names.len() - j,
{
    if j < names.len() {
        lemma_first_repeat_from(names, j + 1);
        if names.take(j).contains(names[j]) {
            let a = choose|a: int| 0 <= a < j && names.take(j)[a] == names[j];
            assert(names[a] == names.take(j)[a]);
        } else {
            assert forall|a: int| 0 <= a < j implies names[a] != names[j] by {
                assert(names.take(j)[a] == names[a]);
            }
        }
    }
}

/// The duplicate search over a file's anchor tags (what
/// `find_duplicate_name` gives and `AnchorSync::begin_file` refuses on)
/// finds a repeated name wherever its two occurrences stand: it gives a
/// name exactly when two tags of the file share one, and then the name
/// whose second occurrence comes first.
pub proof fn lemma_duplicate_names_are_found(tags: Seq<ParsedAnchorTag>)
    ensures
        first_repeat(tag_names(tags), 0) is None <==> forall|a: int, b: int|
            0 <= a < b < tags.len() ==> tags[a].anchor_name@ != tags[b].anchor_name@,
        first_repeat(tag_names(tags), 0) matches Some(n) ==> exists|b: int|
            0 <= b < tags.len() && tags[b].anchor_name@ == n && (exists|a: int|
                0 <= a < b && tags[a].anchor_name@ == n) && forall|a2: int, b2: int|
                0 <= a2 < b2 < b ==> tags[a2].anchor_name@ != tags[b2].anchor_name@,
{
    let names = tag_names(tags);
    lemma_first_repeat_from(names, 0);
    assert(names.len() == tags.len());
    if forall|a: int, b: int| 0 <= a < b < tags.len() ==> tags[a].anchor_name@ != tags[b].anchor_name@ {
        assert forall|a: int, b: int| 0 <= a < b < names.len() && 0 <= b implies names[a]
            != names[b] by {
            assert(names[a] == tags[a].anchor_name@ && names[b] == tags[b].anchor_name@);
        }
    }
    if first_repeat(names, 0) is None {
        assert forall|a: int, b: int| 0 <= a < b < tags.len() implies tags[a].anchor_name@
            != tags[b].anchor_name@ by {
            assert(names[a] == tags[a].anchor_name@ && names[b] == tags[b].anchor_name@);
        }
    }
    if let Some(n) = first_repeat(names, 0) {
        let b = choose|b: int|
            0 <= b < names.len() && names[b] == n && (exists|a: int| 0 <= a < b && names[a] == n)
                && forall|a2: int, b2: int| 0 <= a2 < b2 < b && 0 <= b2 ==> names[a2] != names[b2];
        let a = choose|a: int| 0 <= a < b && names[a] == n;
        assert(names[a] == tags[a].anchor_name@ && names[b] == tags[b].anchor_name@);
        assert forall|a2: int, b2: int| 0 <= a2 < b2 < b implies tags[a2].anchor_name@
            != tags[b2].anchor_name@ by {
            assert(names[a2] == tags[a2].anchor_name@ && names[b2] == tags[b2].anchor_name@);
        }
    }
}

pub open spec fn duplicate_name_warning(name: Seq<char>, file: Seq<char>) -> Seq<char> {
    "duplicate anchor name '"@ + name + "' found in the same file "@ + file
}

pub open spec fn anchor_not_found(target: Seq<char>) -> Seq<char> {
    "anchor not found: "@ + target
}

/// The description an anchor tag carries in its metadata.
pub open spec fn tag_description(tag: ParsedAnchorTag) -> Option<Seq<char>> {
    meta_get(tag.metadata@, "description"@)
}

/// The first anchor name of a file that repeats an earlier one.
pub fn find_duplicate_name(tags: &Vec<ParsedAnchorTag>) -> (r: Option<String>)
    ensures
        match first_repeat(tag_names(tags@), 0) {
            Some(n) => r matches Some(s) && s@ == n,
            None => r is None,
        },
{
    let ghost names = tag_names(tags@);
    let mut j: usize = 0;
    while j < tags.len()
        invariant
            j <= tags@.len(),
            names == tag_names(tags@),
            first_repeat(names, 0) == first_repeat(names, j as int),
        decreases tags.len() - j,
    {
        let mut i: usize = 0;
        while i < j
            invariant
                i <= j < tags@.len(),
                names == tag_names(tags@),
                first_repeat(names, 0) == first_repeat(names, j as int),
                forall|k: int| 0 <= k < i ==> names[k] != names[j as int],
            decreases j - i,
        {
            if str_eq(tags[i].anchor_name.as_str(), tags[j].anchor_name.as_str()) {
                proof {
                    assert(names.take(j as int)[i as int] == names[j as int]);
                    assert(names.take(j as int).contains(names[j as int]));
                }
                return Some(tags[j].anchor_name.clone());
            }
            i += 1;
        }
        proof {
            assert forall|k: int| 0 <= k < names.take(j as int).len() implies names.take(j as int)[k]
                != names[j as int] by {
                assert(names.take(j as int)[k] == names[k]);
            }
        }
        j += 1;
    }
    None
}

/// The message for an anchor that neither id nor name finds.
pub fn anchor_not_found_message(target: &str) -> (r: String)
    ensures
        r@ == anchor_not_found(target@),
{
    let mut s = String::from_str("anchor not found: ");
    s.append(target);
    s
}

/// The description to store for an anchor tag.
pub fn anchor_tag_description(tag: &ParsedAnchorTag) -> (r: Option<String>)
    ensures
        match tag_description(*tag) {
            Some(d) => r matches Some(s) && s@ == d,
            None => r is None,
        },
{
    tag.metadata.get("description")
}

/// Where the store puts an anchor tag: on the stored anchor of that name,
/// or on a new anchor created for it.
#[derive(Debug, Clone, Copy, PartialEq, Eq)]
pub enum AnchorPlacement {
    Relocate(i64),
    Create,
}

/// What the store is asked to do for one anchor tag: place it at its
/// position, replace the anchor's entities (with those the tag refers to)
/// only when the tag has references, and set the description when the tag
/// carries one.
#[derive(Debug, Clone)]
pub struct AnchorActions {
    pub placement: AnchorPlacement,
    pub line: i64,
    pub shift: i64,
    pub offset: i64,
    pub replace_entities: bool,
    pub description: Option<String>,
}

/// The actions for `tag`, given the id of the stored anchor of the tag's
/// name, if the store has one.
pub open spec fn actions_placement(found: Option<i64>) -> AnchorPlacement {
    match found {
        Some(id) => AnchorPlacement::Relocate(id),
        None => AnchorPlacement::Create,
    }
}

pub fn anchor_actions(tag: &ParsedAnchorTag, found: Option<i64>) -> (r: AnchorActions)
    requires
        tag.start_offset <= i64::MAX,
    ensures
        r.placement == actions_placement(found),
        r.line == tag.line,
        r.shift == tag.shift,
        r.offset == tag.start_offset,
        r.replace_entities == (tag.entity_refs@.len() > 0),
        match tag_description(*tag) {
            Some(d) => r.description matches Some(s) && s@ == d,
            None => r.description is None,
        },
{
    let placement = match found {
        Some(id) => AnchorPlacement::Relocate(id),
        None => AnchorPlacement::Create,
    };
    AnchorActions {
        placement,
        line: tag.line,
        shift: tag.shift,
        offset: tag.start_offset as i64,
        replace_entities: tag.entity_refs.len() > 0,
        description: anchor_tag_description(tag),
    }
}

/// Syncing the tags of a file in turn: tag `i` was placed on the stored
/// anchor `found[i]` (or on a new one when `None`), which has id `ids[i]`,
/// and got `rels[i]` entities.
pub open spec fn sync_tags(
    m: AnchorSyncModel,
    tags: Seq<ParsedAnchorTag>,
    found: Seq<Option<i64>>,
    ids: Seq<i64>,
    rels: Seq<nat>,
) -> AnchorSyncModel
    decreases tags.len(),
{
    if tags.len() == 0 {
        m
    } else {
        let n = tags.len() - 1;
        anchor_synced_model(
            sync_tags(m, tags.drop_last(), found.take(n), ids.take(n), rels.take(n)),
            tags.last(),
            ids[n],
            actions_placement(found[n]) == AnchorPlacement::Create,
            rels[n],
        )
    }
}

/// Syncing a file again creates and drops nothing: when every tag's name
/// finds a stored anchor, syncing the tags creates none, and when every
/// anchor the store holds for the file is among those found, finishing the
/// file drops none.
pub proof fn lemma_resync_creates_and_drops_nothing(
    m: AnchorSyncModel,
    tags: Seq<ParsedAnchorTag>,
    found: Seq<Option<i64>>,
    ids: Seq<i64>,
    rels: Seq<nat>,
    existing: Seq<i64>,
)
    requires
        found.len() == tags.len() && ids.len() == tags.len() && rels.len() == tags.len(),
        forall|i: int| 0 <= i < tags.len() ==> #[trigger] found[i] == Some(ids[i]),
        forall|j: int| 0 <= j < existing.len() ==> ids.contains(#[trigger] existing[j]),
    ensures
        sync_tags(m, tags, found, ids, rels).anchors_created == m.anchors_created,
        ids_to_drop(existing, sync_tags(m, tags, found, ids, rels).seen_ids).len() == 0,
{
    lemma_sync_tags_accounts(m, tags, found, ids, rels);
    let seen = sync_tags(m, tags, found, ids, rels).seen_ids;
    let pred = unseen(seen);
    assert(existing.all(|x: i64| !pred(x))) by {
        assert forall|j: int| 0 <= j < existing.len() implies !pred(#[trigger] existing[j]) by {
            let i = choose|i: int| 0 <= i < ids.len() && ids[i] == existing[j];
            assert(seen.contains(ids[i]));
        }
    }
    existing.lemma_all_neg_filter_empty(pred);
}

proof fn lemma_sync_tags_accounts(
    m: AnchorSyncModel,
    tags: Seq<ParsedAnchorTag>,
    found: Seq<Option<i64>>,
    ids: Seq<i64>,
    rels: Seq<nat>,
)
    requires
        found.len() == tags.len() && ids.len() == tags.len() && rels.len() == tags.len(),
        forall|i: int| 0 <= i < tags.len() ==> #[trigger] found[i] == Some(ids[i]),
    ensures
        sync_tags(m, tags, found, ids, rels).anchors_created == m.anchors_created,
        forall|i: int|
            0 <= i < ids.len() ==> sync_tags(m, tags, found, ids, rels).seen_ids.contains(
                #[trigger] ids[i],
            ),
    decreases tags.len(),
{
    if tags.len() > 0 {
        let n = tags.len() - 1;
        assert forall|i: int| 0 <= i < n implies #[trigger] found.take(n)[i] == Some(
            ids.take(n)[i],
        ) by {
            assert(found[i] == Some(ids[i]));
        }
        lemma_sync_tags_accounts(m, tags.drop_last(), found.take(n), ids.take(n), rels.take(n));
        let prev = sync_tags(m, tags.drop_last(), found.take(n), ids.take(n), rels.take(n));
        assert(found[n] == Some(ids[n]));
        let now = sync_tags(m, tags, found, ids, rels);
        assert forall|i: int| 0 <= i < ids.len() implies now.seen_ids.contains(#[trigger] ids[i]) by {
            if i < n {
                assert(ids.take(n)[i] == ids[i]);
                assert(prev.seen_ids.contains(ids[i]));
                if !prev.seen_ids.contains(ids[n]) {
                    let j = choose|j: int| 0 <= j < prev.seen_ids.len() && prev.seen_ids[j] == ids[i];
                    assert(now.seen_ids[j] == ids[i]);
                }
            } else {
                if !prev.seen_ids.contains(ids[n]) {
                    assert(now.seen_ids[prev.seen_ids.len() as int] == ids[n]);
                }
            }
        }
    }
}

/// The counts and warnings of a sync, and the stored anchors accounted for
/// in the current file.
pub struct AnchorSync {
    pub result: AnchorSyncResult,
    pub seen_ids: Vec<i64>,
}

pub struct AnchorSyncModel {
    pub files_processed: nat,
    pub anchors_created: nat,
    pub anchors_seen: nat,
    pub anchors_dropped: nat,
    pub relations_synced: nat,
    pub metadata_updated: nat,
    pub warnings: Seq<Seq<char>>,
    pub seen_ids: Seq<i64>,
}

impl View for AnchorSync {
    type V = AnchorSyncModel;

    open spec fn view(&self) -> AnchorSyncModel {
        AnchorSyncModel {
            files_processed: self.result.files_processed as nat,
            anchors_created: self.result.anchors_created as nat,
            anchors_seen: self.result.anchors_seen as nat,
            anchors_dropped: self.result.anchors_dropped as nat,
            relations_synced: self.result.relations_synced as nat,
            metadata_updated: self.result.metadata_updated as nat,
            warnings: strings_view(self.result.warnings@),
            seen_ids: self.seen_ids@,
        }
    }
}

/// `ids` with `id` added, as a set.
pub open spec fn with_id(ids: Seq<i64>, id: i64) -> Seq<i64> {
    if ids.contains(id) {
        ids
    } else {
        ids.push(id)
    }
}

/// The stored ids of a file that the sync did not account for.
pub open spec fn ids_to_drop(existing: Seq<i64>, seen: Seq<i64>) -> Seq<i64> {
    existing.filter(unseen(seen))
}

pub open spec fn unseen(seen: Seq<i64>) -> spec_fn(i64) -> bool {
    |id: i64| !seen.contains(id)
}

/// What syncing one anchor tag does to the counts: the anchor (created when
/// the store had none of that name) is accounted for, its relations are
/// counted, a description counts as a metadata update, and the metadata's
/// problems become warnings.
pub open spec fn anchor_synced_model(
    m: AnchorSyncModel,
    tag: ParsedAnchorTag,
    anchor_id: i64,
    created: bool,
    relations: nat,
) -> AnchorSyncModel {
    AnchorSyncModel {
        seen_ids: with_id(m.seen_ids, anchor_id),
        relations_synced: m.relations_synced + relations,
        metadata_updated: if tag_description(tag) is Some {
            m.metadata_updated + 1
        } else {
            m.metadata_updated
        },
        anchors_created: if created {
            m.anchors_created + 1
        } else {
            m.anchors_created
        },
        warnings: m.warnings + metadata_warning_lines(
            tag.metadata@.duplicate_keys,
            tag.metadata@.unknown_fields,
            "anchor"@,
            tag.anchor_name@,
        ),
        ..m
    }
}

fn contains_id(v: &Vec<i64>, x: i64) -> (r: bool)
    ensures
        r == v@.contains(x),
{
    let mut i: usize = 0;
    while i < v.len()
        invariant
            i <= v@.len(),
            forall|m: int| 0 <= m < i ==> v@[m] != x,
        decreases v.len() - i,
    {
        if v[i] == x {
            return true;
        }
        i += 1;
    }
    false
}

impl AnchorSync {
    /// A sync that has seen nothing.
    pub fn new() -> (s: AnchorSync)
        ensures
            s@.files_processed == 0 && s@.anchors_created == 0 && s@.anchors_seen == 0
                && s@.anchors_dropped == 0 && s@.relations_synced == 0 && s@.metadata_updated == 0,
            s@.warnings.len() == 0,
            s@.seen_ids.len() == 0,
    {
        AnchorSync { result: AnchorSyncResult::default(), seen_ids: Vec::new() }
    }

    /// Adds warnings gathered before the sync began (files that could not
    /// be read).
    pub fn add_warnings(&mut self, extra: &Vec<String>)
        ensures
            final(self)@ == (AnchorSyncModel {
                warnings: old(self)@.warnings + strings_view(extra@),
                ..old(self)@
            }),
    {
        let ghost w0 = strings_view(self.result.warnings@);
        crate::text::extend_strings(&mut self.result.warnings, extra);
        proof {
            assert(strings_view(self.result.warnings@) =~= w0 + strings_view(extra@));
        }
    }

    /// Starts a file (shown as `file`) with its anchor tags. A file in which
    /// an anchor name repeats is not synced: it gets a warning, and `false`.
    /// Otherwise its tags count as seen and no stored anchor has been
    /// accounted for in it yet.
    pub fn begin_file(&mut self, tags: &Vec<ParsedAnchorTag>, file: &str) -> (r: bool)
        requires
            old(self).result.anchors_seen + tags@.len() <= usize::MAX,
        ensures
            r == (first_repeat(tag_names(tags@), 0) is None),
            match first_repeat(tag_names(tags@), 0) {
                Some(n) => final(self)@ == (AnchorSyncModel {
                    warnings: old(self)@.warnings.push(duplicate_name_warning(n, file@)),
                    ..old(self)@
                }),
                None => final(self)@ == (AnchorSyncModel {
                    anchors_seen: old(self)@.anchors_seen + tags@.len(),
                    seen_ids: seq![],
                    ..old(self)@
                }),
            },
    {
        let ghost m = self@;
        match find_duplicate_name(tags) {
            Some(name) => {
                let mut w = String::from_str("duplicate anchor name '");
                w.append(name.as_str());
                w.append("' found in the same file ");
                w.append(file);
                self.result.warnings.push(w);
                proof {
                    assert(strings_view(self.result.warnings@) =~= m.warnings.push(
                        duplicate_name_warning(name@, file@),
                    ));
                }
                false
            },
            None => {
                self.result.anchors_seen += tags.len();
                self.seen_ids = Vec::new();
                true
            },
        }
    }

    /// Records a synced anchor tag: `anchor_id` is the stored anchor it
    /// updated or (`created`) the one made for it, `relations` the number of
    /// entities attached to it.
    pub fn anchor_synced(
        &mut self,
        tag: &ParsedAnchorTag,
        anchor_id: i64,
        created: bool,
        relations: usize,
    )
        requires
            old(self).result.relations_synced + relations <= usize::MAX,
            old(self).result.metadata_updated < usize::MAX,
            old(self).result.anchors_created < usize::MAX,
        ensures
            final(self)@ == anchor_synced_model(old(self)@, *tag, anchor_id, created, relations as nat),
    {
        let ghost m = self@;
        if !contains_id(&self.seen_ids, anchor_id) {
            self.seen_ids.push(anchor_id);
        }
        self.result.relations_synced += relations;
        if anchor_tag_description(tag).is_some() {
            self.result.metadata_updated += 1;
        }
        collect_metadata_warnings(
            &mut self.result.warnings,
            &tag.metadata.duplicate_keys,
            &tag.metadata.unknown_fields,
            tag.anchor_name.as_str(),
            "anchor",
        );
        if created {
            self.result.anchors_created += 1;
        }
        proof {
            assert(self@ =~= anchor_synced_model(m, *tag, anchor_id, created, relations as nat));
        }
    }

    /// Ends a file: of the ids the store holds for it, those not accounted
    /// for are returned to be deleted and counted as dropped; a file with
    /// anchor tags counts as processed.
    pub fn finish_file(&mut self, tag_count: usize, existing: &Vec<i64>) -> (drop: Vec<i64>)
        requires
            old(self).result.anchors_dropped + existing@.len() <= usize::MAX,
            old(self).result.files_processed < usize::MAX,
        ensures
            drop@ == ids_to_drop(existing@, old(self)@.seen_ids),
            final(self)@ == (AnchorSyncModel {
                anchors_dropped: old(self)@.anchors_dropped + drop@.len(),
                files_processed: if tag_count > 0 {
                    old(self)@.files_processed + 1
                } else {
                    old(self)@.files_processed
                },
                ..old(self)@
            }),
    {
        let ghost m = self@;
        let ghost pred = unseen(m.seen_ids);
        let mut drop: Vec<i64> = Vec::new();
        let mut i: usize = 0;
        proof {
            assert(existing@.take(0).filter(pred) =~= Seq::<i64>::empty());
        }
        while i < existing.len()
            invariant
                i <= existing@.len(),
                self@ == m,
                pred == unseen(m.seen_ids),
                drop@ == existing@.take(i as int).filter(pred),
                drop@.len() <= i,
            decreases existing.len() - i,
        {
            let id = existing[i];
            proof {
                assert(existing@.take(i + 1) =~= existing@.take(i as int).push(id));
                existing@.take(i as int).lemma_filter_push(id, pred);
            }
            if !contains_id(&self.seen_ids, id) {
                drop.push(id);
            }
            i += 1;
        }
        proof {
            assert(existing@.take(existing@.len() as int) =~= existing@);
        }
        self.result.anchors_dropped += drop.len();
        if tag_count > 0 {
            self.result.files_processed += 1;
        }
        drop
    }
}

pub open spec fn relocation_refused(anchor_id: i64, stored_file: Seq<char>, file: Seq<char>) -> Seq<char> {
    "materialized anchor "@ + int_str(anchor_id as int) + " is already associated with "@
        + stored_file + " and cannot also be updated from "@ + file
}

/// Where an existing anchor found in `file` is stored: the file's workspace
/// form, which must be the one it is stored under; an anchor never moves to
/// another file.
pub fn anchor_location(anchor: &Anchor, file: &str, workspace_root: &str) -> (r: Result<String, String>)
    ensures
        ({
            let new_file = spec_normalize_to_workspace(file@, workspace_root@);
            let old_file = spec_normalize_to_workspace(anchor.file_path@, workspace_root@);
            if old_file == new_file {
                r matches Ok(s) && s@ == new_file
            } else {
                r matches Err(e) && e@ == relocation_refused(anchor.anchor_id, anchor.file_path@, file@)
            }
        }),
{
    let normalized = normalize_to_workspace(file, workspace_root);
    let stored = normalize_to_workspace(anchor.file_path.as_str(), workspace_root);
    if str_eq(stored.as_str(), normalized.as_str()) {
        Ok(normalized)
    } else {
        let mut msg = String::from_str("materialized anchor ");
        append_i64(&mut msg, anchor.anchor_id);
        msg.append(" is already associated with ");
        msg.append(anchor.file_path.as_str());
        msg.append(" and cannot also be updated from ");
        msg.append(file);
        Err(msg)
    }
}

} // verus!
