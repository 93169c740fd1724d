//! Entity show, context and auto-declaration results, and the rules by
//! which declarations found in files update the stored entities.
use vstd::prelude::*;
use vstd::string::StringExecFns;

use crate::anchor::Anchor;
use crate::entity::{Entity, EntityLink};
use crate::tep_tag::{key_index, lemma_key_index, meta_get, strings_view, ParsedEntityTag, ParsedRelationTag};
use crate::text::str_eq;

verus! {

pub struct EntityShowResult {
    pub entity: Entity,
    pub anchors: Vec<Anchor>,
    pub linked_entities: Vec<LinkedEntityContext>,
}

pub struct EntityContextAnchor {
    pub anchor: Anchor,
    pub snippet: Option<String>,
}

pub struct LinkedEntityContext {
    pub link: EntityLink,
    pub entity: Entity,
    pub depth: usize,
}

pub struct EntityContextResult {
    pub entity: Entity,
    pub anchors: Vec<EntityContextAnchor>,
    pub linked_entities: Vec<LinkedEntityContext>,
}

#[derive(Debug)]
pub struct EntityAutoResult {
    pub files_processed: usize,
    pub declarations_seen: usize,
    pub relations_seen: usize,
    pub entities_ensured: usize,
    pub refs_filled: usize,
    pub descriptions_filled: usize,
    pub relations_synced: usize,
    pub warnings: Vec<String>,
}

impl Default for EntityAutoResult {
    fn default() -> (r: EntityAutoResult)
        ensures
            r.files_processed == 0 && r.declarations_seen == 0 && r.relations_seen == 0
                && r.entities_ensured == 0 && r.refs_filled == 0 && r.descriptions_filled == 0
                && r.relations_synced == 0 && r.warnings@.len() == 0,
    {
        EntityAutoResult {
            files_processed: 0,
            declarations_seen: 0,
            relations_seen: 0,
            entities_ensured: 0,
            refs_filled: 0,
            descriptions_filled: 0,
            relations_synced: 0,
            warnings: Vec::new(),
        }
    }
}


pub open spec fn duplicate_key_warning(key: Seq<char>, kind: Seq<char>, target: Seq<char>) -> Seq<char> {
    "duplicate metadata key '"@ + key + "' in "@ + kind + " "@ + target
}

pub open spec fn unknown_field_warning(key: Seq<char>, kind: Seq<char>, target: Seq<char>) -> Seq<char> {
    "unknown metadata field '"@ + key + "' in "@ + kind + " "@ + target
}

/// One warning per repeated metadata key, then one per unknown field.
pub open spec fn metadata_warning_lines(
    duplicate_keys: Seq<Seq<char>>,
    unknown_fields: Seq<Seq<char>>,
    kind: Seq<char>,
    target: Seq<char>,
) -> Seq<Seq<char>> {
    Seq::new(duplicate_keys.len(), |i: int| duplicate_key_warning(duplicate_keys[i], kind, target))
        + Seq::new(unknown_fields.len(), |i: int| unknown_field_warning(unknown_fields[i], kind, target))
}

fn warning_text(lead: &str, key: &str, kind: &str, target: &str) -> (r: String)
    ensures
        r@ == lead@ + key@ + "' in "@ + kind@ + " "@ + target@,
{
    let mut s = String::from_str(lead);
    s.append(key);
    s.append("' in ");
    s.append(kind);
    s.append(" ");
    s.append(target);
    s
}

/// Appends the warnings for the repeated keys and unknown fields of the
/// metadata of a `kind` named `target`.
pub fn collect_metadata_warnings(
    warnings: &mut Vec<String>,
    duplicate_keys: &Vec<String>,
    unknown_fields: &Vec<String>,
    target: &str,
    kind: &str,
)
    ensures
        strings_view(final(warnings)@) == strings_view(old(warnings)@) + metadata_warning_lines(
            strings_view(duplicate_keys@),
            strings_view(unknown_fields@),
            kind@,
            target@,
        ),
{
    let ghost w0 = strings_view(warnings@);
    let ghost dk = strings_view(duplicate_keys@);
    let ghost uf = strings_view(unknown_fields@);
    let mut i: usize = 0;
    proof {
        assert(w0 + Seq::new(0, |k: int| duplicate_key_warning(dk[k], kind@, target@)) =~= w0);
    }
    while i < duplicate_keys.len()
        invariant
            i <= duplicate_keys@.len(),
            dk == strings_view(duplicate_keys@),
            strings_view(warnings@) == w0 + Seq::new(
                i as nat,
                |k: int| duplicate_key_warning(dk[k], kind@, target@),
            ),
        decreases duplicate_keys.len() - i,
    {
        let line = warning_text("duplicate metadata key '", duplicate_keys[i].as_str(), kind, target);
        let ghost before = strings_view(warnings@);
        warnings.push(line);
        proof {
            assert(strings_view(warnings@) =~= before.push(line@));
            assert(w0 + Seq::new((i + 1) as nat, |k: int| duplicate_key_warning(dk[k], kind@, target@))
                =~= (w0 + Seq::new(i as nat, |k: int| duplicate_key_warning(dk[k], kind@, target@))).push(
                duplicate_key_warning(dk[i as int], kind@, target@),
            ));
        }
        i += 1;
    }
    let ghost w1 = strings_view(warnings@);
    let mut j: usize = 0;
    proof {
        assert(w1 + Seq::new(0, |k: int| unknown_field_warning(uf[k], kind@, target@)) =~= w1);
    }
    while j < unknown_fields.len()
        invariant
            j <= unknown_fields@.len(),
            uf == strings_view(unknown_fields@),
            strings_view(warnings@) == w1 + Seq::new(
                j as nat,
                |k: int| unknown_field_warning(uf[k], kind@, target@),
            ),
        decreases unknown_fields.len() - j,
    {
        let line = warning_text("unknown metadata field '", unknown_fields[j].as_str(), kind, target);
        let ghost before = strings_view(warnings@);
        warnings.push(line);
        proof {
            assert(strings_view(warnings@) =~= before.push(line@));
            assert(w1 + Seq::new((j + 1) as nat, |k: int| unknown_field_warning(uf[k], kind@, target@))
                =~= (w1 + Seq::new(j as nat, |k: int| unknown_field_warning(uf[k], kind@, target@))).push(
                unknown_field_warning(uf[j as int], kind@, target@),
            ));
        }
        j += 1;
    }
    proof {
        assert(strings_view(warnings@) =~= w0 + metadata_warning_lines(dk, uf, kind@, target@));
    }
}


pub open spec fn ref_overwritten(name: Seq<char>) -> Seq<char> {
    "entity '"@ + name + "' ref overwritten by later declaration"@
}

pub open spec fn description_overwritten(name: Seq<char>) -> Seq<char> {
    "entity '"@ + name + "' description overwritten by later declaration"@
}

pub open spec fn relation_overwritten(from: Seq<char>, to: Seq<char>) -> Seq<char> {
    "relation '"@ + from + " -> "@ + to + "' description overwritten by later declaration"@
}

pub open spec fn relation_target(from: Seq<char>, to: Seq<char>) -> Seq<char> {
    from + " -> "@ + to
}

pub open spec fn opt_view(o: Option<String>) -> Option<Seq<char>> {
    match o {
        Some(s) => Some(s@),
        None => None,
    }
}

/// The ref a declaration writes: the one it carries, else the declaring
/// file when the entity has none; `None` when nothing is written.
pub open spec fn ref_to_write(tag: ParsedEntityTag, current: Option<Seq<char>>, file: Seq<char>) -> Option<
    Seq<char>,
> {
    match meta_get(tag.metadata@, "ref"@) {
        Some(r) => Some(r),
        None => if current is None {
            Some(file)
        } else {
            None
        },
    }
}

/// A declaration's `ref` always wins: when the tag's metadata holds a
/// `ref` field, its value is the ref written, whatever ref the entity had,
/// and replacing a different ref counts as filled and is warned about;
/// without one, the declaring file is written only into an entity that
/// has no ref.
pub proof fn lemma_declared_ref_wins(
    m: EntityAutoModel,
    tag: ParsedEntityTag,
    current_ref: Option<Seq<char>>,
    current_description: Option<Seq<char>>,
    file: Seq<char>,
)
    ensures
        forall|j: int|
            0 <= j < tag.metadata@.fields.len() && (#[trigger] tag.metadata@.fields[j]).0 == "ref"@
                && (forall|i: int| 0 <= i < j ==> tag.metadata@.fields[i].0 != "ref"@) ==> {
                let r = tag.metadata@.fields[j].1;
                let after = entity_declared_model(m, tag, current_ref, current_description, file);
                &&& ref_to_write(tag, current_ref, file) == Some(r)
                &&& after.refs_filled == if current_ref == Some(r) {
                    m.refs_filled
                } else {
                    m.refs_filled + 1
                }
                &&& (current_ref is Some && current_ref != Some(r)) ==> after.warnings.contains(
                    ref_overwritten(tag.name@),
                )
            },
        (forall|i: int| 0 <= i < tag.metadata@.fields.len() ==> tag.metadata@.fields[i].0 != "ref"@)
            ==> ref_to_write(tag, current_ref, file) == if current_ref is None {
            Some(file)
        } else {
            None
        },
{
    let f = tag.metadata@.fields;
    lemma_key_index(f, "ref"@, 0);
    assert forall|j: int|
        0 <= j < f.len() && (#[trigger] f[j]).0 == "ref"@ && (forall|i: int|
            0 <= i < j ==> f[i].0 != "ref"@) implies {
        let r = f[j].1;
        let after = entity_declared_model(m, tag, current_ref, current_description, file);
        &&& ref_to_write(tag, current_ref, file) == Some(r)
        &&& after.refs_filled == if current_ref == Some(r) {
            m.refs_filled
        } else {
            m.refs_filled + 1
        }
        &&& (current_ref is Some && current_ref != Some(r)) ==> after.warnings.contains(
            ref_overwritten(tag.name@),
        )
    } by {
        let r = f[j].1;
        match key_index(f, "ref"@, 0) {
            Some(j2) => {
                if j2 < j {
                    assert(f[j2].0 != "ref"@);
                }
                if j2 > j {
                    assert(f[j].0 != "ref"@);
                }
            },
            None => {
                assert(f[j].0 != "ref"@);
            },
        }
        let after = entity_declared_model(m, tag, current_ref, current_description, file);
        if current_ref is Some && current_ref != Some(r) {
            assert(after.warnings[m.warnings.len() as int] == ref_overwritten(tag.name@));
        }
    }
    if forall|i: int| 0 <= i < f.len() ==> f[i].0 != "ref"@ {
        match key_index(f, "ref"@, 0) {
            Some(j2) => {
                assert(f[j2].0 != "ref"@);
            },
            None => {},
        }
    }
}

/// A declaration's `description` field is what it writes, and a link's
/// `description` field is its relation text: the first field of that key;
/// without one, a declaration writes no description and a link reads
/// `related to`.
pub proof fn lemma_declared_description_wins(tag: ParsedEntityTag, link: ParsedRelationTag)
    ensures
        forall|j: int|
            0 <= j < tag.metadata@.fields.len() && (#[trigger] tag.metadata@.fields[j]).0
                == "description"@ && (forall|i: int|
                0 <= i < j ==> tag.metadata@.fields[i].0 != "description"@) ==> description_to_write(
                tag,
            ) == Some(tag.metadata@.fields[j].1),
        (forall|i: int|
            0 <= i < tag.metadata@.fields.len() ==> tag.metadata@.fields[i].0 != "description"@)
            ==> description_to_write(tag) is None,
        forall|j: int|
            0 <= j < link.metadata@.fields.len() && (#[trigger] link.metadata@.fields[j]).0
                == "description"@ && (forall|i: int|
                0 <= i < j ==> link.metadata@.fields[i].0 != "description"@) ==> relation_text(link)
                == link.metadata@.fields[j].1,
        (forall|i: int|
            0 <= i < link.metadata@.fields.len() ==> link.metadata@.fields[i].0 != "description"@)
            ==> relation_text(link) == "related to"@,
{
    let f = tag.metadata@.fields;
    let g = link.metadata@.fields;
    lemma_key_index(f, "description"@, 0);
    lemma_key_index(g, "description"@, 0);
    assert forall|j: int|
        0 <= j < f.len() && (#[trigger] f[j]).0 == "description"@ && (forall|i: int|
            0 <= i < j ==> f[i].0 != "description"@) implies description_to_write(tag) == Some(
        f[j].1,
    ) by {
        match key_index(f, "description"@, 0) {
            Some(j2) => {
                if j2 < j {
                    assert(f[j2].0 != "description"@);
                }
                if j2 > j {
                    assert(f[j].0 != "description"@);
                }
            },
            None => {
                assert(f[j].0 != "description"@);
            },
        }
    }
    assert forall|j: int|
        0 <= j < g.len() && (#[trigger] g[j]).0 == "description"@ && (forall|i: int|
            0 <= i < j ==> g[i].0 != "description"@) implies relation_text(link) == g[j].1 by {
        match key_index(g, "description"@, 0) {
            Some(j2) => {
                if j2 < j {
                    assert(g[j2].0 != "description"@);
                }
                if j2 > j {
                    assert(g[j].0 != "description"@);
                }
            },
            None => {
                assert(g[j].0 != "description"@);
            },
        }
    }
    if forall|i: int| 0 <= i < f.len() ==> f[i].0 != "description"@ {
        if let Some(j2) = key_index(f, "description"@, 0) {
            assert(f[j2].0 != "description"@);
        }
    }
    if forall|i: int| 0 <= i < g.len() ==> g[i].0 != "description"@ {
        if let Some(j2) = key_index(g, "description"@, 0) {
            assert(g[j2].0 != "description"@);
        }
    }
}

/// The description a declaration writes: the one it carries, if any.
pub open spec fn description_to_write(tag: ParsedEntityTag) -> Option<Seq<char>> {
    meta_get(tag.metadata@, "description"@)
}

/// The relation text a link declaration stores: its description, or
/// `related to`.
pub open spec fn relation_text(tag: ParsedRelationTag) -> Seq<char> {
    match meta_get(tag.metadata@, "description"@) {
        Some(d) => d,
        None => "related to"@,
    }
}

/// The counts and warnings of an auto-declaration run.
pub struct EntityAutoModel {
    pub files_processed: nat,
    pub declarations_seen: nat,
    pub relations_seen: nat,
    pub entities_ensured: nat,
    pub refs_filled: nat,
    pub descriptions_filled: nat,
    pub relations_synced: nat,
    pub warnings: Seq<Seq<char>>,
}

impl View for EntityAutoResult {
    type V = EntityAutoModel;

    open spec fn view(&self) -> EntityAutoModel {
        EntityAutoModel {
            files_processed: self.files_processed as nat,
            declarations_seen: self.declarations_seen as nat,
            relations_seen: self.relations_seen as nat,
            entities_ensured: self.entities_ensured as nat,
            refs_filled: self.refs_filled as nat,
            descriptions_filled: self.descriptions_filled as nat,
            relations_synced: self.relations_synced as nat,
            warnings: strings_view(self.warnings@),
        }
    }
}

/// What declaring an entity does to the counts, given the ref and
/// description the entity had: the entity counts as ensured; a ref that
/// changes counts as filled, with a warning when it replaces another; the
/// same for the description; then the metadata's problems become warnings.
pub open spec fn entity_declared_model(
    m: EntityAutoModel,
    tag: ParsedEntityTag,
    current_ref: Option<Seq<char>>,
    current_description: Option<Seq<char>>,
    file: Seq<char>,
) -> EntityAutoModel {
    let name = tag.name@;
    let new_ref = ref_to_write(tag, current_ref, file);
    let ref_changed = new_ref is Some && current_ref != new_ref;
    let ref_warn: Seq<Seq<char>> = if ref_changed && current_ref is Some {
        seq![ref_overwritten(name)]
    } else {
        seq![]
    };
    let new_desc = description_to_write(tag);
    let desc_changed = new_desc is Some && current_description != new_desc;
    let desc_warn: Seq<Seq<char>> = if desc_changed && current_description is Some {
        seq![description_overwritten(name)]
    } else {
        seq![]
    };
    EntityAutoModel {
        entities_ensured: m.entities_ensured + 1,
        refs_filled: if ref_changed {
            m.refs_filled + 1
        } else {
            m.refs_filled
        },
        descriptions_filled: if desc_changed {
            m.descriptions_filled + 1
        } else {
            m.descriptions_filled
        },
        warnings: m.warnings + ref_warn + desc_warn + metadata_warning_lines(
            tag.metadata@.duplicate_keys,
            tag.metadata@.unknown_fields,
            "entity"@,
            name,
        ),
        ..m
    }
}

/// What declaring a link does to the counts, given the relation text the
/// link had: both ends count as ensured, the link as synced, a changed text
/// gets a warning, then the metadata's problems become warnings.
pub open spec fn relation_declared_model(
    m: EntityAutoModel,
    tag: ParsedRelationTag,
    existing: Option<Seq<char>>,
) -> EntityAutoModel {
    let text = relation_text(tag);
    let warn: Seq<Seq<char>> = match existing {
        Some(e) => if e != text {
            seq![relation_overwritten(tag.from@, tag.to@)]
        } else {
            seq![]
        },
        None => seq![],
    };
    EntityAutoModel {
        entities_ensured: m.entities_ensured + 2,
        relations_synced: m.relations_synced + 1,
        warnings: m.warnings + warn + metadata_warning_lines(
            tag.metadata@.duplicate_keys,
            tag.metadata@.unknown_fields,
            "relation"@,
            relation_target(tag.from@, tag.to@),
        ),
        ..m
    }
}

fn opt_str_is(o: &Option<String>, v: &String) -> (r: bool)
    ensures
        r == (opt_view(*o) == Some(v@)),
{
    match o {
        Some(x) => str_eq(x.as_str(), v.as_str()),
        None => false,
    }
}

/// What an entity declaration writes to the stored entity.
pub struct EntityUpdates {
    pub entity_ref: Option<String>,
    pub description: Option<String>,
}

impl EntityAutoResult {
    /// Whether every count can still grow by two.
    pub open spec fn has_room(m: EntityAutoModel) -> bool {
        &&& m.files_processed < usize::MAX
        &&& m.entities_ensured + 2 <= usize::MAX
        &&& m.refs_filled < usize::MAX
        &&& m.descriptions_filled < usize::MAX
        &&& m.relations_synced < usize::MAX
    }

    /// `has_room`, checked.
    pub fn room_left(&self) -> (r: bool)
        ensures
            r == Self::has_room(self@),
    {
        self.files_processed < usize::MAX && self.entities_ensured <= usize::MAX - 2
            && self.refs_filled < usize::MAX && self.descriptions_filled < usize::MAX
            && self.relations_synced < usize::MAX
    }

    /// Starts a file with its entity and link declarations; a file with
    /// neither is passed over (`false`), else they count as seen.
    pub fn begin_file(&mut self, declarations: usize, relations: usize) -> (r: bool)
        requires
            old(self).declarations_seen + declarations <= usize::MAX,
            old(self).relations_seen + relations <= usize::MAX,
        ensures
            r == (declarations > 0 || relations > 0),
            r ==> final(self)@ == (EntityAutoModel {
                declarations_seen: (old(self)@.declarations_seen + declarations) as nat,
                relations_seen: (old(self)@.relations_seen + relations) as nat,
                ..old(self)@
            }),
            !r ==> final(self)@ == old(self)@,
    {
        if declarations == 0 && relations == 0 {
            return false;
        }
        self.declarations_seen += declarations;
        self.relations_seen += relations;
        true
    }

    /// Ends a file whose declarations were all synced.
    pub fn end_file(&mut self)
        requires
            old(self).files_processed < usize::MAX,
        ensures
            final(self)@ == (EntityAutoModel { files_processed: old(self)@.files_processed + 1, ..old(self)@ }),
    {
        self.files_processed += 1;
    }

    /// Records an entity declaration found in `file` for an entity whose
    /// stored ref and description are given, and says what to write.
    pub fn entity_declared(
        &mut self,
        tag: &ParsedEntityTag,
        current_ref: &Option<String>,
        current_description: &Option<String>,
        file: &str,
    ) -> (u: EntityUpdates)
        requires
            Self::has_room(old(self)@),
        ensures
            opt_view(u.entity_ref) == ref_to_write(*tag, opt_view(*current_ref), file@),
            opt_view(u.description) == description_to_write(*tag),
            final(self)@ == entity_declared_model(
                old(self)@,
                *tag,
                opt_view(*current_ref),
                opt_view(*current_description),
                file@,
            ),
    {
        let ghost m = self@;
        self.entities_ensured += 1;
        let tag_ref = tag.metadata.get("ref");
        let new_ref = match tag_ref {
            Some(r) => Some(r),
            None => if current_ref.is_none() {
                Some(String::from_str(file))
            } else {
                None
            },
        };
        let ghost w0 = strings_view(self.warnings@);
        if let Some(r) = &new_ref {
            if !opt_str_is(current_ref, r) {
                self.refs_filled += 1;
                if current_ref.is_some() {
                    let mut w = String::from_str("entity '");
                    w.append(tag.name.as_str());
                    w.append("' ref overwritten by later declaration");
                    self.warnings.push(w);
                }
            }
        }
        let ghost w1 = strings_view(self.warnings@);
        let new_desc = tag.metadata.get("description");
        if let Some(d) = &new_desc {
            if !opt_str_is(current_description, d) {
                self.descriptions_filled += 1;
                if current_description.is_some() {
                    let mut w = String::from_str("entity '");
                    w.append(tag.name.as_str());
                    w.append("' description overwritten by later declaration");
                    self.warnings.push(w);
                }
            }
        }
        let ghost w2 = strings_view(self.warnings@);
        collect_metadata_warnings(
            &mut self.warnings,
            &tag.metadata.duplicate_keys,
            &tag.metadata.unknown_fields,
            tag.name.as_str(),
            "entity",
        );
        proof {
            let cr = opt_view(*current_ref);
            let nr = ref_to_write(*tag, cr, file@);
            let rw: Seq<Seq<char>> = if (nr is Some && cr != nr) && cr is Some {
                seq![ref_overwritten(tag.name@)]
            } else {
                seq![]
            };
            assert(w1 =~= w0 + rw);
            let cd = opt_view(*current_description);
            let nd = description_to_write(*tag);
            let dw: Seq<Seq<char>> = if (nd is Some && cd != nd) && cd is Some {
                seq![description_overwritten(tag.name@)]
            } else {
                seq![]
            };
            assert(w2 =~= w1 + dw);
            assert(self@ =~= entity_declared_model(m, *tag, cr, cd, file@));
        }
        EntityUpdates { entity_ref: new_ref, description: new_desc }
    }

    /// Records a link declaration, given the relation text the link had if
    /// it existed, and returns the text to store.
    pub fn relation_declared(&mut self, tag: &ParsedRelationTag, existing: &Option<String>) -> (text: String)
        requires
            Self::has_room(old(self)@),
        ensures
            text@ == relation_text(*tag),
            final(self)@ == relation_declared_model(old(self)@, *tag, opt_view(*existing)),
    {
        let ghost m = self@;
        self.entities_ensured += 2;
        let text = match tag.metadata.get("description") {
            Some(d) => d,
            None => String::from_str("related to"),
        };
        self.relations_synced += 1;
        let ghost w0 = strings_view(self.warnings@);
        if let Some(e) = existing {
            if !str_eq(e.as_str(), text.as_str()) {
                let mut w = String::from_str("relation '");
                w.append(tag.from.as_str());
                w.append(" -> ");
                w.append(tag.to.as_str());
                w.append("' description overwritten by later declaration");
                self.warnings.push(w);
            }
        }
        let ghost w1 = strings_view(self.warnings@);
        let mut target = String::from_str(tag.from.as_str());
        target.append(" -> ");
        target.append(tag.to.as_str());
        collect_metadata_warnings(
            &mut self.warnings,
            &tag.metadata.duplicate_keys,
            &tag.metadata.unknown_fields,
            target.as_str(),
            "relation",
        );
        proof {
            let wr: Seq<Seq<char>> = match opt_view(*existing) {
                Some(e) => if e != text@ {
                    seq![relation_overwritten(tag.from@, tag.to@)]
                } else {
                    seq![]
                },
                None => seq![],
            };
            assert(w1 =~= w0 + wr);
            assert(target@ =~= relation_target(tag.from@, tag.to@));
            assert(self@ =~= relation_declared_model(m, *tag, opt_view(*existing)));
        }
        text
    }
}

/// The ref an entity holds after a declaration was applied to it.
pub open spec fn ref_after(tag: ParsedEntityTag, current: Option<Seq<char>>, file: Seq<char>) -> Option<
    Seq<char>,
> {
    match ref_to_write(tag, current, file) {
        Some(r) => Some(r),
        None => current,
    }
}

/// The description an entity holds after a declaration was applied to it.
pub open spec fn description_after(tag: ParsedEntityTag, current: Option<Seq<char>>) -> Option<
    Seq<char>,
> {
    match description_to_write(tag) {
        Some(d) => Some(d),
        None => current,
    }
}

/// Declaring an entity again, once the same declaration was applied, fills
/// nothing and overwrites nothing: only the ensured count and the metadata
/// warnings grow. Running auto twice over unchanged files is quiet.
pub proof fn lemma_redeclaration_fills_nothing(
    m: EntityAutoModel,
    tag: ParsedEntityTag,
    current_ref: Option<Seq<char>>,
    current_description: Option<Seq<char>>,
    file: Seq<char>,
)
    ensures
        ({
            let r1 = ref_after(tag, current_ref, file);
            let d1 = description_after(tag, current_description);
            let m2 = entity_declared_model(m, tag, r1, d1, file);
            &&& m2.refs_filled == m.refs_filled
            &&& m2.descriptions_filled == m.descriptions_filled
            &&& m2.entities_ensured == m.entities_ensured + 1
            &&& m2.warnings == m.warnings + metadata_warning_lines(
                tag.metadata@.duplicate_keys,
                tag.metadata@.unknown_fields,
                "entity"@,
                tag.name@,
            )
        }),
{
    let r1 = ref_after(tag, current_ref, file);
    let d1 = description_after(tag, current_description);
    let m2 = entity_declared_model(m, tag, r1, d1, file);
    assert(m.warnings + Seq::<Seq<char>>::empty() + Seq::<Seq<char>>::empty() =~= m.warnings);
}

pub open spec fn entity_not_found(target: Seq<char>) -> Seq<char> {
    "entity not found: "@ + target
}

/// The message for an entity that neither id nor name finds.
pub fn entity_not_found_message(target: &str) -> (r: String)
    ensures
        r@ == entity_not_found(target@),
{
    let mut s = String::from_str("entity not found: ");
    s.append(target);
    s
}

} // verus!
