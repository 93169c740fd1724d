//! Renderings of anchor sync results, health reports, and anchor lists.
use vstd::prelude::*;
use vstd::string::StringExecFns;

use crate::dto::{AnchorDto, AnchorShowDto, AnchorSyncDto, EntityDto, HealthDto};
use crate::output::anchor_format::{anchor_line, format_anchor_line};
use crate::text::{append_i64, append_usize, int_str, nat_str};

verus! {

/// `- item\n` for each item.
pub open spec fn bullets(items: Seq<String>) -> Seq<char>
    decreases items.len(),
{
    if items.len() == 0 {
        seq![]
    } else {
        bullets(items.drop_last()) + "- "@ + items.last()@ + "\n"@
    }
}

/// A titled bullet list, or nothing for no items.
pub open spec fn bullet_block(title: Seq<char>, items: Seq<String>) -> Seq<char> {
    if items.len() == 0 {
        seq![]
    } else {
        title + bullets(items)
    }
}

/// Appends `title` and a bullet per item, when there are items.
pub fn append_bullet_block(out: &mut String, title: &str, items: &Vec<String>)
    ensures
        final(out)@ == old(out)@ + bullet_block(title@, items@),
{
    if items.len() == 0 {
        proof {
            assert(old(out)@ + bullet_block(title@, items@) =~= old(out)@);
        }
        return;
    }
    let ghost start = out@;
    out.append(title);
    let mut i: usize = 0;
    while i < items.len()
        invariant
            i <= items.len(),
            out@ == start + title@ + bullets(items@.take(i as int)),
        decreases items.len() - i,
    {
        out.append("- ");
        out.append(items[i].as_str());
        out.append("\n");
        proof {
            let t = items@.take(i + 1);
            assert(t.drop_last() =~= items@.take(i as int));
        }
        i += 1;
    }
    proof {
        assert(items@.take(items.len() as int) =~= items@);
    }
}

/// The title line and one `name: count` line per count of a sync report.
pub open spec fn sync_counts(r: AnchorSyncDto) -> Seq<char> {
    "anchor sync complete\nfiles_processed: "@ + nat_str(r.files_processed as nat)
        + "\nanchors_seen: "@ + nat_str(r.anchors_seen as nat) + "\nanchors_created: "@ + nat_str(
        r.anchors_created as nat,
    ) + "\nanchors_dropped: "@ + nat_str(r.anchors_dropped as nat) + "\nrelations_synced: "@
        + nat_str(r.relations_synced as nat) + "\nmetadata_updated: "@ + nat_str(
        r.metadata_updated as nat,
    ) + "\n"@
}

/// A sync report: its counts, then its warnings as a bullet block.
pub open spec fn sync_text(r: AnchorSyncDto) -> Seq<char> {
    sync_counts(r) + bullet_block("warnings:\n"@, r.warnings@)
}

pub fn format_anchor_sync_result(result: &AnchorSyncDto) -> (r: String)
    ensures
        r@ == sync_text(*result),
{
    let mut out = String::from_str("anchor sync complete\nfiles_processed: ");
    append_usize(&mut out, result.files_processed);
    out.append("\nanchors_seen: ");
    append_usize(&mut out, result.anchors_seen);
    out.append("\nanchors_created: ");
    append_usize(&mut out, result.anchors_created);
    out.append("\nanchors_dropped: ");
    append_usize(&mut out, result.anchors_dropped);
    out.append("\nrelations_synced: ");
    append_usize(&mut out, result.relations_synced);
    out.append("\nmetadata_updated: ");
    append_usize(&mut out, result.metadata_updated);
    out.append("\n");
    append_bullet_block(&mut out, "warnings:\n", &result.warnings);
    proof {
        assert(out@ =~= sync_text(*result));
    }
    out
}

/// The title line and one `name: count` line per count of a health report.
pub open spec fn health_counts(r: HealthDto) -> Seq<char> {
    "workspace health report\nfiles_scanned: "@ + nat_str(r.files_scanned as nat)
        + "\nanchors_seen: "@ + nat_str(r.anchors_seen as nat) + "\nanchors_healthy: "@ + nat_str(
        r.anchors_healthy as nat,
    ) + "\nanchors_moved: "@ + nat_str(r.anchors_moved as nat) + "\nanchors_missing: "@ + nat_str(
        r.anchors_missing as nat,
    ) + "\nduplicate_anchor_ids: "@ + nat_str(r.duplicate_anchor_ids as nat)
        + "\nunknown_anchor_ids: "@ + nat_str(r.unknown_anchor_ids as nat)
        + "\nentities_without_anchors: "@ + nat_str(r.entities_without_anchors as nat)
        + "\nanchors_without_entities: "@ + nat_str(r.anchors_without_entities as nat)
        + "\nmetadata_warnings: "@ + nat_str(r.metadata_warnings as nat) + "\n"@
}

/// A health report: its counts, then its issues as a bullet block.
pub open spec fn health_text(r: HealthDto) -> Seq<char> {
    health_counts(r) + bullet_block("issues:\n"@, r.issues@)
}

pub fn format_anchor_health_result(report: &HealthDto) -> (r: String)
    ensures
        r@ == health_text(*report),
{
    let mut out = String::from_str("workspace health report\nfiles_scanned: ");
    append_usize(&mut out, report.files_scanned);
    out.append("\nanchors_seen: ");
    append_usize(&mut out, report.anchors_seen);
    out.append("\nanchors_healthy: ");
    append_usize(&mut out, report.anchors_healthy);
    out.append("\nanchors_moved: ");
    append_usize(&mut out, report.anchors_moved);
    out.append("\nanchors_missing: ");
    append_usize(&mut out, report.anchors_missing);
    out.append("\nduplicate_anchor_ids: ");
    append_usize(&mut out, report.duplicate_anchor_ids);
    out.append("\nunknown_anchor_ids: ");
    append_usize(&mut out, report.unknown_anchor_ids);
    out.append("\nentities_without_anchors: ");
    append_usize(&mut out, report.entities_without_anchors);
    out.append("\nanchors_without_entities: ");
    append_usize(&mut out, report.anchors_without_entities);
    out.append("\nmetadata_warnings: ");
    append_usize(&mut out, report.metadata_warnings);
    out.append("\n");
    append_bullet_block(&mut out, "issues:\n", &report.issues);
    proof {
        assert(out@ =~= health_text(*report));
    }
    out
}

/// The anchor lines of a list, one after the other.
pub open spec fn anchor_lines(anchors: Seq<AnchorDto>) -> Seq<char>
    decreases anchors.len(),
{
    if anchors.len() == 0 {
        seq![]
    } else {
        anchor_lines(anchors.drop_last()) + anchor_line(anchors.last())
    }
}

pub fn format_anchor_list(anchors: &[AnchorDto]) -> (r: String)
    ensures
        r@ == anchor_lines(anchors@),
{
    let mut out = String::new();
    let mut i: usize = 0;
    while i < anchors.len()
        invariant
            i <= anchors@.len(),
            out@ == anchor_lines(anchors@.take(i as int)),
        decreases anchors.len() - i,
    {
        let line = format_anchor_line(&anchors[i]);
        out.append(line.as_str());
        proof {
            assert(anchors@.take(i + 1).drop_last() =~= anchors@.take(i as int));
        }
        i += 1;
    }
    proof {
        assert(anchors@.take(anchors@.len() as int) =~= anchors@);
    }
    out
}

/// `id (name)\n` for each entity.
pub open spec fn entity_refs_lines(entities: Seq<EntityDto>) -> Seq<char>
    decreases entities.len(),
{
    if entities.len() == 0 {
        seq![]
    } else {
        entity_refs_lines(entities.drop_last()) + int_str(entities.last().id as int) + " ("@
            + entities.last().name@ + ")\n"@
    }
}

pub fn format_anchor_show(result: &AnchorShowDto) -> (r: String)
    ensures
        r@ == anchor_line(result.anchor) + entity_refs_lines(result.entities@),
{
    let mut out = format_anchor_line(&result.anchor);
    let ghost head = out@;
    let mut i: usize = 0;
    while i < result.entities.len()
        invariant
            i <= result.entities@.len(),
            out@ == head + entity_refs_lines(result.entities@.take(i as int)),
        decreases result.entities.len() - i,
    {
        let e = &result.entities[i];
        append_i64(&mut out, e.id);
        out.append(" (");
        out.append(e.name.as_str());
        out.append(")\n");
        proof {
            assert(result.entities@.take(i + 1).drop_last() =~= result.entities@.take(i as int));
        }
        i += 1;
    }
    proof {
        assert(result.entities@.take(result.entities@.len() as int) =~= result.entities@);
    }
    out
}

/// The bullets of two lists one after the other are the bullets of the
/// joined list.
pub proof fn lemma_bullets_concat(a: Seq<String>, b: Seq<String>)
    ensures
        bullets(a + b) == bullets(a) + bullets(b),
    decreases b.len(),
{
    if b.len() == 0 {
        assert(a + b =~= a);
        assert(bullets(a) + bullets(b) =~= bullets(a));
    } else {
        lemma_bullets_concat(a, b.drop_last());
        assert((a + b).drop_last() =~= a + b.drop_last());
        assert((a + b).last() == b.last());
        assert(bullets(a + b) =~= bullets(a) + bullets(b));
    }
}

/// A titled bullet list is present exactly when there are items, and then
/// it is the title followed by one `- item` line per item.
pub proof fn lemma_bullet_block_shape(title: Seq<char>, items: Seq<String>)
    ensures
        items.len() == 0 ==> bullet_block(title, items) == Seq::<char>::empty(),
        items.len() > 0 ==> bullet_block(title, items) == title + bullets(items),
        items.len() > 0 ==> bullets(items) == bullets(items.drop_last()) + "- "@ + items.last()@
            + "\n"@,
{
}

/// A sync report starts with its title line and ends with the warnings
/// block, which is there exactly when there are warnings.
pub proof fn lemma_sync_report_shape(r: AnchorSyncDto)
    ensures
        "anchor sync complete\n"@.is_prefix_of(sync_text(r)),
        sync_text(r) == sync_counts(r) + bullet_block("warnings:\n"@, r.warnings@),
{
    reveal_strlit("anchor sync complete\n");
    reveal_strlit("anchor sync complete\nfiles_processed: ");
    let t = sync_text(r);
    assert(t.take(21) =~= "anchor sync complete\n"@);
}

/// A health report starts with its title line and ends with the issues
/// block, which is there exactly when there are issues.
pub proof fn lemma_health_report_shape(r: HealthDto)
    ensures
        "workspace health report\n"@.is_prefix_of(health_text(r)),
        health_text(r) == health_counts(r) + bullet_block("issues:\n"@, r.issues@),
{
    reveal_strlit("workspace health report\n");
    reveal_strlit("workspace health report\nfiles_scanned: ");
    let t = health_text(r);
    assert(t.take(24) =~= "workspace health report\n"@);
}

/// The listing of two lists one after the other is the listing of the
/// joined list; an empty list lists nothing and one anchor gives its line.
pub proof fn lemma_anchor_lines_concat(a: Seq<AnchorDto>, b: Seq<AnchorDto>)
    ensures
        anchor_lines(a + b) == anchor_lines(a) + anchor_lines(b),
        anchor_lines(Seq::<AnchorDto>::empty()) == Seq::<char>::empty(),
        a.len() == 1 ==> anchor_lines(a) == anchor_line(a[0]),
    decreases b.len(),
{
    if a.len() == 1 {
        assert(a.drop_last() =~= Seq::<AnchorDto>::empty());
        assert(anchor_lines(a.drop_last()) == Seq::<char>::empty());
        assert(a.last() == a[0]);
        assert(anchor_lines(a) =~= anchor_line(a[0]));
    }
    if b.len() == 0 {
        assert(a + b =~= a);
        assert(anchor_lines(a) + anchor_lines(b) =~= anchor_lines(a));
    } else {
        lemma_anchor_lines_concat(a, b.drop_last());
        assert((a + b).drop_last() =~= a + b.drop_last());
        assert((a + b).last() == b.last());
        assert(anchor_lines(a + b) =~= anchor_lines(a) + anchor_lines(b));
    }
}

} // verus!
