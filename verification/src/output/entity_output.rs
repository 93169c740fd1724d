//! Renderings of entity auto results, `entity show`, `entity context` and
//! entity lists.
use vstd::prelude::*;
use vstd::string::StringExecFns;

use crate::dto::{AnchorContextDto, EntityAutoDto, EntityContextDto, EntityDto, EntityShowDto};
use crate::output::anchor_format::{anchor_line, format_anchor_line};
use crate::output::anchor_output::{anchor_lines, append_bullet_block, bullet_block};
use crate::output::render::{
    append_entity_metadata, append_link_block, entity_header, entity_metadata, link_block,
    render_entity_header,
};
use crate::text::{append_i64, append_usize, chars_of, copy_range, int_str, nat_str, string_of};

verus! {

/// The title line and one `name: count` line per count of an auto report.
pub open spec fn auto_counts(r: EntityAutoDto) -> Seq<char> {
    "entity auto complete\nfiles_processed: "@ + nat_str(r.files_processed as nat)
        + "\ndeclarations_seen: "@ + nat_str(r.declarations_seen as nat) + "\nrelations_seen: "@
        + nat_str(r.relations_seen as nat) + "\nentities_ensured: "@ + nat_str(
        r.entities_ensured as nat,
    ) + "\nrefs_filled: "@ + nat_str(r.refs_filled as nat) + "\ndescriptions_filled: "@ + nat_str(
        r.descriptions_filled as nat,
    ) + "\nrelations_synced: "@ + nat_str(r.relations_synced as nat) + "\n"@
}

/// An auto report: its counts, then its warnings as a bullet block.
pub open spec fn auto_text(r: EntityAutoDto) -> Seq<char> {
    auto_counts(r) + bullet_block("warnings:\n"@, r.warnings@)
}

/// An auto report starts with its title line and ends with the warnings
/// block, which is there exactly when there are warnings.
pub proof fn lemma_auto_report_shape(r: EntityAutoDto)
    ensures
        "entity auto complete\n"@.is_prefix_of(auto_text(r)),
        auto_text(r) == auto_counts(r) + bullet_block("warnings:\n"@, r.warnings@),
{
    reveal_strlit("entity auto complete\n");
    reveal_strlit("entity auto complete\nfiles_processed: ");
    let t = auto_text(r);
    assert(t.take(21) =~= "entity auto complete\n"@);
}

pub fn format_entity_auto_result(result: &EntityAutoDto) -> (r: String)
    ensures
        r@ == auto_text(*result),
{
    let mut out = String::from_str("entity auto complete\nfiles_processed: ");
    append_usize(&mut out, result.files_processed);
    out.append("\ndeclarations_seen: ");
    append_usize(&mut out, result.declarations_seen);
    out.append("\nrelations_seen: ");
    append_usize(&mut out, result.relations_seen);
    out.append("\nentities_ensured: ");
    append_usize(&mut out, result.entities_ensured);
    out.append("\nrefs_filled: ");
    append_usize(&mut out, result.refs_filled);
    out.append("\ndescriptions_filled: ");
    append_usize(&mut out, result.descriptions_filled);
    out.append("\nrelations_synced: ");
    append_usize(&mut out, result.relations_synced);
    out.append("\n");
    append_bullet_block(&mut out, "warnings:\n", &result.warnings);
    proof {
        assert(out@ =~= auto_text(*result));
    }
    out
}

pub fn format_entity_show(result: &EntityShowDto) -> (r: String)
    ensures
        r@ == entity_header(result.entity) + entity_metadata(result.entity) + anchor_lines(
            result.anchors@,
        ) + link_block(result.links@),
{
    let mut out = render_entity_header(&result.entity);
    append_entity_metadata(&mut out, &result.entity);
    let ghost head = out@;
    let mut i: usize = 0;
    while i < result.anchors.len()
        invariant
            i <= result.anchors@.len(),
            out@ == head + anchor_lines(result.anchors@.take(i as int)),
        decreases result.anchors.len() - i,
    {
        let line = format_anchor_line(&result.anchors[i]);
        out.append(line.as_str());
        proof {
            assert(result.anchors@.take(i + 1).drop_last() =~= result.anchors@.take(i as int));
        }
        i += 1;
    }
    proof {
        assert(result.anchors@.take(result.anchors@.len() as int) =~= result.anchors@);
    }
    append_link_block(&mut out, result.links.as_slice());
    out
}

/// A line without its trailing carriage return.
pub open spec fn strip_cr(t: Seq<char>) -> Seq<char> {
    if t.len() > 0 && t.last() == '\r' {
        t.drop_last()
    } else {
        t
    }
}

/// `str::lines` from index `i` on, the current line having started at
/// `start`: lines end at `\n` (a `\r` before it is dropped), and a final
/// line break does not open an empty last line.
pub open spec fn lines_from(s: Seq<char>, i: int, start: int) -> Seq<Seq<char>>
    decreases s.len() - i,
{
    if start < 0 || i < start || i >= s.len() {
        if 0 <= start < s.len() {
            seq![s.subrange(start, s.len() as int)]
        } else {
            seq![]
        }
    } else if s[i] == '\n' {
        seq![strip_cr(s.subrange(start, i))] + lines_from(s, i + 1, i + 1)
    } else {
        lines_from(s, i + 1, start)
    }
}

pub open spec fn text_lines(s: Seq<char>) -> Seq<Seq<char>> {
    lines_from(s, 0, 0)
}

/// Each line indented by two spaces and ended by a line break.
pub open spec fn indented(lines: Seq<Seq<char>>) -> Seq<char>
    decreases lines.len(),
{
    if lines.len() == 0 {
        seq![]
    } else {
        "  "@ + lines[0] + "\n"@ + indented(lines.drop_first())
    }
}

fn append_indented_line(out: &mut String, s: &[char], a: usize, b: usize)
    requires
        a <= b <= s@.len(),
    ensures
        final(out)@ == old(out)@ + "  "@ + s@.subrange(a as int, b as int) + "\n"@,
{
    let line = copy_range(s, a, b);
    out.append("  ");
    out.append(string_of(&line).as_str());
    out.append("\n");
}

/// Appends the lines of `text`, each indented by two spaces.
pub fn append_indented_lines(out: &mut String, text: &str)
    ensures
        final(out)@ == old(out)@ + indented(text_lines(text@)),
{
    let s = chars_of(text);
    let ghost start_out = out@;
    let mut start: usize = 0;
    let mut i: usize = 0;
    proof {
        assert(out@ =~= start_out + Seq::<char>::empty());
    }
    while i < s.len()
        invariant
            start <= i <= s@.len(),
            s@ == text@,
            out@ + indented(lines_from(s@, i as int, start as int)) == start_out + indented(
                text_lines(s@),
            ),
        decreases s.len() - i,
    {
        if s[i] == '\n' {
            let ghost before = out@;
            let ghost rest = lines_from(s@, i + 1, i + 1);
            let end = if i > start && s[i - 1] == '\r' {
                i - 1
            } else {
                i
            };
            proof {
                let t = s@.subrange(start as int, i as int);
                if i > start && s@[i - 1] == '\r' {
                    assert(t.drop_last() =~= s@.subrange(start as int, end as int));
                } else {
                    assert(t =~= s@.subrange(start as int, end as int));
                }
                let l = strip_cr(t);
                assert((seq![l] + rest).drop_first() =~= rest);
            }
            append_indented_line(out, &s, start, end);
            proof {
                assert(before + indented(lines_from(s@, i as int, start as int)) =~= out@ + indented(
                    lines_from(s@, i + 1, i + 1),
                ));
            }
            start = i + 1;
        }
        i += 1;
    }
    if start < s.len() {
        let ghost before = out@;
        append_indented_line(out, &s, start, s.len());
        proof {
            let l = s@.subrange(start as int, s@.len() as int);
            assert(seq![l].drop_first() =~= Seq::<Seq<char>>::empty());
            assert(indented(Seq::<Seq<char>>::empty()) =~= Seq::<char>::empty());
            assert(seq![l][0] == l);
            assert(indented(seq![l]) =~= "  "@ + l + "\n"@);
            assert(before + indented(seq![l]) =~= out@);
        }
    } else {
        proof {
            assert(out@ + indented(Seq::<Seq<char>>::empty()) =~= out@);
        }
    }
}

/// An anchor line followed by its indented snippet and a blank line.
pub open spec fn context_anchor_text(item: AnchorContextDto) -> Seq<char> {
    anchor_line(item.anchor) + match item.snippet {
        Some(t) => indented(text_lines(t@)) + "\n"@,
        None => seq![],
    }
}

pub open spec fn context_anchors_text(items: Seq<AnchorContextDto>) -> Seq<char>
    decreases items.len(),
{
    if items.len() == 0 {
        seq![]
    } else {
        context_anchors_text(items.drop_last()) + context_anchor_text(items.last())
    }
}

pub open spec fn context_text(r: EntityContextDto) -> Seq<char> {
    entity_header(r.entity) + entity_metadata(r.entity) + (if r.anchors@.len() == 0 {
        seq![]
    } else {
        "\n"@ + context_anchors_text(r.anchors@)
    }) + link_block(r.links@)
}

fn append_context_anchor(out: &mut String, item: &AnchorContextDto)
    ensures
        final(out)@ == old(out)@ + context_anchor_text(*item),
{
    let ghost start = out@;
    let line = format_anchor_line(&item.anchor);
    out.append(line.as_str());
    if let Some(snippet) = &item.snippet {
        append_indented_lines(out, snippet.as_str());
        out.append("\n");
    }
    proof {
        assert(out@ =~= start + context_anchor_text(*item));
    }
}

#[verifier::spinoff_prover]
pub fn format_entity_context(result: &EntityContextDto) -> (r: String)
    ensures
        r@ == context_text(*result),
{
    let mut out = render_entity_header(&result.entity);
    append_entity_metadata(&mut out, &result.entity);
    if result.anchors.len() > 0 {
        out.append("\n");
        let ghost head = out@;
        let mut i: usize = 0;
        while i < result.anchors.len()
            invariant
                i <= result.anchors@.len(),
                out@ == head + context_anchors_text(result.anchors@.take(i as int)),
            decreases result.anchors.len() - i,
        {
            let item = &result.anchors[i];
            append_context_anchor(&mut out, item);
            proof {
                assert(result.anchors@.take(i + 1).drop_last() =~= result.anchors@.take(i as int));
                assert(result.anchors@.take(i + 1).last() == *item);
            }
            i += 1;
        }
        proof {
            assert(result.anchors@.take(result.anchors@.len() as int) =~= result.anchors@);
        }
    }
    append_link_block(&mut out, result.links.as_slice());
    proof {
        assert(out@ =~= context_text(*result));
    }
    out
}

pub open spec fn context_anchor_lines(items: Seq<AnchorContextDto>) -> Seq<char>
    decreases items.len(),
{
    if items.len() == 0 {
        seq![]
    } else {
        context_anchor_lines(items.drop_last()) + anchor_line(items.last().anchor)
    }
}

pub open spec fn context_files_text(r: EntityContextDto) -> Seq<char> {
    entity_header(r.entity) + entity_metadata(r.entity) + (if r.anchors@.len() == 0 {
        seq![]
    } else {
        "\n"@ + context_anchor_lines(r.anchors@)
    }) + link_block(r.links@)
}

pub fn format_entity_context_files_only(result: &EntityContextDto) -> (r: String)
    ensures
        r@ == context_files_text(*result),
{
    let mut out = render_entity_header(&result.entity);
    append_entity_metadata(&mut out, &result.entity);
    if result.anchors.len() > 0 {
        out.append("\n");
        let ghost head = out@;
        let mut i: usize = 0;
        while i < result.anchors.len()
            invariant
                i <= result.anchors@.len(),
                out@ == head + context_anchor_lines(result.anchors@.take(i as int)),
            decreases result.anchors.len() - i,
        {
            let line = format_anchor_line(&result.anchors[i].anchor);
            out.append(line.as_str());
            proof {
                assert(result.anchors@.take(i + 1).drop_last() =~= result.anchors@.take(i as int));
            }
            i += 1;
        }
        proof {
            assert(result.anchors@.take(result.anchors@.len() as int) =~= result.anchors@);
        }
    }
    append_link_block(&mut out, result.links.as_slice());
    proof {
        assert(out@ =~= context_files_text(*result));
    }
    out
}

/// `id name`, then ` - "description"` when described, then ` (ref)` when
/// the reference is not empty.
pub open spec fn entity_list_line(e: EntityDto) -> Seq<char> {
    int_str(e.id as int) + " "@ + e.name@ + (match e.description {
        Some(d) => " - \""@ + d@ + "\""@,
        None => seq![],
    }) + (match e.entity_ref {
        Some(r) => if r@.len() > 0 {
            " ("@ + r@ + ")"@
        } else {
            seq![]
        },
        None => seq![],
    })
}

pub fn format_entity_list_line(entity: &EntityDto) -> (r: String)
    ensures
        r@ == entity_list_line(*entity),
{
    let mut out = String::new();
    append_i64(&mut out, entity.id);
    out.append(" ");
    out.append(entity.name.as_str());
    if let Some(description) = &entity.description {
        out.append(" - \"");
        out.append(description.as_str());
        out.append("\"");
    }
    if let Some(entity_ref) = &entity.entity_ref {
        if entity_ref.as_str().is_empty() == false {
            out.append(" (");
            out.append(entity_ref.as_str());
            out.append(")");
        }
    }
    proof {
        assert(out@ =~= entity_list_line(*entity));
    }
    out
}

pub open spec fn entity_list_text(es: Seq<EntityDto>) -> Seq<char>
    decreases es.len(),
{
    if es.len() == 0 {
        seq![]
    } else {
        entity_list_text(es.drop_last()) + entity_list_line(es.last()) + "\n"@
    }
}

/// One line per entity; nothing at all for no entities.
pub fn format_entity_list(entities: &[EntityDto]) -> (r: String)
    ensures
        r@ == entity_list_text(entities@),
{
    let mut out = String::new();
    let mut i: usize = 0;
    while i < entities.len()
        invariant
            i <= entities@.len(),
            out@ == entity_list_text(entities@.take(i as int)),
        decreases entities.len() - i,
    {
        let line = format_entity_list_line(&entities[i]);
        out.append(line.as_str());
        out.append("\n");
        proof {
            assert(entities@.take(i + 1).drop_last() =~= entities@.take(i as int));
        }
        i += 1;
    }
    proof {
        assert(entities@.take(entities@.len() as int) =~= entities@);
    }
    out
}

/// The files-only context of an entity is its full context with every
/// snippet left out: two contexts that differ only in their snippets give
/// the same files-only text, and it is the full text of the one without
/// snippets.
pub proof fn lemma_files_only_drops_snippets(r: EntityContextDto, s: EntityContextDto)
    requires
        r.entity == s.entity,
        r.links@ == s.links@,
        r.anchors@.len() == s.anchors@.len(),
        forall|i: int|
            0 <= i < s.anchors@.len() ==> (#[trigger] s.anchors@[i]).anchor == r.anchors@[i].anchor
                && s.anchors@[i].snippet is None,
    ensures
        context_files_text(r) == context_text(s),
{
    lemma_anchor_lines_without_snippets(r.anchors@, s.anchors@);
}

proof fn lemma_anchor_lines_without_snippets(a: Seq<AnchorContextDto>, b: Seq<AnchorContextDto>)
    requires
        a.len() == b.len(),
        forall|i: int|
            0 <= i < b.len() ==> (#[trigger] b[i]).anchor == a[i].anchor && b[i].snippet is None,
    ensures
        context_anchor_lines(a) == context_anchors_text(b),
    decreases a.len(),
{
    if a.len() > 0 {
        assert forall|i: int| 0 <= i < b.drop_last().len() implies (#[trigger] b.drop_last()[i]).anchor
            == a.drop_last()[i].anchor && b.drop_last()[i].snippet is None by {
            assert(b.drop_last()[i] == b[i]);
            assert(a.drop_last()[i] == a[i]);
        }
        lemma_anchor_lines_without_snippets(a.drop_last(), b.drop_last());
        let l = b.len() - 1;
        assert(b[l].anchor == a[l].anchor && b[l].snippet is None);
        assert(context_anchor_text(b.last()) =~= anchor_line(a.last().anchor));
    }
}

} // verus!
