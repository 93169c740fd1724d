//! Pieces shared by the entity renderings: the header, the metadata lines
//! and the link block.
use vstd::prelude::*;
use vstd::string::StringExecFns;

use crate::dto::{EntityDto, LinkDto};
use crate::output::styles::{paint, painted, ANSI_CYAN, ANSI_YELLOW};
use crate::text::{append_i64, append_usize, int_str, nat_str};

verus! {

/// `id (name)\n`
pub open spec fn entity_header(e: EntityDto) -> Seq<char> {
    int_str(e.id as int) + " ("@ + e.name@ + ")\n"@
}

pub fn render_entity_header(entity: &EntityDto) -> (r: String)
    ensures
        r@ == entity_header(*entity),
{
    let mut out = String::new();
    append_i64(&mut out, entity.id);
    out.append(" (");
    out.append(entity.name.as_str());
    out.append(")\n");
    proof {
        assert(out@ =~= entity_header(*entity));
    }
    out
}

/// The `ref:` line (colored) and the `description:` line, each when present.
pub open spec fn entity_metadata(e: EntityDto) -> Seq<char> {
    (match e.entity_ref {
        Some(r) => painted(ANSI_YELLOW@, "ref: "@ + painted(ANSI_CYAN@, r@)) + "\n"@,
        None => seq![],
    }) + (match e.description {
        Some(d) => "description: "@ + d@ + "\n"@,
        None => seq![],
    })
}

pub fn append_entity_metadata(out: &mut String, entity: &EntityDto)
    ensures
        final(out)@ == old(out)@ + entity_metadata(*entity),
{
    let ghost start = out@;
    if let Some(entity_ref) = &entity.entity_ref {
        let mut inner = String::from_str("ref: ");
        let c = paint(ANSI_CYAN, entity_ref.as_str());
        inner.append(c.as_str());
        let line = paint(ANSI_YELLOW, inner.as_str());
        out.append(line.as_str());
        out.append("\n");
    }
    if let Some(description) = &entity.description {
        out.append("description: ");
        out.append(description.as_str());
        out.append("\n");
    }
    proof {
        assert(out@ =~= start + entity_metadata(*entity));
    }
}

/// One link line: `-> 10 (subject) [./docs/subject.md]  relation`, the
/// reference part only when the entity has one and `  [depth:N]` only
/// beyond depth one.
pub open spec fn link_line(l: LinkDto) -> Seq<char> {
    l.direction@ + " "@ + int_str(l.entity.id as int) + " ("@ + l.entity.name@ + ")"@ + (match l.entity.entity_ref {
        Some(r) => " ["@ + r@ + "]"@,
        None => seq![],
    }) + "  "@ + l.relation@ + (if l.depth > 1 {
        "  [depth:"@ + nat_str(l.depth as nat) + "]"@
    } else {
        seq![]
    }) + "\n"@
}

pub open spec fn link_lines(links: Seq<LinkDto>) -> Seq<char>
    decreases links.len(),
{
    if links.len() == 0 {
        seq![]
    } else {
        link_lines(links.drop_last()) + link_line(links.last())
    }
}

/// The link block: nothing without links, else `links:` and a line each.
pub open spec fn link_block(links: Seq<LinkDto>) -> Seq<char> {
    if links.len() == 0 {
        seq![]
    } else {
        "links:\n"@ + link_lines(links)
    }
}

fn append_link_line(out: &mut String, item: &LinkDto)
    ensures
        final(out)@ == old(out)@ + link_line(*item),
{
    let ghost start = out@;
    out.append(item.direction.as_str());
    out.append(" ");
    append_i64(out, item.entity.id);
    out.append(" (");
    out.append(item.entity.name.as_str());
    out.append(")");
    if let Some(r) = &item.entity.entity_ref {
        out.append(" [");
        out.append(r.as_str());
        out.append("]");
    }
    out.append("  ");
    out.append(item.relation.as_str());
    if item.depth > 1 {
        out.append("  [depth:");
        append_usize(out, item.depth);
        out.append("]");
    }
    out.append("\n");
    proof {
        assert(out@ =~= start + link_line(*item));
    }
}

/// Shared link block used by both `entity show` and `entity context`.
/// `[depth:N]` shown only when depth > 1.
pub fn append_link_block(out: &mut String, links: &[LinkDto])
    ensures
        final(out)@ == old(out)@ + link_block(links@),
{
    if links.len() == 0 {
        proof {
            assert(old(out)@ + link_block(links@) =~= old(out)@);
        }
        return;
    }
    let ghost start = out@;
    out.append("links:\n");
    let mut i: usize = 0;
    while i < links.len()
        invariant
            i <= links@.len(),
            out@ == start + "links:\n"@ + link_lines(links@.take(i as int)),
        decreases links.len() - i,
    {
        append_link_line(out, &links[i]);
        proof {
            assert(links@.take(i + 1).drop_last() =~= links@.take(i as int));
        }
        i += 1;
    }
    proof {
        assert(links@.take(links@.len() as int) =~= links@);
    }
}

} // verus!
