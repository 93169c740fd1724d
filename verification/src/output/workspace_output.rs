//! Renderings of workspace initialization and reset.
use vstd::prelude::*;
use vstd::string::StringExecFns;

use crate::output::anchor_output::bullets;
use crate::service::workspace_service::{InitResult, ResetResult};
use crate::text::{append_usize, nat_str};

verus! {

pub open spec fn init_text(r: InitResult) -> Seq<char> {
    "Initialized empty tep workspace in "@ + r.tep_dir@ + "\nDatabase: "@ + r.db_file@
        + "\nIgnore file: "@ + r.ignore_file@ + "\n"@
}

pub fn format_init_result(result: &InitResult) -> (r: String)
    ensures
        r@ == init_text(*result),
{
    let mut out = String::from_str("Initialized empty tep workspace in ");
    out.append(result.tep_dir.as_str());
    out.append("\nDatabase: ");
    out.append(result.db_file.as_str());
    out.append("\nIgnore file: ");
    out.append(result.ignore_file.as_str());
    out.append("\n");
    proof {
        assert(out@ =~= init_text(*result));
    }
    out
}

/// The warnings of both passes, entity warnings first, under one title;
/// nothing when neither pass warned.
pub open spec fn reset_warnings(r: ResetResult) -> Seq<char> {
    if r.entity_auto.warnings@.len() == 0 && r.anchor_auto.warnings@.len() == 0 {
        seq![]
    } else {
        "warnings:\n"@ + bullets(r.entity_auto.warnings@ + r.anchor_auto.warnings@)
    }
}

pub open spec fn reset_text(r: ResetResult) -> Seq<char> {
    let e = r.entity_auto;
    let a = r.anchor_auto;
    "reset complete\nentity auto\nfiles_processed: "@ + nat_str(e.files_processed as nat)
        + "\ndeclarations_seen: "@ + nat_str(e.declarations_seen as nat) + "\nrelations_seen: "@
        + nat_str(e.relations_seen as nat) + "\nentities_ensured: "@ + nat_str(
        e.entities_ensured as nat,
    ) + "\nrefs_filled: "@ + nat_str(e.refs_filled as nat) + "\ndescriptions_filled: "@ + nat_str(
        e.descriptions_filled as nat,
    ) + "\nrelations_synced: "@ + nat_str(e.relations_synced as nat)
        + "\n\nanchor auto\nfiles_processed: "@ + nat_str(a.files_processed as nat)
        + "\nanchors_seen: "@ + nat_str(a.anchors_seen as nat) + "\nanchors_created: "@ + nat_str(
        a.anchors_created as nat,
    ) + "\nrelations_synced: "@ + nat_str(a.relations_synced as nat) + "\nmetadata_updated: "@
        + nat_str(a.metadata_updated as nat) + "\n"@ + reset_warnings(r)
}

pub fn format_reset_result(result: &ResetResult) -> (r: String)
    ensures
        r@ == reset_text(*result),
{
    let e = &result.entity_auto;
    let a = &result.anchor_auto;
    let mut out = String::from_str("reset complete\nentity auto\nfiles_processed: ");
    append_usize(&mut out, e.files_processed);
    out.append("\ndeclarations_seen: ");
    append_usize(&mut out, e.declarations_seen);
    out.append("\nrelations_seen: ");
    append_usize(&mut out, e.relations_seen);
    out.append("\nentities_ensured: ");
    append_usize(&mut out, e.entities_ensured);
    out.append("\nrefs_filled: ");
    append_usize(&mut out, e.refs_filled);
    out.append("\ndescriptions_filled: ");
    append_usize(&mut out, e.descriptions_filled);
    out.append("\nrelations_synced: ");
    append_usize(&mut out, e.relations_synced);
    out.append("\n\nanchor auto\nfiles_processed: ");
    append_usize(&mut out, a.files_processed);
    out.append("\nanchors_seen: ");
    append_usize(&mut out, a.anchors_seen);
    out.append("\nanchors_created: ");
    append_usize(&mut out, a.anchors_created);
    out.append("\nrelations_synced: ");
    append_usize(&mut out, a.relations_synced);
    out.append("\nmetadata_updated: ");
    append_usize(&mut out, a.metadata_updated);
    out.append("\n");
    let ghost head = out@;
    if e.warnings.len() > 0 || a.warnings.len() > 0 {
        out.append("warnings:\n");
        let ghost all = e.warnings@ + a.warnings@;
        let mut i: usize = 0;
        while i < e.warnings.len()
            invariant
                i <= e.warnings@.len(),
                all == e.warnings@ + a.warnings@,
                out@ == head + "warnings:\n"@ + bullets(all.take(i as int)),
            decreases e.warnings.len() - i,
        {
            out.append("- ");
            out.append(e.warnings[i].as_str());
            out.append("\n");
            proof {
                assert(all.take(i + 1).drop_last() =~= all.take(i as int));
            }
            i += 1;
        }
        let mut j: usize = 0;
        while j < a.warnings.len()
            invariant
                j <= a.warnings@.len(),
                all == e.warnings@ + a.warnings@,
                out@ == head + "warnings:\n"@ + bullets(all.take(e.warnings@.len() + j)),
            decreases a.warnings.len() - j,
        {
            out.append("- ");
            out.append(a.warnings[j].as_str());
            out.append("\n");
            proof {
                let n = e.warnings@.len() + j;
                assert(all.take(n + 1).drop_last() =~= all.take(n));
                assert(all[n] == a.warnings@[j as int]);
            }
            j += 1;
        }
        proof {
            assert(all.take(all.len() as int) =~= all);
        }
    }
    proof {
        assert(out@ =~= reset_text(*result));
    }
    out
}

} // verus!
