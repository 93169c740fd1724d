//! The one-line anchor format: `anchor:7 student_processor ./file.md (3:4) [22]`.
use vstd::prelude::*;
use vstd::string::StringExecFns;

use crate::dto::AnchorDto;
use crate::output::styles::{paint, painted, ANSI_CYAN, ANSI_GREEN, ANSI_MAGENTA, ANSI_YELLOW};
use crate::text::{append_i64, int_str};

verus! {

/// A missing position renders as `0`.
pub open spec fn or_zero(v: Option<i64>) -> int {
    match v {
        Some(x) => x as int,
        None => 0,
    }
}

pub open spec fn anchor_line(a: AnchorDto) -> Seq<char> {
    "anchor:"@ + int_str(a.id as int) + " "@ + a.name@ + " "@ + painted(ANSI_CYAN@, a.file@) + " ("@
        + painted(ANSI_GREEN@, int_str(or_zero(a.line))) + ":"@ + painted(
        ANSI_MAGENTA@,
        int_str(or_zero(a.shift)),
    ) + ") ["@ + painted(ANSI_YELLOW@, int_str(or_zero(a.offset))) + "]\n"@
}

fn int_text(n: Option<i64>) -> (r: String)
    ensures
        r@ == int_str(or_zero(n)),
{
    let mut r = String::new();
    let v: i64 = match n {
        Some(x) => x,
        None => 0,
    };
    append_i64(&mut r, v);
    r
}

/// Single-line anchor format: `anchor:7 student_processor ./file.md (3:4) [22]`
pub fn format_anchor_line(anchor: &AnchorDto) -> (r: String)
    ensures
        r@ == anchor_line(*anchor),
{
    let file = paint(ANSI_CYAN, anchor.file.as_str());
    let line = paint(ANSI_GREEN, int_text(anchor.line).as_str());
    let shift = paint(ANSI_MAGENTA, int_text(anchor.shift).as_str());
    let offset = paint(ANSI_YELLOW, int_text(anchor.offset).as_str());
    let mut out = String::from_str("anchor:");
    append_i64(&mut out, anchor.id);
    out.append(" ");
    out.append(anchor.name.as_str());
    out.append(" ");
    out.append(file.as_str());
    out.append(" (");
    out.append(line.as_str());
    out.append(":");
    out.append(shift.as_str());
    out.append(") [");
    out.append(offset.as_str());
    out.append("]\n");
    proof {
        assert(out@ =~= anchor_line(*anchor));
    }
    out
}

} // verus!
