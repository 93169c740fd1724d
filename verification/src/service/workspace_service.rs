//! Workspace set-up: what `init` creates and reports, and how a reset is
//! confirmed. Creating the files is done outside.
use vstd::prelude::*;
use vstd::string::StringExecFns;

use crate::db::{DEFAULT_DB_FILE, DEFAULT_IGNORE_FILE, DEFAULT_TEP_DIR};
use crate::text::{chars_of, lower, lower_chars, trim, trim_chars};

use crate::service::anchor_service::AnchorSyncResult;
use crate::service::entity_service::EntityAutoResult;

verus! {

#[derive(Debug, Clone)]
pub struct InitResult {
    pub tep_dir: String,
    pub db_file: String,
    pub ignore_file: String,
}

/// Workspace set-up.
pub struct WorkspaceService;

impl WorkspaceService {
    /// What `init` reports: the workspace directory, database and ignore
    /// file, relative to the workspace root.
    pub fn init_result() -> (r: InitResult)
        ensures
            r.tep_dir@ == DEFAULT_TEP_DIR@,
            r.db_file@ == DEFAULT_DB_FILE@,
            r.ignore_file@ == DEFAULT_IGNORE_FILE@,
    {
        InitResult {
            tep_dir: String::from_str(DEFAULT_TEP_DIR),
            db_file: String::from_str(DEFAULT_DB_FILE),
            ignore_file: String::from_str(DEFAULT_IGNORE_FILE),
        }
    }

    /// Whether an answer to the reset prompt confirms it: `y` or `yes`, in
    /// any case, around blanks.
    pub fn is_confirmation(answer: &str) -> (r: bool)
        ensures
            r == (lower(trim(answer@)) == "y"@ || lower(trim(answer@)) == "yes"@),
    {
        let a = lower_chars(trim_chars(chars_of(answer).as_slice()).as_slice());
        let y = chars_of("y");
        let yes = chars_of("yes");
        crate::text::chars_eq(a.as_slice(), y.as_slice()) || crate::text::chars_eq(
            a.as_slice(),
            yes.as_slice(),
        )
    }
}

/// What a reset re-indexed.
#[derive(Debug)]
pub struct ResetResult {
    pub entity_auto: EntityAutoResult,
    pub anchor_auto: AnchorSyncResult,
}

/// The contents written to a fresh `.tepignore`.
pub fn default_ignore_contents() -> (r: &'static str)
    ensures
        r@ == "# tep scan ignore rules\n.tep/\n.git/\ntarget/\nnode_modules/\n"@,
{
    "# tep scan ignore rules\n.tep/\n.git/\ntarget/\nnode_modules/\n"
}

} // verus!
