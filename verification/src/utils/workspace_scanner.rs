//! The files of a scan, each with the path it is read from and the path it
//! is shown and stored under.
use vstd::prelude::*;

use crate::utils::path::{is_absolute, path_join, resolve_from_workspace};

verus! {

#[derive(Debug, Clone)]
pub struct WorkspaceFile {
    pub absolute_path: String,
    pub display_path: String,
}

/// Where a scanned path is read from: joined to the workspace root unless
/// absolute.
pub open spec fn absolute_of(workspace_root: Seq<char>, path: Seq<char>) -> Seq<char> {
    if is_absolute(path) {
        path
    } else {
        path_join(workspace_root, path)
    }
}

/// The files for the paths a scan collected (each in its workspace form),
/// in the same order.
pub fn collect_workspace_files(workspace_root: &str, paths: &Vec<String>) -> (r: Vec<WorkspaceFile>)
    ensures
        r@.len() == paths@.len(),
        forall|i: int|
            0 <= i < paths@.len() ==> (#[trigger] r@[i]).display_path@ == paths@[i]@
                && r@[i].absolute_path@ == absolute_of(workspace_root@, paths@[i]@),
{
    let mut out: Vec<WorkspaceFile> = Vec::new();
    let mut i: usize = 0;
    while i < paths.len()
        invariant
            i <= paths@.len(),
            out@.len() == i,
            forall|k: int|
                0 <= k < i ==> (#[trigger] out@[k]).display_path@ == paths@[k]@
                    && out@[k].absolute_path@ == absolute_of(workspace_root@, paths@[k]@),
        decreases paths.len() - i,
    {
        let p = paths[i].as_str();
        out.push(
            WorkspaceFile {
                absolute_path: resolve_from_workspace(p, workspace_root),
                display_path: String::from_str(p),
            },
        );
        i += 1;
    }
    out
}

} // verus!
