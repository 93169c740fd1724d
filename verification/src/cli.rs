//! The command line: its commands and their arguments.
use vstd::prelude::*;

verus! {

/// The whole command line.
#[derive(Debug)]
pub struct Cli {
    /// Output as JSON.
    pub json: bool,
    pub command: Commands,
}

#[derive(Debug)]
pub enum Commands {
    /// Initialize a tep workspace in the current directory.
    Init,
    /// Reset the tep database and re-index the workspace.
    Reset { yes: bool },
    /// Print the tep version.
    Version,
    /// Auto-declare entities and sync anchors from files.
    Auto(AutoArgs),
    /// Audit workspace health and graph integrity.
    Health(HealthArgs),
    Entity { command: EntityCommands },
    /// Shorthand for entity.
    E { command: EntityCommands },
    Anchor { command: AnchorCommands },
    /// Shorthand for anchor.
    A { command: AnchorCommands },
}

#[derive(Debug, Clone)]
pub struct AutoArgs {
    /// Files or directories to scan.
    pub paths: Vec<String>,
}

#[derive(Debug, Clone)]
pub struct HealthArgs {
    /// File or directory to audit relative to the workspace.
    pub path: String,
    /// Fail when the audit finds issues.
    pub check: bool,
}

#[derive(Debug)]
pub enum AnchorCommands {
    /// Sync anchors in files.
    Auto(AnchorAutoArgs),
    /// Show one anchor and its related entities.
    Show { target: String },
    /// List all anchors in the workspace.
    List,
}

#[derive(Debug, Clone)]
pub struct AnchorAutoArgs {
    /// Files or directories to scan.
    pub paths: Vec<String>,
}

#[derive(Debug)]
pub enum EntityCommands {
    /// Create a new entity.
    Create(UpsertEntityArgs),
    /// Ensure an entity exists.
    Ensure(UpsertEntityArgs),
    /// Auto-declare entities from files.
    Auto(EntityAutoArgs),
    /// Show one entity and its related anchors and links.
    Show { target: String },
    /// Show one entity with snippets, files, and linked entities.
    Context(EntityContextArgs),
    /// Edit an existing entity.
    Edit(EditEntityArgs),
    /// Create or update a directional entity link.
    Link { from: String, to: String, relation: String },
    /// Remove a directional entity link.
    Unlink { from: String, to: String },
    /// List entities.
    List,
}

#[derive(Debug, Clone)]
pub struct UpsertEntityArgs {
    pub name: String,
    /// Reference file path for the entity.
    pub entity_ref: Option<String>,
    pub description: Option<String>,
}

#[derive(Debug, Clone)]
pub struct EntityAutoArgs {
    /// Files or directories to scan.
    pub paths: Vec<String>,
}

#[derive(Debug, Clone)]
pub struct EntityContextArgs {
    pub target: String,
    /// Show files and linked entities without anchor snippets.
    pub files_only: bool,
    /// Traverse directional links up to this depth.
    pub link_depth: usize,
}

#[derive(Debug, Clone)]
pub struct EditEntityArgs {
    pub target: String,
    pub name: Option<String>,
    pub entity_ref: Option<String>,
    pub description: Option<String>,
}

/// The path a health audit covers when none is given.
pub const DEFAULT_HEALTH_PATH: &'static str = ".";

/// The link depth of `entity context` when none is given.
pub const DEFAULT_LINK_DEPTH: usize = 1;

} // verus!
