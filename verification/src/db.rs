//! Workspace layout, the database schema, and the schema-version rules.
use vstd::prelude::*;
use vstd::string::StringExecFns;

use crate::text::chars_of;
use crate::utils::path::{
    char_vecs, components, is_absolute, join_path, parts, path_join, render,
};

verus! {

pub const DEFAULT_TEP_DIR: &'static str = ".tep";

pub const DEFAULT_DB_FILE: &'static str = ".tep/tep.db";

pub const DEFAULT_IGNORE_FILE: &'static str = ".tepignore";

/// The schema version a workspace database is brought to.
pub const CURRENT_SCHEMA_VERSION: i64 = 3;

#[derive(Debug, Clone)]
pub struct WorkspacePaths {
    pub tep_dir: String,
    pub db_file: String,
    pub ignore_file: String,
}

pub fn workspace_paths_for(root: &str) -> (r: WorkspacePaths)
    ensures
        r.tep_dir@ == path_join(root@, DEFAULT_TEP_DIR@),
        r.db_file@ == path_join(root@, DEFAULT_DB_FILE@),
        r.ignore_file@ == path_join(root@, DEFAULT_IGNORE_FILE@),
{
    WorkspacePaths {
        tep_dir: join_path(root, DEFAULT_TEP_DIR),
        db_file: join_path(root, DEFAULT_DB_FILE),
        ignore_file: join_path(root, DEFAULT_IGNORE_FILE),
    }
}

/// Wraps `Path::is_dir`. What it returns depends on the file system, so
/// nothing is claimed of it.
#[verifier::external_body]
fn path_is_dir(p: &str) -> (r: bool) {
    std::path::Path::new(p).is_dir()
}

/// Wraps `Path::exists`. What it returns depends on the file system, so
/// nothing is claimed of it.
#[verifier::external_body]
fn path_exists(p: &str) -> (r: bool) {
    std::path::Path::new(p).exists()
}

/// The message given when no workspace encloses `start`.
pub open spec fn no_workspace_message(start: Seq<char>) -> Seq<char> {
    "no tep workspace found from "@ + start
        + "\nrun `tep init` in the project root to create one"@
}

/// The components of `start` after its root.
pub open spec fn start_components(start: Seq<char>) -> Seq<Seq<char>> {
    components(parts(start), is_absolute(start))
}

/// How many components the directory a search begins at has: all of
/// `start`'s when it is a directory (or has none), else all but the last.
pub open spec fn search_top(start: Seq<char>, start_is_dir: bool) -> int {
    let c = start_components(start);
    if start_is_dir || c.len() == 0 {
        c.len() as int
    } else {
        c.len() - 1
    }
}

/// The directory made of the first `k` components of `start` (all of them
/// when `k` is larger).
pub open spec fn search_dir(start: Seq<char>, k: int) -> Seq<char> {
    let c = start_components(start);
    render(is_absolute(start), c.take(if k <= c.len() { k } else { c.len() as int }))
}

/// The file whose presence marks `search_dir(start, k)` as a workspace.
pub open spec fn probe_path(start: Seq<char>, k: int) -> Seq<char> {
    path_join(search_dir(start, k), DEFAULT_DB_FILE@)
}

/// The last index whose answer is `true`.
pub open spec fn deepest(has_db: Seq<bool>) -> Option<int>
    decreases has_db.len(),
{
    if has_db.len() == 0 {
        None
    } else if has_db.last() {
        Some(has_db.len() - 1)
    } else {
        deepest(has_db.drop_last())
    }
}

/// The workspace root the answers of the probes select: `has_db[k]` tells
/// whether `probe_path(start, k)` exists, for `k` from 0 (the outermost
/// directory) up; the deepest directory whose probe answered yes, or the
/// message naming `tep init` when none did.
pub open spec fn root_from(start: Seq<char>, has_db: Seq<bool>) -> Result<Seq<char>, Seq<char>> {
    match deepest(has_db) {
        Some(k) => Ok(search_dir(start, k)),
        None => Err(no_workspace_message(start)),
    }
}

pub open spec fn result_view(r: Result<String, String>) -> Result<Seq<char>, Seq<char>> {
    match r {
        Ok(s) => Ok(s@),
        Err(e) => Err(e@),
    }
}

proof fn lemma_deepest(has_db: Seq<bool>)
    ensures
        match deepest(has_db) {
            Some(k) => 0 <= k < has_db.len() && has_db[k] && forall|j: int|
                k < j < has_db.len() ==> !has_db[j],
            None => forall|j: int| 0 <= j < has_db.len() ==> !has_db[j],
        },
    decreases has_db.len(),
{
    if has_db.len() > 0 && !has_db.last() {
        lemma_deepest(has_db.drop_last());
        assert forall|j: int| 0 <= j < has_db.len() - 1 implies has_db[j] == has_db.drop_last()[j] by {}
    }
}

/// The deepest probe that answered yes: the index of the last `true`, or
/// `None` when every answer is `false`.
pub fn nearest_root(has_db: &Vec<bool>) -> (r: Option<usize>)
    ensures
        opt_index(r) == deepest(has_db@),
        match r {
            Some(k) => k < has_db@.len() && has_db@[k as int] && forall|j: int|
                k < j < has_db@.len() ==> !has_db@[j],
            None => forall|j: int| 0 <= j < has_db@.len() ==> !has_db@[j],
        },
{
    proof {
        lemma_deepest(has_db@);
    }
    let mut k: usize = has_db.len();
    proof {
        assert(has_db@.take(k as int) =~= has_db@);
    }
    while k > 0
        invariant
            k <= has_db@.len(),
            deepest(has_db@) == deepest(has_db@.take(k as int)),
        decreases k,
    {
        proof {
            assert(has_db@.take(k as int).drop_last() =~= has_db@.take(k - 1));
        }
        if has_db[k - 1] {
            proof {
                assert(has_db@.take(k as int).last() == has_db@[k - 1]);
                lemma_deepest(has_db@);
            }
            return Some(k - 1);
        }
        k -= 1;
    }
    None
}

pub open spec fn opt_index(r: Option<usize>) -> Option<int> {
    match r {
        Some(k) => Some(k as int),
        None => None,
    }
}

/// The files whose presence is probed, outermost directory first: entry
/// `k` is `probe_path(start, k)`, for `k` from 0 to `search_top`.
pub fn workspace_probe_paths(start: &str, start_is_dir: bool) -> (r: Vec<String>)
    ensures
        r@.len() == search_top(start@, start_is_dir) + 1,
        forall|k: int| 0 <= k < r@.len() ==> (#[trigger] r@[k])@ == probe_path(start@, k),
{
    let p = chars_of(start);
    let root = p.len() > 0 && p[0] == '/';
    let c = crate::utils::path::components_of(&p);
    let top: usize = if start_is_dir || c.len() == 0 {
        c.len()
    } else {
        c.len() - 1
    };
    let mut out: Vec<String> = Vec::new();
    let mut k: usize = 0;
    while k < top
        invariant
            top <= c@.len(),
            top == search_top(start@, start_is_dir),
            char_vecs(c@) == start_components(start@),
            root == is_absolute(start@),
            k <= top,
            out@.len() == k,
            forall|i: int| 0 <= i < k ==> (#[trigger] out@[i])@ == probe_path(start@, i),
        decreases top - k,
    {
        let dir = crate::utils::path::render_prefix(root, &c, k);
        out.push(join_path(dir.as_str(), DEFAULT_DB_FILE));
        k += 1;
    }
    let dir = crate::utils::path::render_prefix(root, &c, top);
    out.push(join_path(dir.as_str(), DEFAULT_DB_FILE));
    out
}

/// The workspace root that the probes' answers select (see `root_from`).
pub fn choose_workspace_root(start: &str, has_db: &Vec<bool>) -> (r: Result<String, String>)
    ensures
        result_view(r) == root_from(start@, has_db@),
{
    match nearest_root(has_db) {
        Some(k) => {
            let p = chars_of(start);
            let root = p.len() > 0 && p[0] == '/';
            let c = crate::utils::path::components_of(&p);
            if k > c.len() {
                return Ok(crate::utils::path::render_prefix(root, &c, c.len()));
            }
            Ok(crate::utils::path::render_prefix(root, &c, k))
        },
        None => {
            let mut msg = String::from_str("no tep workspace found from ");
            msg.append(start);
            msg.append("\nrun `tep init` in the project root to create one");
            Err(msg)
        },
    }
}

/// The nearest directory, from `start` up, that holds `.tep/tep.db`; when
/// `start` is not a directory the search begins at its parent. Whether
/// `start` is a directory and which probe files exist is the file
/// system's to answer: the result is what `root_from` selects for some
/// answers to the probes `probe_path(start, k)`, `k` from 0 to
/// `search_top(start, start_is_dir)`.
pub fn find_workspace_root(start: &str) -> (r: Result<String, String>)
    ensures
        exists|start_is_dir: bool, has_db: Seq<bool>|
            has_db.len() == search_top(start@, start_is_dir) + 1 && result_view(r) == root_from(
                start@,
                has_db,
            ),
{
    let start_is_dir = path_is_dir(start);
    let probes = workspace_probe_paths(start, start_is_dir);
    let mut has_db: Vec<bool> = Vec::new();
    let mut i: usize = 0;
    while i < probes.len()
        invariant
            i <= probes@.len(),
            has_db@.len() == i,
        decreases probes.len() - i,
    {
        has_db.push(path_exists(probes[i].as_str()));
        i += 1;
    }
    let r = choose_workspace_root(start, &has_db);
    proof {
        assert(has_db@.len() == search_top(start@, start_is_dir) + 1 && result_view(r) == root_from(
            start@,
            has_db@,
        ));
    }
    r
}

/// The schema applied on every open; every statement is idempotent.
pub const BASE_SCHEMA: &'static str = "
    PRAGMA foreign_keys = ON;

    CREATE TABLE IF NOT EXISTS entities (
        entity_id INTEGER PRIMARY KEY,
        name TEXT NOT NULL UNIQUE,
        ref TEXT,
        description TEXT,
        created_at TEXT NOT NULL,
        updated_at TEXT NOT NULL
    );

    CREATE TABLE IF NOT EXISTS anchors (
        anchor_id INTEGER PRIMARY KEY,
        version INTEGER NOT NULL,
        name TEXT UNIQUE,
        file_path TEXT NOT NULL,
        line INTEGER,
        shift INTEGER,
        offset INTEGER,
        description TEXT,
        created_at TEXT NOT NULL,
        updated_at TEXT NOT NULL
    );

    CREATE TABLE IF NOT EXISTS anchor_entities (
        anchor_id INTEGER NOT NULL,
        entity_id INTEGER NOT NULL,
        created_at TEXT NOT NULL,
        PRIMARY KEY (anchor_id, entity_id),
        FOREIGN KEY (anchor_id) REFERENCES anchors(anchor_id) ON DELETE CASCADE,
        FOREIGN KEY (entity_id) REFERENCES entities(entity_id) ON DELETE CASCADE
    );

    CREATE TABLE IF NOT EXISTS entity_links (
        from_entity_id INTEGER NOT NULL,
        to_entity_id INTEGER NOT NULL,
        relation TEXT NOT NULL,
        created_at TEXT NOT NULL,
        updated_at TEXT NOT NULL,
        PRIMARY KEY (from_entity_id, to_entity_id),
        FOREIGN KEY (from_entity_id) REFERENCES entities(entity_id) ON DELETE CASCADE,
        FOREIGN KEY (to_entity_id) REFERENCES entities(entity_id) ON DELETE CASCADE
    );

    CREATE INDEX IF NOT EXISTS idx_entities_name ON entities(name);
    CREATE INDEX IF NOT EXISTS idx_anchors_file_path ON anchors(file_path);
    CREATE INDEX IF NOT EXISTS idx_anchor_entities_entity_id ON anchor_entities(entity_id);
    CREATE INDEX IF NOT EXISTS idx_entity_links_to_entity ON entity_links(to_entity_id);
    ";

/// The schema applied on every open.
pub fn schema_sql() -> (r: &'static str)
    ensures
        r@ == BASE_SCHEMA@,
{
    BASE_SCHEMA
}

/// The layout read off which tables and columns exist: 0 without an
/// `entities` table, 1 without `entities.description`, 2 without
/// `anchors.name`, 3 without `anchors.description`, else 4 (complete).
pub open spec fn spec_detect_version(
    has_entities: bool,
    entities_has_description: bool,
    anchors_has_name: bool,
    anchors_has_description: bool,
) -> i64 {
    if !has_entities {
        0
    } else if !entities_has_description {
        1
    } else if !anchors_has_name {
        2
    } else if !anchors_has_description {
        3
    } else {
        4
    }
}

pub fn detect_schema_version(
    has_entities: bool,
    entities_has_description: bool,
    anchors_has_name: bool,
    anchors_has_description: bool,
) -> (v: i64)
    ensures
        v == spec_detect_version(
            has_entities,
            entities_has_description,
            anchors_has_name,
            anchors_has_description,
        ),
{
    if !has_entities {
        0
    } else if !entities_has_description {
        1
    } else if !anchors_has_name {
        2
    } else if !anchors_has_description {
        3
    } else {
        4
    }
}

/// Which migration steps to run, and the version to record afterwards: the
/// step past layout 1 adds entity descriptions and the link table, the step
/// past layout 2 adds anchor names (unique), and the step past layout 3 adds
/// anchor descriptions.
#[derive(Debug, Clone, Copy, PartialEq, Eq)]
pub struct MigrationPlan {
    pub to_v2: bool,
    pub to_v3: bool,
    pub add_anchor_description: bool,
    pub final_version: i64,
}

/// From the larger of the recorded version and the detected layout, every
/// later step runs; the recorded version becomes at least the current one.
pub open spec fn migration_plan(recorded: i64, detected: i64) -> MigrationPlan {
    let v = if recorded >= detected {
        recorded
    } else {
        detected
    };
    MigrationPlan {
        to_v2: v < 2,
        to_v3: v < 3,
        add_anchor_description: v < 4,
        final_version: if recorded >= CURRENT_SCHEMA_VERSION {
            recorded
        } else {
            CURRENT_SCHEMA_VERSION
        },
    }
}

pub fn plan_migrations(recorded: i64, detected: i64) -> (p: MigrationPlan)
    ensures
        p == migration_plan(recorded, detected),
{
    let version = if recorded >= detected {
        recorded
    } else {
        detected
    };
    let final_version = if recorded >= CURRENT_SCHEMA_VERSION {
        recorded
    } else {
        CURRENT_SCHEMA_VERSION
    };
    MigrationPlan {
        to_v2: version < 2,
        to_v3: version < 3,
        add_anchor_description: version < 4,
        final_version,
    }
}

/// Migrating settles the schema: the recorded version a plan sets is at
/// least the current one and is kept by every later plan, and once the
/// layout is complete a plan from that version runs no step.
pub proof fn lemma_migration_settles(recorded: i64, detected: i64, detected_again: i64)
    ensures
        ({
            let v = migration_plan(recorded, detected).final_version;
            let again = migration_plan(v, detected_again);
            &&& v >= CURRENT_SCHEMA_VERSION
            &&& again.final_version == v
            &&& detected_again == spec_detect_version(true, true, true, true) ==> !again.to_v2
                && !again.to_v3 && !again.add_anchor_description
        }),
{
}

/// A layout missing anchor descriptions gets them, whatever version was
/// recorded below the complete layout.
pub proof fn lemma_missing_anchor_description_is_added(recorded: i64)
    requires
        recorded < 4,
    ensures
        migration_plan(recorded, spec_detect_version(true, true, true, false)).add_anchor_description,
{
}

} // verus!
