//! The workspace health audit: the report, and the rules by which each
//! anchor found in a file is judged against what the store holds.
//!
//! Reading files and querying the store happen outside; the audit is a state
//! machine fed with what they return, file by file and anchor by anchor.
use vstd::prelude::*;
use vstd::string::StringExecFns;

use crate::anchor::{Anchor, ParsedAnchor};
use crate::entity::Entity;
use crate::tep_tag::{pairs_view, strings_view};
use crate::text::{append_i64, append_usize, clone_string, int_str, nat_str, str_eq};

verus! {

#[derive(Debug, Clone)]
pub struct HealthIssueCounts {
    pub anchors_moved: usize,
    pub anchors_missing: usize,
    pub duplicate_anchor_ids: usize,
    pub unknown_anchor_ids: usize,
    pub entities_without_anchors: usize,
    pub anchors_without_entities: usize,
}

#[derive(Debug, Clone)]
pub struct HealthIssueGroups {
    pub moved_anchors: Vec<String>,
    pub missing_anchors: Vec<String>,
    pub duplicate_anchor_ids: Vec<String>,
    pub unknown_anchor_ids: Vec<String>,
    pub entities_without_anchors: Vec<String>,
    pub anchors_without_entities: Vec<String>,
}

#[derive(Debug, Clone)]
pub struct HealthReport {
    pub files_scanned: usize,
    pub anchors_seen: usize,
    pub anchors_healthy: usize,
    pub issue_counts: HealthIssueCounts,
    pub groups: HealthIssueGroups,
}

impl Default for HealthIssueCounts {
    fn default() -> (r: HealthIssueCounts)
        ensures
            r.anchors_moved == 0 && r.anchors_missing == 0 && r.duplicate_anchor_ids == 0
                && r.unknown_anchor_ids == 0 && r.entities_without_anchors == 0
                && r.anchors_without_entities == 0,
    {
        HealthIssueCounts {
            anchors_moved: 0,
            anchors_missing: 0,
            duplicate_anchor_ids: 0,
            unknown_anchor_ids: 0,
            entities_without_anchors: 0,
            anchors_without_entities: 0,
        }
    }
}

impl Default for HealthIssueGroups {
    fn default() -> (r: HealthIssueGroups)
        ensures
            r.moved_anchors@.len() == 0 && r.missing_anchors@.len() == 0
                && r.duplicate_anchor_ids@.len() == 0 && r.unknown_anchor_ids@.len() == 0
                && r.entities_without_anchors@.len() == 0 && r.anchors_without_entities@.len()
                == 0,
    {
        HealthIssueGroups {
            moved_anchors: Vec::new(),
            missing_anchors: Vec::new(),
            duplicate_anchor_ids: Vec::new(),
            unknown_anchor_ids: Vec::new(),
            entities_without_anchors: Vec::new(),
            anchors_without_entities: Vec::new(),
        }
    }
}

impl Default for HealthReport {
    fn default() -> (r: HealthReport)
        ensures
            r.files_scanned == 0 && r.anchors_seen == 0 && r.anchors_healthy == 0,
            r.issue_counts.anchors_moved == 0 && r.issue_counts.anchors_missing == 0
                && r.issue_counts.duplicate_anchor_ids == 0 && r.issue_counts.unknown_anchor_ids
                == 0 && r.issue_counts.entities_without_anchors == 0
                && r.issue_counts.anchors_without_entities == 0,
            r.groups.moved_anchors@.len() == 0 && r.groups.missing_anchors@.len() == 0
                && r.groups.duplicate_anchor_ids@.len() == 0 && r.groups.unknown_anchor_ids@.len()
                == 0 && r.groups.entities_without_anchors@.len() == 0
                && r.groups.anchors_without_entities@.len() == 0,
    {
        HealthReport {
            files_scanned: 0,
            anchors_seen: 0,
            anchors_healthy: 0,
            issue_counts: HealthIssueCounts::default(),
            groups: HealthIssueGroups::default(),
        }
    }
}


/// What a report says, counts as numbers and groups as texts.
pub struct HealthReportModel {
    pub files_scanned: nat,
    pub anchors_seen: nat,
    pub anchors_healthy: nat,
    pub anchors_moved: nat,
    pub anchors_missing: nat,
    pub duplicate_anchor_ids: nat,
    pub unknown_anchor_ids: nat,
    pub entities_without_anchors: nat,
    pub anchors_without_entities: nat,
    pub moved: Seq<Seq<char>>,
    pub missing: Seq<Seq<char>>,
    pub duplicates: Seq<Seq<char>>,
    pub unknown: Seq<Seq<char>>,
    pub entities_without: Seq<Seq<char>>,
    pub anchors_without: Seq<Seq<char>>,
}

impl View for HealthReport {
    type V = HealthReportModel;

    open spec fn view(&self) -> HealthReportModel {
        HealthReportModel {
            files_scanned: self.files_scanned as nat,
            anchors_seen: self.anchors_seen as nat,
            anchors_healthy: self.anchors_healthy as nat,
            anchors_moved: self.issue_counts.anchors_moved as nat,
            anchors_missing: self.issue_counts.anchors_missing as nat,
            duplicate_anchor_ids: self.issue_counts.duplicate_anchor_ids as nat,
            unknown_anchor_ids: self.issue_counts.unknown_anchor_ids as nat,
            entities_without_anchors: self.issue_counts.entities_without_anchors as nat,
            anchors_without_entities: self.issue_counts.anchors_without_entities as nat,
            moved: strings_view(self.groups.moved_anchors@),
            missing: strings_view(self.groups.missing_anchors@),
            duplicates: strings_view(self.groups.duplicate_anchor_ids@),
            unknown: strings_view(self.groups.unknown_anchor_ids@),
            entities_without: strings_view(self.groups.entities_without_anchors@),
            anchors_without: strings_view(self.groups.anchors_without_entities@),
        }
    }
}

/// The audit's state: the report so far, the file in which each anchor name
/// was first seen, the stored anchors accounted for, and the names seen in
/// the current file.
pub struct HealthAudit {
    pub report: HealthReport,
    pub seen_name_to_file: Vec<(String, String)>,
    pub seen_anchor_ids: Vec<i64>,
    pub local_names: Vec<String>,
}

pub struct HealthAuditModel {
    pub report: HealthReportModel,
    pub seen_name_to_file: Seq<(Seq<char>, Seq<char>)>,
    pub seen_anchor_ids: Seq<i64>,
    pub local_names: Seq<Seq<char>>,
}

impl View for HealthAudit {
    type V = HealthAuditModel;

    open spec fn view(&self) -> HealthAuditModel {
        HealthAuditModel {
            report: self.report@,
            seen_name_to_file: pairs_view(self.seen_name_to_file@),
            seen_anchor_ids: self.seen_anchor_ids@,
            local_names: strings_view(self.local_names@),
        }
    }
}

/// `Option<i64>` as `{:?}` prints it.
pub open spec fn debug_opt(o: Option<i64>) -> Seq<char> {
    match o {
        Some(v) => "Some("@ + int_str(v as int) + ")"@,
        None => "None"@,
    }
}

pub open spec fn duplicate_in_file_message(name: Seq<char>, file: Seq<char>) -> Seq<char> {
    "anchor '"@ + name + "' appears multiple times in "@ + file
}

pub open spec fn duplicate_across_files_message(
    name: Seq<char>,
    first: Seq<char>,
    file: Seq<char>,
) -> Seq<char> {
    "anchor '"@ + name + "' appears in multiple files: "@ + first + " and "@ + file
}

pub open spec fn moved_message(a: ParsedAnchor, file: Seq<char>, stored: Anchor) -> Seq<char> {
    "anchor '"@ + a.anchor_name@ + "' metadata drifted in "@ + file + " (db: "@ + stored.file_path@
        + " "@ + debug_opt(stored.line) + ":"@ + debug_opt(stored.shift) + " ["@ + debug_opt(
        stored.offset,
    ) + "], file: "@ + file + " "@ + int_str(a.line as int) + ":"@ + int_str(a.shift as int)
        + " ["@ + nat_str(a.start_offset as nat) + "])"@
}

pub open spec fn unknown_message(name: Seq<char>, file: Seq<char>) -> Seq<char> {
    "anchor '"@ + name + "' found in file but does not exist in the database ("@ + file + ")"@
}

pub open spec fn missing_message(a: Anchor) -> Seq<char> {
    "missing anchor "@ + int_str(a.anchor_id as int) + " recorded in db but not found in file "@
        + a.file_path@
}

pub open spec fn entity_without_anchor_line(e: Entity) -> Seq<char> {
    int_str(e.entity_id as int) + " ("@ + e.name@ + ")"@
}

pub open spec fn anchor_without_entity_line(a: Anchor) -> Seq<char> {
    int_str(a.anchor_id as int) + " "@ + a.file_path@
}

/// The file recorded for `name`, searching the pairs from `i`.
pub open spec fn file_of(seen: Seq<(Seq<char>, Seq<char>)>, name: Seq<char>, i: int) -> Option<
    Seq<char>,
>
    decreases seen.len() - i,
{
    if i < 0 || i >= seen.len() {
        None
    } else if seen[i].0 == name {
        Some(seen[i].1)
    } else {
        file_of(seen, name, i + 1)
    }
}

/// `ids` with `id` added, as a set.
pub open spec fn insert_id(ids: Seq<i64>, id: i64) -> Seq<i64> {
    if ids.contains(id) {
        ids
    } else {
        ids.push(id)
    }
}

/// Whether the stored anchor differs from the one found: in its file, line,
/// shift or offset.
pub open spec fn drifted(a: ParsedAnchor, normalized_file: Seq<char>, stored: Anchor) -> bool {
    normalized_file != stored.file_path@ || stored.line != Some(a.line) || stored.shift != Some(
        a.shift,
    ) || stored.offset != Some(a.start_offset as i64)
}

/// What the audit makes of one anchor name in a file: a second occurrence
/// in the same file, or a name first seen in another file, is a duplicate
/// and ends the check (`false`); otherwise the anchor is to be looked up.
pub open spec fn check_name_model(m: HealthAuditModel, name: Seq<char>, file: Seq<char>) -> (
    HealthAuditModel,
    bool,
) {
    let r = m.report;
    if m.local_names.contains(name) {
        (
            HealthAuditModel {
                report: HealthReportModel {
                    duplicate_anchor_ids: r.duplicate_anchor_ids + 1,
                    duplicates: r.duplicates.push(duplicate_in_file_message(name, file)),
                    ..r
                },
                ..m
            },
            false,
        )
    } else {
        let m1 = HealthAuditModel { local_names: m.local_names.push(name), ..m };
        match file_of(m.seen_name_to_file, name, 0) {
            Some(first) => if first != file {
                (
                    HealthAuditModel {
                        report: HealthReportModel {
                            duplicate_anchor_ids: r.duplicate_anchor_ids + 1,
                            duplicates: r.duplicates.push(
                                duplicate_across_files_message(name, first, file),
                            ),
                            ..r
                        },
                        ..m1
                    },
                    false,
                )
            } else {
                (m1, true)
            },
            None => (
                HealthAuditModel {
                    seen_name_to_file: m.seen_name_to_file.push((name, file)),
                    ..m1
                },
                true,
            ),
        }
    }
}

/// What the lookup of an anchor found in `file` decides: a stored anchor
/// is accounted for, and is healthy unless it drifted; an anchor the store
/// lacks is unknown.
pub open spec fn judge_model(
    m: HealthAuditModel,
    a: ParsedAnchor,
    file: Seq<char>,
    normalized_file: Seq<char>,
    stored: Option<Anchor>,
) -> HealthAuditModel {
    let r = m.report;
    match stored {
        Some(st) => {
            let m1 = HealthAuditModel {
                seen_anchor_ids: insert_id(m.seen_anchor_ids, st.anchor_id),
                ..m
            };
            if drifted(a, normalized_file, st) {
                HealthAuditModel {
                    report: HealthReportModel {
                        anchors_moved: r.anchors_moved + 1,
                        moved: r.moved.push(moved_message(a, file, st)),
                        ..r
                    },
                    ..m1
                }
            } else {
                HealthAuditModel {
                    report: HealthReportModel { anchors_healthy: r.anchors_healthy + 1, ..r },
                    ..m1
                }
            }
        },
        None => HealthAuditModel {
            report: HealthReportModel {
                unknown_anchor_ids: r.unknown_anchor_ids + 1,
                unknown: r.unknown.push(unknown_message(a.anchor_name@, file)),
                ..r
            },
            ..m
        },
    }
}

/// How a found anchor is judged against its stored record: it is healthy
/// exactly when the stored file (in workspace form), line, shift and byte
/// offset all equal those found, and moved (with its message) otherwise;
/// an anchor the store lacks is unknown.
pub proof fn lemma_judged_healthy_only_when_unmoved(
    m: HealthAuditModel,
    a: ParsedAnchor,
    file: Seq<char>,
    normalized_file: Seq<char>,
    stored: Option<Anchor>,
)
    ensures
        ({
            let r = judge_model(m, a, file, normalized_file, stored).report;
            match stored {
                Some(st) => if normalized_file == st.file_path@ && st.line == Some(a.line)
                    && st.shift == Some(a.shift) && st.offset == Some(a.start_offset as i64) {
                    &&& r.anchors_healthy == m.report.anchors_healthy + 1
                    &&& r.anchors_moved == m.report.anchors_moved
                    &&& r.moved == m.report.moved
                } else {
                    &&& r.anchors_healthy == m.report.anchors_healthy
                    &&& r.anchors_moved == m.report.anchors_moved + 1
                    &&& r.moved == m.report.moved.push(moved_message(a, file, st))
                },
                None => {
                    &&& r.anchors_healthy == m.report.anchors_healthy
                    &&& r.anchors_moved == m.report.anchors_moved
                    &&& r.unknown_anchor_ids == m.report.unknown_anchor_ids + 1
                },
            }
        }),
{
}

/// The stored anchors of the audited files that no file accounted for.
pub open spec fn missing_anchors(all: Seq<Anchor>, scoped: Seq<Seq<char>>, seen: Seq<i64>) -> Seq<
    Anchor,
> {
    all.filter(missing_pred(scoped, seen))
}

/// A stored anchor of an audited file that no file accounted for.
pub open spec fn missing_pred(scoped: Seq<Seq<char>>, seen: Seq<i64>) -> spec_fn(Anchor) -> bool {
    |a: Anchor| scoped.contains(a.file_path@) && !seen.contains(a.anchor_id)
}

pub open spec fn entity_lines(es: Seq<Entity>) -> Seq<Seq<char>> {
    Seq::new(es.len(), |i: int| entity_without_anchor_line(es[i]))
}

pub open spec fn anchor_lines(xs: Seq<Anchor>) -> Seq<Seq<char>> {
    Seq::new(xs.len(), |i: int| anchor_without_entity_line(xs[i]))
}

fn debug_opt_into(out: &mut String, o: Option<i64>)
    ensures
        final(out)@ == old(out)@ + debug_opt(o),
{
    match o {
        Some(v) => {
            out.append("Some(");
            append_i64(out, v);
            out.append(")");
        },
        None => {
            out.append("None");
        },
    }
}

fn file_of_exec(seen: &Vec<(String, String)>, name: &str) -> (r: Option<String>)
    ensures
        match file_of(pairs_view(seen@), name@, 0) {
            Some(f) => r matches Some(s) && s@ == f,
            None => r is None,
        },
{
    let ghost sv = pairs_view(seen@);
    let mut i: usize = 0;
    while i < seen.len()
        invariant
            i <= seen@.len(),
            sv == pairs_view(seen@),
            file_of(sv, name@, 0) == file_of(sv, name@, i as int),
        decreases seen.len() - i,
    {
        if str_eq(seen[i].0.as_str(), name) {
            return Some(clone_string(&seen[i].1));
        }
        i += 1;
    }
    None
}

fn contains_string(v: &Vec<String>, x: &str) -> (r: bool)
    ensures
        r == strings_view(v@).contains(x@),
{
    let mut i: usize = 0;
    while i < v.len()
        invariant
            i <= v@.len(),
            forall|m: int| 0 <= m < i ==> v@[m]@ != x@,
        decreases v.len() - i,
    {
        if str_eq(v[i].as_str(), x) {
            proof {
                assert(strings_view(v@)[i as int] == x@);
            }
            return true;
        }
        i += 1;
    }
    proof {
        if strings_view(v@).contains(x@) {
            let k = choose|k: int| 0 <= k < strings_view(v@).len() && strings_view(v@)[k] == x@;
            assert(v@[k]@ == x@);
        }
    }
    false
}

fn contains_i64(v: &Vec<i64>, x: i64) -> (r: bool)
    ensures
        r == v@.contains(x),
{
    let mut i: usize = 0;
    while i < v.len()
        invariant
            i <= v@.len(),
            forall|m: int| 0 <= m < i ==> v@[m] != x,
        decreases v.len() - i,
    {
        if v[i] == x {
            return true;
        }
        i += 1;
    }
    false
}

impl HealthAudit {
    /// Whether each count can still grow by one.
    pub open spec fn has_room(m: HealthAuditModel) -> bool {
        &&& m.report.anchors_healthy < usize::MAX
        &&& m.report.anchors_moved < usize::MAX
        &&& m.report.duplicate_anchor_ids < usize::MAX
        &&& m.report.unknown_anchor_ids < usize::MAX
    }

    /// `has_room`, checked.
    pub fn room_left(&self) -> (r: bool)
        ensures
            r == Self::has_room(self@),
    {
        self.report.anchors_healthy < usize::MAX && self.report.issue_counts.anchors_moved
            < usize::MAX && self.report.issue_counts.duplicate_anchor_ids < usize::MAX
            && self.report.issue_counts.unknown_anchor_ids < usize::MAX
    }

    /// An audit that has seen nothing.
    pub fn new() -> (a: HealthAudit)
        ensures
            a@.report == HealthReport::default_model(),
            a@.seen_name_to_file.len() == 0,
            a@.seen_anchor_ids.len() == 0,
            a@.local_names.len() == 0,
    {
        let a = HealthAudit {
            report: HealthReport::default(),
            seen_name_to_file: Vec::new(),
            seen_anchor_ids: Vec::new(),
            local_names: Vec::new(),
        };
        proof {
            assert(strings_view(a.report.groups.moved_anchors@) =~= Seq::<Seq<char>>::empty());
            assert(strings_view(a.report.groups.missing_anchors@) =~= Seq::<Seq<char>>::empty());
            assert(strings_view(a.report.groups.duplicate_anchor_ids@) =~= Seq::<Seq<char>>::empty());
            assert(strings_view(a.report.groups.unknown_anchor_ids@) =~= Seq::<Seq<char>>::empty());
            assert(strings_view(a.report.groups.entities_without_anchors@) =~= Seq::<Seq<char>>::empty());
            assert(strings_view(a.report.groups.anchors_without_entities@) =~= Seq::<Seq<char>>::empty());
            assert(a@.report =~= HealthReport::default_model());
        }
        a
    }

    /// Starts a file with `anchors` named anchors and `declarations` entity
    /// declarations. A file with neither is passed over (`false`); else it
    /// counts as scanned, its anchors and declarations as seen, and no name
    /// has been seen in it yet.
    pub fn begin_file(&mut self, anchors: usize, declarations: usize) -> (r: bool)
        requires
            old(self).report.files_scanned < usize::MAX,
            old(self).report.anchors_seen + anchors + declarations <= usize::MAX,
        ensures
            r == (anchors > 0 || declarations > 0),
            r ==> final(self)@ == (HealthAuditModel {
                report: HealthReportModel {
                    files_scanned: old(self)@.report.files_scanned + 1,
                    anchors_seen: (old(self)@.report.anchors_seen + anchors + declarations) as nat,
                    ..old(self)@.report
                },
                local_names: seq![],
                ..old(self)@
            }),
            !r ==> final(self)@ == old(self)@,
    {
        if anchors == 0 && declarations == 0 {
            return false;
        }
        self.report.files_scanned += 1;
        self.report.anchors_seen += anchors + declarations;
        self.local_names = Vec::new();
        proof {
            assert(strings_view(self.local_names@) =~= Seq::<Seq<char>>::empty());
        }
        true
    }

    /// Checks the name of an anchor found in `file`; `true` when the anchor
    /// is to be looked up in the store.
    pub fn check_anchor_name(&mut self, name: &str, file: &str) -> (r: bool)
        requires
            Self::has_room(old(self)@),
        ensures
            (final(self)@, r) == check_name_model(old(self)@, name@, file@),
    {
        let ghost m = self@;
        if contains_string(&self.local_names, name) {
            self.report.issue_counts.duplicate_anchor_ids += 1;
            let msg = duplicate_in_file_text(name, file);
            self.report.groups.duplicate_anchor_ids.push(msg);
            proof {
                assert(strings_view(self.report.groups.duplicate_anchor_ids@) =~= m.report.duplicates.push(
                    duplicate_in_file_message(name@, file@),
                ));
                assert(self@ =~= check_name_model(m, name@, file@).0);
            }
            return false;
        }
        self.local_names.push(String::from_str(name));
        proof {
            assert(strings_view(self.local_names@) =~= m.local_names.push(name@));
        }
        match file_of_exec(&self.seen_name_to_file, name) {
            Some(first) => {
                if !str_eq(first.as_str(), file) {
                    self.report.issue_counts.duplicate_anchor_ids += 1;
                    let msg = duplicate_across_text(name, first.as_str(), file);
                    self.report.groups.duplicate_anchor_ids.push(msg);
                    proof {
                        assert(strings_view(self.report.groups.duplicate_anchor_ids@)
                            =~= m.report.duplicates.push(
                            duplicate_across_files_message(name@, first@, file@),
                        ));
                        assert(self@ =~= check_name_model(m, name@, file@).0);
                    }
                    return false;
                }
                proof {
                    assert(self@ =~= check_name_model(m, name@, file@).0);
                }
                true
            },
            None => {
                self.seen_name_to_file.push((String::from_str(name), String::from_str(file)));
                proof {
                    assert(pairs_view(self.seen_name_to_file@) =~= m.seen_name_to_file.push(
                        (name@, file@),
                    ));
                    assert(self@ =~= check_name_model(m, name@, file@).0);
                }
                true
            },
        }
    }

    /// Judges an anchor found in `file` (whose workspace form is
    /// `normalized_file`) against what the store holds under its name.
    pub fn judge_anchor(
        &mut self,
        anchor: &ParsedAnchor,
        file: &str,
        normalized_file: &str,
        stored: Option<Anchor>,
    )
        requires
            Self::has_room(old(self)@),
        ensures
            final(self)@ == judge_model(old(self)@, *anchor, file@, normalized_file@, stored),
    {
        let ghost m = self@;
        match stored {
            Some(st) => {
                if !contains_i64(&self.seen_anchor_ids, st.anchor_id) {
                    self.seen_anchor_ids.push(st.anchor_id);
                }
                let same_file = str_eq(normalized_file, st.file_path.as_str());
                let drift = !same_file || !opt_is(st.line, anchor.line) || !opt_is(
                    st.shift,
                    anchor.shift,
                ) || !opt_is(st.offset, anchor.start_offset as i64);
                if drift {
                    self.report.issue_counts.anchors_moved += 1;
                    let msg = moved_text(anchor, file, &st);
                    self.report.groups.moved_anchors.push(msg);
                    proof {
                        assert(strings_view(self.report.groups.moved_anchors@) =~= m.report.moved.push(
                            moved_message(*anchor, file@, st),
                        ));
                    }
                } else {
                    self.report.anchors_healthy += 1;
                }
                proof {
                    assert(self@ =~= judge_model(m, *anchor, file@, normalized_file@, Some(st)));
                }
            },
            None => {
                self.report.issue_counts.unknown_anchor_ids += 1;
                let msg = unknown_text(anchor.anchor_name.as_str(), file);
                self.report.groups.unknown_anchor_ids.push(msg);
                proof {
                    assert(strings_view(self.report.groups.unknown_anchor_ids@) =~= m.report.unknown.push(
                        unknown_message(anchor.anchor_name@, file@),
                    ));
                    assert(self@ =~= judge_model(m, *anchor, file@, normalized_file@, None));
                }
            },
        }
    }

    /// An entity declaration whose entity has an anchor in the file: that
    /// anchor is accounted for and healthy. `None` when there is none.
    pub fn judge_declaration(&mut self, stored_anchor_id: Option<i64>)
        requires
            Self::has_room(old(self)@),
        ensures
            match stored_anchor_id {
                Some(id) => final(self)@ == (HealthAuditModel {
                    report: HealthReportModel {
                        anchors_healthy: old(self)@.report.anchors_healthy + 1,
                        ..old(self)@.report
                    },
                    seen_anchor_ids: insert_id(old(self)@.seen_anchor_ids, id),
                    ..old(self)@
                }),
                None => final(self)@ == old(self)@,
            },
    {
        if let Some(id) = stored_anchor_id {
            if !contains_i64(&self.seen_anchor_ids, id) {
                self.seen_anchor_ids.push(id);
            }
            self.report.anchors_healthy += 1;
        }
    }

    /// Reports the stored anchors of the audited files (`scoped`) that no
    /// file accounted for.
    pub fn report_missing(&mut self, all: &Vec<Anchor>, scoped: &Vec<String>)
        requires
            old(self)@.report.anchors_missing + all@.len() <= usize::MAX,
        ensures
            ({
                let miss = missing_anchors(all@, strings_view(scoped@), old(self)@.seen_anchor_ids);
                final(self)@ == (HealthAuditModel {
                    report: HealthReportModel {
                        anchors_missing: old(self)@.report.anchors_missing + miss.len(),
                        missing: old(self)@.report.missing + Seq::new(
                            miss.len(),
                            |i: int| missing_message(miss[i]),
                        ),
                        ..old(self)@.report
                    },
                    ..old(self)@
                })
            }),
    {
        let ghost m = self@;
        let ghost sc = strings_view(scoped@);
        let ghost pred = missing_pred(sc, m.seen_anchor_ids);
        let mut i: usize = 0;
        proof {
            assert(all@.take(0).filter(pred) =~= Seq::<Anchor>::empty());
            assert(strings_view(self.report.groups.missing_anchors@) =~= m.report.missing + Seq::new(
                0,
                |k: int| missing_message(all@.take(0).filter(pred)[k]),
            ));
        }
        while i < all.len()
            invariant
                i <= all@.len(),
                m.report.anchors_missing + all@.len() <= usize::MAX,
                sc == strings_view(scoped@),
                self.seen_anchor_ids@ == m.seen_anchor_ids,
                pred == missing_pred(sc, m.seen_anchor_ids),
                ({
                    let miss = all@.take(i as int).filter(pred);
                    self@ == (HealthAuditModel {
                        report: HealthReportModel {
                            anchors_missing: m.report.anchors_missing + miss.len(),
                            missing: m.report.missing + Seq::new(
                                miss.len(),
                                |k: int| missing_message(miss[k]),
                            ),
                            ..m.report
                        },
                        ..m
                    })
                }),
            decreases all.len() - i,
        {
            let a = &all[i];
            let ghost before = all@.take(i as int).filter(pred);
            proof {
                assert(all@.take(i + 1) =~= all@.take(i as int).push(*a));
                all@.take(i as int).lemma_filter_push(*a, pred);
                lemma_filter_len_le(all@.take(i as int), pred);
            }
            if contains_string(scoped, a.file_path.as_str()) && !contains_i64(
                &self.seen_anchor_ids,
                a.anchor_id,
            ) {
                self.report.issue_counts.anchors_missing += 1;
                let msg = missing_text(a);
                let ghost groups_before = strings_view(self.report.groups.missing_anchors@);
                self.report.groups.missing_anchors.push(msg);
                proof {
                    assert(pred(*a));
                    assert(all@.take(i + 1).filter(pred) == before.push(*a));
                    assert(strings_view(self.report.groups.missing_anchors@) =~= groups_before.push(
                        missing_message(*a),
                    ));
                    let after = before.push(*a);
                    assert(m.report.missing + Seq::new(after.len(), |k: int| missing_message(after[k]))
                        =~= (m.report.missing + Seq::new(before.len(), |k: int| missing_message(before[k]))).push(
                        missing_message(*a),
                    ));
                }
            } else {
                proof {
                    assert(!pred(*a));
                    assert(all@.take(i + 1).filter(pred) == before);
                }
            }
            i += 1;
        }
        proof {
            assert(all@.take(all@.len() as int) =~= all@);
        }
    }

    /// Reports the entities that no anchor is attached to.
    pub fn report_entities_without_anchors(&mut self, entities: &Vec<Entity>)
        ensures
            final(self)@ == (HealthAuditModel {
                report: HealthReportModel {
                    entities_without_anchors: entities@.len(),
                    entities_without: entity_lines(entities@),
                    ..old(self)@.report
                },
                ..old(self)@
            }),
    {
        let ghost m = self@;
        let mut lines: Vec<String> = Vec::new();
        let mut i: usize = 0;
        while i < entities.len()
            invariant
                i <= entities@.len(),
                strings_view(lines@) == entity_lines(entities@.take(i as int)),
            decreases entities.len() - i,
        {
            let e = &entities[i];
            let mut line = String::new();
            append_i64(&mut line, e.entity_id);
            line.append(" (");
            line.append(e.name.as_str());
            line.append(")");
            let ghost before = strings_view(lines@);
            lines.push(line);
            proof {
                assert(line@ =~= entity_without_anchor_line(*e));
                assert(strings_view(lines@) =~= before.push(line@));
                assert(entities@.take(i + 1) =~= entities@.take(i as int).push(*e));
                assert(entity_lines(entities@.take(i + 1)) =~= entity_lines(entities@.take(i as int)).push(
                    entity_without_anchor_line(*e),
                ));
            }
            i += 1;
        }
        proof {
            assert(entities@.take(entities@.len() as int) =~= entities@);
        }
        self.report.issue_counts.entities_without_anchors = entities.len();
        self.report.groups.entities_without_anchors = lines;
        proof {
            assert(self@ =~= (HealthAuditModel {
                report: HealthReportModel {
                    entities_without_anchors: entities@.len(),
                    entities_without: entity_lines(entities@),
                    ..m.report
                },
                ..m
            }));
        }
    }

    /// Reports the anchors that no entity is attached to.
    pub fn report_anchors_without_entities(&mut self, anchors: &Vec<Anchor>)
        ensures
            final(self)@ == (HealthAuditModel {
                report: HealthReportModel {
                    anchors_without_entities: anchors@.len(),
                    anchors_without: anchor_lines(anchors@),
                    ..old(self)@.report
                },
                ..old(self)@
            }),
    {
        let ghost m = self@;
        let mut lines: Vec<String> = Vec::new();
        let mut i: usize = 0;
        while i < anchors.len()
            invariant
                i <= anchors@.len(),
                strings_view(lines@) == anchor_lines(anchors@.take(i as int)),
            decreases anchors.len() - i,
        {
            let a = &anchors[i];
            let mut line = String::new();
            append_i64(&mut line, a.anchor_id);
            line.append(" ");
            line.append(a.file_path.as_str());
            let ghost before = strings_view(lines@);
            lines.push(line);
            proof {
                assert(line@ =~= anchor_without_entity_line(*a));
                assert(strings_view(lines@) =~= before.push(line@));
                assert(anchors@.take(i + 1) =~= anchors@.take(i as int).push(*a));
                assert(anchor_lines(anchors@.take(i + 1)) =~= anchor_lines(anchors@.take(i as int)).push(
                    anchor_without_entity_line(*a),
                ));
            }
            i += 1;
        }
        proof {
            assert(anchors@.take(anchors@.len() as int) =~= anchors@);
        }
        self.report.issue_counts.anchors_without_entities = anchors.len();
        self.report.groups.anchors_without_entities = lines;
        proof {
            assert(self@ =~= (HealthAuditModel {
                report: HealthReportModel {
                    anchors_without_entities: anchors@.len(),
                    anchors_without: anchor_lines(anchors@),
                    ..m.report
                },
                ..m
            }));
        }
    }
}

impl HealthReport {
    /// The report of an audit that has seen nothing.
    pub open spec fn default_model() -> HealthReportModel {
        HealthReportModel {
            files_scanned: 0,
            anchors_seen: 0,
            anchors_healthy: 0,
            anchors_moved: 0,
            anchors_missing: 0,
            duplicate_anchor_ids: 0,
            unknown_anchor_ids: 0,
            entities_without_anchors: 0,
            anchors_without_entities: 0,
            moved: seq![],
            missing: seq![],
            duplicates: seq![],
            unknown: seq![],
            entities_without: seq![],
            anchors_without: seq![],
        }
    }
}

proof fn lemma_filter_len_le(s: Seq<Anchor>, pred: spec_fn(Anchor) -> bool)
    ensures
        s.filter(pred).len() <= s.len(),
    decreases s.len(),
{
    reveal(Seq::filter);
    if s.len() > 0 {
        lemma_filter_len_le(s.drop_last(), pred);
    }
}

fn opt_is(o: Option<i64>, v: i64) -> (r: bool)
    ensures
        r == (o == Some(v)),
{
    match o {
        Some(x) => x == v,
        None => false,
    }
}

fn duplicate_in_file_text(name: &str, file: &str) -> (r: String)
    ensures
        r@ == duplicate_in_file_message(name@, file@),
{
    let mut s = String::from_str("anchor '");
    s.append(name);
    s.append("' appears multiple times in ");
    s.append(file);
    s
}

fn duplicate_across_text(name: &str, first: &str, file: &str) -> (r: String)
    ensures
        r@ == duplicate_across_files_message(name@, first@, file@),
{
    let mut s = String::from_str("anchor '");
    s.append(name);
    s.append("' appears in multiple files: ");
    s.append(first);
    s.append(" and ");
    s.append(file);
    s
}

fn unknown_text(name: &str, file: &str) -> (r: String)
    ensures
        r@ == unknown_message(name@, file@),
{
    let mut s = String::from_str("anchor '");
    s.append(name);
    s.append("' found in file but does not exist in the database (");
    s.append(file);
    s.append(")");
    s
}

fn missing_text(a: &Anchor) -> (r: String)
    ensures
        r@ == missing_message(*a),
{
    let mut s = String::from_str("missing anchor ");
    append_i64(&mut s, a.anchor_id);
    s.append(" recorded in db but not found in file ");
    s.append(a.file_path.as_str());
    s
}

fn moved_text(a: &ParsedAnchor, file: &str, st: &Anchor) -> (r: String)
    ensures
        r@ == moved_message(*a, file@, *st),
{
    let mut s = String::from_str("anchor '");
    s.append(a.anchor_name.as_str());
    s.append("' metadata drifted in ");
    s.append(file);
    s.append(" (db: ");
    s.append(st.file_path.as_str());
    s.append(" ");
    debug_opt_into(&mut s, st.line);
    s.append(":");
    debug_opt_into(&mut s, st.shift);
    s.append(" [");
    debug_opt_into(&mut s, st.offset);
    s.append("], file: ");
    s.append(file);
    s.append(" ");
    append_i64(&mut s, a.line);
    s.append(":");
    append_i64(&mut s, a.shift);
    s.append(" [");
    append_usize(&mut s, a.start_offset);
    s.append("])");
    s
}

/// The anchors judged so far: healthy, drifted, unknown, or duplicated.
pub open spec fn judged(r: HealthReportModel) -> nat {
    r.anchors_healthy + r.anchors_moved + r.unknown_anchor_ids + r.duplicate_anchor_ids
}

/// Every named anchor of a file is judged exactly once: a duplicate name
/// is reported and not looked up; any other anchor is looked up and found
/// healthy, drifted, or unknown. Each judgement that is an issue adds one
/// line to its group.
pub proof fn lemma_each_anchor_judged_once(
    m: HealthAuditModel,
    a: ParsedAnchor,
    file: Seq<char>,
    normalized_file: Seq<char>,
    stored: Option<Anchor>,
)
    ensures
        ({
            let (m1, look_up) = check_name_model(m, a.anchor_name@, file);
            let m2 = if look_up {
                judge_model(m1, a, file, normalized_file, stored)
            } else {
                m1
            };
            &&& judged(m2.report) == judged(m.report) + 1
            &&& m2.report.moved.len() + m2.report.unknown.len() + m2.report.duplicates.len()
                + m2.report.anchors_healthy == m.report.moved.len() + m.report.unknown.len()
                + m.report.duplicates.len() + m.report.anchors_healthy + 1
            &&& m2.report.files_scanned == m.report.files_scanned
            &&& m2.report.anchors_seen == m.report.anchors_seen
        }),
{
}

} // verus!
