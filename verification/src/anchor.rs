//! Anchors: named locations in files that point at entities.
use vstd::prelude::*;

use crate::names::{check_name, name_issue, name_ok, normalize, NameIssue};
use crate::tep_tag::{
    anchor_tags_of, fits, parse_anchor_tags, spec_parse_tags, strings_view, AnchorTagModel,
};
use crate::text::{chars_of, parse_i64, parse_i64_str};

verus! {

/// A line holding this marker is not scanned for tags.
pub const TEPIGNORE_MARKER: &'static str = "#tepignore";

/// Nothing after the first occurrence of this marker is scanned for tags.
pub const TEPIGNORE_AFTER_MARKER: &'static str = "#tepignoreafter";

#[derive(Debug, Clone, PartialEq, Eq)]
pub struct Anchor {
    pub anchor_id: i64,
    pub version: i64,
    pub name: Option<String>,
    pub file_path: String,
    pub line: Option<i64>,
    pub shift: Option<i64>,
    pub offset: Option<i64>,
    pub description: Option<String>,
    pub created_at: String,
    pub updated_at: String,
}

#[derive(Debug, Clone, PartialEq, Eq)]
pub struct ParsedAnchor {
    pub raw: String,
    pub anchor_name: String,
    pub entity_refs: Vec<String>,
    pub start_offset: usize,
    pub line: i64,
    pub shift: i64,
}

/// What `parse_anchors` keeps of an anchor tag.
pub struct ParsedAnchorModel {
    pub raw: Seq<char>,
    pub anchor_name: Seq<char>,
    pub entity_refs: Seq<Seq<char>>,
    pub start_offset: int,
    pub line: int,
    pub shift: int,
}

impl View for ParsedAnchor {
    type V = ParsedAnchorModel;

    open spec fn view(&self) -> ParsedAnchorModel {
        ParsedAnchorModel {
            raw: self.raw@,
            anchor_name: self.anchor_name@,
            entity_refs: strings_view(self.entity_refs@),
            start_offset: self.start_offset as int,
            line: self.line as int,
            shift: self.shift as int,
        }
    }
}

pub open spec fn anchor_of_tag(t: AnchorTagModel) -> ParsedAnchorModel {
    ParsedAnchorModel {
        raw: t.raw,
        anchor_name: t.anchor_name,
        entity_refs: t.entity_refs,
        start_offset: t.start_offset,
        line: t.line,
        shift: t.shift,
    }
}

/// The anchors of a text, in order.
pub open spec fn spec_parse_anchors(s: Seq<char>) -> Seq<ParsedAnchorModel> {
    anchor_tags_of(spec_parse_tags(s)).map_values(|t: AnchorTagModel| anchor_of_tag(t))
}

#[derive(Debug, Clone, PartialEq, Eq)]
pub enum AnchorTarget {
    Id(i64),
    Name(String),
}

pub fn normalize_anchor_name(input: &str) -> (r: String)
    ensures
        r@ == normalize(input@),
{
    crate::entity::normalize_name(input)
}

pub fn validate_anchor_name(name: &str) -> (r: Result<(), &'static str>)
    ensures
        r is Ok <==> name_ok(name@),
        name_issue(normalize(name@)) == Some(NameIssue::Empty) ==> r == Err::<(), &'static str>(
            "anchor name cannot be empty",
        ),
        name_issue(normalize(name@)) == Some(NameIssue::Numeric) ==> r == Err::<(), &'static str>(
            "anchor name cannot be purely numeric",
        ),
        name_issue(normalize(name@)) == Some(NameIssue::Charset) ==> r == Err::<(), &'static str>(
            "anchor name may only contain lowercase letters, numbers, dots, and underscores",
        ),
{
    let cs = chars_of(name);
    match check_name(&cs) {
        None => Ok(()),
        Some(NameIssue::Empty) => Err("anchor name cannot be empty"),
        Some(NameIssue::Numeric) => Err("anchor name cannot be purely numeric"),
        Some(NameIssue::Charset) => Err(
            "anchor name may only contain lowercase letters, numbers, dots, and underscores",
        ),
    }
}

pub open spec fn target_of(input: Seq<char>, r: AnchorTarget) -> bool {
    match parse_i64(input) {
        Some(id) => r == AnchorTarget::Id(id),
        None => r matches AnchorTarget::Name(n) && n@ == normalize(input),
    }
}

/// A numeric input names an anchor by id; anything else by its normalized
/// name.
pub fn parse_anchor_target(input: &str) -> (r: AnchorTarget)
    ensures
        target_of(input@, r),
{
    match parse_i64_str(input) {
        Some(id) => AnchorTarget::Id(id),
        None => AnchorTarget::Name(normalize_anchor_name(input)),
    }
}

/// The anchors of a text with their entity references and positions.
pub fn parse_anchors(input: &str) -> (out: Vec<ParsedAnchor>)
    requires
        fits(input@),
    ensures
        Seq::new(out@.len(), |i: int| out@[i]@) == spec_parse_anchors(input@),
{
    let tags = parse_anchor_tags(input);
    let ghost tv = Seq::new(tags@.len(), |i: int| tags@[i]@);
    let mut out: Vec<ParsedAnchor> = Vec::new();
    for tag in it: tags
        invariant
            tv == anchor_tags_of(spec_parse_tags(input@)),
            it.seq().len() == tv.len(),
            forall|j: int| 0 <= j < it.seq().len() ==> #[trigger] it.seq()[j]@ == tv[j],
            Seq::new(out@.len(), |j: int| out@[j]@) == tv.take(it.index() as int).map_values(
                |t: AnchorTagModel| anchor_of_tag(t),
            ),
    {
        let ghost before = Seq::new(out@.len(), |j: int| out@[j]@);
        let ghost k = it.index() as int;
        proof {
            assert(before.len() == k);
            assert(it.seq()[k]@ == tv[k]);
        }
        let ghost tm = tag@;
        out.push(
            ParsedAnchor {
                raw: tag.raw,
                anchor_name: tag.anchor_name,
                entity_refs: tag.entity_refs,
                start_offset: tag.start_offset,
                line: tag.line,
                shift: tag.shift,
            },
        );
        proof {
            assert(tm == tv[k]);
            assert(out@.len() == k + 1);
            assert(out@[k]@ == anchor_of_tag(tv[k]));
            assert forall|j: int| 0 <= j < k implies #[trigger] out@[j]@ == anchor_of_tag(tv[j]) by {
                assert(before[j] == tv.take(k).map_values(|t: AnchorTagModel| anchor_of_tag(t))[j]);
            }
            assert(Seq::new(out@.len(), |j: int| out@[j]@) =~= tv.take(k + 1).map_values(
                |t: AnchorTagModel| anchor_of_tag(t),
            ));
        }
    }
    proof {
        assert(tv.take(tv.len() as int) =~= tv);
    }
    out
}

} // verus!
