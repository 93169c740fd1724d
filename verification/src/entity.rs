//! Entities: named concepts of the graph, their lookups and links, and the
//! rules their names and descriptions follow.
use vstd::prelude::*;

use crate::names::{check_name, name_issue, name_ok, normalize, normalize_chars, NameIssue};
use crate::tep_tag::{entity_tags_of, fits, parse_entity_tags, spec_parse_tags, EntityTagModel};
use crate::text::{chars_of, find_char_in, lemma_find_char, parse_i64, parse_i64_str, string_of, trim, trim_chars};

verus! {

#[derive(Debug, Clone, PartialEq, Eq)]
pub struct Entity {
    pub entity_id: i64,
    pub name: String,
    pub entity_ref: Option<String>,
    pub description: Option<String>,
    pub created_at: String,
    pub updated_at: String,
}

#[derive(Debug, Clone)]
pub struct NewEntity {
    pub name: String,
    pub entity_ref: Option<String>,
    pub description: Option<String>,
}

#[derive(Debug, Clone)]
pub struct UpdateEntity {
    pub name: Option<String>,
    pub entity_ref: Option<String>,
    pub description: Option<String>,
}

#[derive(Debug, Clone, PartialEq, Eq)]
pub enum EntityLookup {
    Id(i64),
    Name(String),
}

#[derive(Debug, Clone, PartialEq, Eq)]
pub struct EntityLink {
    pub from_entity_id: i64,
    pub to_entity_id: i64,
    pub relation: String,
    pub created_at: String,
    pub updated_at: String,
}

#[derive(Debug, Clone, PartialEq, Eq)]
pub struct ParsedEntityDeclaration {
    pub raw: String,
    pub name: String,
    pub start_offset: usize,
    pub line: i64,
    pub shift: i64,
}

pub open spec fn lookup_of(input: Seq<char>, r: EntityLookup) -> bool {
    match parse_i64(input) {
        Some(id) => r == EntityLookup::Id(id),
        None => r matches EntityLookup::Name(n) && n@ == normalize(input),
    }
}

/// A numeric input looks an entity up by id; anything else by its
/// normalized name.
pub fn parse_lookup(input: &str) -> (r: EntityLookup)
    ensures
        lookup_of(input@, r),
{
    match parse_i64_str(input) {
        Some(id) => EntityLookup::Id(id),
        None => EntityLookup::Name(normalize_name(input)),
    }
}

pub fn normalize_name(input: &str) -> (r: String)
    ensures
        r@ == normalize(input@),
{
    let cs = chars_of(input);
    let n = normalize_chars(&cs);
    string_of(&n)
}

pub fn validate_name(name: &str) -> (r: Result<(), &'static str>)
    ensures
        r is Ok <==> name_ok(name@),
        name_issue(normalize(name@)) == Some(NameIssue::Empty) ==> r == Err::<(), &'static str>(
            "entity name cannot be empty",
        ),
        name_issue(normalize(name@)) == Some(NameIssue::Numeric) ==> r == Err::<(), &'static str>(
            "entity name cannot be purely numeric",
        ),
        name_issue(normalize(name@)) == Some(NameIssue::Charset) ==> r == Err::<(), &'static str>(
            "entity name may only contain lowercase letters, numbers, dots, and underscores",
        ),
{
    let cs = chars_of(name);
    match check_name(&cs) {
        None => Ok(()),
        Some(NameIssue::Empty) => Err("entity name cannot be empty"),
        Some(NameIssue::Numeric) => Err("entity name cannot be purely numeric"),
        Some(NameIssue::Charset) => Err(
            "entity name may only contain lowercase letters, numbers, dots, and underscores",
        ),
    }
}

pub open spec fn has_char(s: Seq<char>, c: char) -> bool {
    exists|i: int| 0 <= i < s.len() && s[i] == c
}

fn has_char_exec(s: &[char], c: char) -> (r: bool)
    ensures
        r == has_char(s@, c),
{
    let found = find_char_in(s, c, 0, s.len());
    proof {
        lemma_find_char(s@, c, 0, s@.len() as int);
    }
    found.is_some()
}

/// A description may hold neither double quotes nor line breaks.
pub fn validate_description(description: &str) -> (r: Result<(), &'static str>)
    ensures
        has_char(description@, '"') ==> r == Err::<(), &'static str>(
            "entity description cannot contain quotes",
        ),
        !has_char(description@, '"') && (has_char(description@, '\n') || has_char(
            description@,
            '\r',
        )) ==> r == Err::<(), &'static str>("entity description cannot contain newlines"),
        r is Ok <==> !has_char(description@, '"') && !has_char(description@, '\n') && !has_char(
            description@,
            '\r',
        ),
{
    let cs = chars_of(description);
    if has_char_exec(&cs, '"') {
        return Err("entity description cannot contain quotes");
    }
    if has_char_exec(&cs, '\n') || has_char_exec(&cs, '\r') {
        return Err("entity description cannot contain newlines");
    }
    Ok(())
}

/// Validates a present description and trims it.
pub fn normalize_description(description: Option<String>) -> (r: Result<Option<String>, &'static str>)
    ensures
        match description {
            None => r == Ok::<Option<String>, &'static str>(None),
            Some(d) => match r {
                Ok(Some(t)) => t@ == trim(d@) && !has_char(d@, '"') && !has_char(d@, '\n')
                    && !has_char(d@, '\r'),
                Ok(None) => false,
                Err(e) => (has_char(d@, '"') && e == "entity description cannot contain quotes")
                    || (!has_char(d@, '"') && (has_char(d@, '\n') || has_char(d@, '\r')) && e
                    == "entity description cannot contain newlines"),
            },
        },
{
    match description {
        Some(value) => {
            match validate_description(value.as_str()) {
                Err(e) => Err(e),
                Ok(()) => {
                    let cs = chars_of(value.as_str());
                    let t = trim_chars(&cs);
                    Ok(Some(string_of(&t)))
                },
            }
        },
        None => Ok(None),
    }
}

/// What `parse_entity_declarations` keeps of an entity tag.
pub struct DeclarationModel {
    pub raw: Seq<char>,
    pub name: Seq<char>,
    pub start_offset: int,
    pub line: int,
    pub shift: int,
}

impl View for ParsedEntityDeclaration {
    type V = DeclarationModel;

    open spec fn view(&self) -> DeclarationModel {
        DeclarationModel {
            raw: self.raw@,
            name: self.name@,
            start_offset: self.start_offset as int,
            line: self.line as int,
            shift: self.shift as int,
        }
    }
}

pub open spec fn declaration_of_tag(t: EntityTagModel) -> DeclarationModel {
    DeclarationModel {
        raw: t.raw,
        name: t.name,
        start_offset: t.start_offset,
        line: t.line,
        shift: t.shift,
    }
}

/// The entity declarations of a text, in order.
pub open spec fn spec_parse_declarations(s: Seq<char>) -> Seq<DeclarationModel> {
    entity_tags_of(spec_parse_tags(s)).map_values(|t: EntityTagModel| declaration_of_tag(t))
}

/// The entity declarations of a text with their positions.
pub fn parse_entity_declarations(input: &str) -> (out: Vec<ParsedEntityDeclaration>)
    requires
        fits(input@),
    ensures
        Seq::new(out@.len(), |i: int| out@[i]@) == spec_parse_declarations(input@),
{
    let tags = parse_entity_tags(input);
    let ghost tv = Seq::new(tags@.len(), |i: int| tags@[i]@);
    let mut out: Vec<ParsedEntityDeclaration> = Vec::new();
    for tag in it: tags
        invariant
            tv == entity_tags_of(spec_parse_tags(input@)),
            it.seq().len() == tv.len(),
            forall|j: int| 0 <= j < it.seq().len() ==> #[trigger] it.seq()[j]@ == tv[j],
            Seq::new(out@.len(), |j: int| out@[j]@) == tv.take(it.index() as int).map_values(
                |t: EntityTagModel| declaration_of_tag(t),
            ),
    {
        let ghost before = Seq::new(out@.len(), |j: int| out@[j]@);
        let ghost k = it.index() as int;
        proof {
            assert(before.len() == k);
            assert(it.seq()[k]@ == tv[k]);
        }
        out.push(
            ParsedEntityDeclaration {
                raw: tag.raw,
                name: tag.name,
                start_offset: tag.start_offset,
                line: tag.line,
                shift: tag.shift,
            },
        );
        proof {
            assert forall|j: int| 0 <= j < k implies #[trigger] out@[j]@ == declaration_of_tag(
                tv[j],
            ) by {
                assert(before[j] == tv.take(k).map_values(
                    |t: EntityTagModel| declaration_of_tag(t),
                )[j]);
            }
            assert(Seq::new(out@.len(), |j: int| out@[j]@) =~= tv.take(k + 1).map_values(
                |t: EntityTagModel| declaration_of_tag(t),
            ));
        }
    }
    proof {
        assert(tv.take(tv.len() as int) =~= tv);
    }
    out
}

/// The message for a refused entity name.
pub open spec fn entity_name_message(issue: NameIssue) -> &'static str {
    match issue {
        NameIssue::Empty => "entity name cannot be empty",
        NameIssue::Numeric => "entity name cannot be purely numeric",
        NameIssue::Charset => "entity name may only contain lowercase letters, numbers, dots, and underscores",
    }
}

/// What a stored entity holds after an update: the new name when one is
/// given (it must be valid, and is stored normalized), and each of ref and
/// description replaced where given, kept otherwise.
pub fn apply_update(current: &Entity, changes: &UpdateEntity) -> (r: Result<Entity, &'static str>)
    ensures
        (changes.name matches Some(n) ==> name_ok(n@)) ==> (r matches Ok(e) && e.entity_id
            == current.entity_id && e.name@ == (match changes.name {
            Some(n) => normalize(n@),
            None => current.name@,
        }) && e.entity_ref == (match changes.entity_ref {
            Some(x) => Some(x),
            None => current.entity_ref,
        }) && e.description == (match changes.description {
            Some(x) => Some(x),
            None => current.description,
        }) && e.created_at == current.created_at && e.updated_at == current.updated_at),
        r is Err <==> (changes.name matches Some(n) && !name_ok(n@)),
        r matches Err(msg) ==> (changes.name matches Some(n) && name_issue(normalize(n@)) matches Some(
            issue,
        ) && msg == entity_name_message(issue)),
{
    let name = match &changes.name {
        Some(n) => {
            match validate_name(n.as_str()) {
                Ok(()) => normalize_name(n.as_str()),
                Err(msg) => return Err(msg),
            }
        },
        None => current.name.clone(),
    };
    Ok(
        Entity {
            entity_id: current.entity_id,
            name,
            entity_ref: match &changes.entity_ref {
                Some(x) => Some(x.clone()),
                None => current.entity_ref.clone(),
            },
            description: match &changes.description {
                Some(x) => Some(x.clone()),
                None => current.description.clone(),
            },
            created_at: current.created_at.clone(),
            updated_at: current.updated_at.clone(),
        },
    )
}

} // verus!
