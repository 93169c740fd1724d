use tep::tep_tag::{parse_anchor_tags, parse_entity_tags, parse_relation_tags, parse_tags, ParsedTepTag};

#[test]
fn relation_tag_with_description_metadata() {
    let tags = parse_relation_tags("x #!#tep:(Student)->(subject){description=\"has subject\"} y");
    assert_eq!(tags.len(), 1);
    assert_eq!(tags[0].from, "student");
    assert_eq!(tags[0].to, "subject");
    assert_eq!(tags[0].metadata.get("description"), Some("has subject".to_string()));
    assert_eq!(tags[0].raw, "#!#tep:(Student)->(subject){description=\"has subject\"}");
    assert_eq!(tags[0].start_offset, 2);
}

#[test]
fn entity_metadata_records_duplicates_unknowns_and_escapes() {
    let tags = parse_entity_tags(
        "#!#tep:(a){ref=\"x\", foo=\"1\", ref=\"y\", description=\"say \\\"hi\\\", ok\"}",
    );
    assert_eq!(tags.len(), 1);
    let m = &tags[0].metadata;
    assert_eq!(m.get("ref"), Some("y".to_string()));
    assert_eq!(m.get("description"), Some("say \"hi\", ok".to_string()));
    assert_eq!(m.duplicate_keys, vec!["ref".to_string()]);
    assert_eq!(m.unknown_fields, vec!["foo".to_string()]);
    assert_eq!(m.fields.len(), 3);
}

#[test]
fn unclosed_metadata_block_drops_the_tag() {
    assert!(parse_entity_tags("#!#tep:(a){ref=\"x\"").is_empty());
}

#[test]
fn unquoted_metadata_values_are_skipped() {
    let tags = parse_entity_tags("#!#tep:(a){ref=x, description=\"d\"}");
    assert_eq!(tags.len(), 1);
    assert_eq!(tags[0].metadata.get("ref"), None);
    assert_eq!(tags[0].metadata.get("description"), Some("d".to_string()));
}

#[test]
fn scan_resumes_after_each_tag_and_keeps_kinds_apart() {
    let text = "#!#tep:(a)\n#!#tep:(a)->(b)\n  #!#tep:[x.y](a, b ,)\n";
    let tags = parse_tags(text);
    assert_eq!(tags.len(), 3);
    assert!(matches!(tags[0], ParsedTepTag::Entity(_)));
    assert!(matches!(tags[1], ParsedTepTag::Relation(_)));
    match &tags[2] {
        ParsedTepTag::Anchor(a) => {
            assert_eq!(a.entity_refs, vec!["a", "b"]);
            assert_eq!(a.line, 3);
            assert_eq!(a.shift, 2);
        }
        _ => panic!("anchor expected"),
    }
    assert_eq!(parse_anchor_tags(text).len(), 1);
    assert_eq!(parse_entity_tags(text).len(), 1);
}

#[test]
fn anchor_with_invalid_reference_is_dropped() {
    assert!(parse_anchor_tags("#!#tep:[ok](good, bad-name)").is_empty());
    assert!(parse_anchor_tags("#!#tep:[ok]( , )").is_empty());
}

#[test]
fn normalizing_twice_changes_nothing() {
    let once = tep::entity::normalize_name("  Student.Profile ");
    assert_eq!(once, "student.profile");
    assert_eq!(tep::entity::normalize_name(&once), once);
}

#[test]
fn tags_come_in_text_order_without_overlap() {
    let text = "#!#tep:(a)->(b) #!#tep:(c)\nx #!#tep:[n](a){description=\"d\"}";
    let tags = tep::tep_tag::parse_tags(text);
    let offsets: Vec<usize> = tags
        .iter()
        .map(|t| match t {
            tep::tep_tag::ParsedTepTag::Entity(e) => e.start_offset,
            tep::tep_tag::ParsedTepTag::Relation(r) => r.start_offset,
            tep::tep_tag::ParsedTepTag::Anchor(a) => a.start_offset,
        })
        .collect();
    assert_eq!(offsets, vec![0, 16, 29]);
}

#[test]
fn bracketed_anchor_form_is_read_like_the_tag_form() {
    let tags = tep::tep_tag::parse_anchor_tags("x [#!#tep:Foo](student) y");
    assert_eq!(tags.len(), 1);
    assert_eq!(tags[0].anchor_name, "foo");
    assert_eq!(tags[0].raw, "[#!#tep:Foo](student)");
    assert_eq!(tags[0].start_offset, 2);
}
