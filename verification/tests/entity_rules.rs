use tep::entity::{
    normalize_description, normalize_name, parse_entity_declarations, parse_lookup,
    validate_description, validate_name, EntityLookup,
};

#[test]
fn parses_numeric_lookup_as_id() {
    assert_eq!(parse_lookup("42"), EntityLookup::Id(42));
}

#[test]
fn parses_non_numeric_lookup_as_normalized_name() {
    assert_eq!(parse_lookup("Student"), EntityLookup::Name("student".into()));
}

#[test]
fn rejects_empty_name() {
    assert!(validate_name("   ").is_err());
}

#[test]
fn rejects_numeric_name() {
    assert!(validate_name("123").is_err());
}

#[test]
fn accepts_dotted_name() {
    assert!(validate_name("student.permissions").is_ok());
}

#[test]
fn rejects_name_with_dash() {
    assert!(validate_name("student-profile").is_err());
}

#[test]
fn normalizes_mixed_case_name() {
    assert_eq!(normalize_name(" Student.Profile "), "student.profile");
}

#[test]
fn accepts_uppercase_name_input_but_normalizes_it() {
    assert!(validate_name("STUDENT").is_ok());
    assert_eq!(normalize_name("STUDENT"), "student");
}

#[test]
fn rejects_description_with_quotes() {
    assert!(validate_description("A \"learner\"").is_err());
}

#[test]
fn rejects_description_with_newlines() {
    assert!(validate_description("A learner\nwith break").is_err());
}

#[test]
fn accepts_description_with_spaces() {
    assert!(validate_description("A learner in the system").is_ok());
}

#[test]
fn parses_entity_declaration() {
    let parsed = parse_entity_declarations("abc #!#tep:(Student) xyz");
    assert_eq!(parsed.len(), 1);
    assert_eq!(parsed[0].name, "student");
}

#[test]
fn ignores_entity_declaration_with_version_segment() {
    let parsed = parse_entity_declarations("(#!#1#tep:Student)");
    assert!(parsed.is_empty());
}

#[test]
fn ignores_numeric_entity_declaration_name() {
    let parsed = parse_entity_declarations("#!#tep:(123)");
    assert!(parsed.is_empty());
}

#[test]
fn parse_lookup_preserves_non_numeric_whitespace_input_as_name() {
    assert_eq!(parse_lookup(" 42a "), EntityLookup::Name("42a".into()));
}

#[test]
fn ignores_entity_declaration_when_line_contains_tepignore() {
    let parsed = parse_entity_declarations("example #!#tep:(Student) #tepignore");
    assert!(parsed.is_empty());
}

#[test]
fn ignores_entity_declarations_after_tepignoreafter_marker() {
    let parsed = parse_entity_declarations("#!#tep:(Student)\n#tepignoreafter\n#!#tep:(Teacher)");
    assert_eq!(parsed.len(), 1);
    assert_eq!(parsed[0].name, "student");
}

#[test]
fn validate_name_reports_each_refusal() {
    assert_eq!(validate_name(""), Err("entity name cannot be empty"));
    assert_eq!(validate_name(" 007 "), Err("entity name cannot be purely numeric"));
    assert_eq!(
        validate_name("a-b"),
        Err("entity name may only contain lowercase letters, numbers, dots, and underscores")
    );
    assert_eq!(validate_name("\u{a0}Student\t"), Ok(()));
}

#[test]
fn normalize_name_trims_unicode_whitespace() {
    assert_eq!(normalize_name("\u{3000} Alpha.Beta_2\u{2009}"), "alpha.beta_2");
}

#[test]
fn parse_lookup_reads_signed_and_extreme_ids() {
    assert_eq!(parse_lookup("+7"), EntityLookup::Id(7));
    assert_eq!(parse_lookup("-12"), EntityLookup::Id(-12));
    assert_eq!(parse_lookup("9223372036854775807"), EntityLookup::Id(i64::MAX));
    assert_eq!(parse_lookup("-9223372036854775808"), EntityLookup::Id(i64::MIN));
    assert_eq!(
        parse_lookup("9223372036854775808"),
        EntityLookup::Name("9223372036854775808".into())
    );
    assert_eq!(parse_lookup("-"), EntityLookup::Name("-".into()));
}

#[test]
fn normalize_description_trims_valid_text_and_refuses_line_breaks() {
    assert_eq!(
        normalize_description(Some("  A learner  ".into())),
        Ok(Some("A learner".into()))
    );
    assert_eq!(normalize_description(None), Ok(None));
    assert_eq!(
        normalize_description(Some("a\rb".into())),
        Err("entity description cannot contain newlines")
    );
    assert_eq!(
        validate_description("say \"hi\"\n"),
        Err("entity description cannot contain quotes")
    );
}
