use nuttyverse_core::nutty_id::DissociatedNuttyId;
use nuttyverse_core::nutty_id::NuttyIdError;
use nuttyverse_core::nutty_tag::NuttyTag;
use nuttyverse_core::nutty_tag::NuttyTagError;

#[test]
fn test_parse_simple_tag() {
    let tag = NuttyTag::parse("[[abcdefg]]").unwrap();
    assert_eq!(tag.nutty_id().nid(), "abcdefg");
    assert_eq!(tag.display_text(), None);
}

#[test]
fn test_parse_tag_with_display_text() {
    let tag = NuttyTag::parse("[[abcdefg|Display Text]]").unwrap();
    assert_eq!(tag.nutty_id().nid(), "abcdefg");
    assert_eq!(tag.display_text(), Some("Display Text"));
}

#[test]
fn test_parse_invalid_tag() {
    assert!(NuttyTag::parse("abcdefg]]").is_err());
    assert!(NuttyTag::parse("[[abcdefg").is_err());
    assert!(NuttyTag::parse("[[abcdef0]]").is_err());
    assert!(NuttyTag::parse("[[abcdef]]").is_err());
    assert!(NuttyTag::parse("[[abcdefg|Display|Text]]").is_err());
    assert!(NuttyTag::parse("[[]]").is_err());
}

#[test]
fn test_display_trait() {
    let nutty_id = DissociatedNuttyId::new("abcdefg").unwrap();
    let tag = NuttyTag::new(nutty_id, None);
    assert_eq!(tag.to_string(), "[[abcdefg]]");

    let nutty_id = DissociatedNuttyId::new("abcdefg").unwrap();
    let tag = NuttyTag::new(nutty_id, Some("Display Text".to_string()));
    assert_eq!(tag.to_string(), "[[abcdefg|Display Text]]");
}

#[test]
fn test_try_from() {
    assert!(NuttyTag::try_from("[[abcdefg]]").is_ok());
    assert!(NuttyTag::try_from("[[abcdefg|Display Text]]").is_ok());

    assert!(NuttyTag::try_from("abcdefg").is_err());
    assert!(NuttyTag::try_from("[[abcdefg").is_err());
    assert!(NuttyTag::try_from("abcdefg]]").is_err());
    assert!(NuttyTag::try_from("[[]]").is_err());
    assert!(NuttyTag::try_from("[[abcdef0]]").is_err());
}

#[test]
fn test_edge_cases() {
    let tag = NuttyTag::parse("[[  abcdefg  ]]").unwrap();
    assert_eq!(tag.nutty_id().nid(), "abcdefg");

    let tag = NuttyTag::parse("[[ abcdefg |   Display Text   ]]").unwrap();
    assert_eq!(tag.nutty_id().nid(), "abcdefg");
    assert_eq!(tag.display_text(), Some("Display Text"));

    let tag = NuttyTag::parse("[[abcdefg|]]").unwrap();
    assert_eq!(tag.nutty_id().nid(), "abcdefg");
    assert_eq!(tag.display_text(), Some(""));
}

#[test]
fn test_parse_all() {
    let tags = NuttyTag::parse_all("");
    assert!(tags.is_empty());

    let tags = NuttyTag::parse_all("[[abcdefg]]");
    assert_eq!(tags.len(), 1);
    assert_eq!(tags[0].nutty_id().nid(), "abcdefg");
    assert_eq!(tags[0].display_text(), None);

    let tags = NuttyTag::parse_all("[[abcdefg]] [[1234567|Display Text]]");
    assert_eq!(tags.len(), 2);
    assert_eq!(tags[0].nutty_id().nid(), "abcdefg");
    assert_eq!(tags[0].display_text(), None);
    assert_eq!(tags[1].nutty_id().nid(), "1234567");
    assert_eq!(tags[1].display_text(), Some("Display Text"));

    let tags = NuttyTag::parse_all("Hello [[abcdefg]] World [[invalid]] [[1234567|Display]]");
    assert_eq!(tags.len(), 2);
    assert_eq!(tags[0].nutty_id().nid(), "abcdefg");
    assert_eq!(tags[0].display_text(), None);
    assert_eq!(tags[1].nutty_id().nid(), "1234567");
    assert_eq!(tags[1].display_text(), Some("Display"));

    let tags = NuttyTag::parse_all("[[abcdefg[[1234567]]]]");
    assert!(tags.is_empty());

    let tags = NuttyTag::parse_all("  [[  abcdefg  ]] & [[  1234567  |  Display  ]]  ");
    assert_eq!(tags.len(), 2);
    assert_eq!(tags[0].nutty_id().nid(), "abcdefg");
    assert_eq!(tags[0].display_text(), None);
    assert_eq!(tags[1].nutty_id().nid(), "1234567");
    assert_eq!(tags[1].display_text(), Some("Display"));
}

#[test]
fn parse_error_variants() {
    assert_eq!(
        NuttyTag::parse("abc").unwrap_err(),
        NuttyTagError::MissingBrackets("abc".to_string())
    );
    assert_eq!(
        NuttyTag::parse("[[a|b|c]]").unwrap_err(),
        NuttyTagError::InvalidTag("[[a|b|c]]".to_string())
    );
    assert_eq!(
        NuttyTag::parse("[[ abc ]]").unwrap_err(),
        NuttyTagError::InvalidNuttyId(NuttyIdError::ValidationError("abc".to_string()))
    );
}

#[test]
fn parse_matches_keeps_only_valid_tags() {
    let texts = vec!["[[abcdefg]]".to_string(), "[[nope]]".to_string(), "[[1234567|x]]".to_string()];
    let tags = NuttyTag::parse_matches(&texts);
    assert_eq!(tags.len(), 2);
    assert_eq!(tags[1].display_text(), Some("x"));
}
