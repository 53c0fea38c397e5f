use pipelines::encoding::Encoding;
use pipelines::record::{ParseError, ParsedMessage};

#[test]
fn parse_reads_all_five_fields() {
    let m = ParsedMessage::parse("13 2 1 66616E63792074657874 7").unwrap();
    assert_eq!(m.pipeline_id, 13);
    assert_eq!(m.id, 2);
    assert_eq!(m.encoding, Encoding::Hex);
    assert_eq!(m.message, "66616E63792074657874");
    assert_eq!(m.next_id, Some(7));
}

#[test]
fn parse_maps_minus_one_to_the_sentinel() {
    let m = ParsedMessage::parse("1 0 0 x -1").unwrap();
    assert_eq!(m.next_id, None);
}

#[test]
fn parse_accepts_plus_signs_as_from_str_does() {
    let m = ParsedMessage::parse("+5 +6 +0 x +7").unwrap();
    assert_eq!(m.pipeline_id, 5);
    assert_eq!(m.id, 6);
    assert_eq!(m.encoding, Encoding::Ascii);
    assert_eq!(m.next_id, Some(7));
}

#[test]
fn parse_rejects_missing_tokens() {
    assert_eq!(
        ParsedMessage::parse("err").unwrap_err(),
        ParseError::MalformedRecord
    );
    assert_eq!(
        ParsedMessage::parse("12 8 m...").unwrap_err(),
        ParseError::MalformedRecord
    );
    assert_eq!(
        ParsedMessage::parse("").unwrap_err(),
        ParseError::MalformedRecord
    );
    assert_eq!(
        ParsedMessage::parse("1 0 0 x").unwrap_err(),
        ParseError::MalformedRecord
    );
}

#[test]
fn parse_rejects_bad_numbers_as_malformed() {
    assert_eq!(
        ParsedMessage::parse("256 0 0 x -1").unwrap_err(),
        ParseError::MalformedRecord
    );
    assert_eq!(
        ParsedMessage::parse("1 0 0 x 70000").unwrap_err(),
        ParseError::MalformedRecord
    );
    assert_eq!(
        ParsedMessage::parse("one 0 0 x -1").unwrap_err(),
        ParseError::MalformedRecord
    );
    assert_eq!(
        ParsedMessage::parse("1 0 0 x 1.5").unwrap_err(),
        ParseError::MalformedRecord
    );
}

#[test]
fn parse_rejects_unknown_encoding_codes() {
    assert_eq!(
        ParsedMessage::parse("1 0 7 x -1").unwrap_err(),
        ParseError::UnknownEncoding
    );
    // the encoding check comes before the later tokens are even looked at
    assert_eq!(
        ParsedMessage::parse("1 2 7").unwrap_err(),
        ParseError::UnknownEncoding
    );
}

#[test]
fn parse_rejects_next_ids_outside_range() {
    assert_eq!(
        ParsedMessage::parse("1 0 0 x 300").unwrap_err(),
        ParseError::InvalidNextId
    );
    assert_eq!(
        ParsedMessage::parse("1 0 0 x -2").unwrap_err(),
        ParseError::InvalidNextId
    );
    assert_eq!(ParsedMessage::parse("1 0 0 x 255").unwrap().next_id, Some(255));
    assert_eq!(ParsedMessage::parse("1 0 0 x 0").unwrap().next_id, Some(0));
}

#[test]
fn parse_rejects_indented_lines() {
    // a leading space makes the first token empty, which is no number
    assert_eq!(
        ParsedMessage::parse(" 1 0 0 x -1").unwrap_err(),
        ParseError::MalformedRecord
    );
}
