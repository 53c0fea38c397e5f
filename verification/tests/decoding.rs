use pipelines::encoding::{DecodeError, Encoding};

#[test]
fn ascii_decode_is_the_identity() {
    assert_eq!(
        Encoding::Ascii.decode("some_text".to_string()).unwrap(),
        "some_text"
    );
    assert_eq!(Encoding::Ascii.decode("".to_string()).unwrap(), "");
}

#[test]
fn hex_decode_reads_digit_pairs() {
    assert_eq!(Encoding::Hex.decode("4F4B".to_string()).unwrap(), "OK");
    assert_eq!(Encoding::Hex.decode("4f4b".to_string()).unwrap(), "OK");
    assert_eq!(
        Encoding::Hex.decode("66616E63792031335F31".to_string()).unwrap(),
        "fancy 13_1"
    );
    assert_eq!(Encoding::Hex.decode("".to_string()).unwrap(), "");
}

#[test]
fn hex_decode_rejects_odd_length() {
    assert_eq!(
        Encoding::Hex.decode("4F4".to_string()).unwrap_err(),
        DecodeError::InvalidHex
    );
}

#[test]
fn hex_decode_rejects_non_hex_characters() {
    assert_eq!(
        Encoding::Hex.decode("GG".to_string()).unwrap_err(),
        DecodeError::InvalidHex
    );
    assert_eq!(
        Encoding::Hex.decode("4F4B ".to_string()).unwrap_err(),
        DecodeError::InvalidHex
    );
}

#[test]
fn hex_decode_rejects_invalid_utf8() {
    assert_eq!(
        Encoding::Hex.decode("FF".to_string()).unwrap_err(),
        DecodeError::InvalidUtf8
    );
    assert_eq!(
        Encoding::Hex.decode("C328".to_string()).unwrap_err(),
        DecodeError::InvalidUtf8
    );
}

#[test]
fn hex_decode_handles_multibyte_utf8() {
    // C3A9 is the UTF-8 encoding of 'é'
    assert_eq!(Encoding::Hex.decode("C3A9".to_string()).unwrap(), "\u{e9}");
}
