//! Payload encodings and their decode operation.
//!
//! A record's payload is either plain text (`Ascii`) or hex-digit text that
//! spells the UTF-8 bytes of the message (`Hex`).

use vstd::prelude::*;
use vstd::utf8::{decode_utf8, valid_utf8};

verus! {

/// The closed set of payload encodings a record may declare.
#[derive(Clone, Copy, Debug, PartialEq, Eq, Structural)]
pub enum Encoding {
    Ascii,
    Hex,
}

/// Why a payload could not be decoded under its declared encoding.
#[derive(Clone, Copy, Debug, PartialEq, Eq, Structural)]
pub enum DecodeError {
    /// The raw payload is not even-length hex-digit text.
    InvalidHex,
    /// The bytes the hex text spells are not valid UTF-8.
    InvalidUtf8,
}

/// Hex digits in either case.
pub open spec fn is_hex_digit(c: char) -> bool {
    ('0' <= c && c <= '9') || ('a' <= c && c <= 'f') || ('A' <= c && c <= 'F')
}

/// The numeric value of one hex digit.
pub open spec fn hex_digit_value(c: char) -> u8
    recommends
        is_hex_digit(c),
{
    if '0' <= c && c <= '9' {
        (c as u32 - 48) as u8
    } else if 'a' <= c && c <= 'f' {
        (c as u32 - 87) as u8
    } else {
        (c as u32 - 55) as u8
    }
}

/// The byte spelled by a pair of hex digits.
pub open spec fn hex_pair_value(hi: char, lo: char) -> u8 {
    (hex_digit_value(hi) * 16 + hex_digit_value(lo)) as u8
}

pub open spec fn all_hex_digits(s: Seq<char>) -> bool {
    forall|i: int| 0 <= i < s.len() ==> is_hex_digit(s[i])
}

/// The bytes spelled by even-length hex-digit text, one byte per digit pair.
pub open spec fn hex_bytes(s: Seq<char>) -> Seq<u8>
    recommends
        s.len() % 2 == 0,
        all_hex_digits(s),
    decreases s.len(),
{
    if s.len() < 2 {
        Seq::empty()
    } else {
        seq![hex_pair_value(s[0], s[1])] + hex_bytes(s.skip(2))
    }
}

/// What decoding hex text yields: the spelled bytes, or nothing when the text
/// has odd length or holds a non-hex character.
pub open spec fn hex_decode_spec(s: Seq<char>) -> Option<Seq<u8>> {
    if s.len() % 2 == 0 && all_hex_digits(s) {
        Some(hex_bytes(s))
    } else {
        None
    }
}

/// Relies on hex::decode: it accepts exactly the even-length strings of hex
/// digits (either case) and returns the bytes they spell, one byte per digit
/// pair, high digit first.
#[verifier::external_body]
fn hex_decode(s: &str) -> (r: Option<Vec<u8>>)
    ensures
        r is Some <==> hex_decode_spec(s@) is Some,
        r matches Some(v) ==> hex_decode_spec(s@) matches Some(b) && v@ == b,
{
    hex::decode(s).ok()
}

/// Relies on String::from_utf8: it succeeds exactly on valid UTF-8 and
/// returns the text those bytes encode.
#[verifier::external_body]
fn utf8_to_string(bytes: Vec<u8>) -> (r: Option<String>)
    ensures
        r is Some <==> valid_utf8(bytes@),
        r matches Some(s) ==> s@ == decode_utf8(bytes@),
{
    String::from_utf8(bytes).ok()
}

/// What decoding a payload under an encoding yields: `Ascii` is the identity;
/// `Hex` reads the payload as hex-digit text and the spelled bytes as UTF-8.
pub open spec fn decode_spec(e: Encoding, raw: Seq<char>) -> Result<Seq<char>, DecodeError> {
    match e {
        Encoding::Ascii => Ok(raw),
        Encoding::Hex => match hex_decode_spec(raw) {
            Option::None => Err(DecodeError::InvalidHex),
            Option::Some(bytes) => if valid_utf8(bytes) {
                Ok(decode_utf8(bytes))
            } else {
                Err(DecodeError::InvalidUtf8)
            },
        },
    }
}

impl Encoding {
    /// The numeric code each encoding is written as on an input line.
    pub open spec fn code_spec(self) -> u8 {
        match self {
            Encoding::Ascii => 0,
            Encoding::Hex => 1,
        }
    }

    /// Maps a numeric encoding code to its variant; codes other than 0 and 1
    /// name no encoding.
    pub fn from_code(code: u8) -> (r: Option<Encoding>)
        ensures
            r matches Some(e) ==> e.code_spec() == code,
            r is None <==> code > 1,
    {
        match code {
            0 => Some(Encoding::Ascii),
            1 => Some(Encoding::Hex),
            _ => None,
        }
    }

    /// Decodes a raw payload under this encoding.
    pub fn decode(&self, msg: String) -> (r: Result<String, DecodeError>)
        ensures
            r is Ok <==> decode_spec(*self, msg@) is Ok,
            r matches Ok(s) ==> s@ == decode_spec(*self, msg@)->Ok_0,
            r matches Err(e) ==> e == decode_spec(*self, msg@)->Err_0,
    {
        match self {
            Encoding::Ascii => Ok(msg),
            Encoding::Hex => match hex_decode(msg.as_str()) {
                Option::None => Err(DecodeError::InvalidHex),
                Option::Some(bytes) => match utf8_to_string(bytes) {
                    Option::None => Err(DecodeError::InvalidUtf8),
                    Option::Some(text) => Ok(text),
                },
            },
        }
    }
}

} // verus!
