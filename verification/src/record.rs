//! Parsing one input line into a structured record.
//!
//! A line is split on single spaces into tokens; the first five are, in
//! order: the pipeline id, the record's own id, the encoding code, the raw
//! payload, and the declared next id (`-1` for the chain-termination
//! sentinel).  Tokens past the fifth are ignored.

use vstd::prelude::*;
use vstd::string::StrSliceExecFns;
use crate::encoding::Encoding;

verus! {

/// Why a line could not be parsed into a record.
#[derive(Clone, Copy, Debug, PartialEq, Eq, Structural)]
pub enum ParseError {
    /// A token is missing, or a numeric token is not a number of the
    /// required integer type.
    MalformedRecord,
    /// The encoding code is a byte that names no encoding.
    UnknownEncoding,
    /// The next id is a number outside -1 ..= 255.
    InvalidNextId,
}

/// One parsed record, as one input line declares it.
#[derive(Debug)]
pub struct ParsedMessage {
    pub pipeline_id: u8,
    pub id: u8,
    pub encoding: Encoding,
    pub message: String,
    pub next_id: Option<u8>,
}

/// The mathematical image of a record: its payload as a character sequence.
#[verifier::ext_equal]
pub struct ParsedMessageView {
    pub pipeline_id: u8,
    pub id: u8,
    pub encoding: Encoding,
    pub message: Seq<char>,
    pub next_id: Option<u8>,
}

impl View for ParsedMessage {
    type V = ParsedMessageView;

    open spec fn view(&self) -> ParsedMessageView {
        ParsedMessageView {
            pipeline_id: self.pipeline_id,
            id: self.id,
            encoding: self.encoding,
            message: self.message@,
            next_id: self.next_id,
        }
    }
}

// ---------------------------------------------------------------------------
// Decimal numbers
// ---------------------------------------------------------------------------

pub open spec fn is_digit(c: char) -> bool {
    48 <= c as u32 <= 57
}

pub open spec fn digit_value(c: char) -> int
    recommends
        is_digit(c),
{
    c as u32 - 48
}

pub open spec fn all_digits(s: Seq<char>) -> bool {
    forall|i: int| 0 <= i < s.len() ==> is_digit(s[i])
}

/// The value a digit string denotes, most significant digit first.
pub open spec fn digits_value(s: Seq<char>) -> int
    recommends
        all_digits(s),
    decreases s.len(),
{
    if s.len() == 0 {
        0
    } else {
        digits_value(s.drop_last()) * 10 + digit_value(s.last())
    }
}

/// What `u8::from_str` accepts: an optional `+` sign, then one or more
/// decimal digits denoting a value up to 255.
pub open spec fn parse_u8_spec(s: Seq<char>) -> Option<u8> {
    let digits = if s.len() > 0 && s[0] == '+' {
        s.drop_first()
    } else {
        s
    };
    if digits.len() > 0 && all_digits(digits) && digits_value(digits) <= 255 {
        Some(digits_value(digits) as u8)
    } else {
        None
    }
}

/// What `i16::from_str` accepts: an optional sign, then one or more decimal
/// digits denoting a value in the type's range.
pub open spec fn parse_i16_spec(s: Seq<char>) -> Option<i16> {
    if s.len() > 0 && s[0] == '-' {
        let digits = s.drop_first();
        if digits.len() > 0 && all_digits(digits) && digits_value(digits) <= 32768 {
            Some((-digits_value(digits)) as i16)
        } else {
            None
        }
    } else {
        let digits = if s.len() > 0 && s[0] == '+' {
            s.drop_first()
        } else {
            s
        };
        if digits.len() > 0 && all_digits(digits) && digits_value(digits) <= 32767 {
            Some(digits_value(digits) as i16)
        } else {
            None
        }
    }
}

proof fn lemma_digits_value_nonneg(s: Seq<char>)
    requires
        all_digits(s),
    ensures
        digits_value(s) >= 0,
    decreases s.len(),
{
    if s.len() > 0 {
        assert(all_digits(s.drop_last()));
        lemma_digits_value_nonneg(s.drop_last());
    }
}

/// A digit string denotes at least what any of its prefixes denotes.
proof fn lemma_digits_value_prefix(s: Seq<char>, i: int)
    requires
        0 <= i <= s.len(),
        all_digits(s),
    ensures
        digits_value(s.take(i)) <= digits_value(s),
    decreases s.len(),
{
    if i < s.len() {
        assert(all_digits(s.drop_last()));
        assert(s.take(i) =~= s.drop_last().take(i));
        lemma_digits_value_prefix(s.drop_last(), i);
        lemma_digits_value_nonneg(s.drop_last());
    } else {
        assert(s.take(i) =~= s);
    }
}

/// Reads the decimal digits of `s` from position `start` on, failing on a
/// non-digit, on an empty digit string, and on a value above `bound`.
fn parse_digits(s: &str, start: usize, bound: u32) -> (r: Option<u32>)
    requires
        start <= s@.len(),
        bound <= 65535,
    ensures
        ({
            let digits = s@.skip(start as int);
            &&& r matches Some(v) ==> digits.len() > 0 && all_digits(digits) && v
                == digits_value(digits) && v <= bound
            &&& r is None ==> digits.len() == 0 || !all_digits(digits) || digits_value(digits)
                > bound
        }),
{
    let ghost digits = s@.skip(start as int);
    let n = s.unicode_len();
    if start >= n {
        return None;
    }
    let mut acc: u32 = 0;
    let mut i: usize = start;
    while i < n
        invariant
            start <= i <= n,
            n == s@.len(),
            start < n,
            bound <= 65535,
            digits == s@.skip(start as int),
            acc <= bound,
            acc == digits_value(digits.take(i - start)),
            all_digits(digits.take(i - start)),
        decreases n - i,
    {
        let c = s.get_char(i);
        let u = c as u32;
        if u < 48 || u > 57 {
            assert(!is_digit(digits[i - start]));
            return None;
        }
        let d: u32 = u - 48;
        proof {
            assert(digits.take(i + 1 - start).drop_last() =~= digits.take(i - start));
            assert(digits.take(i + 1 - start).last() == s@[i as int]);
            assert(all_digits(digits.take(i + 1 - start)));
        }
        acc = acc * 10 + d;
        if acc > bound {
            proof {
                if all_digits(digits) {
                    lemma_digits_value_prefix(digits, i + 1 - start);
                }
            }
            return None;
        }
        i = i + 1;
    }
    proof {
        assert(digits.take(n - start) =~= digits);
    }
    Some(acc)
}

/// Reads a token as `u8::from_str` does.
pub fn parse_u8_token(s: &str) -> (r: Option<u8>)
    ensures
        r == parse_u8_spec(s@),
{
    let n = s.unicode_len();
    let start: usize = if n > 0 && s.get_char(0) == '+' {
        1
    } else {
        0
    };
    proof {
        if n > 0 && s@[0] == '+' {
            assert(s@.skip(1) =~= s@.drop_first());
        } else {
            assert(s@.skip(0) =~= s@);
        }
    }
    match parse_digits(s, start, 255) {
        Some(v) => Some(v as u8),
        None => None,
    }
}

/// Reads a token as `i16::from_str` does.
pub fn parse_i16_token(s: &str) -> (r: Option<i16>)
    ensures
        r == parse_i16_spec(s@),
{
    let n = s.unicode_len();
    if n > 0 && s.get_char(0) == '-' {
        proof {
            assert(s@.skip(1) =~= s@.drop_first());
        }
        match parse_digits(s, 1, 32768) {
            Some(v) => Some((-(v as i32)) as i16),
            None => None,
        }
    } else {
        let start: usize = if n > 0 && s.get_char(0) == '+' {
            1
        } else {
            0
        };
        proof {
            if n > 0 && s@[0] == '+' {
                assert(s@.skip(1) =~= s@.drop_first());
            } else {
                assert(s@.skip(0) =~= s@);
            }
        }
        match parse_digits(s, start, 32767) {
            Some(v) => Some(v as i16),
            None => None,
        }
    }
}

// ---------------------------------------------------------------------------
// Splitting a line on single spaces
// ---------------------------------------------------------------------------

/// The position of the first space, or the length when there is none.
pub open spec fn first_space(s: Seq<char>) -> nat
    decreases s.len(),
{
    if s.len() == 0 {
        0
    } else if s[0] == ' ' {
        0
    } else {
        1 + first_space(s.drop_first())
    }
}

/// The tokens of a line, split on every single space; adjacent spaces
/// enclose an empty token, and the empty line is one empty token.
pub open spec fn split_spec(s: Seq<char>) -> Seq<Seq<char>>
    decreases s.len(),
{
    let i = first_space(s);
    if i >= s.len() {
        seq![s]
    } else {
        seq![s.take(i as int)] + split_spec(s.skip(i + 1 as int))
    }
}

/// `first_space` is the least position holding a space.
proof fn lemma_first_space_is(s: Seq<char>, k: int)
    requires
        0 <= k <= s.len(),
        forall|j: int| 0 <= j < k ==> s[j] != ' ',
        k < s.len() ==> s[k] == ' ',
    ensures
        first_space(s) == k,
    decreases s.len(),
{
    if s.len() == 0 {
    } else if s[0] == ' ' {
        assert(k == 0);
    } else {
        assert(k >= 1);
        let t = s.drop_first();
        assert(forall|j: int| 0 <= j < k - 1 ==> t[j] == s[j + 1] && t[j] != ' ');
        assert(k - 1 < t.len() ==> t[k - 1] == ' ');
        lemma_first_space_is(t, k - 1);
    }
}

/// Splits a line on single spaces into owned tokens.
fn split_line(line: &str) -> (toks: Vec<String>)
    ensures
        toks@.map_values(|t: String| t@) == split_spec(line@),
{
    let n = line.unicode_len();
    let mut toks: Vec<String> = Vec::new();
    let mut start: usize = 0;
    proof {
        assert(line@.skip(0) =~= line@);
        assert(toks@.map_values(|t: String| t@) =~= Seq::<Seq<char>>::empty());
    }
    loop
        invariant_except_break
            start <= n,
            n == line@.len(),
            split_spec(line@) =~= toks@.map_values(|t: String| t@) + split_spec(
                line@.skip(start as int),
            ),
        ensures
            toks@.map_values(|t: String| t@) =~= split_spec(line@),
        decreases n - start,
    {
        let ghost rest = line@.skip(start as int);
        let mut j: usize = start;
        while j < n && line.get_char(j) != ' '
            invariant
                start <= j <= n,
                n == line@.len(),
                forall|k: int| start <= k < j ==> line@[k] != ' ',
            decreases n - j,
        {
            j = j + 1;
        }
        proof {
            assert(forall|k: int| 0 <= k < j - start ==> rest[k] == line@[k + start] && rest[k]
                != ' ');
            if j < n {
                assert(rest[j - start] == line@[j as int]);
            }
            lemma_first_space_is(rest, j - start);
        }
        let tok = line.substring_char(start, j).to_owned();
        proof {
            assert(tok@ =~= rest.take(j - start));
        }
        let ghost prev_map = toks@.map_values(|t: String| t@);
        toks.push(tok);
        proof {
            assert(toks@.map_values(|t: String| t@) =~= prev_map.push(rest.take(j - start)));
        }
        if j == n {
            proof {
                assert(rest.take(j - start) =~= rest);
                assert(prev_map.push(rest) =~= prev_map + seq![rest]);
                assert(split_spec(rest) == seq![rest]);
            }
            break ;
        }
        proof {
            assert(split_spec(rest) == seq![rest.take(j - start)] + split_spec(
                rest.skip(j - start + 1),
            ));
            assert(line@.skip(j + 1) =~= rest.skip(j - start + 1));
            assert(prev_map.push(rest.take(j - start)) + split_spec(line@.skip(j + 1)) =~= prev_map
                + split_spec(rest));
        }
        start = j + 1;
    }
    toks
}

// ---------------------------------------------------------------------------
// The record parser
// ---------------------------------------------------------------------------

/// What parsing a line yields, following the token checks in order: the
/// pipeline id, the record id and the encoding code must read as bytes, the
/// encoding code must name an encoding, all five tokens must be present, and
/// the next id must read as a 16-bit integer in -1 ..= 255.
pub open spec fn parse_spec(s: Seq<char>) -> Result<ParsedMessageView, ParseError> {
    let toks = split_spec(s);
    if parse_u8_spec(toks[0]) is None {
        Err(ParseError::MalformedRecord)
    } else if toks.len() < 2 || parse_u8_spec(toks[1]) is None {
        Err(ParseError::MalformedRecord)
    } else if toks.len() < 3 || parse_u8_spec(toks[2]) is None {
        Err(ParseError::MalformedRecord)
    } else if parse_u8_spec(toks[2]).unwrap() > 1 {
        Err(ParseError::UnknownEncoding)
    } else if toks.len() < 5 {
        Err(ParseError::MalformedRecord)
    } else if parse_i16_spec(toks[4]) is None {
        Err(ParseError::MalformedRecord)
    } else {
        let next = parse_i16_spec(toks[4]).unwrap();
        if next < -1 || next > 255 {
            Err(ParseError::InvalidNextId)
        } else {
            Ok(
                ParsedMessageView {
                    pipeline_id: parse_u8_spec(toks[0]).unwrap(),
                    id: parse_u8_spec(toks[1]).unwrap(),
                    encoding: if parse_u8_spec(toks[2]).unwrap() == 0 {
                        Encoding::Ascii
                    } else {
                        Encoding::Hex
                    },
                    message: toks[3],
                    next_id: if next == -1 {
                        None
                    } else {
                        Some(next as u8)
                    },
                },
            )
        }
    }
}

impl ParsedMessage {
    /// Turns one input line into a record, or rejects it.
    pub fn parse(line: &str) -> (r: Result<ParsedMessage, ParseError>)
        ensures
            r is Ok <==> parse_spec(line@) is Ok,
            r matches Ok(m) ==> m@ == parse_spec(line@)->Ok_0,
            r matches Err(e) ==> e == parse_spec(line@)->Err_0,
    {
        let toks = split_line(line);
        proof {
            assert(split_spec(line@).len() >= 1);
        }
        let pipeline_id = match parse_u8_token(toks[0].as_str()) {
            Some(v) => v,
            None => {
                return Err(ParseError::MalformedRecord);
            },
        };
        if toks.len() < 2 {
            return Err(ParseError::MalformedRecord);
        }
        let id = match parse_u8_token(toks[1].as_str()) {
            Some(v) => v,
            None => {
                return Err(ParseError::MalformedRecord);
            },
        };
        if toks.len() < 3 {
            return Err(ParseError::MalformedRecord);
        }
        let code = match parse_u8_token(toks[2].as_str()) {
            Some(v) => v,
            None => {
                return Err(ParseError::MalformedRecord);
            },
        };
        let encoding = match Encoding::from_code(code) {
            Some(e) => e,
            None => {
                return Err(ParseError::UnknownEncoding);
            },
        };
        if toks.len() < 5 {
            return Err(ParseError::MalformedRecord);
        }
        let message = toks[3].clone();
        let next = match parse_i16_token(toks[4].as_str()) {
            Some(v) => v,
            None => {
                return Err(ParseError::MalformedRecord);
            },
        };
        let next_id: Option<u8> = if next == -1 {
            None
        } else if 0 <= next && next <= 255 {
            Some(next as u8)
        } else {
            return Err(ParseError::InvalidNextId);
        };
        let record = ParsedMessage { pipeline_id, id, encoding, message, next_id };
        proof {
            assert(record@ =~= parse_spec(line@)->Ok_0);
        }
        Ok(record)
    }
}

} // verus!
