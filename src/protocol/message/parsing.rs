//! Parsing values of a query result from their text or binary form.

use vstd::prelude::*;
use vstd::utf8::*;

use crate::util::{i32_at, utf8_str};

verus! {

/// Why a value could not be parsed.
#[derive(Debug, Clone, Copy, PartialEq, Eq, Structural)]
pub enum ParseError {
    /// The value is SQL `NULL`.
    Null,
    /// The bytes are not valid UTF-8.
    InvalidUtf8,
    /// The text is not a decimal integer in the range of the type.
    InvalidInteger,
    /// The binary form does not have the length of the type.
    InvalidLength,
}

/// A type that values of a query result can be parsed to, from the text
/// form and from the binary form.
pub trait FromSql: Sized + View {
    /// What the text form `text` parses to.
    spec fn text_value(text: Seq<u8>) -> Result<Self::V, ParseError>;

    /// What the binary form `binary` parses to.
    spec fn binary_value(binary: Seq<u8>) -> Result<Self::V, ParseError>;

    /// Parse a value from the text representation.
    fn from_text(text: &[u8]) -> (r: Result<Self, ParseError>)
        ensures
            match Self::text_value(text@) {
                Ok(v) => r matches Ok(x) && x@ == v,
                Err(e) => r == Err::<Self, ParseError>(e),
            },
    ;

    /// Parse a value from the binary representation.
    fn from_binary(binary: &[u8]) -> (r: Result<Self, ParseError>)
        ensures
            match Self::binary_value(binary@) {
                Ok(v) => r matches Ok(x) && x@ == v,
                Err(e) => r == Err::<Self, ParseError>(e),
            },
    ;
}

/// The string whose UTF-8 encoding is `bytes`, if there is one.
pub open spec fn utf8_value(bytes: Seq<u8>) -> Result<Seq<char>, ParseError> {
    if valid_utf8(bytes) {
        Ok(decode_utf8(bytes))
    } else {
        Err(ParseError::InvalidUtf8)
    }
}

/// Whether `b` is an ASCII decimal digit.
pub open spec fn is_digit(b: u8) -> bool {
    0x30 <= b <= 0x39
}

/// The number the ASCII decimal digits `s` spell.
pub open spec fn digits_value(s: Seq<u8>) -> int
    decreases s.len(),
{
    if s.len() == 0 {
        0
    } else {
        digits_value(s.drop_last()) * 10 + (s.last() - 0x30)
    }
}

/// Whether `s` starts with a `+` or `-` sign.
pub open spec fn has_sign(s: Seq<u8>) -> bool {
    s.len() > 0 && (s[0] == 0x2b || s[0] == 0x2d)
}

/// `s` without its sign, if it has one.
pub open spec fn unsigned_part(s: Seq<u8>) -> Seq<u8> {
    if has_sign(s) {
        s.drop_first()
    } else {
        s
    }
}

pub open spec fn all_digits(d: Seq<u8>) -> bool {
    forall|i: int| 0 <= i < d.len() ==> is_digit(#[trigger] d[i])
}

/// The number a decimal integer spells: an optional `+` or `-` and at least
/// one digit.
pub open spec fn decimal_value(s: Seq<u8>) -> Option<int> {
    let digits = unsigned_part(s);
    if digits.len() > 0 && all_digits(digits) {
        Some(
            if has_sign(s) && s[0] == 0x2d {
                -digits_value(digits)
            } else {
                digits_value(digits)
            },
        )
    } else {
        None
    }
}

impl FromSql for String {
    open spec fn text_value(text: Seq<u8>) -> Result<Seq<char>, ParseError> {
        utf8_value(text)
    }

    open spec fn binary_value(binary: Seq<u8>) -> Result<Seq<char>, ParseError> {
        utf8_value(binary)
    }

    fn from_text(text: &[u8]) -> (r: Result<Self, ParseError>) {
        string_of_utf8(text)
    }

    fn from_binary(binary: &[u8]) -> (r: Result<Self, ParseError>) {
        string_of_utf8(binary)
    }
}

fn string_of_utf8(bytes: &[u8]) -> (r: Result<String, ParseError>)
    ensures
        match utf8_value(bytes@) {
            Ok(v) => r matches Ok(x) && x@ == v,
            Err(e) => r == Err::<String, ParseError>(e),
        },
{
    match utf8_str(bytes) {
        Some(s) => {
            proof {
                encode_utf8_decode_utf8(s@);
            }
            Ok(s.to_owned())
        },
        None => Err(ParseError::InvalidUtf8),
    }
}

impl FromSql for i32 {
    /// Decimal text, as `i32::from_str` reads it.
    open spec fn text_value(text: Seq<u8>) -> Result<i32, ParseError> {
        match decimal_value(text) {
            Some(v) => if i32::MIN <= v <= i32::MAX {
                Ok(v as i32)
            } else {
                Err(ParseError::InvalidInteger)
            },
            None => Err(ParseError::InvalidInteger),
        }
    }

    /// Four bytes in big-endian (network) order.
    open spec fn binary_value(binary: Seq<u8>) -> Result<i32, ParseError> {
        if binary.len() == 4 {
            Ok(i32_at(binary, 0))
        } else {
            Err(ParseError::InvalidLength)
        }
    }

    fn from_text(text: &[u8]) -> (r: Result<Self, ParseError>) {
        parse_decimal_i32(text)
    }

    fn from_binary(binary: &[u8]) -> (r: Result<Self, ParseError>) {
        if binary.len() != 4 {
            return Err(ParseError::InvalidLength);
        }
        let mut reader = crate::util::Reader::new(binary);
        match reader.read_i32() {
            Ok(v) => Ok(v),
            Err(_) => Err(ParseError::InvalidLength),
        }
    }
}

/// One past the largest magnitude of an `i32` (that of `i32::MIN`).
const MAGNITUDE_LIMIT: u64 = 0x8000_0001;

fn parse_decimal_i32(text: &[u8]) -> (r: Result<i32, ParseError>)
    ensures
        match <i32 as FromSql>::text_value(text@) {
            Ok(v) => r == Ok::<i32, ParseError>(v),
            Err(e) => r == Err::<i32, ParseError>(e),
        },
{
    let ghost s = text@;
    let signed = text.len() > 0 && (text[0] == 0x2b || text[0] == 0x2d);
    let negative = signed && text[0] == 0x2d;
    let start: usize = if signed {
        1
    } else {
        0
    };
    let ghost digits = unsigned_part(s);
    assert(digits =~= s.subrange(start as int, s.len() as int));
    if text.len() == start {
        return Err(ParseError::InvalidInteger);
    }
    // `magnitude` is exact until it passes the limit, then it stays there.
    let mut magnitude: u64 = 0;
    let mut i: usize = start;
    while i < text.len()
        invariant
            start <= i <= text@.len(),
            s == text@,
            signed == has_sign(s),
            digits == unsigned_part(s),
            digits == s.subrange(start as int, s.len() as int),
            forall|k: int| 0 <= k < i - start ==> is_digit(#[trigger] digits[k]),
            magnitude <= MAGNITUDE_LIMIT,
            magnitude < MAGNITUDE_LIMIT ==> magnitude == digits_value(
                digits.take(i - start),
            ),
            magnitude == MAGNITUDE_LIMIT ==> digits_value(digits.take(i - start))
                >= MAGNITUDE_LIMIT,
        decreases text@.len() - i,
    {
        let c = text[i];
        if c < 0x30 || c > 0x39 {
            assert(!is_digit(digits[i - start]));
            return Err(ParseError::InvalidInteger);
        }
        let d = (c - 0x30) as u64;
        assert(digits.take(i + 1 - start).drop_last() =~= digits.take(i - start));
        if magnitude >= MAGNITUDE_LIMIT {
            magnitude = MAGNITUDE_LIMIT;
        } else {
            let next = magnitude * 10 + d;
            magnitude = if next >= MAGNITUDE_LIMIT {
                MAGNITUDE_LIMIT
            } else {
                next
            };
        }
        i = i + 1;
    }
    assert(digits.take(i - start) =~= digits);
    assert(decimal_value(s) == Some(
        if negative {
            -digits_value(digits)
        } else {
            digits_value(digits)
        },
    ));
    if negative {
        if magnitude == MAGNITUDE_LIMIT {
            Err(ParseError::InvalidInteger)
        } else if magnitude == 0x8000_0000 {
            Ok(i32::MIN)
        } else {
            Ok(-(magnitude as i32))
        }
    } else if magnitude >= 0x8000_0000 {
        Err(ParseError::InvalidInteger)
    } else {
        Ok(magnitude as i32)
    }
}

} // verus!
