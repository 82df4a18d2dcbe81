//! A recursive-descent JSON parser for grammar, theme and protocol files,
//! working on the bytes of the text. A number is kept as the text that
//! spells it.
use vstd::prelude::*;
use vstd::string::StringSliceAdditionalSpecFns;
use vstd::utf8::is_scalar;
use crate::syntax::regex::{char_len, char_len_exec, byte_offset, lemma_byte_offset_mono};
use crate::syntax::compile::{decode_at, peek};
use crate::text::{chars_of, push_char, push_str_chars, push_dec_chars, string_from_chars, dec_chars};
use crate::strs::digits_value;

verus! {

// ── Values ────────────────────────────────────────────────────

#[derive(Debug)]
pub enum JsonValue {
    Null,
    Bool(bool),
    /// The number as written.
    Number(String),
    String(String),
    Array(Vec<JsonValue>),
    Object(Vec<(String, JsonValue)>),
}

/// A JSON value as a mathematical value.
pub enum JsonModel {
    Null,
    Bool(bool),
    Number(Seq<char>),
    Str(Seq<char>),
    Array(Seq<JsonModel>),
    Object(Seq<(Seq<char>, JsonModel)>),
}

pub open spec fn json_view(v: JsonValue) -> JsonModel
    decreases v,
{
    match v {
        JsonValue::Null => JsonModel::Null,
        JsonValue::Bool(b) => JsonModel::Bool(b),
        JsonValue::Number(s) => JsonModel::Number(s@),
        JsonValue::String(s) => JsonModel::Str(s@),
        JsonValue::Array(a) => JsonModel::Array(items_view(a@)),
        JsonValue::Object(o) => JsonModel::Object(pairs_view(o@)),
    }
}

pub open spec fn items_view(s: Seq<JsonValue>) -> Seq<JsonModel>
    decreases s,
{
    if s.len() == 0 {
        Seq::empty()
    } else {
        items_view(s.drop_last()).push(json_view(s.last()))
    }
}

pub open spec fn pairs_view(s: Seq<(String, JsonValue)>) -> Seq<(Seq<char>, JsonModel)>
    decreases s,
{
    if s.len() == 0 {
        Seq::empty()
    } else {
        proof {
            assert(decreases_to!(s => s[s.len() - 1]));
        }
        pairs_view(s.drop_last()).push((s.last().0@, json_view(s.last().1)))
    }
}

// ── Errors ────────────────────────────────────────────────────

#[derive(Debug, Clone, Copy, PartialEq, Eq, Structural)]
pub enum JsonError {
    TrailingContent(usize),
    Expected(usize, u8, u8),
    ExpectedAtEof(usize, u8),
    UnexpectedChar(usize, u8),
    UnexpectedEof(usize),
    InvalidToken(usize),
    ExpectedDigit(usize),
    DigitAfterPoint(usize),
    DigitInExponent(usize),
    UnterminatedString(usize),
    InvalidEscape(usize, u8),
    EofInEscape(usize),
    InvalidSurrogatePair(usize),
    ExpectedLowSurrogate(usize),
    UnexpectedLowSurrogate(usize),
    InvalidCodepoint(usize),
    EofInUnicodeEscape(usize),
    InvalidHexDigit(usize, u8),
    InvalidUtf8(usize),
    ExpectedCommaOrBracket(usize),
    ExpectedStringKey(usize),
    ExpectedCommaOrBrace(usize),
}

/// The message of an error: "JSON error at byte <offset>: <what>".
pub open spec fn json_error_message(e: JsonError) -> Seq<char> {
    let (pos, what) = match e {
        JsonError::TrailingContent(p) => (p, "unexpected trailing content"@),
        JsonError::Expected(p, x, b) => (p, "expected '"@ + seq![x as char] + "', found '"@ + seq![b as char] + "'"@),
        JsonError::ExpectedAtEof(p, x) => (p, "expected '"@ + seq![x as char] + "', found EOF"@),
        JsonError::UnexpectedChar(p, b) => (p, "unexpected character '"@ + seq![b as char] + "'"@),
        JsonError::UnexpectedEof(p) => (p, "unexpected EOF"@),
        JsonError::InvalidToken(p) => (p, "invalid token"@),
        JsonError::ExpectedDigit(p) => (p, "expected digit"@),
        JsonError::DigitAfterPoint(p) => (p, "expected digit after decimal point"@),
        JsonError::DigitInExponent(p) => (p, "expected digit in exponent"@),
        JsonError::UnterminatedString(p) => (p, "unterminated string"@),
        JsonError::InvalidEscape(p, b) => (p, "invalid escape '\\"@ + seq![b as char] + "'"@),
        JsonError::EofInEscape(p) => (p, "unexpected EOF in escape"@),
        JsonError::InvalidSurrogatePair(p) => (p, "invalid surrogate pair"@),
        JsonError::ExpectedLowSurrogate(p) => (p, "expected low surrogate after high surrogate"@),
        JsonError::UnexpectedLowSurrogate(p) => (p, "unexpected low surrogate"@),
        JsonError::InvalidCodepoint(p) => (p, "invalid unicode codepoint"@),
        JsonError::EofInUnicodeEscape(p) => (p, "unexpected EOF in unicode escape"@),
        JsonError::InvalidHexDigit(p, b) => (p, "invalid hex digit '"@ + seq![b as char] + "'"@),
        JsonError::InvalidUtf8(p) => (p, "invalid UTF-8"@),
        JsonError::ExpectedCommaOrBracket(p) => (p, "expected ',' or ']'"@),
        JsonError::ExpectedStringKey(p) => (p, "expected string key"@),
        JsonError::ExpectedCommaOrBrace(p) => (p, "expected ',' or '}'"@),
    };
    "JSON error at byte "@ + dec_chars(pos as nat) + ": "@ + what
}

// ── The grammar ───────────────────────────────────────────────

pub open spec fn is_ws(b: u8) -> bool {
    b == 0x20 || b == 0x09 || b == 0x0a || b == 0x0d
}

pub open spec fn is_digit(b: u8) -> bool {
    0x30 <= b <= 0x39
}

/// Past the white space at `q`.
pub open spec fn ws(p: Seq<u8>, q: int) -> int
    decreases p.len() - q,
{
    if 0 <= q < p.len() && is_ws(p[q]) {
        ws(p, q + 1)
    } else {
        q
    }
}

/// Past the digits at `q`.
pub open spec fn digits(p: Seq<u8>, q: int) -> int
    decreases p.len() - q,
{
    if 0 <= q < p.len() && is_digit(p[q]) {
        digits(p, q + 1)
    } else {
        q
    }
}

/// The byte `x` expected at `q`: the position after it.
pub open spec fn expect_byte(p: Seq<u8>, q: int, x: u8) -> Result<int, JsonError> {
    match peek(p, q) {
        Some(b) => if b == x {
            Ok(q + 1)
        } else {
            Err(JsonError::Expected(q as usize, x, b))
        },
        None => Err(JsonError::ExpectedAtEof(q as usize, x)),
    }
}

/// The literal `word` at `q`.
pub open spec fn literal(p: Seq<u8>, q: int, word: Seq<u8>, v: JsonModel) -> Result<(JsonModel, int), JsonError> {
    if 0 <= q && q + word.len() <= p.len() && p.subrange(q, q + word.len()) == word {
        Ok((v, q + word.len()))
    } else {
        Err(JsonError::InvalidToken(q as usize))
    }
}

/// A number at `q`: an optional minus, `0` or digits not starting with
/// `0`, an optional fraction and an optional exponent.
pub open spec fn spec_number(p: Seq<u8>, q: int) -> Result<(JsonModel, int), JsonError> {
    let q1 = if peek(p, q) == Some(0x2du8) { q + 1 } else { q };
    let int_end: Result<int, JsonError> = match peek(p, q1) {
        Some(b) => if b == 0x30 {
            Ok(q1 + 1)
        } else if 0x31 <= b <= 0x39 {
            Ok(digits(p, q1 + 1))
        } else {
            Err(JsonError::ExpectedDigit(q1 as usize))
        },
        None => Err(JsonError::ExpectedDigit(q1 as usize)),
    };
    match int_end {
        Err(e) => Err(e),
        Ok(q2) => {
            let frac: Result<int, JsonError> = if peek(p, q2) == Some(0x2eu8) {
                match peek(p, q2 + 1) {
                    Some(b) => if is_digit(b) {
                        Ok(digits(p, q2 + 1))
                    } else {
                        Err(JsonError::DigitAfterPoint((q2 + 1) as usize))
                    },
                    None => Err(JsonError::DigitAfterPoint((q2 + 1) as usize)),
                }
            } else {
                Ok(q2)
            };
            match frac {
                Err(e) => Err(e),
                Ok(q3) => {
                    let is_e = peek(p, q3) == Some(0x65u8) || peek(p, q3) == Some(0x45u8);
                    let exp: Result<int, JsonError> = if is_e {
                        let q4 = if peek(p, q3 + 1) == Some(0x2bu8) || peek(p, q3 + 1) == Some(0x2du8) {
                            q3 + 2
                        } else {
                            q3 + 1
                        };
                        match peek(p, q4) {
                            Some(b) => if is_digit(b) {
                                Ok(digits(p, q4))
                            } else {
                                Err(JsonError::DigitInExponent(q4 as usize))
                            },
                            None => Err(JsonError::DigitInExponent(q4 as usize)),
                        }
                    } else {
                        Ok(q3)
                    };
                    match exp {
                        Err(e) => Err(e),
                        Ok(q5) => Ok((JsonModel::Number(ascii_chars(p.subrange(q, q5))), q5)),
                    }
                },
            }
        },
    }
}

/// Bytes read as characters one by one.
pub open spec fn ascii_chars(b: Seq<u8>) -> Seq<char> {
    b.map_values(|x: u8| x as char)
}

pub open spec fn hex_value(b: u8) -> Option<u32> {
    if 0x30 <= b <= 0x39 {
        Some((b - 0x30) as u32)
    } else if 0x61 <= b <= 0x66 {
        Some((b - 0x61 + 10) as u32)
    } else if 0x41 <= b <= 0x46 {
        Some((b - 0x41 + 10) as u32)
    } else {
        None
    }
}

/// `n` more hex digits at `q`, after the value `acc` so far.
pub open spec fn hex_digits(p: Seq<u8>, q: int, n: nat, acc: u32) -> Result<(u32, int), JsonError>
    decreases n,
{
    if n == 0 {
        Ok((acc, q))
    } else {
        match peek(p, q) {
            None => Err(JsonError::EofInUnicodeEscape(q as usize)),
            Some(b) => match hex_value(b) {
                None => Err(JsonError::InvalidHexDigit(q as usize, b)),
                Some(d) => hex_digits(p, q + 1, (n - 1) as nat, (acc * 16 + d) as u32),
            },
        }
    }
}

/// The character with scalar value `u`, if it is one.
pub open spec fn char_of(u: u32) -> Option<char> {
    if is_scalar(u) {
        Some(u as char)
    } else {
        None
    }
}

/// `\u` escapes from `q` (just past `\u`): one character, or a high and a
/// low surrogate making one.
pub open spec fn unicode_escape(p: Seq<u8>, q: int) -> Result<(char, int), JsonError> {
    match hex_digits(p, q, 4, 0) {
        Err(e) => Err(e),
        Ok((code, q1)) => if 0xD800 <= code <= 0xDBFF {
            if peek(p, q1) == Some(0x5cu8) && peek(p, q1 + 1) == Some(0x75u8) {
                match hex_digits(p, q1 + 2, 4, 0) {
                    Err(e) => Err(e),
                    Ok((low, q2)) => if 0xDC00 <= low <= 0xDFFF {
                        match char_of((0x10000 + (code - 0xD800) * 1024 + (low - 0xDC00)) as u32) {
                            Some(c) => Ok((c, q2)),
                            None => Err(JsonError::InvalidSurrogatePair(q1 as usize)),
                        }
                    } else {
                        Err(JsonError::ExpectedLowSurrogate(q1 as usize))
                    },
                }
            } else {
                Err(JsonError::ExpectedLowSurrogate(q1 as usize))
            }
        } else if 0xDC00 <= code <= 0xDFFF {
            Err(JsonError::UnexpectedLowSurrogate(q1 as usize))
        } else {
            match char_of(code) {
                Some(c) => Ok((c, q1)),
                None => Err(JsonError::InvalidCodepoint(q1 as usize)),
            }
        },
    }
}

/// An escape at `q` (just past the backslash).
pub open spec fn escape(p: Seq<u8>, q: int) -> Result<(char, int), JsonError> {
    match peek(p, q) {
        None => Err(JsonError::EofInEscape(q as usize)),
        Some(b) => if b == 0x22 {
            Ok(('"', q + 1))
        } else if b == 0x5c {
            Ok(('\\', q + 1))
        } else if b == 0x2f {
            Ok(('/', q + 1))
        } else if b == 0x6e {
            Ok(('\n', q + 1))
        } else if b == 0x74 {
            Ok(('\t', q + 1))
        } else if b == 0x72 {
            Ok(('\r', q + 1))
        } else if b == 0x62 {
            Ok(('\u{8}', q + 1))
        } else if b == 0x66 {
            Ok(('\u{c}', q + 1))
        } else if b == 0x75 {
            unicode_escape(p, q + 1)
        } else {
            Err(JsonError::InvalidEscape(q as usize, b))
        },
    }
}

/// The rest of a string from `q`, after the characters `acc`.
pub open spec fn string_rest(p: Seq<u8>, cs: Seq<char>, q: int, acc: Seq<char>) -> Result<(Seq<char>, int), JsonError>
    decreases p.len() - q,
{
    match peek(p, q) {
        None => Err(JsonError::UnterminatedString(q as usize)),
        Some(b) => if b == 0x22 {
            Ok((acc, q + 1))
        } else if b == 0x5c {
            match escape(p, q + 1) {
                Err(e) => Err(e),
                // Escapes move forward within the text.
                Ok((c, q1)) => if q < q1 <= p.len() {
                    string_rest(p, cs, q1, acc.push(c))
                } else {
                    Ok((acc.push(c), q1))
                },
            }
        } else if b >= 0x80 {
            match decode_at(cs, q) {
                None => Err(JsonError::InvalidUtf8(q as usize)),
                Some(c) => if q + char_len(c) <= p.len() {
                    string_rest(p, cs, q + char_len(c), acc.push(c))
                } else {
                    Ok((acc.push(c), q + char_len(c)))
                },
            }
        } else {
            string_rest(p, cs, q + 1, acc.push(b as char))
        },
    }
}

/// A string at `q`.
pub open spec fn spec_string(p: Seq<u8>, cs: Seq<char>, q: int) -> Result<(Seq<char>, int), JsonError> {
    match expect_byte(p, q, 0x22) {
        Err(e) => Err(e),
        Ok(q1) => string_rest(p, cs, q1, Seq::empty()),
    }
}

/// A value at `q`.
pub open spec fn spec_value(p: Seq<u8>, cs: Seq<char>, q: int) -> Result<(JsonModel, int), JsonError>
    decreases p.len() + 1 - q, 3int, 0int,
{
    match peek(p, q) {
        None => Err(JsonError::UnexpectedEof(q as usize)),
        Some(b) => if b == 0x22 {
            match spec_string(p, cs, q) {
                Err(e) => Err(e),
                Ok((s, q1)) => Ok((JsonModel::Str(s), q1)),
            }
        } else if b == 0x7b {
            spec_object(p, cs, q)
        } else if b == 0x5b {
            spec_array(p, cs, q)
        } else if b == 0x74 {
            literal(p, q, seq![0x74u8, 0x72u8, 0x75u8, 0x65u8], JsonModel::Bool(true))
        } else if b == 0x66 {
            literal(p, q, seq![0x66u8, 0x61u8, 0x6cu8, 0x73u8, 0x65u8], JsonModel::Bool(false))
        } else if b == 0x6e {
            literal(p, q, seq![0x6eu8, 0x75u8, 0x6cu8, 0x6cu8], JsonModel::Null)
        } else if b == 0x2d || is_digit(b) {
            spec_number(p, q)
        } else {
            Err(JsonError::UnexpectedChar(q as usize, b))
        },
    }
}

/// An array at its `[`.
pub open spec fn spec_array(p: Seq<u8>, cs: Seq<char>, q: int) -> Result<(JsonModel, int), JsonError>
    decreases p.len() + 1 - q, 2int, 0int,
{
    if !(0 <= q < p.len()) {
        Err(JsonError::UnexpectedEof(q as usize))
    } else {
        let q1 = ws(p, q + 1);
        if peek(p, q1) == Some(0x5du8) {
            Ok((JsonModel::Array(Seq::empty()), q1 + 1))
        } else {
            array_items(p, cs, q1, Seq::empty(), q)
        }
    }
}

/// The items of an array opened at `p0`, from `q`.
pub open spec fn array_items(p: Seq<u8>, cs: Seq<char>, q: int, items: Seq<JsonModel>, p0: int) -> Result<
    (JsonModel, int),
    JsonError,
>
    decreases p.len() + 1 - p0, 1int, p.len() + 1 - q,
{
    let q1 = ws(p, q);
    if !(p0 < q && q <= q1 && q1 <= p.len()) {
        // Items lie past the bracket, within the text.
        Err(JsonError::UnexpectedEof(q as usize))
    } else {
        match spec_value(p, cs, q1) {
            Err(e) => Err(e),
            Ok((v, q2)) => {
                let q3 = ws(p, q2);
                if !(q1 < q2 && q2 <= q3 && q3 <= p.len()) {
                    Ok((JsonModel::Array(items.push(v)), q3))
                } else {
                    match peek(p, q3) {
                        Some(b) => if b == 0x2c {
                            array_items(p, cs, q3 + 1, items.push(v), p0)
                        } else if b == 0x5d {
                            Ok((JsonModel::Array(items.push(v)), q3 + 1))
                        } else {
                            Err(JsonError::ExpectedCommaOrBracket(q3 as usize))
                        },
                        None => Err(JsonError::ExpectedCommaOrBracket(q3 as usize)),
                    }
                }
            },
        }
    }
}

/// An object at its `{`.
pub open spec fn spec_object(p: Seq<u8>, cs: Seq<char>, q: int) -> Result<(JsonModel, int), JsonError>
    decreases p.len() + 1 - q, 2int, 0int,
{
    if !(0 <= q < p.len()) {
        Err(JsonError::UnexpectedEof(q as usize))
    } else {
        let q1 = ws(p, q + 1);
        if peek(p, q1) == Some(0x7du8) {
            Ok((JsonModel::Object(Seq::empty()), q1 + 1))
        } else {
            object_members(p, cs, q1, Seq::empty(), q)
        }
    }
}

/// The members of an object opened at `p0`, from `q`.
pub open spec fn object_members(
    p: Seq<u8>,
    cs: Seq<char>,
    q: int,
    pairs: Seq<(Seq<char>, JsonModel)>,
    p0: int,
) -> Result<(JsonModel, int), JsonError>
    decreases p.len() + 1 - p0, 1int, p.len() + 1 - q,
{
    let q1 = ws(p, q);
    if !(p0 < q && q <= q1 && q1 <= p.len()) {
        Err(JsonError::UnexpectedEof(q as usize))
    } else if peek(p, q1) != Some(0x22u8) {
        Err(JsonError::ExpectedStringKey(q1 as usize))
    } else {
        match spec_string(p, cs, q1) {
            Err(e) => Err(e),
            Ok((k, q2)) => match expect_byte(p, ws(p, q2), 0x3a) {
                Err(e) => Err(e),
                Ok(q3) => {
                    let q4 = ws(p, q3);
                    if !(q1 < q4 && q4 <= p.len()) {
                        Err(JsonError::UnexpectedEof(q4 as usize))
                    } else {
                        match spec_value(p, cs, q4) {
                            Err(e) => Err(e),
                            Ok((v, q5)) => {
                                let q6 = ws(p, q5);
                                if !(q4 < q5 && q5 <= q6 && q6 <= p.len()) {
                                    Ok((JsonModel::Object(pairs.push((k, v))), q6))
                                } else {
                                    match peek(p, q6) {
                                        Some(b) => if b == 0x2c {
                                            object_members(p, cs, q6 + 1, pairs.push((k, v)), p0)
                                        } else if b == 0x7d {
                                            Ok((JsonModel::Object(pairs.push((k, v))), q6 + 1))
                                        } else {
                                            Err(JsonError::ExpectedCommaOrBrace(q6 as usize))
                                        },
                                        None => Err(JsonError::ExpectedCommaOrBrace(q6 as usize)),
                                    }
                                }
                            },
                        }
                    }
                },
            },
        }
    }
}

/// A whole text: one value between white space.
pub open spec fn spec_parse(p: Seq<u8>, cs: Seq<char>) -> Result<JsonModel, JsonError> {
    match spec_value(p, cs, ws(p, 0)) {
        Err(e) => Err(e),
        Ok((v, q)) => if ws(p, q) < p.len() {
            Err(JsonError::TrailingContent(ws(p, q) as usize))
        } else {
            Ok(v)
        },
    }
}


// ── The parser ────────────────────────────────────────────────

/// Trusted: `char::from_u32` gives the character with scalar value `u`,
/// or None for a surrogate or a value above `0x10FFFF`.
#[verifier::external_body]
fn char_from_u32(u: u32) -> (r: Option<char>)
    ensures
        r == char_of(u),
{
    char::from_u32(u)
}

/// The message of an error.
pub fn json_error_string(e: JsonError) -> (s: String)
    ensures
        s@ == json_error_message(e),
{
    let mut v: Vec<char> = Vec::new();
    push_str_chars(&mut v, "JSON error at byte ");
    let pos = match e {
        JsonError::TrailingContent(p) => p,
        JsonError::Expected(p, _, _) => p,
        JsonError::ExpectedAtEof(p, _) => p,
        JsonError::UnexpectedChar(p, _) => p,
        JsonError::UnexpectedEof(p) => p,
        JsonError::InvalidToken(p) => p,
        JsonError::ExpectedDigit(p) => p,
        JsonError::DigitAfterPoint(p) => p,
        JsonError::DigitInExponent(p) => p,
        JsonError::UnterminatedString(p) => p,
        JsonError::InvalidEscape(p, _) => p,
        JsonError::EofInEscape(p) => p,
        JsonError::InvalidSurrogatePair(p) => p,
        JsonError::ExpectedLowSurrogate(p) => p,
        JsonError::UnexpectedLowSurrogate(p) => p,
        JsonError::InvalidCodepoint(p) => p,
        JsonError::EofInUnicodeEscape(p) => p,
        JsonError::InvalidHexDigit(p, _) => p,
        JsonError::InvalidUtf8(p) => p,
        JsonError::ExpectedCommaOrBracket(p) => p,
        JsonError::ExpectedStringKey(p) => p,
        JsonError::ExpectedCommaOrBrace(p) => p,
    };
    push_dec_chars(&mut v, pos);
    push_str_chars(&mut v, ": ");
    match e {
        JsonError::TrailingContent(_) => push_str_chars(&mut v, "unexpected trailing content"),
        JsonError::Expected(_, x, b) => {
            push_str_chars(&mut v, "expected '");
            v.push(x as char);
            push_str_chars(&mut v, "', found '");
            v.push(b as char);
            push_str_chars(&mut v, "'");
        },
        JsonError::ExpectedAtEof(_, x) => {
            push_str_chars(&mut v, "expected '");
            v.push(x as char);
            push_str_chars(&mut v, "', found EOF");
        },
        JsonError::UnexpectedChar(_, b) => {
            push_str_chars(&mut v, "unexpected character '");
            v.push(b as char);
            push_str_chars(&mut v, "'");
        },
        JsonError::UnexpectedEof(_) => push_str_chars(&mut v, "unexpected EOF"),
        JsonError::InvalidToken(_) => push_str_chars(&mut v, "invalid token"),
        JsonError::ExpectedDigit(_) => push_str_chars(&mut v, "expected digit"),
        JsonError::DigitAfterPoint(_) => push_str_chars(&mut v, "expected digit after decimal point"),
        JsonError::DigitInExponent(_) => push_str_chars(&mut v, "expected digit in exponent"),
        JsonError::UnterminatedString(_) => push_str_chars(&mut v, "unterminated string"),
        JsonError::InvalidEscape(_, b) => {
            push_str_chars(&mut v, "invalid escape '\\");
            v.push(b as char);
            push_str_chars(&mut v, "'");
        },
        JsonError::EofInEscape(_) => push_str_chars(&mut v, "unexpected EOF in escape"),
        JsonError::InvalidSurrogatePair(_) => push_str_chars(&mut v, "invalid surrogate pair"),
        JsonError::ExpectedLowSurrogate(_) => push_str_chars(
            &mut v,
            "expected low surrogate after high surrogate",
        ),
        JsonError::UnexpectedLowSurrogate(_) => push_str_chars(&mut v, "unexpected low surrogate"),
        JsonError::InvalidCodepoint(_) => push_str_chars(&mut v, "invalid unicode codepoint"),
        JsonError::EofInUnicodeEscape(_) => push_str_chars(&mut v, "unexpected EOF in unicode escape"),
        JsonError::InvalidHexDigit(_, b) => {
            push_str_chars(&mut v, "invalid hex digit '");
            v.push(b as char);
            push_str_chars(&mut v, "'");
        },
        JsonError::InvalidUtf8(_) => push_str_chars(&mut v, "invalid UTF-8"),
        JsonError::ExpectedCommaOrBracket(_) => push_str_chars(&mut v, "expected ',' or ']'"),
        JsonError::ExpectedStringKey(_) => push_str_chars(&mut v, "expected string key"),
        JsonError::ExpectedCommaOrBrace(_) => push_str_chars(&mut v, "expected ',' or '}'"),
    }
    let s = string_from_chars(v.as_slice());
    assert(s@ =~= json_error_message(e));
    s
}

struct Input<'a> {
    bytes: &'a [u8],
    chars: Vec<char>,
    offs: Vec<usize>,
}

impl<'a> Input<'a> {
    spec fn ok(&self) -> bool {
        &&& self.bytes@.len() <= usize::MAX / 2
        &&& self.offs@.len() == self.chars@.len() + 1
        &&& forall|k: int| 0 <= k <= self.chars@.len() ==> self.offs@[k] == byte_offset(self.chars@, k)
        &&& self.offs@[self.chars@.len() as int] == self.bytes@.len()
    }

    fn at(&self, q: usize) -> (r: Option<u8>)
        ensures
            r == peek(self.bytes@, q as int),
    {
        if q < self.bytes.len() {
            Some(self.bytes[q])
        } else {
            None
        }
    }

    fn ws(&self, q: usize) -> (r: usize)
        requires
            q <= self.bytes@.len(),
        ensures
            r == ws(self.bytes@, q as int),
            q <= r <= self.bytes@.len(),
    {
        let mut k = q;
        while k < self.bytes.len() && (self.bytes[k] == 0x20 || self.bytes[k] == 0x09 || self.bytes[k]
            == 0x0a || self.bytes[k] == 0x0d)
            invariant
                q <= k <= self.bytes@.len(),
                ws(self.bytes@, k as int) == ws(self.bytes@, q as int),
            decreases self.bytes@.len() - k,
        {
            k = k + 1;
        }
        k
    }

    fn digits(&self, q: usize) -> (r: usize)
        requires
            q <= self.bytes@.len(),
        ensures
            r == digits(self.bytes@, q as int),
            q <= r <= self.bytes@.len(),
    {
        let mut k = q;
        while k < self.bytes.len() && 0x30 <= self.bytes[k] && self.bytes[k] <= 0x39
            invariant
                q <= k <= self.bytes@.len(),
                digits(self.bytes@, k as int) == digits(self.bytes@, q as int),
            decreases self.bytes@.len() - k,
        {
            k = k + 1;
        }
        k
    }

    fn expect(&self, q: usize, x: u8) -> (r: Result<usize, JsonError>)
        requires
            self.ok(),
            q <= self.bytes@.len(),
        ensures
            match r {
                Ok(q1) => expect_byte(self.bytes@, q as int, x) == Ok::<int, JsonError>(q1 as int) && q1
                    == q + 1 && q1 <= self.bytes@.len(),
                Err(e) => expect_byte(self.bytes@, q as int, x) == Err::<int, JsonError>(e),
            },
    {
        match self.at(q) {
            Some(b) => if b == x {
                Ok(q + 1)
            } else {
                Err(JsonError::Expected(q, x, b))
            },
            None => Err(JsonError::ExpectedAtEof(q, x)),
        }
    }

    fn literal(&self, q: usize, word: &[u8], v: JsonValue) -> (r: Result<(JsonValue, usize), JsonError>)
        requires
            self.ok(),
            q <= self.bytes@.len(),
            word@.len() > 0,
        ensures
            match r {
                Ok((w, q1)) => literal(self.bytes@, q as int, word@, json_view(v)) == Ok::<
                    (JsonModel, int),
                    JsonError,
                >((json_view(w), q1 as int)) && q < q1 <= self.bytes@.len(),
                Err(e) => literal(self.bytes@, q as int, word@, json_view(v)) == Err::<
                    (JsonModel, int),
                    JsonError,
                >(e),
            },
    {
        if word.len() > self.bytes.len() - q {
            return Err(JsonError::InvalidToken(q));
        }
        let mut i: usize = 0;
        while i < word.len()
            invariant
                i <= word@.len(),
                q + word@.len() <= self.bytes@.len(),
                self.bytes@.len() <= usize::MAX / 2,
                self.bytes@.subrange(q as int, q + i) == word@.take(i as int),
            decreases word@.len() - i,
        {
            if self.bytes[q + i] != word[i] {
                proof {
                    assert(self.bytes@.subrange(q as int, q + word@.len())[i as int] != word@[i as int]);
                }
                return Err(JsonError::InvalidToken(q));
            }
            proof {
                assert(self.bytes@.subrange(q as int, q + i + 1) =~= self.bytes@.subrange(q as int, q + i).push(
                    self.bytes@[q + i],
                ));
                assert(word@.take(i + 1) =~= word@.take(i as int).push(word@[i as int]));
            }
            i = i + 1;
        }
        proof {
            assert(word@.take(word@.len() as int) =~= word@);
        }
        Ok((v, q + word.len()))
    }
}


impl<'a> Input<'a> {
    fn number(&self, q: usize) -> (r: Result<(JsonValue, usize), JsonError>)
        requires
            self.ok(),
            q < self.bytes@.len(),
        ensures
            match r {
                Ok((v, q1)) => spec_number(self.bytes@, q as int) == Ok::<(JsonModel, int), JsonError>(
                    (json_view(v), q1 as int),
                ) && q < q1 <= self.bytes@.len(),
                Err(e) => spec_number(self.bytes@, q as int) == Err::<(JsonModel, int), JsonError>(e),
            },
    {
        let ghost p = self.bytes@;
        let mut k = q;
        match self.at(k) {
            Some(b) => if b == 0x2d {
                k = k + 1;
            },
            None => {},
        }
        match self.at(k) {
            Some(b) => if b == 0x30 {
                k = k + 1;
            } else if 0x31 <= b && b <= 0x39 {
                k = self.digits(k + 1);
            } else {
                return Err(JsonError::ExpectedDigit(k));
            },
            None => {
                return Err(JsonError::ExpectedDigit(k));
            },
        }
        let is_point = match self.at(k) {
            Some(b) => b == 0x2e,
            None => false,
        };
        if is_point {
            match self.at(k + 1) {
                Some(b) => if 0x30 <= b && b <= 0x39 {
                    k = self.digits(k + 1);
                } else {
                    return Err(JsonError::DigitAfterPoint(k + 1));
                },
                None => {
                    return Err(JsonError::DigitAfterPoint(k + 1));
                },
            }
        }
        let is_e = match self.at(k) {
            Some(b) => b == 0x65 || b == 0x45,
            None => false,
        };
        if is_e {
            let signed = match self.at(k + 1) {
                Some(b) => b == 0x2b || b == 0x2d,
                None => false,
            };
            let k4 = if signed {
                k + 2
            } else {
                k + 1
            };
            match self.at(k4) {
                Some(b) => if 0x30 <= b && b <= 0x39 {
                    k = self.digits(k4);
                } else {
                    return Err(JsonError::DigitInExponent(k4));
                },
                None => {
                    return Err(JsonError::DigitInExponent(k4));
                },
            }
        }
        let mut text: Vec<char> = Vec::new();
        let mut i = q;
        while i < k
            invariant
                q <= i <= k <= self.bytes@.len(),
                p == self.bytes@,
                text@ == ascii_chars(p.subrange(q as int, i as int)),
            decreases k - i,
        {
            let ghost before = text@;
            text.push(self.bytes[i] as char);
            proof {
                assert(ascii_chars(p.subrange(q as int, i + 1)) =~= before.push(p[i as int] as char));
            }
            i = i + 1;
        }
        Ok((JsonValue::Number(string_from_chars(text.as_slice())), k))
    }

    fn hex4(&self, q: usize) -> (r: Result<(u32, usize), JsonError>)
        requires
            self.ok(),
            q <= self.bytes@.len(),
        ensures
            match r {
                Ok((v, q1)) => hex_digits(self.bytes@, q as int, 4, 0) == Ok::<(u32, int), JsonError>(
                    (v, q1 as int),
                ) && q1 == q + 4 && q1 <= self.bytes@.len() && v < 0x10000,
                Err(e) => hex_digits(self.bytes@, q as int, 4, 0) == Err::<(u32, int), JsonError>(e),
            },
    {
        let mut val: u32 = 0;
        let mut i: usize = 0;
        while i < 4
            invariant
                self.ok(),
                i <= 4,
                q + i <= self.bytes@.len(),
                val < if i == 0 { 1u32 } else if i == 1 { 16u32 } else if i == 2 { 256u32 } else if i
                    == 3 { 4096u32 } else { 65536u32 },
                hex_digits(self.bytes@, (q + i) as int, (4 - i) as nat, val) == hex_digits(
                    self.bytes@,
                    q as int,
                    4,
                    0,
                ),
            decreases 4 - i,
        {
            match self.at(q + i) {
                None => {
                    return Err(JsonError::EofInUnicodeEscape(q + i));
                },
                Some(b) => {
                    let d: u32 = if 0x30 <= b && b <= 0x39 {
                        (b - 0x30) as u32
                    } else if 0x61 <= b && b <= 0x66 {
                        (b - 0x61 + 10) as u32
                    } else if 0x41 <= b && b <= 0x46 {
                        (b - 0x41 + 10) as u32
                    } else {
                        return Err(JsonError::InvalidHexDigit(q + i, b));
                    };
                    val = val * 16 + d;
                },
            }
            i = i + 1;
        }
        Ok((val, q + 4))
    }

    fn unicode_escape(&self, q: usize) -> (r: Result<(char, usize), JsonError>)
        requires
            self.ok(),
            q <= self.bytes@.len(),
        ensures
            match r {
                Ok((c, q1)) => unicode_escape(self.bytes@, q as int) == Ok::<(char, int), JsonError>(
                    (c, q1 as int),
                ) && q < q1 <= self.bytes@.len(),
                Err(e) => unicode_escape(self.bytes@, q as int) == Err::<(char, int), JsonError>(e),
            },
    {
        let (code, q1) = match self.hex4(q) {
            Ok(x) => x,
            Err(e) => {
                return Err(e);
            },
        };
        if 0xD800 <= code && code <= 0xDBFF {
            let slash = match self.at(q1) {
                Some(b) => b == 0x5c,
                None => false,
            };
            let u = match self.at(q1 + 1) {
                Some(b) => b == 0x75,
                None => false,
            };
            if slash && u {
                let (low, q2) = match self.hex4(q1 + 2) {
                    Ok(x) => x,
                    Err(e) => {
                        return Err(e);
                    },
                };
                if 0xDC00 <= low && low <= 0xDFFF {
                    let cp = 0x10000 + (code - 0xD800) * 1024 + (low - 0xDC00);
                    match char_from_u32(cp) {
                        Some(c) => Ok((c, q2)),
                        None => Err(JsonError::InvalidSurrogatePair(q1)),
                    }
                } else {
                    Err(JsonError::ExpectedLowSurrogate(q1))
                }
            } else {
                Err(JsonError::ExpectedLowSurrogate(q1))
            }
        } else if 0xDC00 <= code && code <= 0xDFFF {
            Err(JsonError::UnexpectedLowSurrogate(q1))
        } else {
            match char_from_u32(code) {
                Some(c) => Ok((c, q1)),
                None => Err(JsonError::InvalidCodepoint(q1)),
            }
        }
    }

    fn escape(&self, q: usize) -> (r: Result<(char, usize), JsonError>)
        requires
            self.ok(),
            q <= self.bytes@.len(),
        ensures
            match r {
                Ok((c, q1)) => escape(self.bytes@, q as int) == Ok::<(char, int), JsonError>((c, q1 as int))
                    && q < q1 <= self.bytes@.len(),
                Err(e) => escape(self.bytes@, q as int) == Err::<(char, int), JsonError>(e),
            },
    {
        match self.at(q) {
            None => Err(JsonError::EofInEscape(q)),
            Some(b) => if b == 0x22 {
                Ok(('"', q + 1))
            } else if b == 0x5c {
                Ok(('\\', q + 1))
            } else if b == 0x2f {
                Ok(('/', q + 1))
            } else if b == 0x6e {
                Ok(('\n', q + 1))
            } else if b == 0x74 {
                Ok(('\t', q + 1))
            } else if b == 0x72 {
                Ok(('\r', q + 1))
            } else if b == 0x62 {
                Ok(('\u{8}', q + 1))
            } else if b == 0x66 {
                Ok(('\u{c}', q + 1))
            } else if b == 0x75 {
                self.unicode_escape(q + 1)
            } else {
                Err(JsonError::InvalidEscape(q, b))
            },
        }
    }

    fn string(&self, q: usize) -> (r: Result<(String, usize), JsonError>)
        requires
            self.ok(),
            q <= self.bytes@.len(),
        ensures
            match r {
                Ok((s, q1)) => spec_string(self.bytes@, self.chars@, q as int) == Ok::<
                    (Seq<char>, int),
                    JsonError,
                >((s@, q1 as int)) && q < q1 <= self.bytes@.len(),
                Err(e) => spec_string(self.bytes@, self.chars@, q as int) == Err::<
                    (Seq<char>, int),
                    JsonError,
                >(e),
            },
    {
        let ghost p = self.bytes@;
        let ghost cs = self.chars@;
        let q1 = match self.expect(q, 0x22) {
            Ok(x) => x,
            Err(e) => {
                return Err(e);
            },
        };
        let mut acc: Vec<char> = Vec::new();
        let mut k = q1;
        loop
            invariant
                self.ok(),
                p == self.bytes@,
                cs == self.chars@,
                q < q1 <= k <= p.len(),
                spec_string(p, cs, q as int) == string_rest(p, cs, k as int, acc@),
            decreases p.len() - k,
        {
            match self.at(k) {
                None => {
                    return Err(JsonError::UnterminatedString(k));
                },
                Some(b) => {
                    if b == 0x22 {
                        let s = string_from_chars(acc.as_slice());
                        return Ok((s, k + 1));
                    } else if b == 0x5c {
                        let (c, k1) = match self.escape(k + 1) {
                            Ok(x) => x,
                            Err(e) => {
                                return Err(e);
                            },
                        };
                        acc.push(c);
                        k = k1;
                    } else if b >= 0x80 {
                        match crate::syntax::compile::decode_char(&self.chars, &self.offs, self.bytes.len(), k) {
                            None => {
                                return Err(JsonError::InvalidUtf8(k));
                            },
                            Some(c) => {
                                acc.push(c);
                                k = k + char_len_exec(c);
                            },
                        }
                    } else {
                        acc.push(b as char);
                        k = k + 1;
                    }
                },
            }
        }
    }
}


impl<'a> Input<'a> {
    fn value(&self, q: usize) -> (r: Result<(JsonValue, usize), JsonError>)
        requires
            self.ok(),
            q <= self.bytes@.len(),
        ensures
            match r {
                Ok((v, q1)) => spec_value(self.bytes@, self.chars@, q as int) == Ok::<
                    (JsonModel, int),
                    JsonError,
                >((json_view(v), q1 as int)) && q < q1 <= self.bytes@.len(),
                Err(e) => spec_value(self.bytes@, self.chars@, q as int) == Err::<
                    (JsonModel, int),
                    JsonError,
                >(e),
            },
        decreases self.bytes@.len() + 1 - q, 3int, 0int,
    {
        match self.at(q) {
            None => Err(JsonError::UnexpectedEof(q)),
            Some(b) => {
                if b == 0x22 {
                    match self.string(q) {
                        Ok((s, q1)) => Ok((JsonValue::String(s), q1)),
                        Err(e) => Err(e),
                    }
                } else if b == 0x7b {
                    self.object(q)
                } else if b == 0x5b {
                    self.array(q)
                } else if b == 0x74 {
                    let w: [u8; 4] = [0x74, 0x72, 0x75, 0x65];
                    proof {
                        assert(w@ =~= seq![0x74u8, 0x72u8, 0x75u8, 0x65u8]);
                    }
                    self.literal(q, &w, JsonValue::Bool(true))
                } else if b == 0x66 {
                    let w: [u8; 5] = [0x66, 0x61, 0x6c, 0x73, 0x65];
                    proof {
                        assert(w@ =~= seq![0x66u8, 0x61u8, 0x6cu8, 0x73u8, 0x65u8]);
                    }
                    self.literal(q, &w, JsonValue::Bool(false))
                } else if b == 0x6e {
                    let w: [u8; 4] = [0x6e, 0x75, 0x6c, 0x6c];
                    proof {
                        assert(w@ =~= seq![0x6eu8, 0x75u8, 0x6cu8, 0x6cu8]);
                    }
                    self.literal(q, &w, JsonValue::Null)
                } else if b == 0x2d || (0x30 <= b && b <= 0x39) {
                    self.number(q)
                } else {
                    Err(JsonError::UnexpectedChar(q, b))
                }
            },
        }
    }

    fn array(&self, q: usize) -> (r: Result<(JsonValue, usize), JsonError>)
        requires
            self.ok(),
            peek(self.bytes@, q as int) == Some(0x5bu8),
        ensures
            match r {
                Ok((v, q1)) => spec_array(self.bytes@, self.chars@, q as int) == Ok::<
                    (JsonModel, int),
                    JsonError,
                >((json_view(v), q1 as int)) && q < q1 <= self.bytes@.len(),
                Err(e) => spec_array(self.bytes@, self.chars@, q as int) == Err::<
                    (JsonModel, int),
                    JsonError,
                >(e),
            },
        decreases self.bytes@.len() + 1 - q, 2int, 0int,
    {
        let ghost p = self.bytes@;
        let ghost cs = self.chars@;
        let q1 = self.ws(q + 1);
        let mut items: Vec<JsonValue> = Vec::new();
        match self.at(q1) {
            Some(b) => if b == 0x5d {
                proof {
                    assert(items_view(items@) =~= Seq::<JsonModel>::empty());
                }
                return Ok((JsonValue::Array(items), q1 + 1));
            },
            None => {},
        }
        let mut k = q1;
        proof {
            assert(items_view(items@) =~= Seq::<JsonModel>::empty());
        }
        loop
            invariant
                self.ok(),
                p == self.bytes@,
                cs == self.chars@,
                q < k <= p.len(),
                spec_array(p, cs, q as int) == array_items(p, cs, k as int, items_view(items@), q as int),
            decreases p.len() + 1 - k,
        {
            let k1 = self.ws(k);
            let (v, k2) = match self.value(k1) {
                Ok(x) => x,
                Err(e) => {
                    return Err(e);
                },
            };
            let k3 = self.ws(k2);
            let ghost before = items_view(items@);
            let ghost olds = items@;
            items.push(v);
            proof {
                assert(items@.drop_last() =~= olds);
                assert(items_view(items@) == before.push(json_view(v)));
            }
            match self.at(k3) {
                Some(b) => if b == 0x2c {
                    k = k3 + 1;
                } else if b == 0x5d {
                    return Ok((JsonValue::Array(items), k3 + 1));
                } else {
                    return Err(JsonError::ExpectedCommaOrBracket(k3));
                },
                None => {
                    return Err(JsonError::ExpectedCommaOrBracket(k3));
                },
            }
        }
    }

    fn object(&self, q: usize) -> (r: Result<(JsonValue, usize), JsonError>)
        requires
            self.ok(),
            peek(self.bytes@, q as int) == Some(0x7bu8),
        ensures
            match r {
                Ok((v, q1)) => spec_object(self.bytes@, self.chars@, q as int) == Ok::<
                    (JsonModel, int),
                    JsonError,
                >((json_view(v), q1 as int)) && q < q1 <= self.bytes@.len(),
                Err(e) => spec_object(self.bytes@, self.chars@, q as int) == Err::<
                    (JsonModel, int),
                    JsonError,
                >(e),
            },
        decreases self.bytes@.len() + 1 - q, 2int, 0int,
    {
        let ghost p = self.bytes@;
        let ghost cs = self.chars@;
        let q1 = self.ws(q + 1);
        let mut pairs: Vec<(String, JsonValue)> = Vec::new();
        match self.at(q1) {
            Some(b) => if b == 0x7d {
                proof {
                    assert(pairs_view(pairs@) =~= Seq::<(Seq<char>, JsonModel)>::empty());
                }
                return Ok((JsonValue::Object(pairs), q1 + 1));
            },
            None => {},
        }
        let mut k = q1;
        proof {
            assert(pairs_view(pairs@) =~= Seq::<(Seq<char>, JsonModel)>::empty());
        }
        loop
            invariant
                self.ok(),
                p == self.bytes@,
                cs == self.chars@,
                q < k <= p.len(),
                spec_object(p, cs, q as int) == object_members(p, cs, k as int, pairs_view(pairs@), q as int),
            decreases p.len() + 1 - k,
        {
            let k1 = self.ws(k);
            let is_quote = match self.at(k1) {
                Some(b) => b == 0x22,
                None => false,
            };
            if !is_quote {
                return Err(JsonError::ExpectedStringKey(k1));
            }
            let (key, k2) = match self.string(k1) {
                Ok(x) => x,
                Err(e) => {
                    return Err(e);
                },
            };
            let k2w = self.ws(k2);
            let k3 = match self.expect(k2w, 0x3a) {
                Ok(x) => x,
                Err(e) => {
                    return Err(e);
                },
            };
            let k4 = self.ws(k3);
            let (v, k5) = match self.value(k4) {
                Ok(x) => x,
                Err(e) => {
                    return Err(e);
                },
            };
            let k6 = self.ws(k5);
            let ghost before = pairs_view(pairs@);
            let ghost kv = key@;
            let ghost olds = pairs@;
            pairs.push((key, v));
            proof {
                assert(pairs@.drop_last() =~= olds);
                assert(pairs_view(pairs@) == before.push((kv, json_view(v))));
            }
            match self.at(k6) {
                Some(b) => if b == 0x2c {
                    k = k6 + 1;
                } else if b == 0x7d {
                    return Ok((JsonValue::Object(pairs), k6 + 1));
                } else {
                    return Err(JsonError::ExpectedCommaOrBrace(k6));
                },
                None => {
                    return Err(JsonError::ExpectedCommaOrBrace(k6));
                },
            }
        }
    }
}


/// The value of the first member named `key` of an object.
pub open spec fn spec_get(pairs: Seq<(String, JsonValue)>, key: Seq<char>) -> Option<JsonValue>
    decreases pairs.len(),
{
    if pairs.len() == 0 {
        None
    } else if pairs[0].0@ == key {
        Some(pairs[0].1)
    } else {
        spec_get(pairs.drop_first(), key)
    }
}

/// Pairs are viewed one by one.
pub proof fn lemma_pairs_view_push(s: Seq<(String, JsonValue)>, p: (String, JsonValue))
    ensures
        pairs_view(s.push(p)) == pairs_view(s).push((p.0@, json_view(p.1))),
        pairs_view(Seq::<(String, JsonValue)>::empty()) == Seq::<(Seq<char>, JsonModel)>::empty(),
{
    assert(s.push(p).drop_last() =~= s);
}

/// The member `key` of an object.
pub open spec fn jget(j: JsonValue, key: Seq<char>) -> Option<JsonValue> {
    match j {
        JsonValue::Object(o) => spec_get(o@, key),
        _ => None,
    }
}

/// The string a value holds, if it is one.
pub open spec fn jstr(o: Option<JsonValue>) -> Option<Seq<char>> {
    match o {
        Some(JsonValue::String(s)) => Some(s@),
        _ => None,
    }
}

impl JsonValue {
    /// Parse a JSON text.
    pub fn parse(input: &str) -> (r: Result<JsonValue, String>)
        requires
            input.spec_bytes().len() <= usize::MAX / 2,
        ensures
            match r {
                Ok(v) => spec_parse(input.spec_bytes(), input@) == Ok::<JsonModel, JsonError>(json_view(v)),
                Err(m) => spec_parse(input.spec_bytes(), input@) is Err && m@ == json_error_message(
                    spec_parse(input.spec_bytes(), input@)->Err_0,
                ),
            },
    {
        let bytes = input.as_bytes();
        let chars = chars_of(input);
        let offs = crate::syntax::regex::byte_offsets(input, &chars);
        let inp = Input { bytes, chars, offs };
        let q = inp.ws(0);
        let (v, q1) = match inp.value(q) {
            Ok(x) => x,
            Err(e) => {
                return Err(json_error_string(e));
            },
        };
        let q2 = inp.ws(q1);
        if q2 < inp.bytes.len() {
            return Err(json_error_string(JsonError::TrailingContent(q2)));
        }
        Ok(v)
    }

    pub fn as_str(&self) -> (r: Option<&str>)
        ensures
            match self {
                JsonValue::String(s) => r matches Some(x) && x@ == s@,
                _ => r is None,
            },
    {
        match self {
            JsonValue::String(s) => Some(s.as_str()),
            _ => None,
        }
    }

    pub fn as_bool(&self) -> (r: Option<bool>)
        ensures
            match self {
                JsonValue::Bool(b) => r == Some(*b),
                _ => r is None,
            },
    {
        match self {
            JsonValue::Bool(b) => Some(*b),
            _ => None,
        }
    }

    pub fn as_array(&self) -> (r: Option<&[JsonValue]>)
        ensures
            match self {
                JsonValue::Array(a) => r matches Some(x) && x@ == a@,
                _ => r is None,
            },
    {
        match self {
            JsonValue::Array(a) => Some(a.as_slice()),
            _ => None,
        }
    }

    pub fn as_object(&self) -> (r: Option<&[(String, JsonValue)]>)
        ensures
            match self {
                JsonValue::Object(o) => r matches Some(x) && x@ == o@,
                _ => r is None,
            },
    {
        match self {
            JsonValue::Object(o) => Some(o.as_slice()),
            _ => None,
        }
    }

    /// The value of the first member named `key`, when this is an object.
    pub fn get(&self, key: &str) -> (r: Option<&JsonValue>)
        ensures
            match self {
                JsonValue::Object(o) => match spec_get(o@, key@) {
                    Some(v) => r matches Some(x) && *x == v,
                    None => r is None,
                },
                _ => r is None,
            },
    {
        match self {
            JsonValue::Object(pairs) => get_member(pairs.as_slice(), key),
            _ => None,
        }
    }
}


fn get_member<'b>(pairs: &'b [(String, JsonValue)], key: &str) -> (r: Option<&'b JsonValue>)
    ensures
        match spec_get(pairs@, key@) {
            Some(v) => r matches Some(x) && *x == v,
            None => r is None,
        },
{
    let mut i: usize = 0;
    proof {
        assert(pairs@.skip(0) =~= pairs@);
    }
    while i < pairs.len()
        invariant
            i <= pairs@.len(),
            spec_get(pairs@, key@) == spec_get(pairs@.skip(i as int), key@),
        decreases pairs@.len() - i,
    {
        proof {
            assert(pairs@.skip(i as int)[0] == pairs@[i as int]);
            assert(pairs@.skip(i as int).drop_first() =~= pairs@.skip(i + 1));
        }
        let k = chars_of(pairs[i].0.as_str());
        if crate::text::chars_eq_str(&k, key) {
            return Some(&pairs[i].1);
        }
        i = i + 1;
    }
    proof {
        assert(pairs@.skip(pairs@.len() as int) =~= Seq::<(String, JsonValue)>::empty());
    }
    None
}


// ── Copying ──────────────────────────────────────────────────

/// A copy of a value, equal to it as a value.
pub fn json_clone(v: &JsonValue) -> (r: JsonValue)
    ensures
        json_view(r) == json_view(*v),
    decreases v,
{
    match v {
        JsonValue::Null => JsonValue::Null,
        JsonValue::Bool(b) => JsonValue::Bool(*b),
        JsonValue::Number(t) => JsonValue::Number(t.clone()),
        JsonValue::String(t) => JsonValue::String(t.clone()),
        JsonValue::Array(a) => {
            let mut out: Vec<JsonValue> = Vec::new();
            let mut i: usize = 0;
            proof {
                assert(a@.take(0) =~= Seq::<JsonValue>::empty());
                assert(out@ =~= Seq::<JsonValue>::empty());
            }
            while i < a.len()
                invariant
                    i <= a@.len(),
                    *v == JsonValue::Array(*a),
                    items_view(out@) == items_view(a@.take(i as int)),
                decreases a@.len() - i,
            {
                proof {
                    assert(decreases_to!(*v => (*v)->Array_0));
                    assert(decreases_to!((*v)->Array_0 => a@));
                    assert(decreases_to!(a@ => a@[i as int]));
                }
                let x = json_clone(&a[i]);
                let ghost olds = out@;
                out.push(x);
                proof {
                    assert(out@.drop_last() =~= olds);
                    assert(a@.take(i + 1).drop_last() =~= a@.take(i as int));
                }
                i = i + 1;
            }
            proof {
                assert(a@.take(a@.len() as int) =~= a@);
            }
            JsonValue::Array(out)
        },
        JsonValue::Object(o) => {
            let mut out: Vec<(String, JsonValue)> = Vec::new();
            let mut i: usize = 0;
            proof {
                assert(o@.take(0) =~= Seq::<(String, JsonValue)>::empty());
                assert(out@ =~= Seq::<(String, JsonValue)>::empty());
            }
            while i < o.len()
                invariant
                    i <= o@.len(),
                    *v == JsonValue::Object(*o),
                    pairs_view(out@) == pairs_view(o@.take(i as int)),
                decreases o@.len() - i,
            {
                proof {
                    assert(decreases_to!(*v => (*v)->Object_0));
                    assert(decreases_to!((*v)->Object_0 => o@));
                    assert(decreases_to!(o@ => o@[i as int]));
                    assert(decreases_to!(o@[i as int] => o@[i as int].1));
                }
                let x = json_clone(&o[i].1);
                let k = o[i].0.clone();
                let ghost olds = out@;
                out.push((k, x));
                proof {
                    assert(out@.drop_last() =~= olds);
                    assert(o@.take(i + 1).drop_last() =~= o@.take(i as int));
                }
                i = i + 1;
            }
            proof {
                assert(o@.take(o@.len() as int) =~= o@);
            }
            JsonValue::Object(out)
        },
    }
}

impl Clone for JsonValue {
    fn clone(&self) -> (r: Self)
        ensures
            json_view(r) == json_view(*self),
    {
        json_clone(self)
    }
}


// ── Building ─────────────────────────────────────────────────

/// The decimal text of an integer.
pub open spec fn int_text(n: int) -> Seq<char> {
    if n < 0 {
        seq!['-'] + dec_chars((-n) as nat)
    } else {
        dec_chars(n as nat)
    }
}

/// A number value written in decimal.
pub fn json_number(n: i64) -> (r: JsonValue)
    ensures
        json_view(r) == JsonModel::Number(int_text(n as int)),
{
    let mut v: Vec<char> = Vec::new();
    if n < 0 {
        v.push('-');
        let m: u64 = (0i128 - n as i128) as u64;
        crate::text::push_dec_u64(&mut v, m);
    } else {
        crate::text::push_dec_u64(&mut v, n as u64);
    }
    proof {
        assert(v@ =~= int_text(n as int));
    }
    JsonValue::Number(string_from_chars(v.as_slice()))
}

/// A number value for an unsigned integer.
pub fn json_unsigned(n: u64) -> (r: JsonValue)
    ensures
        json_view(r) == JsonModel::Number(dec_chars(n as nat)),
{
    let mut v: Vec<char> = Vec::new();
    crate::text::push_dec_u64(&mut v, n);
    proof {
        assert(v@ =~= dec_chars(n as nat));
    }
    JsonValue::Number(string_from_chars(v.as_slice()))
}

/// A string value.
pub fn json_str_value(s: &str) -> (r: JsonValue)
    ensures
        json_view(r) == JsonModel::Str(s@),
{
    JsonValue::String(s.to_owned())
}

/// An object with one member.
pub fn obj1(k1: &str, v1: JsonValue) -> (r: JsonValue)
    ensures
        json_view(r) == JsonModel::Object(seq![(k1@, json_view(v1))]),
{
    let mut m: Vec<(String, JsonValue)> = Vec::new();
    m.push((k1.to_owned(), v1));
    proof {
        let e = Seq::<(String, JsonValue)>::empty();
        lemma_pairs_view_push(e, m@[0]);
        assert(m@ =~= e.push(m@[0]));
        assert(pairs_view(m@) =~= seq![(k1@, json_view(v1))]);
    }
    JsonValue::Object(m)
}

/// An object with two members, in order.
pub fn obj2(k1: &str, v1: JsonValue, k2: &str, v2: JsonValue) -> (r: JsonValue)
    ensures
        json_view(r) == JsonModel::Object(seq![(k1@, json_view(v1)), (k2@, json_view(v2))]),
{
    let mut m: Vec<(String, JsonValue)> = Vec::new();
    m.push((k1.to_owned(), v1));
    m.push((k2.to_owned(), v2));
    proof {
        let e = Seq::<(String, JsonValue)>::empty();
        lemma_pairs_view_push(e, m@[0]);
        lemma_pairs_view_push(e.push(m@[0]), m@[1]);
        assert(m@ =~= e.push(m@[0]).push(m@[1]));
        assert(pairs_view(m@) =~= seq![(k1@, json_view(v1)), (k2@, json_view(v2))]);
    }
    JsonValue::Object(m)
}

/// An object with three members, in order.
pub fn obj3(k1: &str, v1: JsonValue, k2: &str, v2: JsonValue, k3: &str, v3: JsonValue) -> (r: JsonValue)
    ensures
        json_view(r) == JsonModel::Object(
            seq![(k1@, json_view(v1)), (k2@, json_view(v2)), (k3@, json_view(v3))],
        ),
{
    let mut m: Vec<(String, JsonValue)> = Vec::new();
    m.push((k1.to_owned(), v1));
    m.push((k2.to_owned(), v2));
    m.push((k3.to_owned(), v3));
    proof {
        let e = Seq::<(String, JsonValue)>::empty();
        lemma_pairs_view_push(e, m@[0]);
        lemma_pairs_view_push(e.push(m@[0]), m@[1]);
        lemma_pairs_view_push(e.push(m@[0]).push(m@[1]), m@[2]);
        assert(m@ =~= e.push(m@[0]).push(m@[1]).push(m@[2]));
        assert(pairs_view(m@) =~= seq![(k1@, json_view(v1)), (k2@, json_view(v2)), (k3@, json_view(v3))]);
    }
    JsonValue::Object(m)
}

/// An object with four members, in order.
pub fn obj4(
    k1: &str,
    v1: JsonValue,
    k2: &str,
    v2: JsonValue,
    k3: &str,
    v3: JsonValue,
    k4: &str,
    v4: JsonValue,
) -> (r: JsonValue)
    ensures
        json_view(r) == JsonModel::Object(
            seq![(k1@, json_view(v1)), (k2@, json_view(v2)), (k3@, json_view(v3)), (k4@, json_view(v4))],
        ),
{
    let mut m: Vec<(String, JsonValue)> = Vec::new();
    m.push((k1.to_owned(), v1));
    m.push((k2.to_owned(), v2));
    m.push((k3.to_owned(), v3));
    m.push((k4.to_owned(), v4));
    proof {
        let e = Seq::<(String, JsonValue)>::empty();
        lemma_pairs_view_push(e, m@[0]);
        lemma_pairs_view_push(e.push(m@[0]), m@[1]);
        lemma_pairs_view_push(e.push(m@[0]).push(m@[1]), m@[2]);
        lemma_pairs_view_push(e.push(m@[0]).push(m@[1]).push(m@[2]), m@[3]);
        assert(m@ =~= e.push(m@[0]).push(m@[1]).push(m@[2]).push(m@[3]));
        assert(pairs_view(m@) =~= seq![(k1@, json_view(v1)), (k2@, json_view(v2)), (k3@, json_view(v3)), (k4@, json_view(v4))]);
    }
    JsonValue::Object(m)
}

// ── Reading numbers ──────────────────────────────────────────

/// The leading decimal digits of `s`.
pub open spec fn digit_prefix(s: Seq<char>) -> Seq<char>
    decreases s.len(),
{
    if s.len() > 0 && crate::strs::is_digit(s[0]) {
        seq![s[0]] + digit_prefix(s.drop_first())
    } else {
        Seq::empty()
    }
}

/// The integer a number's text spells, its fraction dropped: an optional
/// `-`, digits, and optionally `.` and digits. Text with an exponent or
/// anything else is not read.
pub open spec fn number_int(t: Seq<char>) -> Option<int> {
    let neg = t.len() > 0 && t[0] == '-';
    let body = if neg { t.drop_first() } else { t };
    let ip = digit_prefix(body);
    let rest = body.skip(ip.len() as int);
    if ip.len() > 0 && (rest.len() == 0 || (rest[0] == '.' && rest.len() > 1 && crate::strs::all_digits(rest.drop_first()))) {
        Some(if neg { -digits_value(ip) } else { digits_value(ip) as int })
    } else {
        None
    }
}

/// `n` saturated into the range of an `i64`.
pub open spec fn clamp_i64(n: int) -> i64 {
    if n < i64::MIN {
        i64::MIN
    } else if n > i64::MAX {
        i64::MAX
    } else {
        n as i64
    }
}

proof fn lemma_digit_prefix(s: Seq<char>)
    ensures
        digit_prefix(s).len() <= s.len(),
        s.take(digit_prefix(s).len() as int) == digit_prefix(s),
        crate::strs::all_digits(digit_prefix(s)),
        digit_prefix(s).len() < s.len() ==> !crate::strs::is_digit(s[digit_prefix(s).len() as int]),
    decreases s.len(),
{
    if s.len() > 0 && crate::strs::is_digit(s[0]) {
        lemma_digit_prefix(s.drop_first());
        assert(s.take(digit_prefix(s).len() as int) =~= seq![s[0]] + s.drop_first().take(digit_prefix(s.drop_first()).len() as int));
        assert forall|i: int| 0 <= i < digit_prefix(s).len() implies crate::strs::is_digit(#[trigger] digit_prefix(s)[i]) by {
            if i > 0 {
                assert(digit_prefix(s)[i] == digit_prefix(s.drop_first())[i - 1]);
            }
        }
    } else {
        assert(s.take(0) =~= Seq::<char>::empty());
    }
}

const SAT_CAP: u64 = 9223372036854775808;

proof fn lemma_sat_step(x: nat, d: nat)
    requires
        d < 10,
    ensures
        (if x >= SAT_CAP { SAT_CAP as nat } else { x }) * 10 + d >= SAT_CAP ==> x * 10 + d >= SAT_CAP,
        x < SAT_CAP ==> (if x >= SAT_CAP { SAT_CAP as nat } else { x }) * 10 + d == x * 10 + d,
        x >= SAT_CAP ==> x * 10 + d >= SAT_CAP,
{
    assert(x >= SAT_CAP ==> x * 10 + d >= SAT_CAP) by (nonlinear_arith);
}

/// The integer a number value spells, saturated to `i64` (see
/// [`number_int`]).
pub fn number_i64(t: &str) -> (r: Option<i64>)
    ensures
        r == match number_int(t@) {
            Some(n) => Some(clamp_i64(n)),
            None => None::<i64>,
        },
{
    let cs = chars_of(t);
    let neg = cs.len() > 0 && cs[0] == '-';
    let mut i: usize = if neg { 1 } else { 0 };
    let ghost body = if neg { cs@.drop_first() } else { cs@ };
    proof {
        lemma_digit_prefix(body);
        assert(body =~= cs@.skip(i as int));
    }
    let ghost ip = digit_prefix(body);
    let start = i;
    let mut v: u64 = 0;
    while i < cs.len() && '0' <= cs[i] && cs[i] <= '9'
        invariant
            cs@ == t@,
            start <= i <= cs@.len(),
            body == cs@.skip(start as int),
            ip == digit_prefix(body),
            i - start <= ip.len(),
            ip.len() <= body.len(),
            ip == body.take(ip.len() as int),
            crate::strs::all_digits(ip),
            ip.len() < body.len() ==> !crate::strs::is_digit(body[ip.len() as int]),
            v as nat == if digits_value(ip.take(i - start)) >= SAT_CAP {
                SAT_CAP as nat
            } else {
                digits_value(ip.take(i - start))
            },
        decreases cs@.len() - i,
    {
        proof {
            assert(body[(i - start) as int] == cs@[i as int]);
            if i - start >= ip.len() {
                if ip.len() < body.len() {
                    assert(body[ip.len() as int] == cs@[i as int]);
                }
            }
            assert(i - start < ip.len());
            assert(body.take(ip.len() as int)[(i - start) as int] == body[(i - start) as int]);
            assert(ip[i - start] == body[(i - start) as int]);
            assert(ip[i - start] == cs@[i as int]);
            assert(ip.take(i - start + 1).drop_last() =~= ip.take(i - start));
            assert(ip.take(i - start + 1).last() == cs@[i as int]);
        }
        let d = (cs[i] as u32 - 0x30) as u64;
        let ghost x = digits_value(ip.take(i - start));
        proof {
            lemma_sat_step(x, d as nat);
        }
        if v >= SAT_CAP / 10 + 1 {
            v = SAT_CAP;
            proof {
                assert(x * 10 + d >= SAT_CAP) by (nonlinear_arith)
                    requires
                        x >= SAT_CAP / 10 + 1 || x >= SAT_CAP,
                ;
            }
        } else {
            let w = v * 10 + d;
            v = if w >= SAT_CAP { SAT_CAP } else { w };
        }
        i = i + 1;
    }
    let n = i - start;
    proof {
        assert(body == (if neg { cs@.drop_first() } else { cs@ }));
        assert(n == ip.len()) by {
            if n < ip.len() {
                assert(ip[n as int] == cs@[i as int]);
            }
        }
        assert(ip.take(n as int) =~= ip);
        assert(body.skip(ip.len() as int) =~= cs@.skip(i as int));
    }
    if n == 0 {
        return None;
    }
    if i < cs.len() {
        if cs[i] != '.' || i + 1 == cs.len() {
            return None;
        }
        let mut k = i + 1;
        while k < cs.len()
            invariant
                i + 1 <= k <= cs@.len(),
                i < cs@.len(),
                cs@ == t@,
                neg == (cs@.len() > 0 && cs@[0] == '-'),
                body == (if neg { cs@.drop_first() } else { cs@ }),
                ip == digit_prefix(body),
                body.skip(ip.len() as int) == cs@.skip(i as int),
                forall|j: int| i + 1 <= j < k ==> crate::strs::is_digit(#[trigger] cs@[j]),
            decreases cs@.len() - k,
        {
            if !('0' <= cs[k] && cs[k] <= '9') {
                proof {
                    let rest = cs@.skip(i as int);
                    assert(rest.drop_first()[k - i - 1] == cs@[k as int]);
                    assert(!crate::strs::is_digit(rest.drop_first()[k - i - 1]));
                    assert(!crate::strs::all_digits(rest.drop_first()));
                    assert(number_int(t@) is None);
                }
                return None;
            }
            k = k + 1;
        }
        proof {
            let rest = cs@.skip(i as int);
            assert forall|j: int| 0 <= j < rest.drop_first().len() implies crate::strs::is_digit(#[trigger] rest.drop_first()[j]) by {
                assert(rest.drop_first()[j] == cs@[i + 1 + j]);
            }
        }
    }
    proof {
        let rest = body.skip(ip.len() as int);
        assert(rest =~= cs@.skip(i as int));
        assert(v as nat == if digits_value(ip) >= SAT_CAP { SAT_CAP as nat } else { digits_value(ip) });
        assert(number_int(t@) == Some(if neg { -digits_value(ip) } else { digits_value(ip) as int }));
    }
    if neg {
        Some((0i128 - v as i128) as i64)
    } else if v > i64::MAX as u64 {
        Some(i64::MAX)
    } else {
        Some(v as i64)
    }
}


// ── Writing ──────────────────────────────────────────────────

/// Four lowercase hex digits of `n`.
pub open spec fn hex4(n: u32) -> Seq<char> {
    seq![
        hex_lower((n / 4096 % 16) as nat),
        hex_lower((n / 256 % 16) as nat),
        hex_lower((n / 16 % 16) as nat),
        hex_lower((n % 16) as nat),
    ]
}

pub open spec fn hex_lower(d: nat) -> char {
    if d < 10 {
        (0x30 + d) as char
    } else {
        (0x61 + d - 10) as char
    }
}

/// A character as it is written inside a JSON string.
pub open spec fn escape_char(c: char) -> Seq<char> {
    if c == '"' {
        seq!['\\', '"']
    } else if c == '\\' {
        seq!['\\', '\\']
    } else if c == '\n' {
        seq!['\\', 'n']
    } else if c == '\r' {
        seq!['\\', 'r']
    } else if c == '\t' {
        seq!['\\', 't']
    } else if (c as u32) < 0x20 {
        seq!['\\', 'u'] + hex4(c as u32)
    } else {
        seq![c]
    }
}

pub open spec fn escape_str(s: Seq<char>) -> Seq<char>
    decreases s.len(),
{
    if s.len() == 0 {
        Seq::empty()
    } else {
        escape_str(s.drop_last()) + escape_char(s.last())
    }
}

/// A string written as a JSON string literal.
pub open spec fn quoted(s: Seq<char>) -> Seq<char> {
    seq!['"'] + escape_str(s) + seq!['"']
}

/// A value written out with each nested member or element on a line of
/// its own, indented by `unit` more than its container, which starts at
/// `pad`; empty arrays and objects are `[]` and `{}`.
pub open spec fn pretty(m: JsonModel, unit: Seq<char>, pad: Seq<char>) -> Seq<char>
    decreases m, 1int,
{
    match m {
        JsonModel::Null => "null"@,
        JsonModel::Bool(b) => if b {
            "true"@
        } else {
            "false"@
        },
        JsonModel::Number(t) => t,
        JsonModel::Str(s) => quoted(s),
        JsonModel::Array(items) => if items.len() == 0 {
            "[]"@
        } else {
            seq!['[', '\n'] + pretty_items(items, unit, pad + unit) + seq!['\n'] + pad + seq![']']
        },
        JsonModel::Object(pairs) => if pairs.len() == 0 {
            "{}"@
        } else {
            seq!['{', '\n'] + pretty_members(pairs, unit, pad + unit) + seq!['\n'] + pad + seq!['}']
        },
    }
}

pub open spec fn pretty_items(items: Seq<JsonModel>, unit: Seq<char>, pad: Seq<char>) -> Seq<char>
    decreases items, 0int,
{
    if items.len() == 0 {
        Seq::empty()
    } else {
        proof {
            assert(decreases_to!(items => items[items.len() - 1]));
        }
        let line = pad + pretty(items.last(), unit, pad);
        if items.len() == 1 {
            line
        } else {
            pretty_items(items.drop_last(), unit, pad) + seq![',', '\n'] + line
        }
    }
}

pub open spec fn pretty_members(pairs: Seq<(Seq<char>, JsonModel)>, unit: Seq<char>, pad: Seq<char>) -> Seq<char>
    decreases pairs, 0int,
{
    if pairs.len() == 0 {
        Seq::empty()
    } else {
        proof {
            assert(decreases_to!(pairs => pairs[pairs.len() - 1]));
            assert(decreases_to!(pairs[pairs.len() - 1] => pairs[pairs.len() - 1].1));
        }
        let line = pad + quoted(pairs.last().0) + seq![':', ' '] + pretty(pairs.last().1, unit, pad);
        if pairs.len() == 1 {
            line
        } else {
            pretty_members(pairs.drop_last(), unit, pad) + seq![',', '\n'] + line
        }
    }
}

fn hex_lower_exec(d: u32) -> (c: char)
    requires
        d < 16,
    ensures
        c == hex_lower(d as nat),
{
    if d < 10 {
        ((0x30 + d) as u8) as char
    } else {
        ((0x61 + d - 10) as u8) as char
    }
}

fn push_escaped(out: &mut Vec<char>, s: &str)
    ensures
        final(out)@ == old(out)@ + escape_str(s@),
{
    let cs = chars_of(s);
    let mut i: usize = 0;
    proof {
        assert(cs@.take(0) =~= Seq::<char>::empty());
        assert(old(out)@ + escape_str(cs@.take(0)) =~= old(out)@);
    }
    while i < cs.len()
        invariant
            i <= cs@.len(),
            cs@ == s@,
            out@ == old(out)@ + escape_str(cs@.take(i as int)),
        decreases cs@.len() - i,
    {
        let c = cs[i];
        proof {
            assert(cs@.take(i + 1).drop_last() =~= cs@.take(i as int));
            assert(cs@.take(i + 1).last() == c);
        }
        let ghost before = out@;
        if c == '"' {
            out.push('\\');
            out.push('"');
        } else if c == '\\' {
            out.push('\\');
            out.push('\\');
        } else if c == '\n' {
            out.push('\\');
            out.push('n');
        } else if c == '\r' {
            out.push('\\');
            out.push('r');
        } else if c == '\t' {
            out.push('\\');
            out.push('t');
        } else if (c as u32) < 0x20 {
            let n = c as u32;
            out.push('\\');
            out.push('u');
            out.push(hex_lower_exec(n / 4096 % 16));
            out.push(hex_lower_exec(n / 256 % 16));
            out.push(hex_lower_exec(n / 16 % 16));
            out.push(hex_lower_exec(n % 16));
        } else {
            out.push(c);
        }
        proof {
            assert(out@ =~= before + escape_char(c));
        }
        i = i + 1;
    }
    proof {
        assert(cs@.take(cs@.len() as int) =~= cs@);
    }
}

fn push_quoted(out: &mut Vec<char>, s: &str)
    ensures
        final(out)@ == old(out)@ + quoted(s@),
{
    out.push('"');
    push_escaped(out, s);
    out.push('"');
    proof {
        assert(out@ =~= old(out)@ + quoted(s@));
    }
}

fn push_chars(out: &mut Vec<char>, s: &Vec<char>)
    ensures
        final(out)@ == old(out)@ + s@,
{
    let mut i: usize = 0;
    while i < s.len()
        invariant
            i <= s@.len(),
            out@ == old(out)@ + s@.take(i as int),
        decreases s@.len() - i,
    {
        out.push(s[i]);
        proof {
            assert(s@.take(i + 1) =~= s@.take(i as int).push(s@[i as int]));
        }
        i = i + 1;
    }
    proof {
        assert(s@.take(s@.len() as int) =~= s@);
    }
}

fn write_pretty(v: &JsonValue, unit: &Vec<char>, pad: &Vec<char>, out: &mut Vec<char>)
    ensures
        final(out)@ == old(out)@ + pretty(json_view(*v), unit@, pad@),
    decreases v,
{
    match v {
        JsonValue::Null => {
            proof {
                reveal_strlit("null");
            }
            push_str_chars(out, "null");
        },
        JsonValue::Bool(b) => {
            proof {
                reveal_strlit("true");
                reveal_strlit("false");
            }
            if *b {
                push_str_chars(out, "true");
            } else {
                push_str_chars(out, "false");
            }
        },
        JsonValue::Number(t) => {
            push_str_chars(out, t.as_str());
        },
        JsonValue::String(s) => {
            push_quoted(out, s.as_str());
        },
        JsonValue::Array(a) => {
            if a.len() == 0 {
                proof {
                    reveal_strlit("[]");
                    lemma_items_view_len(a@);
                }
                push_str_chars(out, "[]");
                return;
            }
            proof {
                lemma_items_view_len(a@);
            }
            let mut inner: Vec<char> = Vec::new();
            push_chars(&mut inner, pad);
            push_chars(&mut inner, unit);
            let ghost base = out@;
            out.push('[');
            out.push('\n');
            let mut i: usize = 0;
            proof {
                assert(a@.take(0) =~= Seq::<JsonValue>::empty());
                assert(items_view(a@.take(0)) =~= Seq::<JsonModel>::empty());
            }
            while i < a.len()
                invariant
                    1 <= a@.len(),
                    i <= a@.len(),
                    *v == JsonValue::Array(*a),
                    inner@ == pad@ + unit@,
                    out@ == base + seq!['[', '\n'] + pretty_items(items_view(a@.take(i as int)), unit@, inner@),
                decreases a@.len() - i,
            {
                proof {
                    assert(decreases_to!(*v => (*v)->Array_0));
                    assert(decreases_to!((*v)->Array_0 => a@));
                    assert(decreases_to!(a@ => a@[i as int]));
                    assert(a@.take(i + 1).drop_last() =~= a@.take(i as int));
                    assert(a@.take(i + 1).last() == a@[i as int]);
                    lemma_items_view_len(a@.take(i + 1));
                }
                let ghost before = out@;
                if i > 0 {
                    out.push(',');
                    out.push('\n');
                }
                push_chars(out, &inner);
                write_pretty(&a[i], unit, &inner, out);
                proof {
                    let t = items_view(a@.take(i + 1));
                    assert(t.drop_last() == items_view(a@.take(i as int)));
                    assert(t.last() == json_view(a@[i as int]));
                    if i == 0 {
                        assert(items_view(a@.take(0)) =~= Seq::<JsonModel>::empty());
                        assert(out@ =~= before + (inner@ + pretty(json_view(a@[i as int]), unit@, inner@)));
                    } else {
                        assert(out@ =~= before + seq![',', '\n'] + (inner@ + pretty(json_view(a@[i as int]), unit@, inner@)));
                    }
                }
                i = i + 1;
            }
            proof {
                assert(a@.take(a@.len() as int) =~= a@);
            }
            out.push('\n');
            push_chars(out, pad);
            out.push(']');
            proof {
                assert(out@ =~= base + pretty(json_view(*v), unit@, pad@));
            }
        },
        JsonValue::Object(o) => {
            if o.len() == 0 {
                proof {
                    reveal_strlit("{}");
                    lemma_pairs_view_len(o@);
                }
                push_str_chars(out, "{}");
                return;
            }
            proof {
                lemma_pairs_view_len(o@);
            }
            let mut inner: Vec<char> = Vec::new();
            push_chars(&mut inner, pad);
            push_chars(&mut inner, unit);
            let ghost base = out@;
            out.push('{');
            out.push('\n');
            let mut i: usize = 0;
            proof {
                assert(o@.take(0) =~= Seq::<(String, JsonValue)>::empty());
                assert(pairs_view(o@.take(0)) =~= Seq::<(Seq<char>, JsonModel)>::empty());
            }
            while i < o.len()
                invariant
                    1 <= o@.len(),
                    i <= o@.len(),
                    *v == JsonValue::Object(*o),
                    inner@ == pad@ + unit@,
                    out@ == base + seq!['{', '\n'] + pretty_members(pairs_view(o@.take(i as int)), unit@, inner@),
                decreases o@.len() - i,
            {
                proof {
                    assert(decreases_to!(*v => (*v)->Object_0));
                    assert(decreases_to!((*v)->Object_0 => o@));
                    assert(decreases_to!(o@ => o@[i as int]));
                    assert(decreases_to!(o@[i as int] => o@[i as int].1));
                    assert(o@.take(i + 1).drop_last() =~= o@.take(i as int));
                    assert(o@.take(i + 1).last() == o@[i as int]);
                    lemma_pairs_view_len(o@.take(i + 1));
                }
                let ghost before = out@;
                if i > 0 {
                    out.push(',');
                    out.push('\n');
                }
                push_chars(out, &inner);
                push_quoted(out, o[i].0.as_str());
                out.push(':');
                out.push(' ');
                write_pretty(&o[i].1, unit, &inner, out);
                proof {
                    let t = pairs_view(o@.take(i + 1));
                    assert(t.drop_last() == pairs_view(o@.take(i as int)));
                    assert(t.last() == (o@[i as int].0@, json_view(o@[i as int].1)));
                    let line = inner@ + quoted(o@[i as int].0@) + seq![':', ' '] + pretty(json_view(o@[i as int].1), unit@, inner@);
                    if i == 0 {
                        assert(pairs_view(o@.take(0)) =~= Seq::<(Seq<char>, JsonModel)>::empty());
                        assert(out@ =~= before + line);
                    } else {
                        assert(out@ =~= before + seq![',', '\n'] + line);
                    }
                }
                i = i + 1;
            }
            proof {
                assert(o@.take(o@.len() as int) =~= o@);
            }
            out.push('\n');
            push_chars(out, pad);
            out.push('}');
            proof {
                assert(out@ =~= base + pretty(json_view(*v), unit@, pad@));
            }
        },
    }
}

proof fn lemma_items_view_len(s: Seq<JsonValue>)
    ensures
        items_view(s).len() == s.len(),
    decreases s.len(),
{
    if s.len() > 0 {
        lemma_items_view_len(s.drop_last());
    }
}

proof fn lemma_pairs_view_len(s: Seq<(String, JsonValue)>)
    ensures
        pairs_view(s).len() == s.len(),
    decreases s.len(),
{
    if s.len() > 0 {
        lemma_pairs_view_len(s.drop_last());
    }
}

impl JsonValue {
    /// The value written out, nested values indented by `indent` spaces
    /// per level (see [`pretty`]).
    pub fn to_json_pretty(&self, indent: usize) -> (r: String)
        ensures
            r@ == pretty(json_view(*self), Seq::new(indent as nat, |i: int| ' '), Seq::empty()),
    {
        let mut unit: Vec<char> = Vec::new();
        let mut k: usize = 0;
        while k < indent
            invariant
                k <= indent,
                unit@ == Seq::new(k as nat, |i: int| ' '),
            decreases indent - k,
        {
            unit.push(' ');
            k = k + 1;
            proof {
                assert(unit@ =~= Seq::new(k as nat, |i: int| ' '));
            }
        }
        let pad: Vec<char> = Vec::new();
        let mut out: Vec<char> = Vec::new();
        write_pretty(self, &unit, &pad, &mut out);
        proof {
            assert(out@ =~= pretty(json_view(*self), unit@, pad@));
        }
        string_from_chars(out.as_slice())
    }
}


/// Characters written one by one as bytes (for ASCII text).
pub open spec fn ascii_bytes(s: Seq<char>) -> Seq<u8> {
    s.map_values(|c: char| (c as u32) as u8)
}

proof fn lemma_hex_digit_reads_back(d: nat)
    requires
        d < 16,
    ensures
        hex_value(((hex_lower(d)) as u32) as u8) == Some(d as u32),
{
    if d < 10 {
        assert(((0x30 + d) as char) as u32 == 0x30 + d);
    } else {
        assert(((0x61 + d - 10) as char) as u32 == 0x61 + d - 10);
    }
}

/// Reading an escape gives back the character the writer escaped: for every
/// character that `escape_char` writes as an escape sequence (a quote, a
/// backslash, and each control character, as `\n`, `\r`, `\t` or `\uXXXX`),
/// the escape read just past its backslash is that character, and reading
/// ends at the end of the sequence.
pub proof fn lemma_escape_reads_back(c: char)
    requires
        escape_char(c) != seq![c],
    ensures
        escape(ascii_bytes(escape_char(c)), 1) == Ok::<(char, int), JsonError>((c, escape_char(c).len() as int)),
{
    let e = escape_char(c);
    let p = ascii_bytes(e);
    if c == '"' || c == '\\' || c == '\n' || c == '\r' || c == '\t' {
        assert(p[1] == ((e[1] as u32) as u8));
    } else {
        let n = c as u32;
        assert(n < 0x20);
        assert(e == seq!['\\', 'u'] + hex4(n));
        assert(e.len() == 6);
        let d0 = (n / 4096 % 16) as nat;
        let d1 = (n / 256 % 16) as nat;
        let d2 = (n / 16 % 16) as nat;
        let d3 = (n % 16) as nat;
        assert(d0 == 0 && d1 == 0);
        lemma_hex_digit_reads_back(d0);
        lemma_hex_digit_reads_back(d1);
        lemma_hex_digit_reads_back(d2);
        lemma_hex_digit_reads_back(d3);
        assert(p[1] == 0x75u8);
        assert(p[2] == ((hex_lower(d0) as u32) as u8));
        assert(p[3] == ((hex_lower(d1) as u32) as u8));
        assert(p[4] == ((hex_lower(d2) as u32) as u8));
        assert(p[5] == ((hex_lower(d3) as u32) as u8));
        assert(hex_digits(p, 6, 0, n) == Ok::<(u32, int), JsonError>((n, 6)));
        assert(hex_digits(p, 5, 1, (d2 as u32)) == Ok::<(u32, int), JsonError>(((d2 * 16 + d3) as u32, 6)));
        assert(d2 * 16 + d3 == n);
        assert(hex_digits(p, 4, 2, 0) == hex_digits(p, 5, 1, (d2 as u32)));
        assert(hex_digits(p, 3, 3, 0) == hex_digits(p, 4, 2, 0));
        assert(hex_digits(p, 2, 4, 0) == hex_digits(p, 3, 3, 0));
        assert(is_scalar(n));
        assert((n as char) == c);
    }
}

} // verus!
