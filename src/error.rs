//! Errors of the hierarchy client and of the record decoder.

use vstd::prelude::*;
use vstd::string::StringExecFns;

verus! {

/// Why a record did not decode. Field positions index the schema.
#[derive(Debug, Clone, Copy, PartialEq, Eq, Structural)]
pub enum DecodeError {
    /// The input ended where more was expected.
    Eof,
    /// A key did not start with an identifier character.
    ExpectedString,
    /// A key was not followed by a single space.
    ExpectedWhitespace,
    /// The value of a schema field did not start with a decimal digit.
    ExpectedInteger,
    /// The value of a schema field does not fit in 64 bits.
    Overflow,
    /// A line was followed by something other than a newline.
    ExpectedNewline,
    /// The key of this schema field appeared on two lines.
    DuplicateField(usize),
    /// The key of this schema field appeared on no line.
    MissingField(usize),
    /// Input was left over after the record.
    TrailingCharacters,
}

/// What went wrong, in a form that callers can inspect.
#[derive(Debug, Clone, Copy, PartialEq, Eq, Structural)]
pub enum CGroupErrorKind {
    /// The hierarchy is not what it must be (a configuration error).
    CGroupErr,
    /// An attribute's text did not decode.
    ParseErr(DecodeError),
}

/// An error of the hierarchy client: a human-readable description and,
/// where there is one, its kind.
#[derive(Debug)]
pub struct CGroupError {
    pub description: String,
    pub inner: Option<CGroupErrorKind>,
}

/// The words that describe a decoding error, after `Parse error: `; for a
/// field, they name it as the schema `fields` does.
pub open spec fn decode_error_text(e: DecodeError, fields: Seq<&str>) -> Seq<char> {
    match e {
        DecodeError::Eof => "EOF"@,
        DecodeError::ExpectedString => "Expected string"@,
        DecodeError::ExpectedWhitespace => "Expect whitespace as the delimiter"@,
        DecodeError::ExpectedInteger => "Expected integer"@,
        DecodeError::Overflow => "Integer too large"@,
        DecodeError::ExpectedNewline => "Expect newline as the delimiter"@,
        DecodeError::DuplicateField(i) => "duplicate field `"@ + fields[i as int]@ + "`"@,
        DecodeError::MissingField(i) => "missing field `"@ + fields[i as int]@ + "`"@,
        DecodeError::TrailingCharacters => "Trailing characters"@,
    }
}

impl CGroupError {
    pub fn new(description: String) -> (r: Self)
        ensures
            r.description@ == description@,
            r.inner is None,
    {
        CGroupError { description, inner: None }
    }

    pub fn from_inner_error(inner: CGroupErrorKind) -> (r: Self)
        ensures
            r.inner == Some(inner),
            r.description@ == "Inner error"@,
    {
        CGroupError { description: String::from_str("Inner error"), inner: Some(inner) }
    }

    /// The error for a record that did not decode against the schema `fields`.
    pub fn from_decode_error(e: DecodeError, fields: &[&str]) -> (r: Self)
        requires
            e matches DecodeError::DuplicateField(i) ==> i < fields@.len(),
            e matches DecodeError::MissingField(i) ==> i < fields@.len(),
        ensures
            r.inner == Some(CGroupErrorKind::ParseErr(e)),
            r.description@ == "Parse error: "@ + decode_error_text(e, fields@),
    {
        let mut d = String::from_str("Parse error: ");
        match e {
            DecodeError::Eof => d.append("EOF"),
            DecodeError::ExpectedString => d.append("Expected string"),
            DecodeError::ExpectedWhitespace => d.append("Expect whitespace as the delimiter"),
            DecodeError::ExpectedInteger => d.append("Expected integer"),
            DecodeError::Overflow => d.append("Integer too large"),
            DecodeError::ExpectedNewline => d.append("Expect newline as the delimiter"),
            DecodeError::DuplicateField(i) => {
                d.append("duplicate field `");
                d.append(fields[i]);
                d.append("`");
            },
            DecodeError::MissingField(i) => {
                d.append("missing field `");
                d.append(fields[i]);
                d.append("`");
            },
            DecodeError::TrailingCharacters => d.append("Trailing characters"),
        }
        CGroupError { description: d, inner: Some(CGroupErrorKind::ParseErr(e)) }
    }
}

} // verus!
