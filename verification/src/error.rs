//! Error type for the Altium library.
use vstd::prelude::*;
use vstd::string::*;

verus! {

/// Main error type for Altium file operations.
#[derive(Debug, Clone)]
pub enum AltiumError {
    /// I/O error when reading/writing files.
    Io(String),
    /// Invalid parameter format.
    InvalidParameter(String),
    /// Invalid coordinate format.
    InvalidCoordinate(String),
    /// Invalid unit format.
    InvalidUnit(String),
    /// Invalid layer.
    InvalidLayer(String),
    /// Invalid record type.
    InvalidRecord(String),
    /// Missing required data.
    MissingData(String),
    /// Missing required parameter (key present in schema but absent from file).
    MissingParameter(String),
    /// Decompression error (zlib).
    Decompression(String),
    /// Encoding error (Windows-1252 or UTF-8).
    Encoding(String),
    /// Unexpected end of stream.
    UnexpectedEof,
    /// Generic parse error.
    Parse(String),
    /// Validation error for invalid data values.
    Validation(String),
    /// Template application error.
    Template(String),
    /// Query evaluation error.
    Query(String),
    /// No match found for a query.
    NoMatch(String),
    /// Ambiguous match: multiple results where one was expected.
    AmbiguousMatch(usize, String),
    /// CFB (Compound File Binary) format error.
    Cfb(String),
    /// A document of another kind than the operation expects.
    TypeMismatch(String),
    /// A malformed embedded object envelope or stream.
    InvalidEmbeddedObject(String),
    /// A read of `wanted` bytes at `offset` ran past the end of the data.
    BinaryReadPastEnd(usize, usize),
    /// A stream whose header count differs from its records: section,
    /// expected, actual.
    RecordCountMismatch(String, usize, usize),
}

/// Result type alias for Altium operations.
pub type Result<T> = core::result::Result<T, AltiumError>;

/// An owned copy of a string slice.
pub fn text(s: &str) -> (r: String)
    ensures
        r@ == s@,
{
    s.to_owned()
}

/// The concatenation of two string slices.
pub fn text2(a: &str, b: &str) -> (r: String)
    ensures
        r@ == a@ + b@,
{
    let mut r = a.to_owned();
    r.append(b);
    r
}

/// The concatenation of three string slices.
pub fn text3(a: &str, b: &str, c: &str) -> (r: String)
    ensures
        r@ == a@ + b@ + c@,
{
    let mut r = a.to_owned();
    r.append(b);
    r.append(c);
    r
}

/// The text of an ASCII decimal digit byte.
fn digit_text(d: u8) -> (r: &'static str)
    requires
        48 <= d <= 57,
    ensures
        r@ == seq![d as char],
{
    proof {
        reveal_strlit("0");
        reveal_strlit("1");
        reveal_strlit("2");
        reveal_strlit("3");
        reveal_strlit("4");
        reveal_strlit("5");
        reveal_strlit("6");
        reveal_strlit("7");
        reveal_strlit("8");
        reveal_strlit("9");
    }
    if d == 48 {
        "0"
    } else if d == 49 {
        "1"
    } else if d == 50 {
        "2"
    } else if d == 51 {
        "3"
    } else if d == 52 {
        "4"
    } else if d == 53 {
        "5"
    } else if d == 54 {
        "6"
    } else if d == 55 {
        "7"
    } else if d == 56 {
        "8"
    } else {
        "9"
    }
}

/// The decimal text of a natural number.
pub open spec fn decimal_text(n: nat) -> Seq<char> {
    crate::params::decimal_digits(n).map_values(|b: u8| b as char)
}

/// The decimal text of a `usize`.
pub fn usize_text(n: usize) -> (r: String)
    ensures
        r@ == decimal_text(n as nat),
{
    let digits = crate::params::usize_to_decimal(n);
    proof {
        crate::params::lemma_decimal_digits(n as nat);
    }
    let mut r = String::new();
    let mut i: usize = 0;
    while i < digits.len()
        invariant
            i <= digits@.len(),
            crate::params::all_digits(digits@),
            r@ == digits@.take(i as int).map_values(|b: u8| b as char),
        decreases digits@.len() - i,
    {
        let d = digits[i];
        assert(crate::params::is_digit(digits@[i as int]));
        r.append(digit_text(d));
        assert(digits@.take(i + 1).map_values(|b: u8| b as char) =~= digits@.take(i as int).map_values(
            |b: u8| b as char,
        ).push(d as char));
        i = i + 1;
    }
    assert(digits@.take(i as int) =~= digits@);
    r
}

/// The decimal text of an integer, with a leading minus sign when negative.
pub open spec fn signed_decimal_text(v: int) -> Seq<char> {
    if v < 0 {
        seq!['-'] + decimal_text((-v) as nat)
    } else {
        decimal_text(v as nat)
    }
}

/// The decimal text of an `i32`.
pub fn i32_text(v: i32) -> (r: String)
    ensures
        r@ == signed_decimal_text(v as int),
{
    if v < 0 {
        let m: i64 = -(v as i64);
        let digits = usize_text(m as usize);
        let out = text2("-", digits.as_str());
        proof {
            reveal_strlit("-");
            assert(out@ =~= seq!['-'] + decimal_text((-(v as int)) as nat));
        }
        out
    } else {
        usize_text(v as usize)
    }
}

impl AltiumError {
    /// Human-readable message of the error.
    pub fn message(&self) -> (r: String)
        ensures
            self matches AltiumError::Parse(m) ==> r@ == "Parse error: "@ + m@,
            self matches AltiumError::MissingParameter(m) ==> r@ == "Missing parameter: "@ + m@,
    {
        match self {
            AltiumError::Io(m) => text2("I/O error: ", m.as_str()),
            AltiumError::InvalidParameter(m) => text2("Invalid parameter format: ", m.as_str()),
            AltiumError::InvalidCoordinate(m) => text2("Invalid coordinate format: ", m.as_str()),
            AltiumError::InvalidUnit(m) => text2("Invalid unit: ", m.as_str()),
            AltiumError::InvalidLayer(m) => text2("Invalid layer: ", m.as_str()),
            AltiumError::InvalidRecord(m) => text2("Invalid record type: ", m.as_str()),
            AltiumError::MissingData(m) => text2("Missing required data: ", m.as_str()),
            AltiumError::MissingParameter(m) => text2("Missing parameter: ", m.as_str()),
            AltiumError::Decompression(m) => text2("Decompression error: ", m.as_str()),
            AltiumError::Encoding(m) => text2("Encoding error: ", m.as_str()),
            AltiumError::UnexpectedEof => text("Unexpected end of stream"),
            AltiumError::Parse(m) => text2("Parse error: ", m.as_str()),
            AltiumError::Validation(m) => text2("Validation error: ", m.as_str()),
            AltiumError::Template(m) => text2("Template error: ", m.as_str()),
            AltiumError::Query(m) => text2("query error: ", m.as_str()),
            AltiumError::NoMatch(m) => text2("no match found: ", m.as_str()),
            AltiumError::AmbiguousMatch(_, m) => text2("ambiguous match for query ", m.as_str()),
            AltiumError::Cfb(m) => text2("CFB error: ", m.as_str()),
            AltiumError::TypeMismatch(m) => text2("type mismatch: ", m.as_str()),
            AltiumError::InvalidEmbeddedObject(m) => text2("invalid embedded object: ", m.as_str()),
            AltiumError::BinaryReadPastEnd(off, n) => {
                let head = text3("binary read past end: ", usize_text(*n).as_str(), " bytes at offset ");
                text2(head.as_str(), usize_text(*off).as_str())
            },
            AltiumError::RecordCountMismatch(sec, e, a) => {
                let head = text3("record count mismatch in ", sec.as_str(), ": expected ");
                let mid = text3(head.as_str(), usize_text(*e).as_str(), ", got ");
                text2(mid.as_str(), usize_text(*a).as_str())
            },
        }
    }
}

} // verus!
