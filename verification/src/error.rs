//! Every way a GGUF header can fail to be one.
use vstd::prelude::*;

use crate::text::{decimal, decimal_list, hex_digits, Text};

verus! {

/// Every way a GGUF header can fail to be one.
///
/// A parser reads numbers out of a file it has not verified and then
/// allocates according to them, so most of these are about refusing to do
/// that: a length that does not fit the machine, a count larger than the bytes
/// that could hold it, a product that overflows.
#[derive(Debug, Clone, PartialEq, Eq)]
pub enum GgufError {
    /// A file could not be opened or read.
    Io(String),
    BadMagic(u32),
    UnsupportedVersion(u32, &'static [u32]),
    UnknownValueType(u32),
    UnknownGgmlType(u32),
    /// A tensor format tag that the format table does not know.
    UnknownDtype(u32),
    BadUtf8,
    MissingKey(String),
    TypeMismatch { key: String, expected: &'static str, actual: &'static str },
    Truncated { offset: u64, needed: u64 },
    NestedArray(String),
    TooManyDims { name: String, n_dims: u32 },
    NotBlockAligned { name: String, block: usize, numel: u64 },
    /// A count or length past what this parser will accept. `limit` is either
    /// a `ParseLimits` field or the bytes actually available, whichever bound
    /// it broke.
    TooLarge { what: &'static str, value: u64, limit: u64 },
    /// The same metadata key or tensor name twice.
    Duplicate { what: &'static str, name: String },
    /// `general.alignment` that is zero, or not a power of two.
    BadAlignment(u64),
    /// Arithmetic on values from the file left the range they must stay in.
    Overflow(&'static str),
    /// A length that does not fit this machine's `usize`.
    TooLargeForMachine(u64),
}

/// A `GgufError` as a mathematical value: every string becomes its characters.
pub enum ErrorModel {
    Io(Seq<char>),
    BadMagic(u32),
    UnsupportedVersion(u32, Seq<u32>),
    UnknownValueType(u32),
    UnknownGgmlType(u32),
    UnknownDtype(u32),
    BadUtf8,
    MissingKey(Seq<char>),
    TypeMismatch { key: Seq<char>, expected: Seq<char>, actual: Seq<char> },
    Truncated { offset: u64, needed: u64 },
    NestedArray(Seq<char>),
    TooManyDims { name: Seq<char>, n_dims: u32 },
    NotBlockAligned { name: Seq<char>, block: usize, numel: u64 },
    TooLarge { what: Seq<char>, value: u64, limit: u64 },
    Duplicate { what: Seq<char>, name: Seq<char> },
    BadAlignment(u64),
    Overflow(Seq<char>),
    TooLargeForMachine(u64),
}

impl View for GgufError {
    type V = ErrorModel;

    open spec fn view(&self) -> ErrorModel {
        match self {
            GgufError::Io(s) => ErrorModel::Io(s@),
            GgufError::BadMagic(m) => ErrorModel::BadMagic(*m),
            GgufError::UnsupportedVersion(v, ok) => ErrorModel::UnsupportedVersion(*v, ok@),
            GgufError::UnknownValueType(t) => ErrorModel::UnknownValueType(*t),
            GgufError::UnknownGgmlType(t) => ErrorModel::UnknownGgmlType(*t),
            GgufError::UnknownDtype(t) => ErrorModel::UnknownDtype(*t),
            GgufError::BadUtf8 => ErrorModel::BadUtf8,
            GgufError::MissingKey(k) => ErrorModel::MissingKey(k@),
            GgufError::TypeMismatch { key, expected, actual } => ErrorModel::TypeMismatch {
                key: key@,
                expected: expected@,
                actual: actual@,
            },
            GgufError::Truncated { offset, needed } => ErrorModel::Truncated {
                offset: *offset,
                needed: *needed,
            },
            GgufError::NestedArray(k) => ErrorModel::NestedArray(k@),
            GgufError::TooManyDims { name, n_dims } => ErrorModel::TooManyDims {
                name: name@,
                n_dims: *n_dims,
            },
            GgufError::NotBlockAligned { name, block, numel } => ErrorModel::NotBlockAligned {
                name: name@,
                block: *block,
                numel: *numel,
            },
            GgufError::TooLarge { what, value, limit } => ErrorModel::TooLarge {
                what: what@,
                value: *value,
                limit: *limit,
            },
            GgufError::Duplicate { what, name } => ErrorModel::Duplicate {
                what: what@,
                name: name@,
            },
            GgufError::BadAlignment(a) => ErrorModel::BadAlignment(*a),
            GgufError::Overflow(what) => ErrorModel::Overflow(what@),
            GgufError::TooLargeForMachine(v) => ErrorModel::TooLargeForMachine(*v),
        }
    }
}

/// Whether `r` failed with an error whose value is `e`.
pub open spec fn fails_with<T>(r: Result<T, GgufError>, e: ErrorModel) -> bool {
    r matches Err(x) && x@ == e
}

/// What an error says, in words: the numbers in it in decimal, a bad magic
/// number as eight hexadecimal digits, the supported versions as a list.
pub open spec fn message_spec(e: ErrorModel) -> Seq<char> {
    match e {
        ErrorModel::Io(s) => "io error: "@ + s,
        ErrorModel::BadMagic(m) => "not a GGUF file: bad magic 0x"@ + hex_digits(m as nat, 8),
        ErrorModel::UnsupportedVersion(v, ok) => "unsupported GGUF version "@ + decimal(v as nat)
            + " (supported: "@ + decimal_list(ok) + ")"@,
        ErrorModel::UnknownValueType(t) => "unknown ValueType tag "@ + decimal(t as nat),
        ErrorModel::UnknownGgmlType(t) => "unknown ggml dtype tag "@ + decimal(t as nat),
        ErrorModel::UnknownDtype(t) => "unknown ggml dtype tag "@ + decimal(t as nat),
        ErrorModel::BadUtf8 => "string was not valid UTF-8"@,
        ErrorModel::MissingKey(k) => "expected metadata key `"@ + k + "` was not found"@,
        ErrorModel::TypeMismatch { key, expected, actual } => "metadata key `"@ + key
            + "` had wrong type: expected "@ + expected + ", got "@ + actual,
        ErrorModel::Truncated { offset, needed } => "file truncated: needed "@ + decimal(
            needed as nat,
        ) + " more bytes at offset "@ + decimal(offset as nat),
        ErrorModel::NestedArray(k) => "nested arrays of arrays are not supported (key `"@ + k
            + "`)"@,
        ErrorModel::TooManyDims { name, n_dims } => "tensor `"@ + name + "` has unsupported "@
            + decimal(n_dims as nat) + " dimensions (max 4)"@,
        ErrorModel::NotBlockAligned { name, block, numel } => "tensor `"@ + name
            + "` length not a multiple of block size "@ + decimal(block as nat) + " (numel = "@
            + decimal(numel as nat) + ")"@,
        ErrorModel::TooLarge { what, value, limit } => what + " is "@ + decimal(value as nat)
            + ", past the limit of "@ + decimal(limit as nat),
        ErrorModel::Duplicate { what, name } => "duplicate "@ + what + ": `"@ + name + "`"@,
        ErrorModel::BadAlignment(a) => "general.alignment is "@ + decimal(a as nat)
            + "; it must be a power of two above zero"@,
        ErrorModel::Overflow(what) => what + " overflowed"@,
        ErrorModel::TooLargeForMachine(v) => "length "@ + decimal(v as nat)
            + " does not fit this machine's pointer width"@,
    }
}

impl GgufError {
    /// What this error says, in words; see `message_spec`.
    pub fn message(&self) -> (r: String)
        ensures
            r@ == message_spec(self@),
    {
        let mut t = Text::new();
        match self {
            GgufError::Io(s) => {
                t.push_str("io error: ");
                t.push_str(s.as_str());
            },
            GgufError::BadMagic(m) => {
                t.push_str("not a GGUF file: bad magic 0x");
                t.push_hex(*m as u64, 8);
            },
            GgufError::UnsupportedVersion(v, ok) => {
                t.push_str("unsupported GGUF version ");
                t.push_decimal(*v as u64);
                t.push_str(" (supported: ");
                t.push_decimal_list(ok);
                t.push_str(")");
            },
            GgufError::UnknownValueType(x) => {
                t.push_str("unknown ValueType tag ");
                t.push_decimal(*x as u64);
            },
            GgufError::UnknownGgmlType(x) => {
                t.push_str("unknown ggml dtype tag ");
                t.push_decimal(*x as u64);
            },
            GgufError::UnknownDtype(x) => {
                t.push_str("unknown ggml dtype tag ");
                t.push_decimal(*x as u64);
            },
            GgufError::BadUtf8 => {
                t.push_str("string was not valid UTF-8");
            },
            GgufError::MissingKey(k) => {
                t.push_str("expected metadata key `");
                t.push_str(k.as_str());
                t.push_str("` was not found");
            },
            GgufError::TypeMismatch { key, expected, actual } => {
                t.push_str("metadata key `");
                t.push_str(key.as_str());
                t.push_str("` had wrong type: expected ");
                t.push_str(expected);
                t.push_str(", got ");
                t.push_str(actual);
            },
            GgufError::Truncated { offset, needed } => {
                t.push_str("file truncated: needed ");
                t.push_decimal(*needed);
                t.push_str(" more bytes at offset ");
                t.push_decimal(*offset);
            },
            GgufError::NestedArray(k) => {
                t.push_str("nested arrays of arrays are not supported (key `");
                t.push_str(k.as_str());
                t.push_str("`)");
            },
            GgufError::TooManyDims { name, n_dims } => {
                t.push_str("tensor `");
                t.push_str(name.as_str());
                t.push_str("` has unsupported ");
                t.push_decimal(*n_dims as u64);
                t.push_str(" dimensions (max 4)");
            },
            GgufError::NotBlockAligned { name, block, numel } => {
                t.push_str("tensor `");
                t.push_str(name.as_str());
                t.push_str("` length not a multiple of block size ");
                t.push_decimal(*block as u64);
                t.push_str(" (numel = ");
                t.push_decimal(*numel);
                t.push_str(")");
            },
            GgufError::TooLarge { what, value, limit } => {
                t.push_str(what);
                t.push_str(" is ");
                t.push_decimal(*value);
                t.push_str(", past the limit of ");
                t.push_decimal(*limit);
            },
            GgufError::Duplicate { what, name } => {
                t.push_str("duplicate ");
                t.push_str(what);
                t.push_str(": `");
                t.push_str(name.as_str());
                t.push_str("`");
            },
            GgufError::BadAlignment(a) => {
                t.push_str("general.alignment is ");
                t.push_decimal(*a);
                t.push_str("; it must be a power of two above zero");
            },
            GgufError::Overflow(what) => {
                t.push_str(what);
                t.push_str(" overflowed");
            },
            GgufError::TooLargeForMachine(v) => {
                t.push_str("length ");
                t.push_decimal(*v);
                t.push_str(" does not fit this machine's pointer width");
            },
        }
        t.into_string()
    }

    /// Whether reading more of the file could change this answer.
    ///
    /// Only truncation says "read more". A count past `ParseLimits`, a bad
    /// magic, an unknown version or a duplicate name are all final.
    pub fn needs_more_bytes(&self) -> (r: bool)
        ensures
            r == (self is Truncated),
    {
        match self {
            GgufError::Truncated { .. } => true,
            _ => false,
        }
    }
}

} // verus!
