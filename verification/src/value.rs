//! Typed metadata values, as GGUF stores them.
//!
//! Floating-point values are held as their IEEE-754 bit patterns: that is
//! exactly what the file stores, it round-trips without loss, and turning the
//! bits into a number is left to the caller.
use vstd::prelude::*;

use crate::error::GgufError;

verus! {

/// The type tag of a metadata value, numbered as the file numbers it.
#[derive(Debug, Clone, Copy, PartialEq, Eq, Structural)]
pub enum ValueType {
    U8,
    I8,
    U16,
    I16,
    U32,
    I32,
    F32,
    Bool,
    String,
    Array,
    U64,
    I64,
    F64,
}

/// The value type a tag names, if any.
pub open spec fn value_type_of_tag(tag: u32) -> Option<ValueType> {
    if tag == 0 {
        Some(ValueType::U8)
    } else if tag == 1 {
        Some(ValueType::I8)
    } else if tag == 2 {
        Some(ValueType::U16)
    } else if tag == 3 {
        Some(ValueType::I16)
    } else if tag == 4 {
        Some(ValueType::U32)
    } else if tag == 5 {
        Some(ValueType::I32)
    } else if tag == 6 {
        Some(ValueType::F32)
    } else if tag == 7 {
        Some(ValueType::Bool)
    } else if tag == 8 {
        Some(ValueType::String)
    } else if tag == 9 {
        Some(ValueType::Array)
    } else if tag == 10 {
        Some(ValueType::U64)
    } else if tag == 11 {
        Some(ValueType::I64)
    } else if tag == 12 {
        Some(ValueType::F64)
    } else {
        None
    }
}

/// The tag the file uses for a value type.
pub open spec fn tag_of_value_type(ty: ValueType) -> u32 {
    match ty {
        ValueType::U8 => 0,
        ValueType::I8 => 1,
        ValueType::U16 => 2,
        ValueType::I16 => 3,
        ValueType::U32 => 4,
        ValueType::I32 => 5,
        ValueType::F32 => 6,
        ValueType::Bool => 7,
        ValueType::String => 8,
        ValueType::Array => 9,
        ValueType::U64 => 10,
        ValueType::I64 => 11,
        ValueType::F64 => 12,
    }
}

/// How many bytes one element of this type takes at least: its own width,
/// and for a string its eight-byte length prefix.
pub open spec fn min_size_of(ty: ValueType) -> usize {
    match ty {
        ValueType::U8 | ValueType::I8 | ValueType::Bool => 1,
        ValueType::U16 | ValueType::I16 => 2,
        ValueType::U32 | ValueType::I32 | ValueType::F32 => 4,
        _ => 8,
    }
}

impl ValueType {
    /// The value type a tag names, or `UnknownValueType`.
    pub fn from_u32(tag: u32) -> (r: Result<ValueType, GgufError>)
        ensures
            match value_type_of_tag(tag) {
                Some(ty) => r == Ok::<ValueType, GgufError>(ty),
                None => r matches Err(e) && e@ == crate::error::ErrorModel::UnknownValueType(tag),
            },
    {
        match tag {
            0 => Ok(ValueType::U8),
            1 => Ok(ValueType::I8),
            2 => Ok(ValueType::U16),
            3 => Ok(ValueType::I16),
            4 => Ok(ValueType::U32),
            5 => Ok(ValueType::I32),
            6 => Ok(ValueType::F32),
            7 => Ok(ValueType::Bool),
            8 => Ok(ValueType::String),
            9 => Ok(ValueType::Array),
            10 => Ok(ValueType::U64),
            11 => Ok(ValueType::I64),
            12 => Ok(ValueType::F64),
            _ => Err(GgufError::UnknownValueType(tag)),
        }
    }

    /// The tag the file uses for this type.
    pub fn tag(&self) -> (r: u32)
        ensures
            r == tag_of_value_type(*self),
            value_type_of_tag(r) == Some(*self),
    {
        match self {
            ValueType::U8 => 0,
            ValueType::I8 => 1,
            ValueType::U16 => 2,
            ValueType::I16 => 3,
            ValueType::U32 => 4,
            ValueType::I32 => 5,
            ValueType::F32 => 6,
            ValueType::Bool => 7,
            ValueType::String => 8,
            ValueType::Array => 9,
            ValueType::U64 => 10,
            ValueType::I64 => 11,
            ValueType::F64 => 12,
        }
    }

    /// How many bytes one element of this type takes at least.
    pub fn min_size(&self) -> (r: usize)
        ensures
            r == min_size_of(*self),
    {
        match self {
            ValueType::U8 | ValueType::I8 | ValueType::Bool => 1,
            ValueType::U16 | ValueType::I16 => 2,
            ValueType::U32 | ValueType::I32 | ValueType::F32 => 4,
            _ => 8,
        }
    }
}

/// A homogeneous metadata array. Arrays of arrays do not exist in a file
/// this reader accepts, so there is no variant for them.
#[derive(Debug, Clone, PartialEq)]
pub enum Array {
    U8(Vec<u8>),
    I8(Vec<i8>),
    U16(Vec<u16>),
    I16(Vec<i16>),
    U32(Vec<u32>),
    I32(Vec<i32>),
    /// IEEE-754 single-precision bit patterns.
    F32(Vec<u32>),
    Bool(Vec<bool>),
    String(Vec<String>),
    U64(Vec<u64>),
    I64(Vec<i64>),
    /// IEEE-754 double-precision bit patterns.
    F64(Vec<u64>),
}

/// One metadata value.
#[derive(Debug, Clone, PartialEq)]
pub enum Value {
    U8(u8),
    I8(i8),
    U16(u16),
    I16(i16),
    U32(u32),
    I32(i32),
    /// An IEEE-754 single-precision bit pattern.
    F32(u32),
    Bool(bool),
    String(String),
    Array(Array),
    U64(u64),
    I64(i64),
    /// An IEEE-754 double-precision bit pattern.
    F64(u64),
}

/// An array as a mathematical value.
pub enum ArrayModel {
    U8(Seq<u8>),
    I8(Seq<i8>),
    U16(Seq<u16>),
    I16(Seq<i16>),
    U32(Seq<u32>),
    I32(Seq<i32>),
    F32(Seq<u32>),
    Bool(Seq<bool>),
    String(Seq<Seq<char>>),
    U64(Seq<u64>),
    I64(Seq<i64>),
    F64(Seq<u64>),
}

/// A metadata value as a mathematical value: a string is its characters.
pub enum ValueModel {
    U8(u8),
    I8(i8),
    U16(u16),
    I16(i16),
    U32(u32),
    I32(i32),
    F32(u32),
    Bool(bool),
    String(Seq<char>),
    Array(ArrayModel),
    U64(u64),
    I64(i64),
    F64(u64),
}

/// The characters of each string in a sequence of them.
pub open spec fn strings_view(v: Seq<String>) -> Seq<Seq<char>> {
    v.map_values(|s: String| s@)
}

impl View for Array {
    type V = ArrayModel;

    open spec fn view(&self) -> ArrayModel {
        match self {
            Array::U8(v) => ArrayModel::U8(v@),
            Array::I8(v) => ArrayModel::I8(v@),
            Array::U16(v) => ArrayModel::U16(v@),
            Array::I16(v) => ArrayModel::I16(v@),
            Array::U32(v) => ArrayModel::U32(v@),
            Array::I32(v) => ArrayModel::I32(v@),
            Array::F32(v) => ArrayModel::F32(v@),
            Array::Bool(v) => ArrayModel::Bool(v@),
            Array::String(v) => ArrayModel::String(strings_view(v@)),
            Array::U64(v) => ArrayModel::U64(v@),
            Array::I64(v) => ArrayModel::I64(v@),
            Array::F64(v) => ArrayModel::F64(v@),
        }
    }
}

impl View for Value {
    type V = ValueModel;

    open spec fn view(&self) -> ValueModel {
        match self {
            Value::U8(x) => ValueModel::U8(*x),
            Value::I8(x) => ValueModel::I8(*x),
            Value::U16(x) => ValueModel::U16(*x),
            Value::I16(x) => ValueModel::I16(*x),
            Value::U32(x) => ValueModel::U32(*x),
            Value::I32(x) => ValueModel::I32(*x),
            Value::F32(x) => ValueModel::F32(*x),
            Value::Bool(x) => ValueModel::Bool(*x),
            Value::String(s) => ValueModel::String(s@),
            Value::Array(a) => ValueModel::Array(a@),
            Value::U64(x) => ValueModel::U64(*x),
            Value::I64(x) => ValueModel::I64(*x),
            Value::F64(x) => ValueModel::F64(*x),
        }
    }
}

impl ArrayModel {
    /// The element type.
    pub open spec fn element_type(self) -> ValueType {
        match self {
            ArrayModel::U8(_) => ValueType::U8,
            ArrayModel::I8(_) => ValueType::I8,
            ArrayModel::U16(_) => ValueType::U16,
            ArrayModel::I16(_) => ValueType::I16,
            ArrayModel::U32(_) => ValueType::U32,
            ArrayModel::I32(_) => ValueType::I32,
            ArrayModel::F32(_) => ValueType::F32,
            ArrayModel::Bool(_) => ValueType::Bool,
            ArrayModel::String(_) => ValueType::String,
            ArrayModel::U64(_) => ValueType::U64,
            ArrayModel::I64(_) => ValueType::I64,
            ArrayModel::F64(_) => ValueType::F64,
        }
    }

    /// How many elements.
    pub open spec fn len(self) -> nat {
        match self {
            ArrayModel::U8(v) => v.len(),
            ArrayModel::I8(v) => v.len(),
            ArrayModel::U16(v) => v.len(),
            ArrayModel::I16(v) => v.len(),
            ArrayModel::U32(v) => v.len(),
            ArrayModel::I32(v) => v.len(),
            ArrayModel::F32(v) => v.len(),
            ArrayModel::Bool(v) => v.len(),
            ArrayModel::String(v) => v.len(),
            ArrayModel::U64(v) => v.len(),
            ArrayModel::I64(v) => v.len(),
            ArrayModel::F64(v) => v.len(),
        }
    }
}

impl ValueModel {
    /// The type tag this value is stored under.
    pub open spec fn value_type(self) -> ValueType {
        match self {
            ValueModel::U8(_) => ValueType::U8,
            ValueModel::I8(_) => ValueType::I8,
            ValueModel::U16(_) => ValueType::U16,
            ValueModel::I16(_) => ValueType::I16,
            ValueModel::U32(_) => ValueType::U32,
            ValueModel::I32(_) => ValueType::I32,
            ValueModel::F32(_) => ValueType::F32,
            ValueModel::Bool(_) => ValueType::Bool,
            ValueModel::String(_) => ValueType::String,
            ValueModel::Array(_) => ValueType::Array,
            ValueModel::U64(_) => ValueType::U64,
            ValueModel::I64(_) => ValueType::I64,
            ValueModel::F64(_) => ValueType::F64,
        }
    }

    /// The value as an unsigned integer: any unsigned integer, or a signed
    /// one that is not negative.
    pub open spec fn as_u64(self) -> Option<u64> {
        match self {
            ValueModel::U8(x) => Some(x as u64),
            ValueModel::U16(x) => Some(x as u64),
            ValueModel::U32(x) => Some(x as u64),
            ValueModel::U64(x) => Some(x),
            ValueModel::I8(x) => if x >= 0 { Some(x as u64) } else { None },
            ValueModel::I16(x) => if x >= 0 { Some(x as u64) } else { None },
            ValueModel::I32(x) => if x >= 0 { Some(x as u64) } else { None },
            ValueModel::I64(x) => if x >= 0 { Some(x as u64) } else { None },
            _ => None,
        }
    }

    /// The name of the value's type, as an error reports it.
    pub open spec fn kind_name(self) -> Seq<char> {
        match self {
            ValueModel::U8(_) => "u8"@,
            ValueModel::I8(_) => "i8"@,
            ValueModel::U16(_) => "u16"@,
            ValueModel::I16(_) => "i16"@,
            ValueModel::U32(_) => "u32"@,
            ValueModel::I32(_) => "i32"@,
            ValueModel::F32(_) => "f32"@,
            ValueModel::Bool(_) => "bool"@,
            ValueModel::String(_) => "string"@,
            ValueModel::Array(_) => "array"@,
            ValueModel::U64(_) => "u64"@,
            ValueModel::I64(_) => "i64"@,
            ValueModel::F64(_) => "f64"@,
        }
    }
}

impl Array {
    /// The element type.
    pub fn element_type(&self) -> (r: ValueType)
        ensures
            r == self@.element_type(),
    {
        match self {
            Array::U8(_) => ValueType::U8,
            Array::I8(_) => ValueType::I8,
            Array::U16(_) => ValueType::U16,
            Array::I16(_) => ValueType::I16,
            Array::U32(_) => ValueType::U32,
            Array::I32(_) => ValueType::I32,
            Array::F32(_) => ValueType::F32,
            Array::Bool(_) => ValueType::Bool,
            Array::String(_) => ValueType::String,
            Array::U64(_) => ValueType::U64,
            Array::I64(_) => ValueType::I64,
            Array::F64(_) => ValueType::F64,
        }
    }

    /// How many elements.
    pub fn len(&self) -> (r: usize)
        ensures
            r == self@.len(),
    {
        match self {
            Array::U8(v) => v.len(),
            Array::I8(v) => v.len(),
            Array::U16(v) => v.len(),
            Array::I16(v) => v.len(),
            Array::U32(v) => v.len(),
            Array::I32(v) => v.len(),
            Array::F32(v) => v.len(),
            Array::Bool(v) => v.len(),
            Array::String(v) => v.len(),
            Array::U64(v) => v.len(),
            Array::I64(v) => v.len(),
            Array::F64(v) => v.len(),
        }
    }

    /// Whether there are no elements.
    pub fn is_empty(&self) -> (r: bool)
        ensures
            r == (self@.len() == 0),
    {
        self.len() == 0
    }
}

impl Value {
    /// The type tag this value is stored under.
    pub fn value_type(&self) -> (r: ValueType)
        ensures
            r == self@.value_type(),
    {
        match self {
            Value::U8(_) => ValueType::U8,
            Value::I8(_) => ValueType::I8,
            Value::U16(_) => ValueType::U16,
            Value::I16(_) => ValueType::I16,
            Value::U32(_) => ValueType::U32,
            Value::I32(_) => ValueType::I32,
            Value::F32(_) => ValueType::F32,
            Value::Bool(_) => ValueType::Bool,
            Value::String(_) => ValueType::String,
            Value::Array(_) => ValueType::Array,
            Value::U64(_) => ValueType::U64,
            Value::I64(_) => ValueType::I64,
            Value::F64(_) => ValueType::F64,
        }
    }

    /// The value as an unsigned integer: any unsigned integer, or a signed
    /// one that is not negative.
    pub fn as_u64(&self) -> (r: Option<u64>)
        ensures
            r == self@.as_u64(),
    {
        match self {
            Value::U8(x) => Some(*x as u64),
            Value::U16(x) => Some(*x as u64),
            Value::U32(x) => Some(*x as u64),
            Value::U64(x) => Some(*x),
            Value::I8(x) => if *x >= 0 { Some(*x as u64) } else { None },
            Value::I16(x) => if *x >= 0 { Some(*x as u64) } else { None },
            Value::I32(x) => if *x >= 0 { Some(*x as u64) } else { None },
            Value::I64(x) => if *x >= 0 { Some(*x as u64) } else { None },
            _ => None,
        }
    }

    /// The value as a string, if it is one.
    pub fn as_str(&self) -> (r: Option<&str>)
        ensures
            match self@ {
                ValueModel::String(s) => r matches Some(t) && t@ == s,
                _ => r is None,
            },
    {
        match self {
            Value::String(s) => Some(s.as_str()),
            _ => None,
        }
    }

    /// The value as a boolean, if it is one.
    pub fn as_bool(&self) -> (r: Option<bool>)
        ensures
            match self@ {
                ValueModel::Bool(b) => r == Some(b),
                _ => r is None,
            },
    {
        match self {
            Value::Bool(b) => Some(*b),
            _ => None,
        }
    }

    /// The value as an array, if it is one.
    pub fn as_array(&self) -> (r: Option<&Array>)
        ensures
            match self@ {
                ValueModel::Array(a) => r matches Some(x) && x@ == a,
                _ => r is None,
            },
    {
        match self {
            Value::Array(a) => Some(a),
            _ => None,
        }
    }

    /// The name of the value's type, as an error reports it.
    pub fn type_str(&self) -> (r: &'static str)
        ensures
            r@ == self@.kind_name(),
    {
        match self {
            Value::U8(_) => "u8",
            Value::I8(_) => "i8",
            Value::U16(_) => "u16",
            Value::I16(_) => "i16",
            Value::U32(_) => "u32",
            Value::I32(_) => "i32",
            Value::F32(_) => "f32",
            Value::Bool(_) => "bool",
            Value::String(_) => "string",
            Value::Array(_) => "array",
            Value::U64(_) => "u64",
            Value::I64(_) => "i64",
            Value::F64(_) => "f64",
        }
    }
}

} // verus!
