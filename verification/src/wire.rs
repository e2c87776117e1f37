//! What the bytes of a GGUF file mean, stated as laws on the bytes
//! themselves: numbers are little-endian, each value type has its fixed tag
//! (0 u8, 1 i8, 2 u16, 3 i16, 4 u32, 5 i32, 6 f32, 7 bool, 8 string,
//! 9 array, 10 u64, 11 i64, 12 f64), and a boolean is one byte, nonzero
//! read as true and written as 1.
use vstd::prelude::*;
use vstd::utf8::*;

use crate::bytes::{le16, le32, le64, u32_bytes, u64_bytes};
use crate::error::ErrorModel;
use crate::format::{array_at, array_limit, kv_at, string_at};
use crate::reader::ParseLimits;
use crate::value::{ArrayModel, ValueModel};
use crate::writer::{array_bytes, concat_map, string_bytes, value_bytes};

verus! {

/// Numbers are little-endian: the byte at `i` counts once, the next 256
/// times, and so on.
pub proof fn law_little_endian(b: Seq<u8>, i: int)
    requires
        0 <= i,
    ensures
        i + 2 <= b.len() ==> le16(b, i) == b[i] + 256 * b[i + 1],
        i + 4 <= b.len() ==> le32(b, i) == b[i] + 256 * b[i + 1] + 65536 * b[i + 2] + 16777216 * b[i
            + 3],
        i + 8 <= b.len() ==> le64(b, i) == b[i] + 256 * b[i + 1] + 65536 * b[i + 2] + 16777216 * b[i
            + 3] + 4294967296 * b[i + 4] + 1099511627776 * b[i + 5] + 281474976710656 * b[i + 6]
            + 72057594037927936 * b[i + 7],
{
}

/// A metadata entry whose key has been read and whose four tag bytes are
/// `t, 0, 0, 0` holds a value of the type GGUF gives tag `t`, read from the
/// bytes right after the tag: one byte for u8, i8 and bool (nonzero is
/// true), two for u16 and i16, four for u32, i32 and f32, eight for u64, i64
/// and f64, a string, or an array; a tag past 12 is refused.
pub proof fn law_entry_value_by_tag(
    b: Seq<u8>,
    pos: int,
    limits: ParseLimits,
    key: Seq<char>,
    p1: int,
)
    requires
        0 <= pos,
        string_at(b, pos, limits) == Ok::<(Seq<char>, int), ErrorModel>((key, p1)),
        p1 + 4 <= b.len(),
        b[p1 + 1] == 0,
        b[p1 + 2] == 0,
        b[p1 + 3] == 0,
    ensures
        ({
            let t = b[p1];
            let p = p1 + 4;
            let r = kv_at(b, pos, limits);
            &&& t == 0 && p + 1 <= b.len() ==> r == Ok::<((Seq<char>, ValueModel), int), ErrorModel>(
                ((key, ValueModel::U8(b[p])), p + 1),
            )
            &&& t == 1 && p + 1 <= b.len() ==> r == Ok::<((Seq<char>, ValueModel), int), ErrorModel>(
                ((key, ValueModel::I8(b[p] as i8)), p + 1),
            )
            &&& t == 2 && p + 2 <= b.len() ==> r == Ok::<((Seq<char>, ValueModel), int), ErrorModel>(
                ((key, ValueModel::U16(le16(b, p))), p + 2),
            )
            &&& t == 3 && p + 2 <= b.len() ==> r == Ok::<((Seq<char>, ValueModel), int), ErrorModel>(
                ((key, ValueModel::I16(le16(b, p) as i16)), p + 2),
            )
            &&& t == 4 && p + 4 <= b.len() ==> r == Ok::<((Seq<char>, ValueModel), int), ErrorModel>(
                ((key, ValueModel::U32(le32(b, p))), p + 4),
            )
            &&& t == 5 && p + 4 <= b.len() ==> r == Ok::<((Seq<char>, ValueModel), int), ErrorModel>(
                ((key, ValueModel::I32(le32(b, p) as i32)), p + 4),
            )
            &&& t == 6 && p + 4 <= b.len() ==> r == Ok::<((Seq<char>, ValueModel), int), ErrorModel>(
                ((key, ValueModel::F32(le32(b, p))), p + 4),
            )
            &&& t == 7 && p + 1 <= b.len() ==> r == Ok::<((Seq<char>, ValueModel), int), ErrorModel>(
                ((key, ValueModel::Bool(b[p] != 0)), p + 1),
            )
            &&& t == 8 ==> r == match string_at(b, p, limits) {
                Ok((s, q)) => Ok::<((Seq<char>, ValueModel), int), ErrorModel>(
                    ((key, ValueModel::String(s)), q),
                ),
                Err(e) => Err(e),
            }
            &&& t == 9 ==> r == match array_at(b, p, limits, key) {
                Ok((a, q)) => Ok::<((Seq<char>, ValueModel), int), ErrorModel>(
                    ((key, ValueModel::Array(a)), q),
                ),
                Err(e) => Err(e),
            }
            &&& t == 10 && p + 8 <= b.len() ==> r == Ok::<((Seq<char>, ValueModel), int), ErrorModel>(
                ((key, ValueModel::U64(le64(b, p))), p + 8),
            )
            &&& t == 11 && p + 8 <= b.len() ==> r == Ok::<((Seq<char>, ValueModel), int), ErrorModel>(
                ((key, ValueModel::I64(le64(b, p) as i64)), p + 8),
            )
            &&& t == 12 && p + 8 <= b.len() ==> r == Ok::<((Seq<char>, ValueModel), int), ErrorModel>(
                ((key, ValueModel::F64(le64(b, p))), p + 8),
            )
            &&& t > 12 ==> r == Err::<((Seq<char>, ValueModel), int), ErrorModel>(
                ErrorModel::UnknownValueType(t as u32),
            )
        }),
{
    law_little_endian(b, p1);
    assert(le32(b, p1) == b[p1]);
}


/// Whether `n` elements of `w` bytes each fit in what remains after `p` and
/// within the limits.
pub open spec fn count_fits(b: Seq<u8>, p: int, n: u64, w: int, limits: ParseLimits) -> bool {
    &&& n * w <= b.len() - p
    &&& n <= limits.max_array_len
    &&& n <= usize::MAX
}

/// An array whose four tag bytes are `t, 0, 0, 0` and whose eight count
/// bytes say `n` holds `n` elements of the type GGUF gives tag `t`, read one
/// after another from the bytes right after the count: one byte each for u8,
/// i8 and bool (nonzero is true), two for u16 and i16, four for u32, i32 and
/// f32, eight for u64, i64 and f64, or strings; an array of arrays and a tag
/// past 12 are refused.
pub proof fn law_array_elements_by_tag(b: Seq<u8>, pos: int, limits: ParseLimits, key: Seq<char>)
    requires
        0 <= pos,
        pos + 12 <= b.len(),
        b.len() <= usize::MAX,
        b[pos + 1] == 0,
        b[pos + 2] == 0,
        b[pos + 3] == 0,
    ensures
        ({
            let t = b[pos];
            let n = le64(b, pos + 4);
            let p = pos + 12;
            let r = array_at(b, pos, limits, key);
            &&& t == 0 && count_fits(b, p, n, 1, limits) ==> r == Ok::<(ArrayModel, int), ErrorModel>(
                (ArrayModel::U8(Seq::new(n as nat, |i: int| b[p + i])), p + n),
            )
            &&& t == 1 && count_fits(b, p, n, 1, limits) ==> r == Ok::<(ArrayModel, int), ErrorModel>(
                (ArrayModel::I8(Seq::new(n as nat, |i: int| b[p + i] as i8)), p + n),
            )
            &&& t == 2 && count_fits(b, p, n, 2, limits) ==> r == Ok::<(ArrayModel, int), ErrorModel>(
                (ArrayModel::U16(Seq::new(n as nat, |i: int| le16(b, p + 2 * i))), p + 2 * n),
            )
            &&& t == 3 && count_fits(b, p, n, 2, limits) ==> r == Ok::<(ArrayModel, int), ErrorModel>(
                (ArrayModel::I16(Seq::new(n as nat, |i: int| le16(b, p + 2 * i) as i16)), p + 2 * n),
            )
            &&& t == 4 && count_fits(b, p, n, 4, limits) ==> r == Ok::<(ArrayModel, int), ErrorModel>(
                (ArrayModel::U32(Seq::new(n as nat, |i: int| le32(b, p + 4 * i))), p + 4 * n),
            )
            &&& t == 5 && count_fits(b, p, n, 4, limits) ==> r == Ok::<(ArrayModel, int), ErrorModel>(
                (ArrayModel::I32(Seq::new(n as nat, |i: int| le32(b, p + 4 * i) as i32)), p + 4 * n),
            )
            &&& t == 6 && count_fits(b, p, n, 4, limits) ==> r == Ok::<(ArrayModel, int), ErrorModel>(
                (ArrayModel::F32(Seq::new(n as nat, |i: int| le32(b, p + 4 * i))), p + 4 * n),
            )
            &&& t == 7 && count_fits(b, p, n, 1, limits) ==> r == Ok::<(ArrayModel, int), ErrorModel>(
                (ArrayModel::Bool(Seq::new(n as nat, |i: int| b[p + i] != 0)), p + n),
            )
            &&& t == 8 && count_fits(b, p, n, 8, limits) ==> r == match crate::format::strings_at(
                b,
                p,
                limits,
                n as nat,
            ) {
                Ok((v, q)) => Ok::<(ArrayModel, int), ErrorModel>((ArrayModel::String(v), q)),
                Err(e) => Err(e),
            }
            &&& t == 9 ==> r == Err::<(ArrayModel, int), ErrorModel>(ErrorModel::NestedArray(key))
            &&& t == 10 && count_fits(b, p, n, 8, limits) ==> r == Ok::<(ArrayModel, int), ErrorModel>(
                (ArrayModel::U64(Seq::new(n as nat, |i: int| le64(b, p + 8 * i))), p + 8 * n),
            )
            &&& t == 11 && count_fits(b, p, n, 8, limits) ==> r == Ok::<(ArrayModel, int), ErrorModel>(
                (ArrayModel::I64(Seq::new(n as nat, |i: int| le64(b, p + 8 * i) as i64)), p + 8 * n),
            )
            &&& t == 12 && count_fits(b, p, n, 8, limits) ==> r == Ok::<(ArrayModel, int), ErrorModel>(
                (ArrayModel::F64(Seq::new(n as nat, |i: int| le64(b, p + 8 * i))), p + 8 * n),
            )
            &&& t > 12 ==> r == Err::<(ArrayModel, int), ErrorModel>(
                ErrorModel::UnknownValueType(t as u32),
            )
        }),
{
    law_little_endian(b, pos);
    assert(le32(b, pos) == b[pos]);
    let n = le64(b, pos + 4);
    let p = pos + 12;
    let rem = b.len() - p;
    assert forall|w: int| 1 <= w <= 8 && n * w <= rem implies n <= array_limit(
        rem,
        w,
        limits.max_array_len,
    ) || n > limits.max_array_len by {
        crate::roundtrip::lemma_count_fits(n as int, w, rem);
    }
}


/// The four bytes of a type tag below 256: the tag, then three zeros.
pub open spec fn tag_bytes(t: u8) -> Seq<u8> {
    seq![t, 0u8, 0u8, 0u8]
}

proof fn lemma_tag_bytes(t: u8)
    ensures
        u32_bytes(t as u32) == tag_bytes(t),
{
    assert(u32_bytes(t as u32) =~= tag_bytes(t));
}

/// A written value is its type's GGUF tag, then its bytes: u8 and i8 as one
/// byte, a boolean as the byte 1 for true and 0 for false, u16 and i16 as
/// two little-endian bytes, u32, i32 and f32 as four, u64, i64 and f64 as
/// eight, a string as its byte length and its UTF-8 bytes, an array as its
/// element type's tag, its length and its elements.
pub proof fn law_written_value(v: ValueModel)
    ensures
        v matches ValueModel::U8(x) ==> value_bytes(v) == tag_bytes(0) + seq![x],
        v matches ValueModel::I8(x) ==> value_bytes(v) == tag_bytes(1) + seq![x as u8],
        v matches ValueModel::U16(x) ==> value_bytes(v) == tag_bytes(2) + seq![
            (x % 256) as u8,
            (x / 256) as u8,
        ],
        v matches ValueModel::I16(x) ==> value_bytes(v) == tag_bytes(3) + seq![
            ((x as u16) % 256) as u8,
            ((x as u16) / 256) as u8,
        ],
        v matches ValueModel::U32(x) ==> value_bytes(v) == tag_bytes(4) + u32_bytes(x),
        v matches ValueModel::I32(x) ==> value_bytes(v) == tag_bytes(5) + u32_bytes(x as u32),
        v matches ValueModel::F32(x) ==> value_bytes(v) == tag_bytes(6) + u32_bytes(x),
        v matches ValueModel::Bool(x) ==> value_bytes(v) == tag_bytes(7) + seq![
            if x {
                1u8
            } else {
                0u8
            },
        ],
        v matches ValueModel::String(s) ==> value_bytes(v) == tag_bytes(8) + u64_bytes(
            encode_utf8(s).len() as u64,
        ) + encode_utf8(s),
        v matches ValueModel::Array(a) ==> value_bytes(v) == tag_bytes(9) + array_bytes(a),
        v matches ValueModel::U64(x) ==> value_bytes(v) == tag_bytes(10) + u64_bytes(x),
        v matches ValueModel::I64(x) ==> value_bytes(v) == tag_bytes(11) + u64_bytes(x as u64),
        v matches ValueModel::F64(x) ==> value_bytes(v) == tag_bytes(12) + u64_bytes(x),
{
    lemma_tag_bytes(0);
    lemma_tag_bytes(1);
    lemma_tag_bytes(2);
    lemma_tag_bytes(3);
    lemma_tag_bytes(4);
    lemma_tag_bytes(5);
    lemma_tag_bytes(6);
    lemma_tag_bytes(7);
    lemma_tag_bytes(8);
    lemma_tag_bytes(9);
    lemma_tag_bytes(10);
    lemma_tag_bytes(11);
    lemma_tag_bytes(12);
    match v {
        ValueModel::U16(x) => {
            assert(crate::bytes::u16_bytes(x) =~= seq![(x % 256) as u8, (x / 256) as u8]);
        },
        ValueModel::I16(x) => {
            assert(crate::bytes::u16_bytes(x as u16) =~= seq![
                ((x as u16) % 256) as u8,
                ((x as u16) / 256) as u8,
            ]);
        },
        _ => {},
    }
}

/// A written array is its element type's GGUF tag, its length as eight
/// little-endian bytes, then its elements: booleans as the byte 1 for true
/// and 0 for false, bytes as themselves, wider numbers little-endian one
/// after another, strings each with its byte length.
pub proof fn law_written_array(a: ArrayModel)
    ensures
        a matches ArrayModel::U8(v) ==> array_bytes(a) == tag_bytes(0) + u64_bytes(v.len() as u64)
            + v,
        a matches ArrayModel::I8(v) ==> array_bytes(a) == tag_bytes(1) + u64_bytes(v.len() as u64)
            + Seq::new(v.len(), |i: int| v[i] as u8),
        a matches ArrayModel::U16(v) ==> array_bytes(a) == tag_bytes(2) + u64_bytes(v.len() as u64)
            + concat_map(v, |x: u16| crate::bytes::u16_bytes(x)),
        a matches ArrayModel::I16(v) ==> array_bytes(a) == tag_bytes(3) + u64_bytes(v.len() as u64)
            + concat_map(v, |x: i16| crate::bytes::u16_bytes(x as u16)),
        a matches ArrayModel::U32(v) ==> array_bytes(a) == tag_bytes(4) + u64_bytes(v.len() as u64)
            + concat_map(v, |x: u32| u32_bytes(x)),
        a matches ArrayModel::I32(v) ==> array_bytes(a) == tag_bytes(5) + u64_bytes(v.len() as u64)
            + concat_map(v, |x: i32| u32_bytes(x as u32)),
        a matches ArrayModel::F32(v) ==> array_bytes(a) == tag_bytes(6) + u64_bytes(v.len() as u64)
            + concat_map(v, |x: u32| u32_bytes(x)),
        a matches ArrayModel::Bool(v) ==> array_bytes(a) == tag_bytes(7) + u64_bytes(v.len() as u64)
            + Seq::new(
            v.len(),
            |i: int|
                if v[i] {
                    1u8
                } else {
                    0u8
                },
        ),
        a matches ArrayModel::String(v) ==> array_bytes(a) == tag_bytes(8) + u64_bytes(
            v.len() as u64,
        ) + concat_map(v, |s: Seq<char>| string_bytes(s)),
        a matches ArrayModel::U64(v) ==> array_bytes(a) == tag_bytes(10) + u64_bytes(v.len() as u64)
            + concat_map(v, |x: u64| u64_bytes(x)),
        a matches ArrayModel::I64(v) ==> array_bytes(a) == tag_bytes(11) + u64_bytes(v.len() as u64)
            + concat_map(v, |x: i64| u64_bytes(x as u64)),
        a matches ArrayModel::F64(v) ==> array_bytes(a) == tag_bytes(12) + u64_bytes(v.len() as u64)
            + concat_map(v, |x: u64| u64_bytes(x)),
{
    lemma_tag_bytes(0);
    lemma_tag_bytes(1);
    lemma_tag_bytes(2);
    lemma_tag_bytes(3);
    lemma_tag_bytes(4);
    lemma_tag_bytes(5);
    lemma_tag_bytes(6);
    lemma_tag_bytes(7);
    lemma_tag_bytes(8);
    lemma_tag_bytes(10);
    lemma_tag_bytes(11);
    lemma_tag_bytes(12);
    match a {
        ArrayModel::I8(v) => {
            assert(v.map_values(|x: i8| x as u8) =~= Seq::new(v.len(), |i: int| v[i] as u8));
        },
        ArrayModel::Bool(v) => {
            assert(v.map_values(|x: bool| crate::writer::bool_byte(x)) =~= Seq::new(
                v.len(),
                |i: int|
                    if v[i] {
                        1u8
                    } else {
                        0u8
                    },
            ));
        },
        _ => {},
    }
}

} // verus!
