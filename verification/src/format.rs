//! The GGUF header format, stated as functions on bytes.
//!
//! Each function here reads one part of a header starting at a position and
//! gives back what it found and where the next part starts, or the error a
//! reader reports there. The parser in `reader` is proved to compute exactly
//! `parse_spec`.
use vstd::prelude::*;
use vstd::utf8::*;

use crate::bytes::{le16, le32, le64};
use crate::error::ErrorModel;
use crate::order::{
    by_key, law_metadata_in_key_order, lemma_by_key_entries, lemma_sorted_keys_differ, sorted_by_key,
};
use crate::reader::ParseLimits;
use crate::tensor::{
    checked_product, dims_product, effective_block, lemma_checked_product_is_exact,
    lemma_checked_product_is_sat_product, lookup_layout, sat_mul, DtypeLayout, TensorModel,
};
use crate::value::{min_size_of, value_type_of_tag, ArrayModel, ValueModel, ValueType};
use crate::{supported_versions_spec, DEFAULT_ALIGNMENT, GGUF_MAGIC};

verus! {

/// `n` bytes at `pos`: where they end, or how many bytes are missing.
pub open spec fn take_spec(b: Seq<u8>, pos: int, n: int) -> Result<int, ErrorModel> {
    if pos + n <= b.len() {
        Ok(pos + n)
    } else {
        Err(ErrorModel::Truncated { offset: pos as u64, needed: (n - (b.len() - pos)) as u64 })
    }
}

/// A byte at `pos`.
pub open spec fn u8_at(b: Seq<u8>, pos: int) -> Result<(u8, int), ErrorModel> {
    match take_spec(b, pos, 1) {
        Ok(p) => Ok((b[pos], p)),
        Err(e) => Err(e),
    }
}

/// A little-endian `u16` at `pos`.
pub open spec fn u16_at(b: Seq<u8>, pos: int) -> Result<(u16, int), ErrorModel> {
    match take_spec(b, pos, 2) {
        Ok(p) => Ok((le16(b, pos), p)),
        Err(e) => Err(e),
    }
}

/// A little-endian `u32` at `pos`.
pub open spec fn u32_at(b: Seq<u8>, pos: int) -> Result<(u32, int), ErrorModel> {
    match take_spec(b, pos, 4) {
        Ok(p) => Ok((le32(b, pos), p)),
        Err(e) => Err(e),
    }
}

/// A little-endian `u64` at `pos`.
pub open spec fn u64_at(b: Seq<u8>, pos: int) -> Result<(u64, int), ErrorModel> {
    match take_spec(b, pos, 8) {
        Ok(p) => Ok((le64(b, pos), p)),
        Err(e) => Err(e),
    }
}

/// A string at `pos`: a `u64` byte length, then that many bytes of UTF-8.
pub open spec fn string_at(b: Seq<u8>, pos: int, limits: ParseLimits) -> Result<
    (Seq<char>, int),
    ErrorModel,
> {
    match u64_at(b, pos) {
        Err(e) => Err(e),
        Ok((len, p)) => if len > limits.max_string_bytes {
            Err(
                ErrorModel::TooLarge {
                    what: "string length"@,
                    value: len,
                    limit: limits.max_string_bytes,
                },
            )
        } else if len > usize::MAX {
            Err(ErrorModel::TooLargeForMachine(len))
        } else {
            match take_spec(b, p, len as int) {
                Err(e) => Err(e),
                Ok(q) => if valid_utf8(b.subrange(p, q)) {
                    Ok((decode_utf8(b.subrange(p, q)), q))
                } else {
                    Err(ErrorModel::BadUtf8)
                },
            }
        },
    }
}

/// `count` strings, one after another, from `pos`.
pub open spec fn strings_at(b: Seq<u8>, pos: int, limits: ParseLimits, count: nat) -> Result<
    (Seq<Seq<char>>, int),
    ErrorModel,
>
    decreases count,
{
    if count == 0 {
        Ok((seq![], pos))
    } else {
        match strings_at(b, pos, limits, (count - 1) as nat) {
            Err(e) => Err(e),
            Ok((v, q)) => match string_at(b, q, limits) {
                Err(e) => Err(e),
                Ok((s, r)) => Ok((v.push(s), r)),
            },
        }
    }
}

/// The most elements an array may claim: what the remaining bytes could
/// hold at `size` bytes each, and at most `max`.
pub open spec fn array_limit(remaining: int, size: int, max: u64) -> u64 {
    let possible = (remaining / size) as u64;
    if possible < max {
        possible
    } else {
        max
    }
}

/// The elements of an array of `ty`, which the check on its length has
/// already shown fit in the bytes that remain.
pub open spec fn elements_at(
    b: Seq<u8>,
    p: int,
    limits: ParseLimits,
    ty: ValueType,
    n: nat,
) -> Result<(ArrayModel, int), ErrorModel> {
    match ty {
        ValueType::U8 => Ok((ArrayModel::U8(Seq::new(n, |i: int| b[p + i])), p + n)),
        ValueType::I8 => Ok((ArrayModel::I8(Seq::new(n, |i: int| b[p + i] as i8)), p + n)),
        ValueType::Bool => Ok((ArrayModel::Bool(Seq::new(n, |i: int| b[p + i] != 0)), p + n)),
        ValueType::U16 => Ok((ArrayModel::U16(Seq::new(n, |i: int| le16(b, p + 2 * i))), p + 2 * n)),
        ValueType::I16 => Ok(
            (ArrayModel::I16(Seq::new(n, |i: int| le16(b, p + 2 * i) as i16)), p + 2 * n),
        ),
        ValueType::U32 => Ok((ArrayModel::U32(Seq::new(n, |i: int| le32(b, p + 4 * i))), p + 4 * n)),
        ValueType::I32 => Ok(
            (ArrayModel::I32(Seq::new(n, |i: int| le32(b, p + 4 * i) as i32)), p + 4 * n),
        ),
        ValueType::F32 => Ok((ArrayModel::F32(Seq::new(n, |i: int| le32(b, p + 4 * i))), p + 4 * n)),
        ValueType::U64 => Ok((ArrayModel::U64(Seq::new(n, |i: int| le64(b, p + 8 * i))), p + 8 * n)),
        ValueType::I64 => Ok(
            (ArrayModel::I64(Seq::new(n, |i: int| le64(b, p + 8 * i) as i64)), p + 8 * n),
        ),
        ValueType::F64 => Ok((ArrayModel::F64(Seq::new(n, |i: int| le64(b, p + 8 * i))), p + 8 * n)),
        ValueType::String => match strings_at(b, p, limits, n) {
            Ok((v, q)) => Ok((ArrayModel::String(v), q)),
            Err(e) => Err(e),
        },
        ValueType::Array => Err(ErrorModel::NestedArray(seq![])),
    }
}

/// An array at `pos`: its element type tag, a `u64` count, then the
/// elements. `key` is the metadata key it belongs to, for the error.
pub open spec fn array_at(b: Seq<u8>, pos: int, limits: ParseLimits, key: Seq<char>) -> Result<
    (ArrayModel, int),
    ErrorModel,
> {
    match u32_at(b, pos) {
        Err(e) => Err(e),
        Ok((tag, p1)) => match value_type_of_tag(tag) {
            None => Err(ErrorModel::UnknownValueType(tag)),
            Some(ty) => match u64_at(b, p1) {
                Err(e) => Err(e),
                Ok((count, p2)) => if ty == ValueType::Array {
                    Err(ErrorModel::NestedArray(key))
                } else {
                    let limit = array_limit(
                        b.len() - p2,
                        min_size_of(ty) as int,
                        limits.max_array_len,
                    );
                    if count > limit {
                        Err(ErrorModel::TooLarge { what: "array length"@, value: count, limit })
                    } else if count > usize::MAX {
                        Err(ErrorModel::TooLargeForMachine(count))
                    } else {
                        elements_at(b, p2, limits, ty, count as nat)
                    }
                },
            },
        },
    }
}

/// A value of type `ty` at `pos`.
pub open spec fn value_at(
    b: Seq<u8>,
    pos: int,
    limits: ParseLimits,
    ty: ValueType,
    key: Seq<char>,
) -> Result<(ValueModel, int), ErrorModel> {
    match ty {
        ValueType::U8 => match u8_at(b, pos) {
            Ok((x, p)) => Ok((ValueModel::U8(x), p)),
            Err(e) => Err(e),
        },
        ValueType::I8 => match u8_at(b, pos) {
            Ok((x, p)) => Ok((ValueModel::I8(x as i8), p)),
            Err(e) => Err(e),
        },
        ValueType::U16 => match u16_at(b, pos) {
            Ok((x, p)) => Ok((ValueModel::U16(x), p)),
            Err(e) => Err(e),
        },
        ValueType::I16 => match u16_at(b, pos) {
            Ok((x, p)) => Ok((ValueModel::I16(x as i16), p)),
            Err(e) => Err(e),
        },
        ValueType::U32 => match u32_at(b, pos) {
            Ok((x, p)) => Ok((ValueModel::U32(x), p)),
            Err(e) => Err(e),
        },
        ValueType::I32 => match u32_at(b, pos) {
            Ok((x, p)) => Ok((ValueModel::I32(x as i32), p)),
            Err(e) => Err(e),
        },
        ValueType::F32 => match u32_at(b, pos) {
            Ok((x, p)) => Ok((ValueModel::F32(x), p)),
            Err(e) => Err(e),
        },
        ValueType::Bool => match u8_at(b, pos) {
            Ok((x, p)) => Ok((ValueModel::Bool(x != 0), p)),
            Err(e) => Err(e),
        },
        ValueType::String => match string_at(b, pos, limits) {
            Ok((s, p)) => Ok((ValueModel::String(s), p)),
            Err(e) => Err(e),
        },
        ValueType::Array => match array_at(b, pos, limits, key) {
            Ok((a, p)) => Ok((ValueModel::Array(a), p)),
            Err(e) => Err(e),
        },
        ValueType::U64 => match u64_at(b, pos) {
            Ok((x, p)) => Ok((ValueModel::U64(x), p)),
            Err(e) => Err(e),
        },
        ValueType::I64 => match u64_at(b, pos) {
            Ok((x, p)) => Ok((ValueModel::I64(x as i64), p)),
            Err(e) => Err(e),
        },
        ValueType::F64 => match u64_at(b, pos) {
            Ok((x, p)) => Ok((ValueModel::F64(x), p)),
            Err(e) => Err(e),
        },
    }
}

/// One metadata entry at `pos`: a key string, a `u32` type tag, a value.
pub open spec fn kv_at(b: Seq<u8>, pos: int, limits: ParseLimits) -> Result<
    ((Seq<char>, ValueModel), int),
    ErrorModel,
> {
    match string_at(b, pos, limits) {
        Err(e) => Err(e),
        Ok((key, p1)) => match u32_at(b, p1) {
            Err(e) => Err(e),
            Ok((tag, p2)) => match value_type_of_tag(tag) {
                None => Err(ErrorModel::UnknownValueType(tag)),
                Some(ty) => match value_at(b, p2, limits, ty, key) {
                    Err(e) => Err(e),
                    Ok((v, p3)) => Ok(((key, v), p3)),
                },
            },
        },
    }
}

/// Whether some entry already has this key.
pub open spec fn has_key(md: Seq<(Seq<char>, ValueModel)>, key: Seq<char>) -> bool {
    exists|i: int| 0 <= i < md.len() && #[trigger] md[i].0 == key
}

/// `count` metadata entries from `pos`, refusing a key seen before.
pub open spec fn kvs_at(b: Seq<u8>, pos: int, limits: ParseLimits, count: nat) -> Result<
    (Seq<(Seq<char>, ValueModel)>, int),
    ErrorModel,
>
    decreases count,
{
    if count == 0 {
        Ok((seq![], pos))
    } else {
        match kvs_at(b, pos, limits, (count - 1) as nat) {
            Err(e) => Err(e),
            Ok((md, q)) => match kv_at(b, q, limits) {
                Err(e) => Err(e),
                Ok(((k, v), r)) => if has_key(md, k) {
                    Err(ErrorModel::Duplicate { what: "metadata key"@, name: k })
                } else {
                    Ok((md.push((k, v)), r))
                },
            },
        }
    }
}

/// `count` dimensions, `u64` each, from `pos`.
pub open spec fn dims_at(b: Seq<u8>, pos: int, count: nat) -> Result<(Seq<u64>, int), ErrorModel>
    decreases count,
{
    if count == 0 {
        Ok((seq![], pos))
    } else {
        match dims_at(b, pos, (count - 1) as nat) {
            Err(e) => Err(e),
            Ok((v, q)) => match u64_at(b, q) {
                Err(e) => Err(e),
                Ok((d, r)) => Ok((v.push(d), r)),
            },
        }
    }
}

/// How many bytes `numel` values take in this format, where that fits.
pub open spec fn exact_nbytes(numel: u64, dtype: DtypeLayout) -> int {
    (numel / effective_block(dtype)) * dtype.type_size
}

/// What is wrong with a tensor's shape, format and offset, if anything.
pub open spec fn tensor_error(
    name: Seq<char>,
    shape: Seq<u64>,
    dtype: DtypeLayout,
    offset: u64,
    limits: ParseLimits,
) -> Option<ErrorModel> {
    match checked_product(shape) {
        None => Some(ErrorModel::Overflow("tensor element count"@)),
        Some(numel) => if numel > limits.max_tensor_elements {
            Some(
                ErrorModel::TooLarge {
                    what: "tensor element count"@,
                    value: numel,
                    limit: limits.max_tensor_elements,
                },
            )
        } else if dtype.block_size > 1 && numel % (dtype.block_size as u64) != 0 {
            Some(ErrorModel::NotBlockAligned { name, block: dtype.block_size, numel })
        } else if exact_nbytes(numel, dtype) > u64::MAX {
            Some(ErrorModel::Overflow("tensor byte length"@))
        } else if offset + exact_nbytes(numel, dtype) > u64::MAX {
            Some(ErrorModel::Overflow("tensor end offset"@))
        } else {
            None
        },
    }
}

/// One tensor-info entry at `pos`: a name, a `u32` dimension count, the
/// dimensions, a `u32` format tag and a `u64` offset.
pub open spec fn tensor_at(
    b: Seq<u8>,
    pos: int,
    limits: ParseLimits,
    table: Seq<DtypeLayout>,
) -> Result<(TensorModel, int), ErrorModel> {
    match string_at(b, pos, limits) {
        Err(e) => Err(e),
        Ok((name, p1)) => match u32_at(b, p1) {
            Err(e) => Err(e),
            Ok((n_dims, p2)) => if n_dims > limits.max_dimensions {
                Err(ErrorModel::TooManyDims { name, n_dims })
            } else {
                match dims_at(b, p2, n_dims as nat) {
                    Err(e) => Err(e),
                    Ok((shape, p3)) => match u32_at(b, p3) {
                        Err(e) => Err(e),
                        Ok((tag, p4)) => match lookup_layout(table, tag) {
                            None => Err(ErrorModel::UnknownDtype(tag)),
                            Some(dtype) => match u64_at(b, p4) {
                                Err(e) => Err(e),
                                Ok((offset, p5)) => match tensor_error(
                                    name,
                                    shape,
                                    dtype,
                                    offset,
                                    limits,
                                ) {
                                    Some(e) => Err(e),
                                    None => Ok((TensorModel { name, shape, dtype, offset }, p5)),
                                },
                            },
                        },
                    },
                }
            },
        },
    }
}

/// Whether some tensor already has this name.
pub open spec fn has_name(ts: Seq<TensorModel>, name: Seq<char>) -> bool {
    exists|i: int| 0 <= i < ts.len() && #[trigger] ts[i].name == name
}

/// `count` tensor-info entries from `pos`, refusing a name seen before.
pub open spec fn tensors_at(
    b: Seq<u8>,
    pos: int,
    limits: ParseLimits,
    table: Seq<DtypeLayout>,
    count: nat,
) -> Result<(Seq<TensorModel>, int), ErrorModel>
    decreases count,
{
    if count == 0 {
        Ok((seq![], pos))
    } else {
        match tensors_at(b, pos, limits, table, (count - 1) as nat) {
            Err(e) => Err(e),
            Ok((ts, q)) => match tensor_at(b, q, limits, table) {
                Err(e) => Err(e),
                Ok((t, r)) => if has_name(ts, t.name) {
                    Err(ErrorModel::Duplicate { what: "tensor name"@, name: t.name })
                } else {
                    Ok((ts.push(t), r))
                },
            },
        }
    }
}

/// Once a run of strings fails, reading more of them fails the same way.
pub proof fn lemma_strings_err_stays(b: Seq<u8>, pos: int, limits: ParseLimits, k: nat, m: nat)
    requires
        k <= m,
        strings_at(b, pos, limits, k) is Err,
    ensures
        strings_at(b, pos, limits, m) == strings_at(b, pos, limits, k),
    decreases m,
{
    if m > k {
        lemma_strings_err_stays(b, pos, limits, k, (m - 1) as nat);
    }
}

/// Once a run of metadata entries fails, reading more of them fails the
/// same way.
pub proof fn lemma_kvs_err_stays(b: Seq<u8>, pos: int, limits: ParseLimits, k: nat, m: nat)
    requires
        k <= m,
        kvs_at(b, pos, limits, k) is Err,
    ensures
        kvs_at(b, pos, limits, m) == kvs_at(b, pos, limits, k),
    decreases m,
{
    if m > k {
        lemma_kvs_err_stays(b, pos, limits, k, (m - 1) as nat);
    }
}

/// Once a run of dimensions fails, reading more of them fails the same way.
pub proof fn lemma_dims_err_stays(b: Seq<u8>, pos: int, k: nat, m: nat)
    requires
        k <= m,
        dims_at(b, pos, k) is Err,
    ensures
        dims_at(b, pos, m) == dims_at(b, pos, k),
    decreases m,
{
    if m > k {
        lemma_dims_err_stays(b, pos, k, (m - 1) as nat);
    }
}

/// Once a run of tensor entries fails, reading more of them fails the same
/// way.
pub proof fn lemma_tensors_err_stays(
    b: Seq<u8>,
    pos: int,
    limits: ParseLimits,
    table: Seq<DtypeLayout>,
    k: nat,
    m: nat,
)
    requires
        k <= m,
        tensors_at(b, pos, limits, table, k) is Err,
    ensures
        tensors_at(b, pos, limits, table, m) == tensors_at(b, pos, limits, table, k),
    decreases m,
{
    if m > k {
        lemma_tensors_err_stays(b, pos, limits, table, k, (m - 1) as nat);
    }
}

/// Once a partial product overflows, every longer one does.
pub proof fn lemma_checked_product_none_stays(shape: Seq<u64>, k: int)
    requires
        0 <= k <= shape.len(),
        checked_product(shape.take(k)) is None,
    ensures
        checked_product(shape) is None,
    decreases shape.len() - k,
{
    if k < shape.len() {
        assert(shape.take(k + 1).drop_last() =~= shape.take(k));
        lemma_checked_product_none_stays(shape, k + 1);
    } else {
        assert(shape.take(k) =~= shape);
    }
}

/// The value stored under `key`, the first such if there were several.
pub open spec fn find_value(md: Seq<(Seq<char>, ValueModel)>, key: Seq<char>) -> Option<ValueModel>
    decreases md.len(),
{
    if md.len() == 0 {
        None
    } else if md[0].0 == key {
        Some(md[0].1)
    } else {
        find_value(md.drop_first(), key)
    }
}

/// The tensor with this name, the first such if there were several.
pub open spec fn find_tensor(ts: Seq<TensorModel>, name: Seq<char>) -> Option<TensorModel>
    decreases ts.len(),
{
    if ts.len() == 0 {
        None
    } else if ts[0].name == name {
        Some(ts[0])
    } else {
        find_tensor(ts.drop_first(), name)
    }
}

/// The tensor `find_tensor` finds is one of the tensors, with that name.
pub proof fn lemma_find_tensor_in(ts: Seq<TensorModel>, name: Seq<char>)
    ensures
        find_tensor(ts, name) matches Some(t) ==> t.name == name && exists|i: int|
            0 <= i < ts.len() && #[trigger] ts[i] == t,
    decreases ts.len(),
{
    if ts.len() > 0 && ts[0].name != name {
        lemma_find_tensor_in(ts.drop_first(), name);
        if let Some(t) = find_tensor(ts, name) {
            let i = choose|i: int| 0 <= i < ts.drop_first().len() && #[trigger] ts.drop_first()[i] == t;
            assert(ts[i + 1] == t);
        }
    }
}

/// The alignment a header asks for: `general.alignment` where it is an
/// unsigned value, the default otherwise.
pub open spec fn alignment_of(md: Seq<(Seq<char>, ValueModel)>) -> u64 {
    match find_value(md, "general.alignment"@) {
        Some(v) => match v.as_u64() {
            Some(a) => a,
            None => DEFAULT_ALIGNMENT,
        },
        None => DEFAULT_ALIGNMENT,
    }
}

/// Whether `x` is a power of two (one included, zero not).
pub open spec fn is_power_of_two(x: nat) -> bool
    decreases x,
{
    if x == 1 {
        true
    } else if x == 0 || x % 2 == 1 {
        false
    } else {
        is_power_of_two(x / 2)
    }
}

/// `value` rounded up to a multiple of `align`, if that fits; a zero
/// alignment leaves it as it is.
pub open spec fn align_up_spec(value: u64, align: u64) -> Option<u64> {
    if align == 0 || value % align == 0 {
        Some(value)
    } else if value + (align - value % align) > u64::MAX {
        None
    } else {
        Some((value + (align - value % align)) as u64)
    }
}

/// A parsed header, as a mathematical value.
pub struct HeaderModel {
    pub version: u32,
    /// The metadata entries in key order (see `by_key`), each key once.
    pub metadata: Seq<(Seq<char>, ValueModel)>,
    pub tensors: Seq<TensorModel>,
    pub tensor_data_start: u64,
    pub alignment: u64,
    pub header_bytes: u64,
}

/// Magic, version, tensor count and metadata count: the fixed 24 bytes a
/// header starts with, each checked as it is read.
pub open spec fn preamble_spec(b: Seq<u8>, limits: ParseLimits) -> Result<
    (u32, u64, u64),
    ErrorModel,
> {
    match u32_at(b, 0) {
        Err(e) => Err(e),
        Ok((magic, _)) => if magic != GGUF_MAGIC {
            Err(ErrorModel::BadMagic(magic))
        } else {
            match u32_at(b, 4) {
                Err(e) => Err(e),
                Ok((version, _)) => if !supported_versions_spec().contains(version) {
                    Err(ErrorModel::UnsupportedVersion(version, supported_versions_spec()))
                } else {
                    match u64_at(b, 8) {
                        Err(e) => Err(e),
                        Ok((tensor_count, _)) => if tensor_count > limits.max_tensors {
                            Err(
                                ErrorModel::TooLarge {
                                    what: "tensor count"@,
                                    value: tensor_count,
                                    limit: limits.max_tensors,
                                },
                            )
                        } else {
                            match u64_at(b, 16) {
                                Err(e) => Err(e),
                                Ok((kv_count, _)) => if kv_count > limits.max_metadata_entries {
                                    Err(
                                        ErrorModel::TooLarge {
                                            what: "metadata entry count"@,
                                            value: kv_count,
                                            limit: limits.max_metadata_entries,
                                        },
                                    )
                                } else {
                                    Ok((version, tensor_count, kv_count))
                                },
                            }
                        },
                    }
                },
            }
        },
    }
}

/// The metadata section from byte 24: its count checked against what the
/// bytes could hold (twelve bytes an entry at least), then the entries, then
/// the alignment they ask for.
pub open spec fn metadata_spec(b: Seq<u8>, limits: ParseLimits, kv_count: u64) -> Result<
    (Seq<(Seq<char>, ValueModel)>, int, u64),
    ErrorModel,
> {
    if kv_count > (b.len() - 24) / 12 {
        Err(
            ErrorModel::TooLarge {
                what: "metadata entry count"@,
                value: kv_count,
                limit: ((b.len() - 24) / 12) as u64,
            },
        )
    } else {
        match kvs_at(b, 24, limits, kv_count as nat) {
            Err(e) => Err(e),
            Ok((md, p)) => {
                let alignment = alignment_of(md);
                if !is_power_of_two(alignment as nat) {
                    Err(ErrorModel::BadAlignment(alignment))
                } else {
                    Ok((md, p, alignment))
                }
            },
        }
    }
}

/// The tensor-info table from `pos`: its count checked against what the
/// bytes could hold (twenty bytes an entry at least), then the entries.
pub open spec fn tensor_table_spec(
    b: Seq<u8>,
    pos: int,
    limits: ParseLimits,
    table: Seq<DtypeLayout>,
    tensor_count: u64,
) -> Result<(Seq<TensorModel>, int), ErrorModel> {
    if tensor_count > (b.len() - pos) / 20 {
        Err(
            ErrorModel::TooLarge {
                what: "tensor count"@,
                value: tensor_count,
                limit: ((b.len() - pos) / 20) as u64,
            },
        )
    } else if tensor_count > usize::MAX {
        Err(ErrorModel::TooLargeForMachine(tensor_count))
    } else {
        tensors_at(b, pos, limits, table, tensor_count as nat)
    }
}

/// Whether some tensor would end past `u64::MAX` once the data section
/// starts at `start`.
pub open spec fn some_end_overflows(ts: Seq<TensorModel>, start: u64) -> bool {
    exists|i: int| 0 <= i < ts.len() && start + #[trigger] ts[i].offset + ts[i].nbytes() > u64::MAX
}

/// A whole header: what `GgufHeader::from_bytes_with_limits` returns for
/// these bytes, these limits and this table of formats.
pub open spec fn parse_spec(b: Seq<u8>, limits: ParseLimits, table: Seq<DtypeLayout>) -> Result<
    HeaderModel,
    ErrorModel,
> {
    match preamble_spec(b, limits) {
        Err(e) => Err(e),
        Ok((version, tensor_count, kv_count)) => match metadata_spec(b, limits, kv_count) {
            Err(e) => Err(e),
            Ok((md, p, alignment)) => match tensor_table_spec(b, p, limits, table, tensor_count) {
                Err(e) => Err(e),
                Ok((ts, q)) => match align_up_spec(q as u64, alignment) {
                    None => Err(ErrorModel::Overflow("tensor data start"@)),
                    Some(start) => if some_end_overflows(ts, start) {
                        Err(ErrorModel::Overflow("tensor end offset"@))
                    } else {
                        Ok(
                            HeaderModel {
                                version,
                                metadata: by_key(md),
                                tensors: ts,
                                tensor_data_start: start,
                                alignment,
                                header_bytes: q as u64,
                            },
                        )
                    },
                },
            },
        },
    }
}

/// No two entries share a key.
pub open spec fn keys_unique(md: Seq<(Seq<char>, ValueModel)>) -> bool {
    forall|i: int, j: int| 0 <= i < j < md.len() ==> #[trigger] md[i].0 != #[trigger] md[j].0
}

/// No two tensors share a name.
pub open spec fn names_unique(ts: Seq<TensorModel>) -> bool {
    forall|i: int, j: int| 0 <= i < j < ts.len() ==> #[trigger] ts[i].name != #[trigger] ts[j].name
}

/// What the parser has checked of a tensor: its element count is an exact
/// product within the limit, it is a whole number of blocks, its byte length
/// is exact, and it ends inside `u64` relative to its offset.
pub open spec fn tensor_checked(t: TensorModel, limits: ParseLimits) -> bool {
    &&& checked_product(t.shape) == Some(t.numel())
    &&& t.numel() <= limits.max_tensor_elements
    &&& (t.dtype.block_size > 1 ==> t.numel() % (t.dtype.block_size as u64) == 0)
    &&& t.nbytes() as int == exact_nbytes(t.numel(), t.dtype)
    &&& t.offset + t.nbytes() <= u64::MAX
    &&& t.shape.len() <= limits.max_dimensions
}

/// What every header the parser produces satisfies.
pub open spec fn header_wf(h: HeaderModel) -> bool {
    &&& is_power_of_two(h.alignment as nat)
    &&& h.alignment >= 1
    &&& h.header_bytes <= h.tensor_data_start
    &&& h.tensor_data_start < h.header_bytes + h.alignment
    &&& h.tensor_data_start % h.alignment == 0
    &&& keys_unique(h.metadata)
    &&& sorted_by_key(h.metadata)
    &&& names_unique(h.tensors)
    &&& forall|i: int|
        0 <= i < h.tensors.len() ==> h.tensor_data_start + (#[trigger] h.tensors[i]).offset
            + h.tensors[i].nbytes() <= u64::MAX
    &&& forall|i: int|
        0 <= i < h.tensors.len() ==> checked_product((#[trigger] h.tensors[i]).shape) == Some(
            h.tensors[i].numel(),
        )
    &&& forall|i: int|
        0 <= i < h.tensors.len() ==> (#[trigger] h.tensors[i]).nbytes() as int == exact_nbytes(
            h.tensors[i].numel(),
            h.tensors[i].dtype,
        )
    &&& forall|i: int|
        0 <= i < h.tensors.len() ==> ((#[trigger] h.tensors[i]).dtype.block_size > 1
            ==> h.tensors[i].numel() % (h.tensors[i].dtype.block_size as u64) == 0)
}

/// A run of dimensions that reads without error has as many as it was asked for.
pub proof fn lemma_dims_len(b: Seq<u8>, pos: int, count: nat)
    ensures
        dims_at(b, pos, count) matches Ok((v, _)) ==> v.len() == count,
    decreases count,
{
    if count > 0 {
        lemma_dims_len(b, pos, (count - 1) as nat);
    }
}

/// A tensor entry that reads without error passes every check on it.
pub proof fn lemma_tensor_at_checked(
    b: Seq<u8>,
    pos: int,
    limits: ParseLimits,
    table: Seq<DtypeLayout>,
)
    ensures
        tensor_at(b, pos, limits, table) matches Ok((t, _)) ==> tensor_checked(t, limits),
{
    if let Ok((t, _)) = tensor_at(b, pos, limits, table) {
        if let Ok((name, p1)) = string_at(b, pos, limits) {
            if let Ok((n_dims, p2)) = u32_at(b, p1) {
                lemma_dims_len(b, p2, n_dims as nat);
            }
        }
        lemma_checked_product_is_sat_product(t.shape);
        let numel = t.numel();
        assert(exact_nbytes(numel, t.dtype) <= u64::MAX);
        assert(t.nbytes() == sat_mul(numel / effective_block(t.dtype), t.dtype.type_size as u64));
    }
}

/// Keys read by `kvs_at` are all different.
pub proof fn lemma_kvs_unique(b: Seq<u8>, pos: int, limits: ParseLimits, count: nat)
    ensures
        kvs_at(b, pos, limits, count) matches Ok((md, _)) ==> keys_unique(md),
    decreases count,
{
    if count > 0 {
        lemma_kvs_unique(b, pos, limits, (count - 1) as nat);
        if let Ok((md, q)) = kvs_at(b, pos, limits, (count - 1) as nat) {
            if let Ok(((k, v), r)) = kv_at(b, q, limits) {
                if !has_key(md, k) {
                    let m2 = md.push((k, v));
                    assert forall|i: int, j: int| 0 <= i < j < m2.len() implies #[trigger] m2[i].0
                        != #[trigger] m2[j].0 by {
                        if j == md.len() {
                            assert(md[i].0 == m2[i].0);
                        } else {
                            assert(md[i].0 == m2[i].0 && md[j].0 == m2[j].0);
                        }
                    }
                }
            }
        }
    }
}

/// Tensors read by `tensors_at` have different names and pass every check.
pub proof fn lemma_tensors_ok(
    b: Seq<u8>,
    pos: int,
    limits: ParseLimits,
    table: Seq<DtypeLayout>,
    count: nat,
)
    ensures
        tensors_at(b, pos, limits, table, count) matches Ok((ts, _)) ==> {
            &&& names_unique(ts)
            &&& forall|i: int| 0 <= i < ts.len() ==> tensor_checked(#[trigger] ts[i], limits)
        },
    decreases count,
{
    if count > 0 {
        lemma_tensors_ok(b, pos, limits, table, (count - 1) as nat);
        if let Ok((ts, q)) = tensors_at(b, pos, limits, table, (count - 1) as nat) {
            lemma_tensor_at_checked(b, q, limits, table);
            if let Ok((t, r)) = tensor_at(b, q, limits, table) {
                if !has_name(ts, t.name) {
                    let t2 = ts.push(t);
                    assert forall|i: int, j: int| 0 <= i < j < t2.len() implies #[trigger] t2[i].name
                        != #[trigger] t2[j].name by {
                        if j == ts.len() {
                            assert(ts[i].name == t2[i].name);
                        } else {
                            assert(ts[i].name == t2[i].name && ts[j].name == t2[j].name);
                        }
                    }
                    assert forall|i: int| 0 <= i < t2.len() implies tensor_checked(
                        #[trigger] t2[i],
                        limits,
                    ) by {
                        if i < ts.len() {
                            assert(t2[i] == ts[i]);
                        }
                    }
                }
            }
        }
    }
}

/// A power of two is at least one.
pub proof fn lemma_power_of_two_positive(x: nat)
    requires
        is_power_of_two(x),
    ensures
        x >= 1,
{
}

/// Rounding up gives a multiple of the alignment, no smaller than the value
/// and less than one alignment above it.
pub proof fn lemma_align_up(value: u64, align: u64)
    requires
        align >= 1,
    ensures
        align_up_spec(value, align) matches Some(r) ==> {
            &&& r % align == 0
            &&& value <= r
            &&& r < value + align
        },
{
    let a = align as int;
    let v = value as int;
    let q: int = v / a;
    let m: int = v % a;
    assert(v == a * q + m && 0 <= m < a && q >= 0) by (nonlinear_arith)
        requires
            a >= 1,
            v >= 0,
            q == v / a,
            m == v % a,
    ;
    if m != 0 {
        let r: int = v + (a - m);
        assert(r == a * (q + 1)) by (nonlinear_arith)
            requires
                r == v + (a - m),
                v == a * q + m,
        ;
        assert((a * (q + 1)) % a == 0) by (nonlinear_arith)
            requires
                a >= 1,
                q >= 0,
        ;
    }
}

/// Every header the parser produces is well formed: keys and names are
/// unique, the data section starts aligned right after the header, and
/// every tensor's element count, byte length and end are exact.
pub proof fn law_parsed_header_is_well_formed(b: Seq<u8>, limits: ParseLimits, table: Seq<DtypeLayout>)
    ensures
        parse_spec(b, limits, table) matches Ok(h) ==> header_wf(h),
{
    if let Ok(h) = parse_spec(b, limits, table) {
        if let Ok((version, tensor_count, kv_count)) = preamble_spec(b, limits) {
            if let Ok((md, p, alignment)) = metadata_spec(b, limits, kv_count) {
                lemma_kvs_unique(b, 24, limits, kv_count as nat);
                law_metadata_in_key_order(md);
                lemma_sorted_keys_differ(by_key(md));
                if let Ok((ts, q)) = tensor_table_spec(b, p, limits, table, tensor_count) {
                    lemma_tensors_ok(b, p, limits, table, tensor_count as nat);
                    lemma_power_of_two_positive(alignment as nat);
                    lemma_align_up(q as u64, alignment);
                    assert(header_wf(h));
                }
            }
        }
    }
}


/// A run of metadata entries that reads without error has as many as it was
/// asked for.
pub proof fn lemma_kvs_len(b: Seq<u8>, pos: int, limits: ParseLimits, count: nat)
    ensures
        kvs_at(b, pos, limits, count) matches Ok((md, _)) ==> md.len() == count,
    decreases count,
{
    if count > 0 {
        lemma_kvs_len(b, pos, limits, (count - 1) as nat);
    }
}

/// A run of tensor entries that reads without error has as many as it was
/// asked for.
pub proof fn lemma_tensors_len(
    b: Seq<u8>,
    pos: int,
    limits: ParseLimits,
    table: Seq<DtypeLayout>,
    count: nat,
)
    ensures
        tensors_at(b, pos, limits, table, count) matches Ok((ts, _)) ==> ts.len() == count,
    decreases count,
{
    if count > 0 {
        lemma_tensors_len(b, pos, limits, table, (count - 1) as nat);
    }
}

/// A parsed header is what the file says it is: the file starts with the
/// magic, and the header has the file's version and exactly as many metadata
/// entries and tensors as the file's counts say, none dropped or merged.
pub proof fn law_counts_are_the_files(
    b: Seq<u8>,
    limits: ParseLimits,
    table: Seq<DtypeLayout>,
    h: HeaderModel,
)
    requires
        parse_spec(b, limits, table) == Ok::<HeaderModel, ErrorModel>(h),
    ensures
        le32(b, 0) == GGUF_MAGIC,
        h.version == le32(b, 4),
        h.tensors.len() == le64(b, 8),
        h.metadata.len() == le64(b, 16),
{
    if let Ok((version, tensor_count, kv_count)) = preamble_spec(b, limits) {
        lemma_kvs_len(b, 24, limits, kv_count as nat);
        if let Ok((md, p, alignment)) = metadata_spec(b, limits, kv_count) {
            lemma_by_key_entries(md);
            lemma_tensors_len(b, p, limits, table, tensor_count as nat);
        }
    }
}

/// Every tensor of a parsed header is within the limits it was parsed under:
/// at most `max_dimensions` dimensions, an element count that is the exact
/// product of its dimensions and at most `max_tensor_elements`, a whole
/// number of blocks of its format, and an end inside `u64` counted from the
/// start of the data section.
pub proof fn law_tensors_within_limits(
    b: Seq<u8>,
    limits: ParseLimits,
    table: Seq<DtypeLayout>,
    h: HeaderModel,
)
    requires
        parse_spec(b, limits, table) == Ok::<HeaderModel, ErrorModel>(h),
    ensures
        forall|i: int|
            0 <= i < h.tensors.len() ==> {
                &&& (#[trigger] h.tensors[i]).shape.len() <= limits.max_dimensions
                &&& dims_product(h.tensors[i].shape) == h.tensors[i].numel()
                &&& h.tensors[i].numel() <= limits.max_tensor_elements
                &&& (h.tensors[i].dtype.block_size > 1 ==> h.tensors[i].numel() % (
                h.tensors[i].dtype.block_size as u64) == 0)
                &&& h.tensor_data_start + h.tensors[i].offset + h.tensors[i].nbytes() <= u64::MAX
            },
{
    law_parsed_header_is_well_formed(b, limits, table);
    if let Ok((version, tensor_count, kv_count)) = preamble_spec(b, limits) {
        if let Ok((md, p, alignment)) = metadata_spec(b, limits, kv_count) {
            lemma_tensors_ok(b, p, limits, table, tensor_count as nat);
        }
    }
    assert forall|i: int| 0 <= i < h.tensors.len() implies dims_product(
        (#[trigger] h.tensors[i]).shape,
    ) == h.tensors[i].numel() by {
        lemma_checked_product_is_exact(h.tensors[i].shape);
    }
}


/// Where the tensor-info table starts: right after the metadata entries the
/// file's count names.
pub open spec fn tensor_table_start(b: Seq<u8>, limits: ParseLimits) -> int {
    match metadata_spec(b, limits, le64(b, 16)) {
        Ok((_, p, _)) => p,
        Err(_) => 24,
    }
}

/// The first `k` of a run of tensor entries that reads are the first `k` it
/// read, and the entry after them is its `k`-th.
proof fn lemma_tensor_records(
    b: Seq<u8>,
    pos: int,
    limits: ParseLimits,
    table: Seq<DtypeLayout>,
    n: nat,
    k: nat,
)
    requires
        k < n,
        tensors_at(b, pos, limits, table, n) is Ok,
    ensures
        tensor_record(b, pos, limits, table, k, tensors_at(b, pos, limits, table, n)->Ok_0.0),
    decreases n,
{
    let m = (n - 1) as nat;
    lemma_tensors_len(b, pos, limits, table, m);
    if let Ok((prev, q)) = tensors_at(b, pos, limits, table, m) {
        if let Ok((t, r)) = tensor_at(b, q, limits, table) {
            let ts = tensors_at(b, pos, limits, table, n)->Ok_0.0;
            assert(ts == prev.push(t));
            if k < m {
                lemma_tensor_records(b, pos, limits, table, m, k);
                assert(prev.take(k as int) =~= ts.take(k as int));
                assert(prev[k as int] == ts[k as int]);
            } else {
                assert(prev =~= ts.take(k as int));
            }
        }
    }
}

/// Reading `k` tensor entries from `pos` gives the first `k` of `ts`, and
/// the entry after them is `ts[k]`.
pub open spec fn tensor_record(
    b: Seq<u8>,
    pos: int,
    limits: ParseLimits,
    table: Seq<DtypeLayout>,
    k: nat,
    ts: Seq<TensorModel>,
) -> bool {
    match tensors_at(b, pos, limits, table, k) {
        Ok((before, q)) => before == ts.take(k as int) && match tensor_at(b, q, limits, table) {
            Ok((t, _)) => t == ts[k as int],
            Err(_) => false,
        },
        Err(_) => false,
    }
}

/// Looking a name up among tensors with different names finds the tensor
/// that has it.
proof fn lemma_find_tensor_unique(ts: Seq<TensorModel>, k: int)
    requires
        names_unique(ts),
        0 <= k < ts.len(),
    ensures
        find_tensor(ts, ts[k].name) == Some(ts[k]),
    decreases ts.len(),
{
    if k > 0 {
        let t = ts.drop_first();
        assert(ts[0].name != ts[k].name);
        assert forall|i: int, j: int| 0 <= i < j < t.len() implies #[trigger] t[i].name
            != #[trigger] t[j].name by {
            assert(t[i] == ts[i + 1] && t[j] == ts[j + 1]);
        }
        lemma_find_tensor_unique(t, k - 1);
        assert(t[k - 1] == ts[k]);
    }
}

/// The tensor table a parsed header came from: read from where the
/// metadata ends, it gives the header's tensors and ends where the header
/// does.
proof fn lemma_table_of(b: Seq<u8>, limits: ParseLimits, table: Seq<DtypeLayout>, h: HeaderModel)
    requires
        parse_spec(b, limits, table) == Ok::<HeaderModel, ErrorModel>(h),
    ensures
        tensors_at(b, tensor_table_start(b, limits), limits, table, h.tensors.len()) is Ok,
        tensors_at(b, tensor_table_start(b, limits), limits, table, h.tensors.len())->Ok_0.0
            == h.tensors,
        tensors_at(b, tensor_table_start(b, limits), limits, table, h.tensors.len())->Ok_0.1 as u64
            == h.header_bytes,
{
    if let Ok((version, tensor_count, kv_count)) = preamble_spec(b, limits) {
        if let Ok((md, p, alignment)) = metadata_spec(b, limits, kv_count) {
            lemma_tensors_len(b, p, limits, table, tensor_count as nat);
            assert(tensor_table_start(b, limits) == p);
        }
    }
}

/// A parsed header's tensors are the file's tensor records, in order: the
/// table starts where the metadata ends and ends where the header does,
/// reading its first `k` entries gives the header's first `k` tensors, and
/// the entry after them is the header's `k`-th tensor. Looking up the
/// `k`-th tensor's name finds the `k`-th tensor.
pub proof fn law_tensors_are_the_records(
    b: Seq<u8>,
    limits: ParseLimits,
    table: Seq<DtypeLayout>,
    h: HeaderModel,
)
    requires
        parse_spec(b, limits, table) == Ok::<HeaderModel, ErrorModel>(h),
    ensures
        tensors_at(b, tensor_table_start(b, limits), limits, table, h.tensors.len()) is Ok,
        tensors_at(b, tensor_table_start(b, limits), limits, table, h.tensors.len())->Ok_0.0
            == h.tensors,
        tensors_at(b, tensor_table_start(b, limits), limits, table, h.tensors.len())->Ok_0.1 as u64
            == h.header_bytes,
        forall|k: int|
            0 <= k < h.tensors.len() ==> tensor_record(
                b,
                tensor_table_start(b, limits),
                limits,
                table,
                k as nat,
                h.tensors,
            ) && find_tensor(h.tensors, (#[trigger] h.tensors[k]).name) == Some(h.tensors[k]),
{
    law_parsed_header_is_well_formed(b, limits, table);
    lemma_table_of(b, limits, table, h);
    let p = tensor_table_start(b, limits);
    assert forall|k: int| 0 <= k < h.tensors.len() implies tensor_record(
        b,
        p,
        limits,
        table,
        k as nat,
        h.tensors,
    ) && find_tensor(h.tensors, (#[trigger] h.tensors[k]).name) == Some(h.tensors[k]) by {
        lemma_tensor_records(b, p, limits, table, h.tensors.len(), k as nat);
        lemma_find_tensor_unique(h.tensors, k);
    }
}


/// A lookup finds only an entry with exactly the key asked for: what it
/// finds is the value of such an entry, and where it finds nothing no entry
/// has that key. Among entries with different keys it finds each entry's
/// own value under that entry's key.
pub proof fn law_lookup_is_exact(md: Seq<(Seq<char>, ValueModel)>, key: Seq<char>)
    ensures
        find_value(md, key) matches Some(v) ==> exists|i: int|
            0 <= i < md.len() && #[trigger] md[i].0 == key && md[i].1 == v,
        find_value(md, key) is None ==> forall|i: int| 0 <= i < md.len() ==> #[trigger] md[i].0 != key,
        keys_unique(md) ==> forall|i: int|
            0 <= i < md.len() ==> find_value(md, #[trigger] md[i].0) == Some(md[i].1),
    decreases md.len(),
{
    if md.len() > 0 {
        let rest = md.drop_first();
        law_lookup_is_exact(rest, key);
        if md[0].0 != key {
            if let Some(v) = find_value(rest, key) {
                let i = choose|i: int| 0 <= i < rest.len() && #[trigger] rest[i].0 == key && rest[i].1 == v;
                assert(md[i + 1] == rest[i]);
            } else {
                assert forall|i: int| 0 <= i < md.len() implies #[trigger] md[i].0 != key by {
                    if i > 0 {
                        assert(md[i] == rest[i - 1]);
                    }
                }
            }
        }
        if keys_unique(md) {
            assert forall|i: int| 0 <= i < md.len() implies find_value(md, #[trigger] md[i].0) == Some(
                md[i].1,
            ) by {
                if i > 0 {
                    assert(md[0].0 != md[i].0);
                    assert(rest[i - 1] == md[i]);
                    law_lookup_is_exact(rest, md[i].0);
                    assert forall|a: int, c: int| 0 <= a < c < rest.len() implies #[trigger] rest[a].0
                        != #[trigger] rest[c].0 by {
                        assert(rest[a] == md[a + 1] && rest[c] == md[c + 1]);
                    }
                }
            }
        }
    }
}

} // verus!
