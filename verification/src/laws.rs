//! What holds of the parser across inputs: a header parsed from a prefix of
//! a file is the header of the whole file, a final refusal (anything but a
//! truncation or a count refused only for want of bytes) is not changed by
//! reading more, and raising a limit keeps what was accepted.
use vstd::prelude::*;

use crate::error::ErrorModel;
use crate::format::{
    array_at, array_limit, dims_at, elements_at, kv_at, kvs_at, metadata_spec, parse_spec,
    preamble_spec, string_at, strings_at, take_spec, tensor_at, tensor_table_spec, tensors_at,
    u16_at, u32_at, u64_at, u8_at, value_at,
};
use crate::reader::ParseLimits;
use crate::tensor::DtypeLayout;
use crate::bytes::{le16, le32, le64};
use crate::value::{min_size_of, value_type_of_tag, ValueType};

verus! {

/// The `ParseLimits` field a `TooLarge` refusal is named after.
pub open spec fn limit_named(what: Seq<char>, limits: ParseLimits) -> u64 {
    if what == "string length"@ {
        limits.max_string_bytes
    } else if what == "array length"@ {
        limits.max_array_len
    } else if what == "metadata entry count"@ {
        limits.max_metadata_entries
    } else if what == "tensor count"@ {
        limits.max_tensors
    } else {
        limits.max_tensor_elements
    }
}

/// A refusal that reading more of the file cannot lift: anything but a
/// truncation, or a count past what the bytes read so far could hold.
pub open spec fn is_final(e: ErrorModel, limits: ParseLimits) -> bool {
    match e {
        ErrorModel::Truncated { .. } => false,
        ErrorModel::TooLarge { what, value, .. } => value > limit_named(what, limits),
        _ => true,
    }
}

/// The same refusal: equal, or past the same limit with the same value
/// (where the limit reported may be the bytes available, which grow).
pub open spec fn same_refusal(e1: ErrorModel, e2: ErrorModel) -> bool {
    ||| e1 == e2
    ||| (e1 matches ErrorModel::TooLarge { what: w1, value: v1, .. } && e2 matches ErrorModel::TooLarge {
        what: w2,
        value: v2,
        ..
    } && w1 == w2 && v1 == v2)
}

/// Whether `r` is a final refusal like `e`.
pub open spec fn refused_alike<T>(r: Result<T, ErrorModel>, e: ErrorModel, limits: ParseLimits) -> bool {
    r matches Err(e2) && same_refusal(e, e2) && is_final(e2, limits)
}

/// What one read of `b` gives, a read of `b + rest` at the same place gives
/// too: the same value and position, or, for a final refusal, the same
/// refusal.
pub open spec fn stable<T>(r1: Result<T, ErrorModel>, r2: Result<T, ErrorModel>, limits: ParseLimits) -> bool {
    match r1 {
        Ok(x) => r2 == Ok::<T, ErrorModel>(x),
        Err(e) => is_final(e, limits) ==> refused_alike(r2, e, limits),
    }
}

proof fn lemma_limit_names(limits: ParseLimits)
    ensures
        limit_named("string length"@, limits) == limits.max_string_bytes,
        limit_named("array length"@, limits) == limits.max_array_len,
        limit_named("metadata entry count"@, limits) == limits.max_metadata_entries,
        limit_named("tensor count"@, limits) == limits.max_tensors,
        limit_named("tensor element count"@, limits) == limits.max_tensor_elements,
{
    reveal_strlit("string length");
    reveal_strlit("array length");
    reveal_strlit("metadata entry count");
    reveal_strlit("tensor count");
    reveal_strlit("tensor element count");
    assert("array length"@[0] != "string length"@[0]);
    assert("metadata entry count"@[0] != "string length"@[0]);
    assert("metadata entry count"@[0] != "array length"@[0]);
    assert("tensor count"@[0] != "string length"@[0]);
    assert("tensor count"@[0] != "array length"@[0]);
    assert("tensor count"@[0] != "metadata entry count"@[0]);
    assert("tensor element count"@[0] != "string length"@[0]);
    assert("tensor element count"@[0] != "array length"@[0]);
    assert("tensor element count"@[0] != "metadata entry count"@[0]);
    assert("tensor element count"@.len() != "tensor count"@.len());
}

proof fn lemma_u8_prefix(b: Seq<u8>, rest: Seq<u8>, pos: int, limits: ParseLimits)
    requires
        0 <= pos,
    ensures
        stable(u8_at(b, pos), u8_at(b + rest, pos), limits),
{
    if pos + 1 <= b.len() {
        assert((b + rest)[pos] == b[pos]);
    }
}

proof fn lemma_u16_prefix(b: Seq<u8>, rest: Seq<u8>, pos: int, limits: ParseLimits)
    requires
        0 <= pos,
    ensures
        stable(u16_at(b, pos), u16_at(b + rest, pos), limits),
{
    if pos + 2 <= b.len() {
        assert((b + rest)[pos] == b[pos]);
        assert((b + rest)[pos + 1] == b[pos + 1]);
    }
}

proof fn lemma_u32_prefix(b: Seq<u8>, rest: Seq<u8>, pos: int, limits: ParseLimits)
    requires
        0 <= pos,
    ensures
        stable(u32_at(b, pos), u32_at(b + rest, pos), limits),
{
    if pos + 4 <= b.len() {
        assert((b + rest)[pos] == b[pos]);
        assert((b + rest)[pos + 1] == b[pos + 1]);
        assert((b + rest)[pos + 2] == b[pos + 2]);
        assert((b + rest)[pos + 3] == b[pos + 3]);
    }
}

proof fn lemma_u64_prefix(b: Seq<u8>, rest: Seq<u8>, pos: int, limits: ParseLimits)
    requires
        0 <= pos,
    ensures
        stable(u64_at(b, pos), u64_at(b + rest, pos), limits),
{
    if pos + 8 <= b.len() {
        assert((b + rest)[pos] == b[pos]);
        assert((b + rest)[pos + 1] == b[pos + 1]);
        assert((b + rest)[pos + 2] == b[pos + 2]);
        assert((b + rest)[pos + 3] == b[pos + 3]);
        assert((b + rest)[pos + 4] == b[pos + 4]);
        assert((b + rest)[pos + 5] == b[pos + 5]);
        assert((b + rest)[pos + 6] == b[pos + 6]);
        assert((b + rest)[pos + 7] == b[pos + 7]);
    }
}

proof fn lemma_string_prefix(b: Seq<u8>, rest: Seq<u8>, pos: int, limits: ParseLimits)
    requires
        0 <= pos <= b.len(),
    ensures
        stable(string_at(b, pos, limits), string_at(b + rest, pos, limits), limits),
{
    lemma_limit_names(limits);
    lemma_u64_prefix(b, rest, pos, limits);
    if let Ok((len, p)) = u64_at(b, pos) {
        if len <= limits.max_string_bytes && len <= usize::MAX {
            if let Ok(q) = take_spec(b, p, len as int) {
                assert((b + rest).subrange(p, q) =~= b.subrange(p, q));
            }
        }
    }
}

proof fn lemma_strings_prefix(b: Seq<u8>, rest: Seq<u8>, pos: int, limits: ParseLimits, count: nat)
    requires
        0 <= pos <= b.len(),
    ensures
        stable(strings_at(b, pos, limits, count), strings_at(b + rest, pos, limits, count), limits),
        strings_at(b, pos, limits, count) matches Ok((_, q)) ==> pos <= q <= b.len(),
    decreases count,
{
    if count > 0 {
        lemma_strings_prefix(b, rest, pos, limits, (count - 1) as nat);
        if let Ok((v, q)) = strings_at(b, pos, limits, (count - 1) as nat) {
            lemma_string_prefix(b, rest, q, limits);
        }
    }
}

proof fn lemma_div_ordered(x: int, y: int, s: int)
    requires
        0 <= x <= y,
        s >= 1,
    ensures
        0 <= x / s <= y / s,
        s * (x / s) <= x,
{
    assert(0 <= x / s <= y / s && s * (x / s) <= x) by (nonlinear_arith)
        requires
            0 <= x <= y,
            s >= 1,
    ;
}

proof fn lemma_elements_prefix(
    b: Seq<u8>,
    rest: Seq<u8>,
    p: int,
    limits: ParseLimits,
    ty: ValueType,
    n: nat,
)
    requires
        0 <= p <= b.len(),
        ty != ValueType::Array,
        ty != ValueType::String ==> p + min_size_of(ty) * n <= b.len(),
    ensures
        stable(elements_at(b, p, limits, ty, n), elements_at(b + rest, p, limits, ty, n), limits),
        elements_at(b, p, limits, ty, n) matches Ok((_, q)) ==> p <= q <= b.len(),
{
    let b2 = b + rest;
    match ty {
        ValueType::String => {
            lemma_strings_prefix(b, rest, p, limits, n);
        },
        ValueType::U8 | ValueType::I8 | ValueType::Bool => {
            assert(Seq::new(n, |i: int| b2[p + i]) =~= Seq::new(n, |i: int| b[p + i]));
            assert(Seq::new(n, |i: int| b2[p + i] as i8) =~= Seq::new(n, |i: int| b[p + i] as i8));
            assert(Seq::new(n, |i: int| b2[p + i] != 0) =~= Seq::new(n, |i: int| b[p + i] != 0));
        },
        ValueType::U16 | ValueType::I16 => {
            assert forall|i: int| 0 <= i < n implies #[trigger] le16(b2, p + 2 * i) == le16(b, p + 2 * i) by {
                lemma_u16_prefix(b, rest, p + 2 * i, limits);
            }
            assert(Seq::new(n, |i: int| le16(b2, p + 2 * i)) =~= Seq::new(n, |i: int| le16(b, p + 2 * i)));
            assert(Seq::new(n, |i: int| le16(b2, p + 2 * i) as i16) =~= Seq::new(
                n,
                |i: int| le16(b, p + 2 * i) as i16,
            ));
        },
        ValueType::U32 | ValueType::I32 | ValueType::F32 => {
            assert forall|i: int| 0 <= i < n implies #[trigger] le32(b2, p + 4 * i) == le32(b, p + 4 * i) by {
                lemma_u32_prefix(b, rest, p + 4 * i, limits);
            }
            assert(Seq::new(n, |i: int| le32(b2, p + 4 * i)) =~= Seq::new(n, |i: int| le32(b, p + 4 * i)));
            assert(Seq::new(n, |i: int| le32(b2, p + 4 * i) as i32) =~= Seq::new(
                n,
                |i: int| le32(b, p + 4 * i) as i32,
            ));
        },
        _ => {
            assert forall|i: int| 0 <= i < n implies #[trigger] le64(b2, p + 8 * i) == le64(b, p + 8 * i) by {
                lemma_u64_prefix(b, rest, p + 8 * i, limits);
            }
            assert(Seq::new(n, |i: int| le64(b2, p + 8 * i)) =~= Seq::new(n, |i: int| le64(b, p + 8 * i)));
            assert(Seq::new(n, |i: int| le64(b2, p + 8 * i) as i64) =~= Seq::new(
                n,
                |i: int| le64(b, p + 8 * i) as i64,
            ));
        },
    }
}

proof fn lemma_array_prefix(b: Seq<u8>, rest: Seq<u8>, pos: int, limits: ParseLimits, key: Seq<char>)
    requires
        0 <= pos <= b.len(),
        b.len() + rest.len() <= usize::MAX,
    ensures
        stable(array_at(b, pos, limits, key), array_at(b + rest, pos, limits, key), limits),
        array_at(b, pos, limits, key) matches Ok((_, q)) ==> pos <= q <= b.len(),
{
    lemma_limit_names(limits);
    let b2 = b + rest;
    lemma_u32_prefix(b, rest, pos, limits);
    if let Ok((tag, p1)) = u32_at(b, pos) {
        if let Some(ty) = value_type_of_tag(tag) {
            lemma_u64_prefix(b, rest, p1, limits);
            if let Ok((count, p2)) = u64_at(b, p1) {
                if ty != ValueType::Array {
                    let size = min_size_of(ty) as int;
                    lemma_div_ordered(b.len() - p2, b2.len() - p2, size);
                    let limit1 = array_limit(b.len() - p2, size, limits.max_array_len);
                    let limit2 = array_limit(b2.len() - p2, size, limits.max_array_len);
                    assert(limit1 <= limit2);
                    if count <= limit1 && count <= usize::MAX {
                        assert(size * count <= size * ((b.len() - p2) / size)) by (nonlinear_arith)
                            requires
                                count <= (b.len() - p2) / size,
                                size >= 1,
                        ;
                        lemma_elements_prefix(b, rest, p2, limits, ty, count as nat);
                    }
                }
            }
        }
    }
}

proof fn lemma_value_prefix(
    b: Seq<u8>,
    rest: Seq<u8>,
    pos: int,
    limits: ParseLimits,
    ty: ValueType,
    key: Seq<char>,
)
    requires
        0 <= pos <= b.len(),
        b.len() + rest.len() <= usize::MAX,
    ensures
        stable(value_at(b, pos, limits, ty, key), value_at(b + rest, pos, limits, ty, key), limits),
        value_at(b, pos, limits, ty, key) matches Ok((_, q)) ==> pos <= q <= b.len(),
{
    lemma_u8_prefix(b, rest, pos, limits);
    lemma_u16_prefix(b, rest, pos, limits);
    lemma_u32_prefix(b, rest, pos, limits);
    lemma_u64_prefix(b, rest, pos, limits);
    lemma_string_prefix(b, rest, pos, limits);
    lemma_array_prefix(b, rest, pos, limits, key);
}

proof fn lemma_kv_prefix(b: Seq<u8>, rest: Seq<u8>, pos: int, limits: ParseLimits)
    requires
        0 <= pos <= b.len(),
        b.len() + rest.len() <= usize::MAX,
    ensures
        stable(kv_at(b, pos, limits), kv_at(b + rest, pos, limits), limits),
        kv_at(b, pos, limits) matches Ok((_, q)) ==> pos <= q <= b.len(),
{
    lemma_string_prefix(b, rest, pos, limits);
    if let Ok((key, p1)) = string_at(b, pos, limits) {
        lemma_u32_prefix(b, rest, p1, limits);
        if let Ok((tag, p2)) = u32_at(b, p1) {
            if let Some(ty) = value_type_of_tag(tag) {
                lemma_value_prefix(b, rest, p2, limits, ty, key);
            }
        }
    }
}

proof fn lemma_kvs_prefix(b: Seq<u8>, rest: Seq<u8>, pos: int, limits: ParseLimits, count: nat)
    requires
        0 <= pos <= b.len(),
        b.len() + rest.len() <= usize::MAX,
    ensures
        stable(kvs_at(b, pos, limits, count), kvs_at(b + rest, pos, limits, count), limits),
        kvs_at(b, pos, limits, count) matches Ok((_, q)) ==> pos <= q <= b.len(),
    decreases count,
{
    if count > 0 {
        lemma_kvs_prefix(b, rest, pos, limits, (count - 1) as nat);
        if let Ok((md, q)) = kvs_at(b, pos, limits, (count - 1) as nat) {
            lemma_kv_prefix(b, rest, q, limits);
        }
    }
}

proof fn lemma_dims_prefix(b: Seq<u8>, rest: Seq<u8>, pos: int, limits: ParseLimits, count: nat)
    requires
        0 <= pos <= b.len(),
    ensures
        stable(dims_at(b, pos, count), dims_at(b + rest, pos, count), limits),
        dims_at(b, pos, count) matches Ok((_, q)) ==> pos <= q <= b.len(),
    decreases count,
{
    if count > 0 {
        lemma_dims_prefix(b, rest, pos, limits, (count - 1) as nat);
        if let Ok((v, q)) = dims_at(b, pos, (count - 1) as nat) {
            lemma_u64_prefix(b, rest, q, limits);
        }
    }
}

proof fn lemma_tensor_prefix(
    b: Seq<u8>,
    rest: Seq<u8>,
    pos: int,
    limits: ParseLimits,
    table: Seq<DtypeLayout>,
)
    requires
        0 <= pos <= b.len(),
    ensures
        stable(tensor_at(b, pos, limits, table), tensor_at(b + rest, pos, limits, table), limits),
        tensor_at(b, pos, limits, table) matches Ok((_, q)) ==> pos <= q <= b.len(),
{
    lemma_limit_names(limits);
    lemma_string_prefix(b, rest, pos, limits);
    if let Ok((name, p1)) = string_at(b, pos, limits) {
        lemma_u32_prefix(b, rest, p1, limits);
        if let Ok((n_dims, p2)) = u32_at(b, p1) {
            if n_dims <= limits.max_dimensions {
                lemma_dims_prefix(b, rest, p2, limits, n_dims as nat);
                if let Ok((shape, p3)) = dims_at(b, p2, n_dims as nat) {
                    lemma_u32_prefix(b, rest, p3, limits);
                    if let Ok((tag, p4)) = u32_at(b, p3) {
                        lemma_u64_prefix(b, rest, p4, limits);
                    }
                }
            }
        }
    }
}

proof fn lemma_tensors_prefix(
    b: Seq<u8>,
    rest: Seq<u8>,
    pos: int,
    limits: ParseLimits,
    table: Seq<DtypeLayout>,
    count: nat,
)
    requires
        0 <= pos <= b.len(),
    ensures
        stable(
            tensors_at(b, pos, limits, table, count),
            tensors_at(b + rest, pos, limits, table, count),
            limits,
        ),
        tensors_at(b, pos, limits, table, count) matches Ok((_, q)) ==> pos <= q <= b.len(),
    decreases count,
{
    if count > 0 {
        lemma_tensors_prefix(b, rest, pos, limits, table, (count - 1) as nat);
        if let Ok((ts, q)) = tensors_at(b, pos, limits, table, (count - 1) as nat) {
            lemma_tensor_prefix(b, rest, q, limits, table);
        }
    }
}

proof fn lemma_preamble_prefix(b: Seq<u8>, rest: Seq<u8>, limits: ParseLimits)
    ensures
        stable(preamble_spec(b, limits), preamble_spec(b + rest, limits), limits),
{
    lemma_limit_names(limits);
    lemma_u32_prefix(b, rest, 0, limits);
    lemma_u32_prefix(b, rest, 4, limits);
    lemma_u64_prefix(b, rest, 8, limits);
    lemma_u64_prefix(b, rest, 16, limits);
}

proof fn lemma_metadata_section_prefix(b: Seq<u8>, rest: Seq<u8>, limits: ParseLimits, kv_count: u64)
    requires
        b.len() >= 24,
        b.len() + rest.len() <= usize::MAX,
        kv_count <= limits.max_metadata_entries,
    ensures
        stable(metadata_spec(b, limits, kv_count), metadata_spec(b + rest, limits, kv_count), limits),
        metadata_spec(b, limits, kv_count) matches Ok((_, p, _)) ==> 24 <= p <= b.len(),
{
    lemma_limit_names(limits);
    lemma_div_ordered(b.len() - 24, (b + rest).len() - 24, 12);
    lemma_kvs_prefix(b, rest, 24, limits, kv_count as nat);
}

proof fn lemma_table_section_prefix(
    b: Seq<u8>,
    rest: Seq<u8>,
    p: int,
    limits: ParseLimits,
    table: Seq<DtypeLayout>,
    tensor_count: u64,
)
    requires
        0 <= p <= b.len(),
        b.len() + rest.len() <= usize::MAX,
        tensor_count <= limits.max_tensors,
    ensures
        stable(
            tensor_table_spec(b, p, limits, table, tensor_count),
            tensor_table_spec(b + rest, p, limits, table, tensor_count),
            limits,
        ),
{
    lemma_limit_names(limits);
    lemma_div_ordered(b.len() - p, (b + rest).len() - p, 20);
    lemma_tensors_prefix(b, rest, p, limits, table, tensor_count as nat);
}

/// A header needs only its own bytes: parsed from the start of a file, it is
/// the header of the whole file, whatever follows it; and a final refusal
/// (anything but a truncation or a count refused only because the bytes so
/// far could not hold it) is the same refusal however much more of the file
/// is read.
pub proof fn law_prefix_is_enough(
    b: Seq<u8>,
    rest: Seq<u8>,
    limits: ParseLimits,
    table: Seq<DtypeLayout>,
)
    requires
        b.len() + rest.len() <= usize::MAX,
    ensures
        stable(parse_spec(b, limits, table), parse_spec(b + rest, limits, table), limits),
{
    let b2 = b + rest;
    lemma_preamble_prefix(b, rest, limits);
    if let Ok((version, tensor_count, kv_count)) = preamble_spec(b, limits) {
        lemma_metadata_section_prefix(b, rest, limits, kv_count);
        if let Ok((md, p, alignment)) = metadata_spec(b, limits, kv_count) {
            lemma_table_section_prefix(b, rest, p, limits, table, tensor_count);
        }
    }
}

/// Every limit of `lo` is at most the same limit of `hi`.
pub open spec fn limits_le(lo: ParseLimits, hi: ParseLimits) -> bool {
    &&& lo.max_metadata_entries <= hi.max_metadata_entries
    &&& lo.max_tensors <= hi.max_tensors
    &&& lo.max_array_len <= hi.max_array_len
    &&& lo.max_string_bytes <= hi.max_string_bytes
    &&& lo.max_dimensions <= hi.max_dimensions
    &&& lo.max_tensor_elements <= hi.max_tensor_elements
}

/// What a read under `lo` accepts, a read under `hi` accepts the same way.
pub open spec fn kept<T>(r1: Result<T, ErrorModel>, r2: Result<T, ErrorModel>) -> bool {
    r1 matches Ok(x) ==> r2 == Ok::<T, ErrorModel>(x)
}

proof fn lemma_string_raised(b: Seq<u8>, pos: int, lo: ParseLimits, hi: ParseLimits)
    requires
        limits_le(lo, hi),
    ensures
        kept(string_at(b, pos, lo), string_at(b, pos, hi)),
{
}

proof fn lemma_strings_raised(b: Seq<u8>, pos: int, lo: ParseLimits, hi: ParseLimits, count: nat)
    requires
        limits_le(lo, hi),
    ensures
        kept(strings_at(b, pos, lo, count), strings_at(b, pos, hi, count)),
    decreases count,
{
    if count > 0 {
        lemma_strings_raised(b, pos, lo, hi, (count - 1) as nat);
        if let Ok((v, q)) = strings_at(b, pos, lo, (count - 1) as nat) {
            lemma_string_raised(b, q, lo, hi);
        }
    }
}

proof fn lemma_array_raised(b: Seq<u8>, pos: int, lo: ParseLimits, hi: ParseLimits, key: Seq<char>)
    requires
        limits_le(lo, hi),
    ensures
        kept(array_at(b, pos, lo, key), array_at(b, pos, hi, key)),
{
    if let Ok((tag, p1)) = u32_at(b, pos) {
        if let Some(ty) = value_type_of_tag(tag) {
            if let Ok((count, p2)) = u64_at(b, p1) {
                if ty == ValueType::String {
                    lemma_strings_raised(b, p2, lo, hi, count as nat);
                }
            }
        }
    }
}

proof fn lemma_value_raised(
    b: Seq<u8>,
    pos: int,
    lo: ParseLimits,
    hi: ParseLimits,
    ty: ValueType,
    key: Seq<char>,
)
    requires
        limits_le(lo, hi),
    ensures
        kept(value_at(b, pos, lo, ty, key), value_at(b, pos, hi, ty, key)),
{
    lemma_string_raised(b, pos, lo, hi);
    lemma_array_raised(b, pos, lo, hi, key);
}

proof fn lemma_kvs_raised(b: Seq<u8>, pos: int, lo: ParseLimits, hi: ParseLimits, count: nat)
    requires
        limits_le(lo, hi),
    ensures
        kept(kvs_at(b, pos, lo, count), kvs_at(b, pos, hi, count)),
    decreases count,
{
    if count > 0 {
        lemma_kvs_raised(b, pos, lo, hi, (count - 1) as nat);
        if let Ok((md, q)) = kvs_at(b, pos, lo, (count - 1) as nat) {
            lemma_string_raised(b, q, lo, hi);
            if let Ok((key, p1)) = string_at(b, q, lo) {
                if let Ok((tag, p2)) = u32_at(b, p1) {
                    if let Some(ty) = value_type_of_tag(tag) {
                        lemma_value_raised(b, p2, lo, hi, ty, key);
                    }
                }
            }
        }
    }
}

proof fn lemma_tensors_raised(
    b: Seq<u8>,
    pos: int,
    lo: ParseLimits,
    hi: ParseLimits,
    table: Seq<DtypeLayout>,
    count: nat,
)
    requires
        limits_le(lo, hi),
    ensures
        kept(tensors_at(b, pos, lo, table, count), tensors_at(b, pos, hi, table, count)),
    decreases count,
{
    if count > 0 {
        lemma_tensors_raised(b, pos, lo, hi, table, (count - 1) as nat);
        if let Ok((ts, q)) = tensors_at(b, pos, lo, table, (count - 1) as nat) {
            lemma_string_raised(b, q, lo, hi);
        }
    }
}

/// Raising limits never refuses what lower limits accepted: the header is
/// the same.
pub proof fn law_raising_limits_keeps_a_header(
    b: Seq<u8>,
    lo: ParseLimits,
    hi: ParseLimits,
    table: Seq<DtypeLayout>,
)
    requires
        limits_le(lo, hi),
    ensures
        kept(parse_spec(b, lo, table), parse_spec(b, hi, table)),
{
    if let Ok((version, tensor_count, kv_count)) = preamble_spec(b, lo) {
        lemma_kvs_raised(b, 24, lo, hi, kv_count as nat);
        if let Ok((md, p, alignment)) = metadata_spec(b, lo, kv_count) {
            lemma_tensors_raised(b, p, lo, hi, table, tensor_count as nat);
        }
    }
}


/// Which refusals more of the file could lift: a truncation always can, a
/// count or length refused past the limit it is named after never can, one
/// refused only for want of bytes can; every other refusal (a bad magic, an
/// unknown version, bad UTF-8, a duplicate, an overflow and the rest) is
/// final. The five `TooLarge` labels name the limits `max_string_bytes`,
/// `max_array_len`, `max_metadata_entries`, `max_tensors` and
/// `max_tensor_elements`.
pub proof fn law_which_refusals_are_final(e: ErrorModel, limits: ParseLimits)
    ensures
        e is Truncated ==> !is_final(e, limits),
        e matches ErrorModel::TooLarge { what, value, .. } ==> (is_final(e, limits) <==> value
            > limit_named(what, limits)),
        !(e is Truncated) && !(e is TooLarge) ==> is_final(e, limits),
        limit_named("string length"@, limits) == limits.max_string_bytes,
        limit_named("array length"@, limits) == limits.max_array_len,
        limit_named("metadata entry count"@, limits) == limits.max_metadata_entries,
        limit_named("tensor count"@, limits) == limits.max_tensors,
        limit_named("tensor element count"@, limits) == limits.max_tensor_elements,
{
    lemma_limit_names(limits);
}

} // verus!
