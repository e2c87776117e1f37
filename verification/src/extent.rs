//! How much of its input a header reads: its own bytes and nothing past
//! them. A read that succeeds without passing byte `m` succeeds the same way
//! on the first `m` bytes alone, and so a parsed header is the header of any
//! bytes that begin with its own.
use vstd::prelude::*;

use crate::bytes::{le16, le32, le64};
use crate::error::ErrorModel;
use crate::format::{
    array_at, array_limit, dims_at, elements_at, kv_at, kvs_at, metadata_spec, parse_spec,
    preamble_spec, string_at, strings_at, take_spec, tensor_at, tensor_table_spec, tensors_at,
    u16_at, u32_at, u64_at, u8_at, value_at, HeaderModel,
};
use crate::laws::{law_prefix_is_enough, stable};
use crate::reader::ParseLimits;
use crate::roundtrip::lemma_count_fits;
use crate::tensor::DtypeLayout;
use crate::value::{min_size_of, value_type_of_tag, ValueType};

verus! {

/// Where `r1` succeeded without passing byte `m`, `r2` gives the same.
spec fn same_within<T>(r1: Result<(T, int), ErrorModel>, r2: Result<(T, int), ErrorModel>, m: int) -> bool {
    match r1 {
        Ok((_, q)) => q <= m ==> r2 == r1,
        Err(_) => true,
    }
}

/// Where `r` succeeded, it ended at least `n` bytes after `pos` and inside
/// `len` bytes.
spec fn ends_between<T>(r: Result<(T, int), ErrorModel>, pos: int, n: int, len: int) -> bool {
    match r {
        Ok((_, q)) => pos + n <= q <= len,
        Err(_) => true,
    }
}

proof fn lemma_u8_cut(b: Seq<u8>, pos: int, m: int)
    requires
        0 <= pos <= b.len(),
        0 <= m <= b.len(),
    ensures
        same_within(u8_at(b, pos), u8_at(b.take(m), pos), m),
        ends_between(u8_at(b, pos), pos, 1, b.len() as int),
{
    if pos + 1 <= m {
        assert(b.take(m)[pos] == b[pos]);
    }
}

proof fn lemma_u16_cut(b: Seq<u8>, pos: int, m: int)
    requires
        0 <= pos <= b.len(),
        0 <= m <= b.len(),
    ensures
        same_within(u16_at(b, pos), u16_at(b.take(m), pos), m),
        ends_between(u16_at(b, pos), pos, 2, b.len() as int),
{
    if pos + 2 <= m {
        assert(b.take(m)[pos] == b[pos]);
        assert(b.take(m)[pos + 1] == b[pos + 1]);
    }
}

proof fn lemma_u32_cut(b: Seq<u8>, pos: int, m: int)
    requires
        0 <= pos <= b.len(),
        0 <= m <= b.len(),
    ensures
        same_within(u32_at(b, pos), u32_at(b.take(m), pos), m),
        ends_between(u32_at(b, pos), pos, 4, b.len() as int),
{
    if pos + 4 <= m {
        lemma_u16_cut(b, pos, m);
        lemma_u16_cut(b, pos + 2, m);
    }
}

proof fn lemma_u64_cut(b: Seq<u8>, pos: int, m: int)
    requires
        0 <= pos <= b.len(),
        0 <= m <= b.len(),
    ensures
        same_within(u64_at(b, pos), u64_at(b.take(m), pos), m),
        ends_between(u64_at(b, pos), pos, 8, b.len() as int),
{
    if pos + 8 <= m {
        lemma_u32_cut(b, pos, m);
        lemma_u32_cut(b, pos + 4, m);
    }
}

proof fn lemma_string_cut(b: Seq<u8>, pos: int, limits: ParseLimits, m: int)
    requires
        0 <= pos <= b.len(),
        0 <= m <= b.len(),
    ensures
        same_within(string_at(b, pos, limits), string_at(b.take(m), pos, limits), m),
        ends_between(string_at(b, pos, limits), pos, 8, b.len() as int),
{
    lemma_u64_cut(b, pos, m);
    if let Ok((len, p)) = u64_at(b, pos) {
        if let Ok(q) = take_spec(b, p, len as int) {
            if q <= m {
                assert(b.take(m).subrange(p, q) =~= b.subrange(p, q));
            }
        }
    }
}

proof fn lemma_strings_cut(b: Seq<u8>, pos: int, limits: ParseLimits, count: nat, m: int)
    requires
        0 <= pos <= b.len(),
        0 <= m <= b.len(),
    ensures
        same_within(strings_at(b, pos, limits, count), strings_at(b.take(m), pos, limits, count), m),
        ends_between(strings_at(b, pos, limits, count), pos, 8 * count as int, b.len() as int),
    decreases count,
{
    if count > 0 {
        lemma_strings_cut(b, pos, limits, (count - 1) as nat, m);
        if let Ok((v, q)) = strings_at(b, pos, limits, (count - 1) as nat) {
            lemma_string_cut(b, q, limits, m);
        }
    }
}

proof fn lemma_elements_cut(b: Seq<u8>, p: int, limits: ParseLimits, ty: ValueType, n: nat, m: int)
    requires
        0 <= p <= b.len(),
        0 <= m <= b.len(),
        ty != ValueType::Array,
        ty != ValueType::String ==> p + min_size_of(ty) * n <= b.len(),
    ensures
        same_within(elements_at(b, p, limits, ty, n), elements_at(b.take(m), p, limits, ty, n), m),
        ends_between(elements_at(b, p, limits, ty, n), p, min_size_of(ty) * n as int, b.len() as int),
{
    let c = b.take(m);
    let w = min_size_of(ty) as int;
    assert(ty != ValueType::String ==> ends_between(elements_at(b, p, limits, ty, n), p, w * n, b.len() as int));
    match ty {
        ValueType::String => {
            lemma_strings_cut(b, p, limits, n, m);
            assert(min_size_of(ty) == 8);
            if let Ok((v, q)) = strings_at(b, p, limits, n) {
                assert(p + 8 * n <= q <= b.len());
            }
        },
        ValueType::U8 | ValueType::I8 | ValueType::Bool => {
            if p + n <= m {
                assert forall|i: int| 0 <= i < n implies #[trigger] c[p + i] == b[p + i] by {}
                assert(Seq::new(n, |i: int| c[p + i]) =~= Seq::new(n, |i: int| b[p + i]));
                assert(Seq::new(n, |i: int| c[p + i] as i8) =~= Seq::new(n, |i: int| b[p + i] as i8));
                assert(Seq::new(n, |i: int| c[p + i] != 0) =~= Seq::new(n, |i: int| b[p + i] != 0));
            }
        },
        ValueType::U16 | ValueType::I16 => {
            if p + 2 * n <= m {
                assert forall|i: int| 0 <= i < n implies #[trigger] le16(c, p + 2 * i) == le16(
                    b,
                    p + 2 * i,
                ) by {
                    lemma_u16_cut(b, p + 2 * i, m);
                }
                assert(Seq::new(n, |i: int| le16(c, p + 2 * i)) =~= Seq::new(
                    n,
                    |i: int| le16(b, p + 2 * i),
                ));
                assert(Seq::new(n, |i: int| le16(c, p + 2 * i) as i16) =~= Seq::new(
                    n,
                    |i: int| le16(b, p + 2 * i) as i16,
                ));
            }
        },
        ValueType::U32 | ValueType::I32 | ValueType::F32 => {
            if p + 4 * n <= m {
                assert forall|i: int| 0 <= i < n implies #[trigger] le32(c, p + 4 * i) == le32(
                    b,
                    p + 4 * i,
                ) by {
                    lemma_u32_cut(b, p + 4 * i, m);
                }
                assert(Seq::new(n, |i: int| le32(c, p + 4 * i)) =~= Seq::new(
                    n,
                    |i: int| le32(b, p + 4 * i),
                ));
                assert(Seq::new(n, |i: int| le32(c, p + 4 * i) as i32) =~= Seq::new(
                    n,
                    |i: int| le32(b, p + 4 * i) as i32,
                ));
            }
        },
        _ => {
            if p + 8 * n <= m {
                assert forall|i: int| 0 <= i < n implies #[trigger] le64(c, p + 8 * i) == le64(
                    b,
                    p + 8 * i,
                ) by {
                    lemma_u64_cut(b, p + 8 * i, m);
                }
                assert(Seq::new(n, |i: int| le64(c, p + 8 * i)) =~= Seq::new(
                    n,
                    |i: int| le64(b, p + 8 * i),
                ));
                assert(Seq::new(n, |i: int| le64(c, p + 8 * i) as i64) =~= Seq::new(
                    n,
                    |i: int| le64(b, p + 8 * i) as i64,
                ));
            }
        },
    }
}


proof fn lemma_array_cut(b: Seq<u8>, pos: int, limits: ParseLimits, key: Seq<char>, m: int)
    requires
        0 <= pos <= b.len(),
        0 <= m <= b.len(),
        b.len() <= usize::MAX,
    ensures
        same_within(array_at(b, pos, limits, key), array_at(b.take(m), pos, limits, key), m),
        ends_between(array_at(b, pos, limits, key), pos, 12, b.len() as int),
{
    lemma_u32_cut(b, pos, m);
    if let Ok((tag, p1)) = u32_at(b, pos) {
        if let Some(ty) = value_type_of_tag(tag) {
            lemma_u64_cut(b, p1, m);
            if let Ok((count, p2)) = u64_at(b, p1) {
                if ty != ValueType::Array {
                    let size = min_size_of(ty) as int;
                    let limit = array_limit(b.len() - p2, size, limits.max_array_len);
                    if count <= limit && count <= usize::MAX {
                        assert(size * count <= size * ((b.len() - p2) / size)) by (nonlinear_arith)
                            requires
                                count <= (b.len() - p2) / size,
                                size >= 1,
                        ;
                        assert(size * ((b.len() - p2) / size) <= b.len() - p2) by (nonlinear_arith)
                            requires
                                b.len() - p2 >= 0,
                                size >= 1,
                        ;
                        lemma_elements_cut(b, p2, limits, ty, count as nat, m);
                        if let Ok((a, q)) = elements_at(b, p2, limits, ty, count as nat) {
                            if q <= m {
                                lemma_count_fits(count as int, size, m - p2);
                                assert(count <= array_limit(m - p2, size, limits.max_array_len));
                            }
                        }
                    }
                }
            }
        }
    }
}

proof fn lemma_value_cut(b: Seq<u8>, pos: int, limits: ParseLimits, ty: ValueType, key: Seq<char>, m: int)
    requires
        0 <= pos <= b.len(),
        0 <= m <= b.len(),
        b.len() <= usize::MAX,
    ensures
        same_within(value_at(b, pos, limits, ty, key), value_at(b.take(m), pos, limits, ty, key), m),
        ends_between(value_at(b, pos, limits, ty, key), pos, 1, b.len() as int),
{
    lemma_u8_cut(b, pos, m);
    lemma_u16_cut(b, pos, m);
    lemma_u32_cut(b, pos, m);
    lemma_u64_cut(b, pos, m);
    lemma_string_cut(b, pos, limits, m);
    lemma_array_cut(b, pos, limits, key, m);
}

proof fn lemma_kv_cut(b: Seq<u8>, pos: int, limits: ParseLimits, m: int)
    requires
        0 <= pos <= b.len(),
        0 <= m <= b.len(),
        b.len() <= usize::MAX,
    ensures
        same_within(kv_at(b, pos, limits), kv_at(b.take(m), pos, limits), m),
        ends_between(kv_at(b, pos, limits), pos, 13, b.len() as int),
{
    lemma_string_cut(b, pos, limits, m);
    if let Ok((key, p1)) = string_at(b, pos, limits) {
        lemma_u32_cut(b, p1, m);
        if let Ok((tag, p2)) = u32_at(b, p1) {
            if let Some(ty) = value_type_of_tag(tag) {
                lemma_value_cut(b, p2, limits, ty, key, m);
            }
        }
    }
}

proof fn lemma_kvs_cut(b: Seq<u8>, pos: int, limits: ParseLimits, count: nat, m: int)
    requires
        0 <= pos <= b.len(),
        0 <= m <= b.len(),
        b.len() <= usize::MAX,
    ensures
        same_within(kvs_at(b, pos, limits, count), kvs_at(b.take(m), pos, limits, count), m),
        ends_between(kvs_at(b, pos, limits, count), pos, 13 * count as int, b.len() as int),
    decreases count,
{
    if count > 0 {
        lemma_kvs_cut(b, pos, limits, (count - 1) as nat, m);
        if let Ok((md, q)) = kvs_at(b, pos, limits, (count - 1) as nat) {
            lemma_kv_cut(b, q, limits, m);
        }
    }
}

proof fn lemma_dims_cut(b: Seq<u8>, pos: int, count: nat, m: int)
    requires
        0 <= pos <= b.len(),
        0 <= m <= b.len(),
    ensures
        same_within(dims_at(b, pos, count), dims_at(b.take(m), pos, count), m),
        ends_between(dims_at(b, pos, count), pos, 8 * count as int, b.len() as int),
    decreases count,
{
    if count > 0 {
        lemma_dims_cut(b, pos, (count - 1) as nat, m);
        if let Ok((v, q)) = dims_at(b, pos, (count - 1) as nat) {
            lemma_u64_cut(b, q, m);
        }
    }
}

proof fn lemma_tensor_cut(b: Seq<u8>, pos: int, limits: ParseLimits, table: Seq<DtypeLayout>, m: int)
    requires
        0 <= pos <= b.len(),
        0 <= m <= b.len(),
    ensures
        same_within(tensor_at(b, pos, limits, table), tensor_at(b.take(m), pos, limits, table), m),
        ends_between(tensor_at(b, pos, limits, table), pos, 24, b.len() as int),
{
    lemma_string_cut(b, pos, limits, m);
    if let Ok((name, p1)) = string_at(b, pos, limits) {
        lemma_u32_cut(b, p1, m);
        if let Ok((n_dims, p2)) = u32_at(b, p1) {
            if n_dims <= limits.max_dimensions {
                lemma_dims_cut(b, p2, n_dims as nat, m);
                if let Ok((shape, p3)) = dims_at(b, p2, n_dims as nat) {
                    lemma_u32_cut(b, p3, m);
                    if let Ok((tag, p4)) = u32_at(b, p3) {
                        lemma_u64_cut(b, p4, m);
                    }
                }
            }
        }
    }
}

proof fn lemma_tensors_cut(
    b: Seq<u8>,
    pos: int,
    limits: ParseLimits,
    table: Seq<DtypeLayout>,
    count: nat,
    m: int,
)
    requires
        0 <= pos <= b.len(),
        0 <= m <= b.len(),
    ensures
        same_within(
            tensors_at(b, pos, limits, table, count),
            tensors_at(b.take(m), pos, limits, table, count),
            m,
        ),
        ends_between(tensors_at(b, pos, limits, table, count), pos, 24 * count as int, b.len() as int),
    decreases count,
{
    if count > 0 {
        lemma_tensors_cut(b, pos, limits, table, (count - 1) as nat, m);
        if let Ok((ts, q)) = tensors_at(b, pos, limits, table, (count - 1) as nat) {
            lemma_tensor_cut(b, q, limits, table, m);
        }
    }
}

proof fn lemma_preamble_cut(b: Seq<u8>, limits: ParseLimits, m: int)
    requires
        24 <= m <= b.len(),
    ensures
        preamble_spec(b.take(m), limits) == preamble_spec(b, limits),
{
    lemma_u32_cut(b, 0, m);
    lemma_u32_cut(b, 4, m);
    lemma_u64_cut(b, 8, m);
    lemma_u64_cut(b, 16, m);
}

proof fn lemma_metadata_cut(b: Seq<u8>, limits: ParseLimits, kv_count: u64, m: int)
    requires
        24 <= m <= b.len(),
        b.len() <= usize::MAX,
    ensures
        metadata_spec(b, limits, kv_count) matches Ok((_, p, _)) ==> 24 + 13 * kv_count <= p <= b.len(),
        metadata_spec(b, limits, kv_count) matches Ok((_, p, _)) && p <= m ==> metadata_spec(
            b.take(m),
            limits,
            kv_count,
        ) == metadata_spec(b, limits, kv_count),
{
    lemma_kvs_cut(b, 24, limits, kv_count as nat, m);
    if let Ok((md, p, alignment)) = metadata_spec(b, limits, kv_count) {
        if p <= m {
            lemma_count_fits(kv_count as int, 12, m - 24);
        }
    }
}

proof fn lemma_table_cut(
    b: Seq<u8>,
    pos: int,
    limits: ParseLimits,
    table: Seq<DtypeLayout>,
    tensor_count: u64,
    m: int,
)
    requires
        0 <= pos <= m <= b.len(),
        b.len() <= usize::MAX,
    ensures
        tensor_table_spec(b, pos, limits, table, tensor_count) matches Ok((_, q)) ==> pos <= q
            <= b.len(),
        tensor_table_spec(b, pos, limits, table, tensor_count) matches Ok((_, q)) && q <= m
            ==> tensor_table_spec(b.take(m), pos, limits, table, tensor_count) == tensor_table_spec(
            b,
            pos,
            limits,
            table,
            tensor_count,
        ),
{
    lemma_tensors_cut(b, pos, limits, table, tensor_count as nat, m);
    if let Ok((ts, q)) = tensor_table_spec(b, pos, limits, table, tensor_count) {
        if q <= m {
            lemma_count_fits(tensor_count as int, 20, m - pos);
        }
    }
}

/// A parsed header is the header of its own bytes alone: the first
/// `header_bytes` bytes of its input parse to it.
proof fn lemma_parse_cut(b: Seq<u8>, limits: ParseLimits, table: Seq<DtypeLayout>, h: HeaderModel)
    requires
        parse_spec(b, limits, table) == Ok::<HeaderModel, ErrorModel>(h),
        b.len() <= usize::MAX,
    ensures
        h.header_bytes <= b.len(),
        parse_spec(b.take(h.header_bytes as int), limits, table) == Ok::<HeaderModel, ErrorModel>(h),
{
    if let Ok((version, tensor_count, kv_count)) = preamble_spec(b, limits) {
        lemma_metadata_cut(b, limits, kv_count, b.len() as int);
        if let Ok((md, p, alignment)) = metadata_spec(b, limits, kv_count) {
            lemma_table_cut(b, p, limits, table, tensor_count, b.len() as int);
            if let Ok((ts, q)) = tensor_table_spec(b, p, limits, table, tensor_count) {
                assert(h.header_bytes == q);
                lemma_preamble_cut(b, limits, q);
                lemma_metadata_cut(b, limits, kv_count, q);
                lemma_table_cut(b, p, limits, table, tensor_count, q);
            }
        }
    }
}

proof fn lemma_stable_ok(
    head: Seq<u8>,
    rest: Seq<u8>,
    limits: ParseLimits,
    table: Seq<DtypeLayout>,
    h: HeaderModel,
)
    requires
        parse_spec(head, limits, table) == Ok::<HeaderModel, ErrorModel>(h),
        head.len() + rest.len() <= usize::MAX,
    ensures
        parse_spec(head + rest, limits, table) == Ok::<HeaderModel, ErrorModel>(h),
{
    law_prefix_is_enough(head, rest, limits, table);
}

/// Parsing reads nothing past a header's own bytes: any input that agrees
/// with a parsed header's input on its first `header_bytes` bytes, whatever
/// follows them or however soon it ends after them, parses to the same
/// header.
pub proof fn law_parsing_reads_only_the_header(
    b: Seq<u8>,
    b2: Seq<u8>,
    limits: ParseLimits,
    table: Seq<DtypeLayout>,
    h: HeaderModel,
)
    requires
        parse_spec(b, limits, table) == Ok::<HeaderModel, ErrorModel>(h),
        h.header_bytes <= b2.len(),
        b2.take(h.header_bytes as int) == b.take(h.header_bytes as int),
        b.len() <= usize::MAX,
        b2.len() <= usize::MAX,
    ensures
        parse_spec(b2, limits, table) == Ok::<HeaderModel, ErrorModel>(h),
{
    let m = h.header_bytes as int;
    lemma_parse_cut(b, limits, table, h);
    let head = b.take(m);
    let rest = b2.skip(m);
    assert(head + rest == b2) by {
        assert(head + rest =~= b2);
    }
    lemma_stable_ok(head, rest, limits, table, h);
}

} // verus!
