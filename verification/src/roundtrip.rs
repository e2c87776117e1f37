//! Reading back what `write_to_vec` wrote gives back what was written.
use vstd::prelude::*;
use vstd::utf8::*;

use crate::bytes::{le16, le32, le64, lemma_le16, lemma_le32, lemma_le64, u16_bytes, u32_bytes, u64_bytes};
use crate::error::ErrorModel;
use crate::format::{
    align_up_spec, alignment_of, is_power_of_two, metadata_spec, parse_spec, preamble_spec,
    some_end_overflows, tensor_table_spec, HeaderModel,
    array_at, array_limit, dims_at, elements_at, has_key, has_name, keys_unique, kv_at, kvs_at,
    names_unique, string_at, strings_at, tensor_at, tensor_error, tensors_at, u16_at, u32_at,
    u64_at, u8_at, value_at,
};
use crate::tensor::{lookup_layout, DtypeLayout, TensorModel};
use crate::value::{min_size_of, tag_of_value_type, value_type_of_tag, ArrayModel, ValueModel, ValueType};
use crate::order::{law_sorted_is_kept, lemma_sorted_keys_differ, sorted_by_key};
use crate::reader::ParseLimits;
use crate::writer::{
    array_bytes, bool_byte, concat_map, elements_bytes, kv_bytes, metadata_bytes, payload_bytes,
    string_bytes, tensor_entry_bytes, tensor_table_bytes, total_nbytes, head_bytes, infos_of,
    write_spec,
};
use crate::{supported_versions_spec, GGUF_MAGIC};

verus! {

/// `piece` lies in `b` from `p`.
pub open spec fn at(b: Seq<u8>, p: int, piece: Seq<u8>) -> bool {
    &&& 0 <= p
    &&& p + piece.len() <= b.len()
    &&& b.subrange(p, p + piece.len()) == piece
}

/// A string short enough for the limits.
pub open spec fn string_fits(s: Seq<char>, limits: ParseLimits) -> bool {
    encode_utf8(s).len() <= limits.max_string_bytes
}

proof fn lemma_at_split(b: Seq<u8>, p: int, x: Seq<u8>, y: Seq<u8>)
    requires
        at(b, p, x + y),
    ensures
        at(b, p, x),
        at(b, p + x.len(), y),
{
    let whole = b.subrange(p, p + x.len() + y.len());
    assert(whole == x + y);
    assert(b.subrange(p, p + x.len()) =~= whole.subrange(0, x.len() as int));
    assert(whole.subrange(0, x.len() as int) =~= x);
    assert(b.subrange(p + x.len(), p + x.len() + y.len()) =~= whole.subrange(
        x.len() as int,
        (x.len() + y.len()) as int,
    ));
    assert(whole.subrange(x.len() as int, (x.len() + y.len()) as int) =~= y);
}

proof fn lemma_at_sub(b: Seq<u8>, p: int, whole: Seq<u8>, i: int, j: int)
    requires
        at(b, p, whole),
        0 <= i <= j <= whole.len(),
    ensures
        at(b, p + i, whole.subrange(i, j)),
{
    assert(b.subrange(p + i, p + j) =~= b.subrange(p, p + whole.len()).subrange(i, j));
}

proof fn lemma_i8_cast(x: i8)
    ensures
        (x as u8) as i8 == x,
{
    assert((x as u8) as i8 == x) by (bit_vector);
}

proof fn lemma_i16_cast(x: i16)
    ensures
        (x as u16) as i16 == x,
{
    assert((x as u16) as i16 == x) by (bit_vector);
}

proof fn lemma_i32_cast(x: i32)
    ensures
        (x as u32) as i32 == x,
{
    assert((x as u32) as i32 == x) by (bit_vector);
}

proof fn lemma_i64_cast(x: i64)
    ensures
        (x as u64) as i64 == x,
{
    assert((x as u64) as i64 == x) by (bit_vector);
}

proof fn lemma_u8_rt(b: Seq<u8>, p: int, x: u8)
    requires
        at(b, p, seq![x]),
    ensures
        u8_at(b, p) == Ok::<(u8, int), crate::error::ErrorModel>((x, p + 1)),
{
    assert(b[p] == b.subrange(p, p + 1)[0]);
}

proof fn lemma_u16_rt(b: Seq<u8>, p: int, x: u16)
    requires
        at(b, p, u16_bytes(x)),
    ensures
        u16_bytes(x).len() == 2,
        u16_at(b, p) == Ok::<(u16, int), crate::error::ErrorModel>((x, p + 2)),
{
    lemma_le16(b, p, x);
}

proof fn lemma_u32_rt(b: Seq<u8>, p: int, x: u32)
    requires
        at(b, p, u32_bytes(x)),
    ensures
        u32_bytes(x).len() == 4,
        u32_at(b, p) == Ok::<(u32, int), crate::error::ErrorModel>((x, p + 4)),
{
    lemma_le32(b, p, x);
}

proof fn lemma_u64_rt(b: Seq<u8>, p: int, x: u64)
    requires
        at(b, p, u64_bytes(x)),
    ensures
        u64_bytes(x).len() == 8,
        u64_at(b, p) == Ok::<(u64, int), crate::error::ErrorModel>((x, p + 8)),
{
    lemma_le64(b, p, x);
}

proof fn lemma_string_rt(b: Seq<u8>, p: int, s: Seq<char>, limits: ParseLimits)
    requires
        at(b, p, string_bytes(s)),
        string_fits(s, limits),
        b.len() <= usize::MAX,
    ensures
        string_bytes(s).len() >= 8,
        string_at(b, p, limits) == Ok::<(Seq<char>, int), crate::error::ErrorModel>(
            (s, p + string_bytes(s).len()),
        ),
{
    let e = encode_utf8(s);
    lemma_at_split(b, p, u64_bytes(e.len() as u64), e);
    lemma_u64_rt(b, p, e.len() as u64);
    encode_utf8_valid_utf8(s);
    encode_utf8_decode_utf8(s);
}

/// A run of strings reads back as the strings.
proof fn lemma_strings_rt(b: Seq<u8>, p: int, v: Seq<Seq<char>>, limits: ParseLimits)
    requires
        at(b, p, concat_map(v, |s: Seq<char>| string_bytes(s))),
        forall|i: int| 0 <= i < v.len() ==> string_fits(#[trigger] v[i], limits),
        b.len() <= usize::MAX,
    ensures
        concat_map(v, |s: Seq<char>| string_bytes(s)).len() >= 8 * v.len(),
        strings_at(b, p, limits, v.len()) == Ok::<(Seq<Seq<char>>, int), crate::error::ErrorModel>(
            (v, p + concat_map(v, |s: Seq<char>| string_bytes(s)).len()),
        ),
    decreases v.len(),
{
    if v.len() > 0 {
        let f = |s: Seq<char>| string_bytes(s);
        let init = v.drop_last();
        lemma_at_split(b, p, concat_map(init, f), f(v.last()));
        assert forall|i: int| 0 <= i < init.len() implies string_fits(#[trigger] init[i], limits) by {
            assert(init[i] == v[i]);
        }
        lemma_strings_rt(b, p, init, limits);
        lemma_string_rt(b, p + concat_map(init, f).len(), v.last(), limits);
        assert(init.push(v.last()) =~= v);
        assert(concat_map(v, f) == concat_map(init, f) + f(v.last()));
    } else {
        assert(v =~= Seq::<Seq<char>>::empty());
    }
}

/// Each element of a concatenation of equally long pieces sits at its
/// multiple of the width.
proof fn lemma_concat_map_fixed<T>(v: Seq<T>, f: spec_fn(T) -> Seq<u8>, w: int)
    requires
        w >= 1,
        forall|x: T| #[trigger] f(x).len() == w,
    ensures
        concat_map(v, f).len() == w * v.len(),
        forall|i: int|
            0 <= i < v.len() ==> concat_map(v, f).subrange(w * i, w * i + w) == f(#[trigger] v[i]),
    decreases v.len(),
{
    if v.len() > 0 {
        let init = v.drop_last();
        let c = concat_map(init, f);
        lemma_concat_map_fixed(init, f, w);
        let n = v.len() as int;
        assert(w * (n - 1) + w == w * n) by (nonlinear_arith);
        assert forall|i: int| 0 <= i < v.len() implies concat_map(v, f).subrange(w * i, w * i + w)
            == f(#[trigger] v[i]) by {
            if i < n - 1 {
                assert(w * i + w <= w * (n - 1)) by (nonlinear_arith)
                    requires
                        0 <= i < n - 1,
                        w >= 1,
                ;
                assert(0 <= w * i) by (nonlinear_arith)
                    requires
                        0 <= i,
                        w >= 1,
                ;
                assert(concat_map(v, f).subrange(w * i, w * i + w) =~= c.subrange(w * i, w * i + w));
                assert(init[i] == v[i]);
            } else {
                assert(w * i == w * (n - 1));
                assert(concat_map(v, f).subrange(w * i, w * i + w) =~= f(v.last()));
            }
        }
    }
}

/// The elements of an array read back as the array.
proof fn lemma_elements_rt(b: Seq<u8>, p: int, a: ArrayModel, limits: ParseLimits)
    requires
        at(b, p, elements_bytes(a)),
        a matches ArrayModel::String(v) ==> forall|i: int| 0 <= i < v.len() ==> string_fits(#[trigger] v[i], limits),
        b.len() <= usize::MAX,
    ensures
        elements_bytes(a).len() >= min_size_of(a.element_type()) * a.len(),
        a.element_type() != ValueType::String ==> elements_bytes(a).len() == min_size_of(a.element_type()) * a.len(),
        elements_at(b, p, limits, a.element_type(), a.len()) == Ok::<(ArrayModel, int), ErrorModel>(
            (a, p + elements_bytes(a).len()),
        ),
{
    let e = elements_bytes(a);
    let n = a.len();
    assert(b.subrange(p, p + e.len()) == e);
    match a {
        ArrayModel::U8(v) => {
            assert forall|i: int| 0 <= i < n implies #[trigger] b[p + i] == v[i] by {
                assert(b[p + i] == b.subrange(p, p + e.len())[i]);
            }
            assert(Seq::new(n, |i: int| b[p + i]) =~= v);
        },
        ArrayModel::I8(v) => {
            assert forall|i: int| 0 <= i < n implies (#[trigger] b[p + i]) as i8 == v[i] by {
                assert(b[p + i] == b.subrange(p, p + e.len())[i]);
                lemma_i8_cast(v[i]);
            }
            assert(Seq::new(n, |i: int| b[p + i] as i8) =~= v);
        },
        ArrayModel::Bool(v) => {
            assert forall|i: int| 0 <= i < n implies (#[trigger] b[p + i] != 0) == v[i] by {
                assert(b[p + i] == b.subrange(p, p + e.len())[i]);
            }
            assert(Seq::new(n, |i: int| b[p + i] != 0) =~= v);
        },
        ArrayModel::U16(v) => {
            lemma_concat_map_fixed(v, |x: u16| u16_bytes(x), 2);
            assert forall|i: int| 0 <= i < n implies #[trigger] le16(b, p + 2 * i) == v[i] by {
                lemma_at_sub(b, p, e, 2 * i, 2 * i + 2);
                lemma_le16(b, p + 2 * i, v[i]);
            }
            assert(Seq::new(n, |i: int| le16(b, p + 2 * i)) =~= v);
        },
        ArrayModel::I16(v) => {
            lemma_concat_map_fixed(v, |x: i16| u16_bytes(x as u16), 2);
            assert forall|i: int| 0 <= i < n implies #[trigger] (le16(b, p + 2 * i) as i16) == v[i] by {
                lemma_at_sub(b, p, e, 2 * i, 2 * i + 2);
                lemma_le16(b, p + 2 * i, v[i] as u16);
                lemma_i16_cast(v[i]);
            }
            assert(Seq::new(n, |i: int| le16(b, p + 2 * i) as i16) =~= v);
        },
        ArrayModel::U32(v) => {
            lemma_concat_map_fixed(v, |x: u32| u32_bytes(x), 4);
            assert forall|i: int| 0 <= i < n implies #[trigger] le32(b, p + 4 * i) == v[i] by {
                lemma_at_sub(b, p, e, 4 * i, 4 * i + 4);
                lemma_le32(b, p + 4 * i, v[i]);
            }
            assert(Seq::new(n, |i: int| le32(b, p + 4 * i)) =~= v);
        },
        ArrayModel::F32(v) => {
            lemma_concat_map_fixed(v, |x: u32| u32_bytes(x), 4);
            assert forall|i: int| 0 <= i < n implies #[trigger] le32(b, p + 4 * i) == v[i] by {
                lemma_at_sub(b, p, e, 4 * i, 4 * i + 4);
                lemma_le32(b, p + 4 * i, v[i]);
            }
            assert(Seq::new(n, |i: int| le32(b, p + 4 * i)) =~= v);
        },
        ArrayModel::I32(v) => {
            lemma_concat_map_fixed(v, |x: i32| u32_bytes(x as u32), 4);
            assert forall|i: int| 0 <= i < n implies #[trigger] (le32(b, p + 4 * i) as i32) == v[i] by {
                lemma_at_sub(b, p, e, 4 * i, 4 * i + 4);
                lemma_le32(b, p + 4 * i, v[i] as u32);
                lemma_i32_cast(v[i]);
            }
            assert(Seq::new(n, |i: int| le32(b, p + 4 * i) as i32) =~= v);
        },
        ArrayModel::U64(v) => {
            lemma_concat_map_fixed(v, |x: u64| u64_bytes(x), 8);
            assert forall|i: int| 0 <= i < n implies #[trigger] le64(b, p + 8 * i) == v[i] by {
                lemma_at_sub(b, p, e, 8 * i, 8 * i + 8);
                lemma_le64(b, p + 8 * i, v[i]);
            }
            assert(Seq::new(n, |i: int| le64(b, p + 8 * i)) =~= v);
        },
        ArrayModel::F64(v) => {
            lemma_concat_map_fixed(v, |x: u64| u64_bytes(x), 8);
            assert forall|i: int| 0 <= i < n implies #[trigger] le64(b, p + 8 * i) == v[i] by {
                lemma_at_sub(b, p, e, 8 * i, 8 * i + 8);
                lemma_le64(b, p + 8 * i, v[i]);
            }
            assert(Seq::new(n, |i: int| le64(b, p + 8 * i)) =~= v);
        },
        ArrayModel::I64(v) => {
            lemma_concat_map_fixed(v, |x: i64| u64_bytes(x as u64), 8);
            assert forall|i: int| 0 <= i < n implies #[trigger] (le64(b, p + 8 * i) as i64) == v[i] by {
                lemma_at_sub(b, p, e, 8 * i, 8 * i + 8);
                lemma_le64(b, p + 8 * i, v[i] as u64);
                lemma_i64_cast(v[i]);
            }
            assert(Seq::new(n, |i: int| le64(b, p + 8 * i) as i64) =~= v);
        },
        ArrayModel::String(v) => {
            lemma_strings_rt(b, p, v, limits);
        },
    }
}

/// An array short enough for the limits, and its strings too.
pub open spec fn array_fits(a: ArrayModel, limits: ParseLimits) -> bool {
    &&& a.len() <= limits.max_array_len
    &&& a matches ArrayModel::String(v) ==> forall|i: int|
        0 <= i < v.len() ==> string_fits(#[trigger] v[i], limits)
}

/// A value whose strings and arrays are short enough for the limits.
pub open spec fn value_fits(v: ValueModel, limits: ParseLimits) -> bool {
    match v {
        ValueModel::String(s) => string_fits(s, limits),
        ValueModel::Array(a) => array_fits(a, limits),
        _ => true,
    }
}

proof fn lemma_tag_rt(ty: ValueType)
    ensures
        value_type_of_tag(tag_of_value_type(ty)) == Some(ty),
{
}

pub(crate) proof fn lemma_count_fits(count: int, size: int, room: int)
    requires
        size >= 1,
        count >= 0,
        size * count <= room,
    ensures
        count <= room / size,
{
    assert(count <= room / size) by (nonlinear_arith)
        requires
            size >= 1,
            count >= 0,
            size * count <= room,
    ;
}

/// An array reads back as the array.
proof fn lemma_array_rt(b: Seq<u8>, p: int, a: ArrayModel, limits: ParseLimits, key: Seq<char>)
    requires
        at(b, p, array_bytes(a)),
        array_fits(a, limits),
        b.len() <= usize::MAX,
    ensures
        array_bytes(a).len() >= 12,
        array_at(b, p, limits, key) == Ok::<(ArrayModel, int), ErrorModel>(
            (a, p + array_bytes(a).len()),
        ),
{
    let ty = a.element_type();
    let t = u32_bytes(tag_of_value_type(ty));
    let c = u64_bytes(a.len() as u64);
    let e = elements_bytes(a);
    assert(array_bytes(a) == t + c + e);
    lemma_at_split(b, p, t + c, e);
    lemma_at_split(b, p, t, c);
    lemma_u32_rt(b, p, tag_of_value_type(ty));
    lemma_tag_rt(ty);
    lemma_u64_rt(b, p + 4, a.len() as u64);
    let p2 = p + 12;
    lemma_elements_rt(b, p2, a, limits);
    let size = min_size_of(ty) as int;
    lemma_count_fits(a.len() as int, size, b.len() - p2);
    assert(a.len() <= array_limit(b.len() - p2, size, limits.max_array_len));
}

/// A value reads back as itself: where a value's stored bytes (without its
/// type tag) lie at `p`, and its strings and arrays are within the limits,
/// reading a value of its type at `p` gives the value and the position just
/// past those bytes.
pub proof fn law_value_reads_back(b: Seq<u8>, p: int, v: ValueModel, limits: ParseLimits, key: Seq<char>)
    requires
        at(b, p, payload_bytes(v)),
        value_fits(v, limits),
        b.len() <= usize::MAX,
    ensures
        payload_bytes(v).len() >= 1,
        value_at(b, p, limits, v.value_type(), key) == Ok::<(ValueModel, int), ErrorModel>(
            (v, p + payload_bytes(v).len()),
        ),
{
    match v {
        ValueModel::U8(x) => lemma_u8_rt(b, p, x),
        ValueModel::I8(x) => {
            lemma_u8_rt(b, p, x as u8);
            lemma_i8_cast(x);
        },
        ValueModel::Bool(x) => lemma_u8_rt(b, p, bool_byte(x)),
        ValueModel::U16(x) => lemma_u16_rt(b, p, x),
        ValueModel::I16(x) => {
            lemma_u16_rt(b, p, x as u16);
            lemma_i16_cast(x);
        },
        ValueModel::U32(x) => lemma_u32_rt(b, p, x),
        ValueModel::F32(x) => lemma_u32_rt(b, p, x),
        ValueModel::I32(x) => {
            lemma_u32_rt(b, p, x as u32);
            lemma_i32_cast(x);
        },
        ValueModel::U64(x) => lemma_u64_rt(b, p, x),
        ValueModel::F64(x) => lemma_u64_rt(b, p, x),
        ValueModel::I64(x) => {
            lemma_u64_rt(b, p, x as u64);
            lemma_i64_cast(x);
        },
        ValueModel::String(s) => lemma_string_rt(b, p, s, limits),
        ValueModel::Array(a) => lemma_array_rt(b, p, a, limits, key),
    }
}

/// A metadata entry reads back as itself: where an entry's stored bytes lie
/// at `p`, and its key, strings and arrays are within the limits, reading an
/// entry at `p` gives the entry and the position just past those bytes.
pub proof fn law_entry_reads_back(b: Seq<u8>, p: int, kv: (Seq<char>, ValueModel), limits: ParseLimits)
    requires
        at(b, p, kv_bytes(kv)),
        string_fits(kv.0, limits),
        value_fits(kv.1, limits),
        b.len() <= usize::MAX,
    ensures
        kv_bytes(kv).len() >= 13,
        kv_at(b, p, limits) == Ok::<((Seq<char>, ValueModel), int), ErrorModel>(
            (kv, p + kv_bytes(kv).len()),
        ),
{
    let (k, v) = kv;
    let sk = string_bytes(k);
    let t = u32_bytes(tag_of_value_type(v.value_type()));
    let pl = payload_bytes(v);
    assert(kv_bytes(kv) =~= sk + (t + pl));
    lemma_at_split(b, p, sk, t + pl);
    lemma_at_split(b, p + sk.len(), t, pl);
    lemma_string_rt(b, p, k, limits);
    lemma_u32_rt(b, p + sk.len(), tag_of_value_type(v.value_type()));
    lemma_tag_rt(v.value_type());
    law_value_reads_back(b, p + sk.len() + 4, v, limits, k);
}

/// Metadata entries with different keys read back as the entries.
proof fn lemma_kvs_rt(b: Seq<u8>, p: int, md: Seq<(Seq<char>, ValueModel)>, limits: ParseLimits)
    requires
        at(b, p, metadata_bytes(md)),
        keys_unique(md),
        forall|i: int| 0 <= i < md.len() ==> string_fits((#[trigger] md[i]).0, limits) && value_fits(md[i].1, limits),
        b.len() <= usize::MAX,
    ensures
        metadata_bytes(md).len() >= 13 * md.len(),
        kvs_at(b, p, limits, md.len()) == Ok::<(Seq<(Seq<char>, ValueModel)>, int), ErrorModel>(
            (md, p + metadata_bytes(md).len()),
        ),
    decreases md.len(),
{
    if md.len() == 0 {
        assert(md =~= Seq::<(Seq<char>, ValueModel)>::empty());
    } else {
        let init = md.drop_last();
        let last = md.last();
        assert(metadata_bytes(md) == metadata_bytes(init) + kv_bytes(last));
        lemma_at_split(b, p, metadata_bytes(init), kv_bytes(last));
        assert forall|i: int, j: int| 0 <= i < j < init.len() implies #[trigger] init[i].0 != #[trigger] init[j].0 by {
            assert(init[i] == md[i] && init[j] == md[j]);
        }
        assert forall|i: int| 0 <= i < init.len() implies string_fits((#[trigger] init[i]).0, limits) && value_fits(init[i].1, limits) by {
            assert(init[i] == md[i]);
        }
        lemma_kvs_rt(b, p, init, limits);
        law_entry_reads_back(b, p + metadata_bytes(init).len(), last, limits);
        assert(!has_key(init, last.0)) by {
            if has_key(init, last.0) {
                let i = choose|i: int| 0 <= i < init.len() && #[trigger] init[i].0 == last.0;
                assert(md[i].0 != md[md.len() - 1].0);
            }
        }
        assert(init.push(last) =~= md);
    }
}

/// Dimensions read back as the dimensions.
proof fn lemma_dims_rt(b: Seq<u8>, p: int, shape: Seq<u64>)
    requires
        at(b, p, concat_map(shape, |d: u64| u64_bytes(d))),
    ensures
        concat_map(shape, |d: u64| u64_bytes(d)).len() == 8 * shape.len(),
        dims_at(b, p, shape.len()) == Ok::<(Seq<u64>, int), ErrorModel>((shape, p + 8 * shape.len())),
    decreases shape.len(),
{
    if shape.len() == 0 {
        assert(shape =~= Seq::<u64>::empty());
    } else {
        let init = shape.drop_last();
        lemma_at_split(b, p, concat_map(init, |d: u64| u64_bytes(d)), u64_bytes(shape.last()));
        lemma_dims_rt(b, p, init);
        lemma_u64_rt(b, p + 8 * init.len(), shape.last());
        assert(init.push(shape.last()) =~= shape);
    }
}

/// A tensor with its data placed at `offset`.
pub open spec fn placed(t: TensorModel, offset: u64) -> TensorModel {
    TensorModel { name: t.name, shape: t.shape, dtype: t.dtype, offset }
}

/// Each tensor with its data placed right after the one before it.
pub open spec fn placed_all(ts: Seq<TensorModel>) -> Seq<TensorModel> {
    Seq::new(ts.len(), |i: int| placed(ts[i], total_nbytes(ts.take(i)) as u64))
}

/// What the parser asks of a tensor it is to accept with its data at
/// `offset`: a name short enough, a format the table knows as this one, a
/// dimension count within the limit, and a shape and offset that pass every
/// check.
pub open spec fn tensor_acceptable(
    t: TensorModel,
    offset: u64,
    limits: ParseLimits,
    table: Seq<DtypeLayout>,
) -> bool {
    &&& string_fits(t.name, limits)
    &&& t.shape.len() <= limits.max_dimensions
    &&& lookup_layout(table, t.dtype.tag) == Some(t.dtype)
    &&& tensor_error(t.name, t.shape, t.dtype, offset, limits) is None
}

/// A tensor-info entry reads back as the tensor, placed at its offset.
proof fn lemma_tensor_rt(
    b: Seq<u8>,
    p: int,
    t: TensorModel,
    offset: u64,
    limits: ParseLimits,
    table: Seq<DtypeLayout>,
)
    requires
        at(b, p, tensor_entry_bytes(t, offset)),
        tensor_acceptable(t, offset, limits, table),
        b.len() <= usize::MAX,
    ensures
        tensor_entry_bytes(t, offset).len() >= 24,
        tensor_at(b, p, limits, table) == Ok::<(TensorModel, int), ErrorModel>(
            (placed(t, offset), p + tensor_entry_bytes(t, offset).len()),
        ),
{
    let sn = string_bytes(t.name);
    let nd = u32_bytes(t.shape.len() as u32);
    let ds = concat_map(t.shape, |d: u64| u64_bytes(d));
    let tg = u32_bytes(t.dtype.tag);
    let of = u64_bytes(offset);
    assert(tensor_entry_bytes(t, offset) == sn + nd + ds + tg + of);
    lemma_at_split(b, p, sn + nd + ds + tg, of);
    lemma_at_split(b, p, sn + nd + ds, tg);
    lemma_at_split(b, p, sn + nd, ds);
    lemma_at_split(b, p, sn, nd);
    lemma_string_rt(b, p, t.name, limits);
    let p1 = p + sn.len();
    lemma_u32_rt(b, p1, t.shape.len() as u32);
    lemma_dims_rt(b, p1 + 4, t.shape);
    let p3 = p1 + 4 + ds.len();
    lemma_u32_rt(b, p3, t.dtype.tag);
    lemma_u64_rt(b, p3 + 4, offset);
}

/// Tensor-info entries with different names read back as the tensors, each
/// placed after the one before it.
proof fn lemma_tensors_rt(
    b: Seq<u8>,
    p: int,
    ts: Seq<TensorModel>,
    limits: ParseLimits,
    table: Seq<DtypeLayout>,
)
    requires
        at(b, p, tensor_table_bytes(ts)),
        names_unique(ts),
        forall|i: int|
            0 <= i < ts.len() ==> tensor_acceptable(
                #[trigger] ts[i],
                total_nbytes(ts.take(i)) as u64,
                limits,
                table,
            ),
        b.len() <= usize::MAX,
    ensures
        tensor_table_bytes(ts).len() >= 24 * ts.len(),
        tensors_at(b, p, limits, table, ts.len()) == Ok::<(Seq<TensorModel>, int), ErrorModel>(
            (placed_all(ts), p + tensor_table_bytes(ts).len()),
        ),
    decreases ts.len(),
{
    if ts.len() == 0 {
        assert(placed_all(ts) =~= Seq::<TensorModel>::empty());
    } else {
        let init = ts.drop_last();
        let last = ts.last();
        let n = ts.len() as int;
        let off = total_nbytes(init) as u64;
        assert(ts.take(n - 1) =~= init);
        lemma_at_split(b, p, tensor_table_bytes(init), tensor_entry_bytes(last, off));
        assert forall|i: int, j: int| 0 <= i < j < init.len() implies #[trigger] init[i].name != #[trigger] init[j].name by {
            assert(init[i] == ts[i] && init[j] == ts[j]);
        }
        assert forall|i: int| 0 <= i < init.len() implies tensor_acceptable(
            #[trigger] init[i],
            total_nbytes(init.take(i)) as u64,
            limits,
            table,
        ) by {
            assert(init[i] == ts[i]);
            assert(init.take(i) =~= ts.take(i));
        }
        lemma_tensors_rt(b, p, init, limits, table);
        assert(tensor_acceptable(ts[n - 1], total_nbytes(ts.take(n - 1)) as u64, limits, table));
        lemma_tensor_rt(b, p + tensor_table_bytes(init).len(), last, off, limits, table);
        let pi = placed_all(init);
        assert(!has_name(pi, last.name)) by {
            if has_name(pi, last.name) {
                let i = choose|i: int| 0 <= i < pi.len() && #[trigger] pi[i].name == last.name;
                assert(pi[i].name == ts[i].name);
                assert(ts[i].name != ts[n - 1].name);
            }
        }
        assert forall|i: int| 0 <= i < init.len() implies #[trigger] init.take(i) == ts.take(i) by {
            assert(init.take(i) =~= ts.take(i));
        }
        assert(pi.push(placed(last, off)) =~= placed_all(ts));
    }
}

/// What a file must hold for the parser to read back exactly what was
/// written: counts within the limits; metadata in key order, and names that
/// are different; keys short enough; metadata values whose strings and arrays fit the limits; the
/// alignment that the metadata itself names, a power of two; and every
/// tensor acceptable with its data where the writer puts it.
pub open spec fn writable(
    md: Seq<(Seq<char>, ValueModel)>,
    infos: Seq<TensorModel>,
    alignment: u64,
    limits: ParseLimits,
    table: Seq<DtypeLayout>,
) -> bool {
    &&& md.len() <= limits.max_metadata_entries
    &&& infos.len() <= limits.max_tensors
    &&& sorted_by_key(md)
    &&& forall|i: int|
        0 <= i < md.len() ==> string_fits((#[trigger] md[i]).0, limits) && value_fits(md[i].1, limits)
    &&& alignment_of(md) == alignment
    &&& is_power_of_two(alignment as nat)
    &&& names_unique(infos)
    &&& forall|i: int|
        0 <= i < infos.len() ==> tensor_acceptable(
            #[trigger] infos[i],
            total_nbytes(infos.take(i)) as u64,
            limits,
            table,
        )
}

/// Where the writer starts the data section.
pub open spec fn written_data_start(
    md: Seq<(Seq<char>, ValueModel)>,
    ts: Seq<(TensorModel, Seq<u8>)>,
    alignment: u64,
) -> u64 {
    align_up_spec(head_bytes(md, infos_of(ts)).len() as u64, alignment).unwrap()
}

proof fn lemma_written_preamble(
    out: Seq<u8>,
    md: Seq<(Seq<char>, ValueModel)>,
    infos: Seq<TensorModel>,
    limits: ParseLimits,
)
    requires
        at(out, 0, head_bytes(md, infos)),
        md.len() <= limits.max_metadata_entries,
        infos.len() <= limits.max_tensors,
    ensures
        preamble_spec(out, limits) == Ok::<(u32, u64, u64), ErrorModel>(
            (3u32, infos.len() as u64, md.len() as u64),
        ),
        at(out, 24, metadata_bytes(md)),
        at(out, 24int + metadata_bytes(md).len(), tensor_table_bytes(infos)),
        head_bytes(md, infos).len() == 24int + metadata_bytes(md).len() + tensor_table_bytes(infos).len(),
{
    let mdb = metadata_bytes(md);
    let tb = tensor_table_bytes(infos);
    let a = u32_bytes(GGUF_MAGIC);
    let v = u32_bytes(3);
    let c = u64_bytes(infos.len() as u64);
    let k = u64_bytes(md.len() as u64);
    assert(head_bytes(md, infos) == a + v + c + k + mdb + tb);
    lemma_at_split(out, 0, a + v + c + k + mdb, tb);
    lemma_at_split(out, 0, a + v + c + k, mdb);
    lemma_at_split(out, 0, a + v + c, k);
    lemma_at_split(out, 0, a + v, c);
    lemma_at_split(out, 0, a, v);
    lemma_u32_rt(out, 0, GGUF_MAGIC);
    lemma_u32_rt(out, 4, 3);
    lemma_u64_rt(out, 8, infos.len() as u64);
    lemma_u64_rt(out, 16, md.len() as u64);
    assert(supported_versions_spec()[1] == 3u32);
}

proof fn lemma_written_metadata(
    out: Seq<u8>,
    md: Seq<(Seq<char>, ValueModel)>,
    alignment: u64,
    limits: ParseLimits,
)
    requires
        at(out, 24, metadata_bytes(md)),
        keys_unique(md),
        forall|i: int|
            0 <= i < md.len() ==> string_fits((#[trigger] md[i]).0, limits) && value_fits(md[i].1, limits),
        alignment_of(md) == alignment,
        is_power_of_two(alignment as nat),
        out.len() <= usize::MAX,
    ensures
        metadata_spec(out, limits, md.len() as u64) == Ok::<(Seq<(Seq<char>, ValueModel)>, int, u64), ErrorModel>(
            (md, 24int + metadata_bytes(md).len(), alignment),
        ),
{
    lemma_kvs_rt(out, 24, md, limits);
    lemma_count_fits(md.len() as int, 12, out.len() - 24);
}

proof fn lemma_written_table(
    out: Seq<u8>,
    p: int,
    infos: Seq<TensorModel>,
    limits: ParseLimits,
    table: Seq<DtypeLayout>,
)
    requires
        at(out, p, tensor_table_bytes(infos)),
        names_unique(infos),
        forall|i: int|
            0 <= i < infos.len() ==> tensor_acceptable(
                #[trigger] infos[i],
                total_nbytes(infos.take(i)) as u64,
                limits,
                table,
            ),
        out.len() <= usize::MAX,
    ensures
        tensor_table_spec(out, p, limits, table, infos.len() as u64) == Ok::<(Seq<TensorModel>, int), ErrorModel>(
            (placed_all(infos), p + tensor_table_bytes(infos).len()),
        ),
{
    lemma_tensors_rt(out, p, infos, limits, table);
    lemma_count_fits(infos.len() as int, 20, out.len() - p);
}

proof fn lemma_written_head(
    md: Seq<(Seq<char>, ValueModel)>,
    ts: Seq<(TensorModel, Seq<u8>)>,
    alignment: u64,
)
    requires
        write_spec(md, ts, alignment) is Ok,
    ensures
        at(write_spec(md, ts, alignment)->Ok_0, 0, head_bytes(md, infos_of(ts))),
        align_up_spec(head_bytes(md, infos_of(ts)).len() as u64, alignment) is Some,
{
    let out = write_spec(md, ts, alignment)->Ok_0;
    let head = head_bytes(md, infos_of(ts));
    assert(out.subrange(0, head.len() as int) =~= head);
}

proof fn lemma_parse_written(
    out: Seq<u8>,
    md: Seq<(Seq<char>, ValueModel)>,
    infos: Seq<TensorModel>,
    alignment: u64,
    start: u64,
    limits: ParseLimits,
    table: Seq<DtypeLayout>,
)
    requires
        writable(md, infos, alignment, limits, table),
        at(out, 0, head_bytes(md, infos)),
        out.len() <= usize::MAX,
        align_up_spec(head_bytes(md, infos).len() as u64, alignment) == Some(start),
        !some_end_overflows(placed_all(infos), start),
    ensures
        parse_spec(out, limits, table) == Ok::<HeaderModel, ErrorModel>(
            HeaderModel {
                version: 3,
                metadata: md,
                tensors: placed_all(infos),
                tensor_data_start: start,
                alignment,
                header_bytes: head_bytes(md, infos).len() as u64,
            },
        ),
{
    lemma_written_preamble(out, md, infos, limits);
    lemma_sorted_keys_differ(md);
    law_sorted_is_kept(md);
    lemma_written_metadata(out, md, alignment, limits);
    lemma_written_table(out, 24int + metadata_bytes(md).len(), infos, limits, table);
}

/// Reading back what was written gives back what was written: the metadata
/// (written in key order), each tensor with its data where the writer put it,
/// the data section where the writer started it.
pub proof fn law_write_then_parse(
    md: Seq<(Seq<char>, ValueModel)>,
    ts: Seq<(TensorModel, Seq<u8>)>,
    alignment: u64,
    limits: ParseLimits,
    table: Seq<DtypeLayout>,
)
    requires
        writable(md, infos_of(ts), alignment, limits, table),
        write_spec(md, ts, alignment) is Ok,
        write_spec(md, ts, alignment)->Ok_0.len() <= usize::MAX,
        !some_end_overflows(placed_all(infos_of(ts)), written_data_start(md, ts, alignment)),
    ensures
        parse_spec(write_spec(md, ts, alignment)->Ok_0, limits, table) == Ok::<HeaderModel, ErrorModel>(
            HeaderModel {
                version: 3,
                metadata: md,
                tensors: placed_all(infos_of(ts)),
                tensor_data_start: written_data_start(md, ts, alignment),
                alignment,
                header_bytes: head_bytes(md, infos_of(ts)).len() as u64,
            },
        ),
{
    lemma_written_head(md, ts, alignment);
    lemma_parse_written(
        write_spec(md, ts, alignment)->Ok_0,
        md,
        infos_of(ts),
        alignment,
        written_data_start(md, ts, alignment),
        limits,
        table,
    );
}

/// Each tensor's data is as long as its byte length says.
pub open spec fn data_fits(ts: Seq<(TensorModel, Seq<u8>)>) -> bool {
    forall|i: int| 0 <= i < ts.len() ==> (#[trigger] ts[i]).1.len() == ts[i].0.nbytes()
}

proof fn lemma_subrange_of_front(c: Seq<u8>, d: Seq<u8>, a: int, b: int)
    requires
        0 <= a <= b <= c.len(),
    ensures
        (c + d).subrange(a, b) == c.subrange(a, b),
{
    assert((c + d).subrange(a, b) =~= c.subrange(a, b));
}

proof fn lemma_total_step(infos: Seq<TensorModel>, i: int)
    requires
        0 <= i < infos.len(),
    ensures
        total_nbytes(infos.take(i + 1)) == total_nbytes(infos.take(i)) + infos[i].nbytes(),
        total_nbytes(infos.take(i + 1)) <= total_nbytes(infos),
{
    assert(infos.take(i + 1).drop_last() =~= infos.take(i));
    assert(infos.take(i + 1).last() == infos[i]);
    crate::writer::lemma_total_nbytes_prefix(infos, i + 1);
}

proof fn lemma_data_concat(ts: Seq<(TensorModel, Seq<u8>)>)
    requires
        data_fits(ts),
    ensures
        concat_map(ts, |e: (TensorModel, Seq<u8>)| e.1).len() == total_nbytes(infos_of(ts)),
        forall|i: int|
            0 <= i < ts.len() ==> concat_map(ts, |e: (TensorModel, Seq<u8>)| e.1).subrange(
                total_nbytes(infos_of(ts).take(i)),
                total_nbytes(infos_of(ts).take(i)) + (#[trigger] ts[i]).1.len(),
            ) == ts[i].1,
    decreases ts.len(),
{
    if ts.len() > 0 {
        let n = ts.len() as int;
        let init = ts.drop_last();
        let last = ts.last();
        let c = concat_map(init, |e: (TensorModel, Seq<u8>)| e.1);
        let whole = concat_map(ts, |e: (TensorModel, Seq<u8>)| e.1);
        assert(whole == c + last.1);
        assert forall|i: int| 0 <= i < init.len() implies (#[trigger] init[i]).1.len() == init[i].0.nbytes() by {
            assert(init[i] == ts[i]);
        }
        lemma_data_concat(init);
        let ii = infos_of(init);
        assert(infos_of(ts).drop_last() =~= ii);
        assert(infos_of(ts).last() == last.0);
        assert(total_nbytes(infos_of(ts)) == total_nbytes(ii) + last.0.nbytes());
        assert(last.1.len() == last.0.nbytes()) by {
            assert(ts[n - 1] == last);
        }
        assert forall|i: int| 0 <= i < ts.len() implies whole.subrange(
            total_nbytes(infos_of(ts).take(i)),
            total_nbytes(infos_of(ts).take(i)) + (#[trigger] ts[i]).1.len(),
        ) == ts[i].1 by {
            if i < n - 1 {
                assert(infos_of(ts).take(i) =~= ii.take(i));
                assert(init[i] == ts[i]);
                assert(ii[i] == ts[i].0);
                lemma_total_step(ii, i);
                let o = total_nbytes(ii.take(i));
                crate::writer::lemma_total_nbytes_nonneg(ii.take(i));
                assert(c.subrange(o, o + init[i].1.len()) == init[i].1);
                lemma_subrange_of_front(c, last.1, o, o + init[i].1.len());
            } else {
                assert(infos_of(ts).take(i) =~= ii);
                assert(whole.subrange(c.len() as int, (c.len() + last.1.len()) as int) =~= last.1);
            }
        }
    }
}

proof fn lemma_written_layout(
    md: Seq<(Seq<char>, ValueModel)>,
    ts: Seq<(TensorModel, Seq<u8>)>,
    alignment: u64,
)
    requires
        write_spec(md, ts, alignment) is Ok,
        head_bytes(md, infos_of(ts)).len() <= usize::MAX,
    ensures
        ({
            let out = write_spec(md, ts, alignment)->Ok_0;
            let data = concat_map(ts, |e: (TensorModel, Seq<u8>)| e.1);
            let start = written_data_start(md, ts, alignment);
            &&& out.len() == start + data.len()
            &&& out.subrange(start as int, out.len() as int) == data
        }),
{
    let out = write_spec(md, ts, alignment)->Ok_0;
    let head = head_bytes(md, infos_of(ts));
    let data = concat_map(ts, |e: (TensorModel, Seq<u8>)| e.1);
    let start = written_data_start(md, ts, alignment);
    let pad = Seq::new((start - head.len()) as nat, |k: int| 0u8);
    if alignment >= 1 {
        crate::format::lemma_align_up(head.len() as u64, alignment);
    }
    assert(start >= head.len());
    assert(out == head + pad + data);
    assert(out.subrange(start as int, out.len() as int) =~= data);
}

/// In a written file, each tensor's data is at the data section's start plus
/// its offset, byte for byte: reading a tensor's range gives back its data.
pub proof fn law_written_data_at_its_range(
    md: Seq<(Seq<char>, ValueModel)>,
    ts: Seq<(TensorModel, Seq<u8>)>,
    alignment: u64,
    i: int,
)
    requires
        0 <= i < ts.len(),
        data_fits(ts),
        write_spec(md, ts, alignment) is Ok,
        head_bytes(md, infos_of(ts)).len() <= usize::MAX,
    ensures
        ({
            let out = write_spec(md, ts, alignment)->Ok_0;
            let at_ = written_data_start(md, ts, alignment) + total_nbytes(infos_of(ts).take(i));
            &&& at_ + ts[i].1.len() <= out.len()
            &&& out.subrange(at_, at_ + ts[i].1.len()) == ts[i].1
        }),
{
    let out = write_spec(md, ts, alignment)->Ok_0;
    let data = concat_map(ts, |e: (TensorModel, Seq<u8>)| e.1);
    let start = written_data_start(md, ts, alignment);
    lemma_written_layout(md, ts, alignment);
    lemma_data_concat(ts);
    lemma_total_step(infos_of(ts), i);
    crate::writer::lemma_total_nbytes_nonneg(infos_of(ts).take(i));
    assert(infos_of(ts)[i] == ts[i].0);
    let off = total_nbytes(infos_of(ts).take(i));
    assert(data.subrange(off, off + ts[i].1.len()) == ts[i].1);
    assert(out.subrange(start + off, start + off + ts[i].1.len()) =~= data.subrange(off, off + ts[i].1.len()));
}

} // verus!
