//! Writing a GGUF file from already-parsed pieces, and the bytes it writes,
//! stated as functions.
use vstd::prelude::*;
use vstd::utf8::*;

use crate::bytes::{push_bytes, push_u16, push_u32, push_u64, u16_bytes, u32_bytes, u64_bytes};
use crate::error::{fails_with, ErrorModel, GgufError};
use crate::format::align_up_spec;
use crate::order::sorted_by_key;
use crate::reader::metadata_view;
use crate::tensor::{TensorInfo, TensorModel};
use crate::value::{strings_view, tag_of_value_type, Array, ArrayModel, Value, ValueModel};
use crate::GGUF_MAGIC;

verus! {

/// `f` applied to each element, the results one after another.
pub open spec fn concat_map<T>(v: Seq<T>, f: spec_fn(T) -> Seq<u8>) -> Seq<u8>
    decreases v.len(),
{
    if v.len() == 0 {
        seq![]
    } else {
        concat_map(v.drop_last(), f) + f(v.last())
    }
}

/// A string as stored: its byte length as a `u64`, then its UTF-8 bytes.
pub open spec fn string_bytes(s: Seq<char>) -> Seq<u8> {
    u64_bytes(encode_utf8(s).len() as u64) + encode_utf8(s)
}

/// A boolean as stored: one byte, 1 or 0.
pub open spec fn bool_byte(b: bool) -> u8 {
    if b {
        1
    } else {
        0
    }
}

/// An array's elements as stored, one after another.
pub open spec fn elements_bytes(a: ArrayModel) -> Seq<u8> {
    match a {
        ArrayModel::U8(v) => v,
        ArrayModel::I8(v) => v.map_values(|x: i8| x as u8),
        ArrayModel::Bool(v) => v.map_values(|x: bool| bool_byte(x)),
        ArrayModel::U16(v) => concat_map(v, |x: u16| u16_bytes(x)),
        ArrayModel::I16(v) => concat_map(v, |x: i16| u16_bytes(x as u16)),
        ArrayModel::U32(v) => concat_map(v, |x: u32| u32_bytes(x)),
        ArrayModel::I32(v) => concat_map(v, |x: i32| u32_bytes(x as u32)),
        ArrayModel::F32(v) => concat_map(v, |x: u32| u32_bytes(x)),
        ArrayModel::U64(v) => concat_map(v, |x: u64| u64_bytes(x)),
        ArrayModel::I64(v) => concat_map(v, |x: i64| u64_bytes(x as u64)),
        ArrayModel::F64(v) => concat_map(v, |x: u64| u64_bytes(x)),
        ArrayModel::String(v) => concat_map(v, |s: Seq<char>| string_bytes(s)),
    }
}

/// An array as stored: element type tag, `u64` count, elements.
pub open spec fn array_bytes(a: ArrayModel) -> Seq<u8> {
    u32_bytes(tag_of_value_type(a.element_type())) + u64_bytes(a.len() as u64) + elements_bytes(a)
}

/// A value as stored, without its type tag.
pub open spec fn payload_bytes(v: ValueModel) -> Seq<u8> {
    match v {
        ValueModel::U8(x) => seq![x],
        ValueModel::I8(x) => seq![x as u8],
        ValueModel::U16(x) => u16_bytes(x),
        ValueModel::I16(x) => u16_bytes(x as u16),
        ValueModel::U32(x) => u32_bytes(x),
        ValueModel::I32(x) => u32_bytes(x as u32),
        ValueModel::F32(x) => u32_bytes(x),
        ValueModel::Bool(b) => seq![bool_byte(b)],
        ValueModel::String(s) => string_bytes(s),
        ValueModel::Array(a) => array_bytes(a),
        ValueModel::U64(x) => u64_bytes(x),
        ValueModel::I64(x) => u64_bytes(x as u64),
        ValueModel::F64(x) => u64_bytes(x),
    }
}

/// A value as stored: its type tag, then its payload.
pub open spec fn value_bytes(v: ValueModel) -> Seq<u8> {
    u32_bytes(tag_of_value_type(v.value_type())) + payload_bytes(v)
}

/// A metadata entry as stored: key, then value.
pub open spec fn kv_bytes(e: (Seq<char>, ValueModel)) -> Seq<u8> {
    string_bytes(e.0) + value_bytes(e.1)
}

/// The metadata section as stored.
pub open spec fn metadata_bytes(md: Seq<(Seq<char>, ValueModel)>) -> Seq<u8> {
    concat_map(md, |e: (Seq<char>, ValueModel)| kv_bytes(e))
}

/// The bytes all these tensors occupy together.
pub open spec fn total_nbytes(ts: Seq<TensorModel>) -> int
    decreases ts.len(),
{
    if ts.len() == 0 {
        0
    } else {
        total_nbytes(ts.drop_last()) + ts.last().nbytes()
    }
}

/// A tensor-info entry as stored, with its data at `offset`.
pub open spec fn tensor_entry_bytes(t: TensorModel, offset: u64) -> Seq<u8> {
    string_bytes(t.name) + u32_bytes(t.shape.len() as u32) + concat_map(t.shape, |d: u64| u64_bytes(d))
        + u32_bytes(t.dtype.tag) + u64_bytes(offset)
}

/// The tensor-info table as stored: each tensor's data follows the one
/// before it, with no padding between them.
pub open spec fn tensor_table_bytes(ts: Seq<TensorModel>) -> Seq<u8>
    decreases ts.len(),
{
    if ts.len() == 0 {
        seq![]
    } else {
        tensor_table_bytes(ts.drop_last()) + tensor_entry_bytes(
            ts.last(),
            total_nbytes(ts.drop_last()) as u64,
        )
    }
}

/// Everything before the alignment padding: magic, version 3, the two
/// counts, the metadata and the tensor-info table.
pub open spec fn head_bytes(md: Seq<(Seq<char>, ValueModel)>, ts: Seq<TensorModel>) -> Seq<u8> {
    u32_bytes(GGUF_MAGIC) + u32_bytes(3) + u64_bytes(ts.len() as u64) + u64_bytes(md.len() as u64)
        + metadata_bytes(md) + tensor_table_bytes(ts)
}

/// The tensors' models, without their data.
pub open spec fn infos_of(ts: Seq<(TensorModel, Seq<u8>)>) -> Seq<TensorModel> {
    ts.map_values(|e: (TensorModel, Seq<u8>)| e.0)
}

/// What `write_to_vec` writes: the head, zeros up to the alignment, then each
/// tensor's data in order.
pub open spec fn write_spec(
    md: Seq<(Seq<char>, ValueModel)>,
    ts: Seq<(TensorModel, Seq<u8>)>,
    alignment: u64,
) -> Result<Seq<u8>, ErrorModel> {
    let head = head_bytes(md, infos_of(ts));
    match align_up_spec(head.len() as u64, alignment) {
        None => Err(ErrorModel::Overflow("alignment"@)),
        Some(aligned) => if aligned > usize::MAX {
            Err(ErrorModel::Overflow("alignment"@))
        } else {
            Ok(
                head + Seq::new((aligned - head.len()) as nat, |i: int| 0u8) + concat_map(
                    ts,
                    |e: (TensorModel, Seq<u8>)| e.1,
                ),
            )
        },
    }
}

/// Appends a string, length-prefixed.
fn write_string(out: &mut Vec<u8>, s: &str)
    ensures
        final(out)@ == old(out)@ + string_bytes(s@),
{
    let bytes = s.as_bytes();
    push_u64(out, bytes.len() as u64);
    push_bytes(out, bytes);
    assert(final(out)@ =~= old(out)@ + string_bytes(s@));
}

/// Appends each element, little-endian.
fn write_u16s(out: &mut Vec<u8>, v: &Vec<u16>)
    ensures
        final(out)@ == old(out)@ + concat_map(v@, |x: u16| u16_bytes(x)),
{
    let mut i: usize = 0;
    while i < v.len()
        invariant
            i <= v@.len(),
            out@ == old(out)@ + concat_map(v@.take(i as int), |x: u16| u16_bytes(x)),
        decreases v.len() - i,
    {
        assert(v@.take(i + 1).drop_last() =~= v@.take(i as int));
        push_u16(out, v[i]);
        i += 1;
        assert(out@ =~= old(out)@ + concat_map(v@.take(i as int), |x: u16| u16_bytes(x)));
    }
    assert(v@.take(i as int) =~= v@);
}

/// Appends each element, little-endian.
fn write_i16s(out: &mut Vec<u8>, v: &Vec<i16>)
    ensures
        final(out)@ == old(out)@ + concat_map(v@, |x: i16| u16_bytes(x as u16)),
{
    let mut i: usize = 0;
    while i < v.len()
        invariant
            i <= v@.len(),
            out@ == old(out)@ + concat_map(v@.take(i as int), |x: i16| u16_bytes(x as u16)),
        decreases v.len() - i,
    {
        assert(v@.take(i + 1).drop_last() =~= v@.take(i as int));
        push_u16(out, v[i] as u16);
        i += 1;
        assert(out@ =~= old(out)@ + concat_map(v@.take(i as int), |x: i16| u16_bytes(x as u16)));
    }
    assert(v@.take(i as int) =~= v@);
}

/// Appends each element, little-endian.
fn write_u32s(out: &mut Vec<u8>, v: &Vec<u32>)
    ensures
        final(out)@ == old(out)@ + concat_map(v@, |x: u32| u32_bytes(x)),
{
    let mut i: usize = 0;
    while i < v.len()
        invariant
            i <= v@.len(),
            out@ == old(out)@ + concat_map(v@.take(i as int), |x: u32| u32_bytes(x)),
        decreases v.len() - i,
    {
        assert(v@.take(i + 1).drop_last() =~= v@.take(i as int));
        push_u32(out, v[i]);
        i += 1;
        assert(out@ =~= old(out)@ + concat_map(v@.take(i as int), |x: u32| u32_bytes(x)));
    }
    assert(v@.take(i as int) =~= v@);
}

/// Appends each element, little-endian.
fn write_i32s(out: &mut Vec<u8>, v: &Vec<i32>)
    ensures
        final(out)@ == old(out)@ + concat_map(v@, |x: i32| u32_bytes(x as u32)),
{
    let mut i: usize = 0;
    while i < v.len()
        invariant
            i <= v@.len(),
            out@ == old(out)@ + concat_map(v@.take(i as int), |x: i32| u32_bytes(x as u32)),
        decreases v.len() - i,
    {
        assert(v@.take(i + 1).drop_last() =~= v@.take(i as int));
        push_u32(out, v[i] as u32);
        i += 1;
        assert(out@ =~= old(out)@ + concat_map(v@.take(i as int), |x: i32| u32_bytes(x as u32)));
    }
    assert(v@.take(i as int) =~= v@);
}

/// Appends each element, little-endian.
fn write_u64s(out: &mut Vec<u8>, v: &Vec<u64>)
    ensures
        final(out)@ == old(out)@ + concat_map(v@, |x: u64| u64_bytes(x)),
{
    let mut i: usize = 0;
    while i < v.len()
        invariant
            i <= v@.len(),
            out@ == old(out)@ + concat_map(v@.take(i as int), |x: u64| u64_bytes(x)),
        decreases v.len() - i,
    {
        assert(v@.take(i + 1).drop_last() =~= v@.take(i as int));
        push_u64(out, v[i]);
        i += 1;
        assert(out@ =~= old(out)@ + concat_map(v@.take(i as int), |x: u64| u64_bytes(x)));
    }
    assert(v@.take(i as int) =~= v@);
}

/// Appends each element, little-endian.
fn write_i64s(out: &mut Vec<u8>, v: &Vec<i64>)
    ensures
        final(out)@ == old(out)@ + concat_map(v@, |x: i64| u64_bytes(x as u64)),
{
    let mut i: usize = 0;
    while i < v.len()
        invariant
            i <= v@.len(),
            out@ == old(out)@ + concat_map(v@.take(i as int), |x: i64| u64_bytes(x as u64)),
        decreases v.len() - i,
    {
        assert(v@.take(i + 1).drop_last() =~= v@.take(i as int));
        push_u64(out, v[i] as u64);
        i += 1;
        assert(out@ =~= old(out)@ + concat_map(v@.take(i as int), |x: i64| u64_bytes(x as u64)));
    }
    assert(v@.take(i as int) =~= v@);
}

/// Appends each string, length-prefixed.
fn write_strings(out: &mut Vec<u8>, v: &Vec<String>)
    ensures
        final(out)@ == old(out)@ + concat_map(strings_view(v@), |s: Seq<char>| string_bytes(s)),
{
    let mut i: usize = 0;
    while i < v.len()
        invariant
            i <= v@.len(),
            out@ == old(out)@ + concat_map(strings_view(v@).take(i as int), |s: Seq<char>| string_bytes(s)),
        decreases v.len() - i,
    {
        assert(strings_view(v@).take(i + 1).drop_last() =~= strings_view(v@).take(i as int));
        let ghost before = out@;
        write_string(out, v[i].as_str());
        i += 1;
        assert(out@ =~= old(out)@ + concat_map(strings_view(v@).take(i as int), |s: Seq<char>| string_bytes(s)));
    }
    assert(strings_view(v@).take(i as int) =~= strings_view(v@));
}

/// Appends each element as its byte.
fn write_i8s(out: &mut Vec<u8>, v: &Vec<i8>)
    ensures
        final(out)@ == old(out)@ + v@.map_values(|x: i8| x as u8),
{
    let mut i: usize = 0;
    while i < v.len()
        invariant
            i <= v@.len(),
            out@ == old(out)@ + v@.take(i as int).map_values(|x: i8| x as u8),
        decreases v.len() - i,
    {
        out.push(v[i] as u8);
        i += 1;
        assert(out@ =~= old(out)@ + v@.take(i as int).map_values(|x: i8| x as u8));
    }
    assert(v@.take(i as int) =~= v@);
}

/// Appends each boolean as one byte, 1 or 0.
fn write_bools(out: &mut Vec<u8>, v: &Vec<bool>)
    ensures
        final(out)@ == old(out)@ + v@.map_values(|x: bool| bool_byte(x)),
{
    let mut i: usize = 0;
    while i < v.len()
        invariant
            i <= v@.len(),
            out@ == old(out)@ + v@.take(i as int).map_values(|x: bool| bool_byte(x)),
        decreases v.len() - i,
    {
        out.push(if v[i] { 1u8 } else { 0u8 });
        i += 1;
        assert(out@ =~= old(out)@ + v@.take(i as int).map_values(|x: bool| bool_byte(x)));
    }
    assert(v@.take(i as int) =~= v@);
}

/// Appends an array: element type tag, count, elements.
fn write_array(out: &mut Vec<u8>, a: &Array)
    ensures
        final(out)@ == old(out)@ + array_bytes(a@),
{
    push_u32(out, a.element_type().tag());
    push_u64(out, a.len() as u64);
    let ghost before = out@;
    match a {
        Array::U8(v) => push_bytes(out, v.as_slice()),
        Array::I8(v) => write_i8s(out, v),
        Array::Bool(v) => write_bools(out, v),
        Array::U16(v) => write_u16s(out, v),
        Array::I16(v) => write_i16s(out, v),
        Array::U32(v) => write_u32s(out, v),
        Array::I32(v) => write_i32s(out, v),
        Array::F32(v) => write_u32s(out, v),
        Array::U64(v) => write_u64s(out, v),
        Array::I64(v) => write_i64s(out, v),
        Array::F64(v) => write_u64s(out, v),
        Array::String(v) => write_strings(out, v),
    }
    assert(out@ =~= old(out)@ + array_bytes(a@));
}

/// Appends a value: its type tag, then its payload.
fn write_value(out: &mut Vec<u8>, v: &Value)
    ensures
        final(out)@ == old(out)@ + value_bytes(v@),
{
    push_u32(out, v.value_type().tag());
    match v {
        Value::U8(x) => out.push(*x),
        Value::I8(x) => out.push(*x as u8),
        Value::U16(x) => push_u16(out, *x),
        Value::I16(x) => push_u16(out, *x as u16),
        Value::U32(x) => push_u32(out, *x),
        Value::I32(x) => push_u32(out, *x as u32),
        Value::F32(x) => push_u32(out, *x),
        Value::Bool(x) => out.push(if *x { 1u8 } else { 0u8 }),
        Value::String(s) => write_string(out, s.as_str()),
        Value::U64(x) => push_u64(out, *x),
        Value::I64(x) => push_u64(out, *x as u64),
        Value::F64(x) => push_u64(out, *x),
        Value::Array(a) => write_array(out, a),
    }
    assert(out@ =~= old(out)@ + value_bytes(v@));
}

/// A running total only grows.
pub proof fn lemma_total_nbytes_prefix(ts: Seq<TensorModel>, i: int)
    requires
        0 <= i <= ts.len(),
    ensures
        0 <= total_nbytes(ts.take(i)) <= total_nbytes(ts),
    decreases ts.len() - i,
{
    if i < ts.len() {
        lemma_total_nbytes_prefix(ts, i + 1);
        assert(ts.take(i + 1).drop_last() =~= ts.take(i));
    } else {
        assert(ts.take(i) =~= ts);
    }
    lemma_total_nbytes_nonneg(ts.take(i));
}

/// A total of byte counts is not negative.
pub proof fn lemma_total_nbytes_nonneg(ts: Seq<TensorModel>)
    ensures
        total_nbytes(ts) >= 0,
    decreases ts.len(),
{
    if ts.len() > 0 {
        lemma_total_nbytes_nonneg(ts.drop_last());
    }
}

/// The tensors with their data, as mathematical values.
pub open spec fn pairs_view(ts: Seq<(TensorInfo, Vec<u8>)>) -> Seq<(TensorModel, Seq<u8>)> {
    ts.map_values(|e: (TensorInfo, Vec<u8>)| e@)
}

/// Writes a GGUF file from already-parsed pieces: version 3, the metadata
/// entries, which come in key order (each key once, as a map keyed by
/// strings gives them), then each tensor's data after the one before it from
/// the aligned start of the data section. A tensor's own `offset` is not
/// used; the offsets written are where its data actually goes.
pub fn write_to_vec(
    metadata: &[(String, Value)],
    tensors: &[(TensorInfo, Vec<u8>)],
    alignment: u64,
) -> (r: Result<Vec<u8>, GgufError>)
    requires
        sorted_by_key(metadata_view(metadata@)),
        forall|i: int|
            0 <= i < tensors@.len() ==> (#[trigger] tensors@[i]).1@.len() == tensors@[i].0@.nbytes(),
        total_nbytes(infos_of(pairs_view(tensors@))) <= u64::MAX,
    ensures
        match write_spec(metadata_view(metadata@), pairs_view(tensors@), alignment) {
            Ok(b) => r matches Ok(x) && x@ == b,
            Err(e) => fails_with(r, e),
        },
{
    let ghost md = metadata_view(metadata@);
    let ghost pairs = pairs_view(tensors@);
    let ghost infos = infos_of(pairs);
    let mut out: Vec<u8> = Vec::new();
    push_u32(&mut out, GGUF_MAGIC);
    push_u32(&mut out, 3);
    push_u64(&mut out, tensors.len() as u64);
    push_u64(&mut out, metadata.len() as u64);
    let ghost start = out@;

    let mut i: usize = 0;
    while i < metadata.len()
        invariant
            i <= metadata@.len(),
            md == metadata_view(metadata@),
            out@ == start + metadata_bytes(md.take(i as int)),
        decreases metadata.len() - i,
    {
        assert(md.take(i + 1).drop_last() =~= md.take(i as int));
        assert(md[i as int] == metadata@[i as int]@);
        write_string(&mut out, metadata[i].0.as_str());
        write_value(&mut out, &metadata[i].1);
        i += 1;
        assert(out@ =~= start + metadata_bytes(md.take(i as int)));
    }
    assert(md.take(i as int) =~= md);
    let ghost after_md = out@;

    // Tensor offsets relative to the data section: each tensor's data
    // follows the one before it. Only the section's start is aligned.
    let mut cursor: u64 = 0;
    let mut j: usize = 0;
    while j < tensors.len()
        invariant
            j <= tensors@.len(),
            pairs == pairs_view(tensors@),
            infos == infos_of(pairs),
            total_nbytes(infos) <= u64::MAX,
            cursor == total_nbytes(infos.take(j as int)),
            out@ == after_md + tensor_table_bytes(infos.take(j as int)),
        decreases tensors.len() - j,
    {
        assert(infos.take(j + 1).drop_last() =~= infos.take(j as int));
        let info = &tensors[j].0;
        assert(infos[j as int] == info@);
        proof {
            lemma_total_nbytes_prefix(infos, j + 1);
        }
        write_string(&mut out, info.name.as_str());
        push_u32(&mut out, #[verifier::truncate] (info.shape.len() as u32));
        write_u64s(&mut out, &info.shape);
        push_u32(&mut out, info.dtype.tag);
        push_u64(&mut out, cursor);
        cursor = cursor + info.nbytes();
        j += 1;
        assert(out@ =~= after_md + tensor_table_bytes(infos.take(j as int)));
    }
    assert(infos.take(j as int) =~= infos);
    assert(out@ =~= head_bytes(md, infos));

    let aligned = match crate::reader::align_up(out.len() as u64, alignment) {
        Some(a) => a,
        None => return Err(GgufError::Overflow("alignment")),
    };
    if aligned > usize::MAX as u64 {
        return Err(GgufError::Overflow("alignment"));
    }
    proof {
        if alignment >= 1 {
            crate::format::lemma_align_up(out@.len() as u64, alignment);
        }
    }
    let ghost head = out@;
    while out.len() < aligned as usize
        invariant
            head.len() <= out@.len() <= aligned,
            out@ == head + Seq::new((out@.len() - head.len()) as nat, |i: int| 0u8),
        decreases aligned - out@.len(),
    {
        out.push(0u8);
        assert(out@ =~= head + Seq::new((out@.len() - head.len()) as nat, |i: int| 0u8));
    }
    let ghost padded = out@;

    let mut k: usize = 0;
    while k < tensors.len()
        invariant
            k <= tensors@.len(),
            pairs == pairs_view(tensors@),
            out@ == padded + concat_map(pairs.take(k as int), |e: (TensorModel, Seq<u8>)| e.1),
        decreases tensors.len() - k,
    {
        assert(pairs.take(k + 1).drop_last() =~= pairs.take(k as int));
        assert(pairs[k as int].1 == tensors@[k as int].1@);
        push_bytes(&mut out, tensors[k].1.as_slice());
        k += 1;
        assert(out@ =~= padded + concat_map(pairs.take(k as int), |e: (TensorModel, Seq<u8>)| e.1));
    }
    assert(pairs.take(k as int) =~= pairs);
    Ok(out)
}

} // verus!
