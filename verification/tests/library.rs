use gguf::error::GgufError;
use gguf::reader::{GgufHeader, ParseLimits, TensorRange};
use gguf::reading::{
    check_range, first_read_len, give_up_error, next_read_len, refusal_is_final, FIRST_READ,
    LARGEST_READ,
};
use gguf::tensor::{DtypeLayout, DtypeTable, TensorInfo};
use gguf::value::{Array, Value, ValueType};
use gguf::order::{key_less, sort_by_key};
use gguf::writer::write_to_vec;

const MAGIC: u32 = 0x4655_4747;

fn f32_layout() -> DtypeLayout {
    DtypeLayout { tag: 0, block_size: 1, type_size: 4 }
}

fn q4k_layout() -> DtypeLayout {
    DtypeLayout { tag: 12, block_size: 256, type_size: 144 }
}

fn formats() -> DtypeTable {
    DtypeTable { layouts: vec![f32_layout(), q4k_layout()] }
}

fn head(tensors: u64, metadata: u64) -> Vec<u8> {
    let mut out = Vec::new();
    out.extend_from_slice(&MAGIC.to_le_bytes());
    out.extend_from_slice(&3u32.to_le_bytes());
    out.extend_from_slice(&tensors.to_le_bytes());
    out.extend_from_slice(&metadata.to_le_bytes());
    out
}

fn string(out: &mut Vec<u8>, s: &str) {
    out.extend_from_slice(&(s.len() as u64).to_le_bytes());
    out.extend_from_slice(s.as_bytes());
}

fn every_kind_of_value() -> Vec<(String, Value)> {
    let mut md: Vec<(String, Value)> = vec![
        ("a.u8".into(), Value::U8(200)),
        ("a.i8".into(), Value::I8(-5)),
        ("a.u16".into(), Value::U16(65000)),
        ("a.i16".into(), Value::I16(-300)),
        ("a.u32".into(), Value::U32(4_000_000_000)),
        ("a.i32".into(), Value::I32(-70_000)),
        ("a.f32".into(), Value::F32(1.5f32.to_bits())),
        ("a.bool".into(), Value::Bool(true)),
        ("a.string".into(), Value::String("héllo".into())),
        ("a.u64".into(), Value::U64(u64::MAX)),
        ("a.i64".into(), Value::I64(i64::MIN)),
        ("a.f64".into(), Value::F64((-2.25f64).to_bits())),
        ("general.alignment".into(), Value::U64(64)),
        ("b.u8s".into(), Value::Array(Array::U8(vec![1, 2, 255]))),
        ("b.i8s".into(), Value::Array(Array::I8(vec![-1, 0, 1]))),
        ("b.u16s".into(), Value::Array(Array::U16(vec![1, 65535]))),
        ("b.i16s".into(), Value::Array(Array::I16(vec![-32768, 7]))),
        ("b.u32s".into(), Value::Array(Array::U32(vec![7, 8, 9]))),
        ("b.i32s".into(), Value::Array(Array::I32(vec![-7]))),
        ("b.f32s".into(), Value::Array(Array::F32(vec![0.25f32.to_bits()]))),
        ("b.bools".into(), Value::Array(Array::Bool(vec![true, false, true]))),
        ("b.strings".into(), Value::Array(Array::String(vec!["".into(), "ünïcode".into()]))),
        ("b.u64s".into(), Value::Array(Array::U64(vec![u64::MAX, 0]))),
        ("b.i64s".into(), Value::Array(Array::I64(vec![-1]))),
        ("b.f64s".into(), Value::Array(Array::F64(vec![3.0f64.to_bits()]))),
        ("b.empty".into(), Value::Array(Array::U32(vec![]))),
    ];
    // In key order, as a map keyed by strings gives them.
    md.sort_by(|a, b| a.0.cmp(&b.0));
    md
}

fn matrix_file() -> Vec<u8> {
    let md = vec![("general.architecture".to_string(), Value::String("test".into()))];
    let data: Vec<u8> = (0u32..12).flat_map(|i| (i as f32).to_le_bytes()).collect();
    let t = TensorInfo { name: "m".into(), shape: vec![4, 3], dtype: f32_layout(), offset: 0 };
    let v: Vec<u8> = vec![9u8; 8];
    let u = TensorInfo { name: "v".into(), shape: vec![2], dtype: f32_layout(), offset: 0 };
    write_to_vec(&md, &[(t, data), (u, v)], 32).unwrap()
}

#[test]
fn every_value_reads_back_as_written() {
    let md = every_kind_of_value();
    let bytes = write_to_vec(&md, &[], 64).unwrap();
    let h = GgufHeader::from_bytes(&bytes, &formats()).unwrap();
    assert_eq!(h.metadata(), &md[..]);
    assert_eq!(h.version(), 3);
    assert_eq!(h.alignment(), 64);
    assert_eq!(h.header_bytes(), 811);
    assert_eq!(h.tensor_data_start(), 832);
    assert_eq!(h.tensor_data_start() as usize, bytes.len());
}

#[test]
fn tensors_read_back_placed_one_after_another() {
    let bytes = matrix_file();
    let h = GgufHeader::from_bytes(&bytes, &formats()).unwrap();
    assert_eq!(h.tensors().len(), 2);
    let m = h.tensor_by_name("m").unwrap();
    let v = h.tensor_by_name("v").unwrap();
    assert_eq!(m.offset, 0);
    assert_eq!(v.offset, 48);
    assert_eq!(h.range_of("v").unwrap(), TensorRange { offset: h.tensor_data_start() + 48, bytes: 8 });
    let r = h.range_of("v").unwrap();
    assert_eq!(&bytes[r.offset as usize..r.end() as usize], &[9u8; 8]);
    assert_eq!(r.end() as usize, bytes.len());
}

#[test]
fn a_header_needs_only_its_own_bytes() {
    let bytes = matrix_file();
    let whole = GgufHeader::from_bytes(&bytes, &formats()).unwrap();
    let n = whole.header_bytes() as usize;
    let prefix = GgufHeader::from_bytes(&bytes[..n], &formats()).unwrap();
    assert_eq!(prefix.metadata(), whole.metadata());
    assert_eq!(prefix.tensor_data_start(), whole.tensor_data_start());
    assert_eq!(prefix.tensors().len(), whole.tensors().len());
    // One byte fewer is a truncation, which more bytes can change.
    let short = GgufHeader::from_bytes(&bytes[..n - 1], &formats()).unwrap_err();
    assert!(short.needs_more_bytes(), "got {short:?}");
}

#[test]
fn a_final_refusal_stays_the_same_refusal() {
    let mut bytes = vec![0u8; 8];
    bytes.extend_from_slice(&[1, 2, 3]);
    let e1 = GgufHeader::from_bytes(&bytes, &formats()).unwrap_err();
    bytes.extend_from_slice(&[0u8; 100]);
    let e2 = GgufHeader::from_bytes(&bytes, &formats()).unwrap_err();
    assert_eq!(e1, GgufError::BadMagic(0));
    assert_eq!(e1, e2);
    assert!(!e1.needs_more_bytes());
}

#[test]
fn only_truncation_asks_for_more() {
    assert!(GgufError::Truncated { offset: 0, needed: 4 }.needs_more_bytes());
    assert!(!GgufError::BadMagic(1).needs_more_bytes());
    assert!(!GgufError::TooLarge { what: "tensor count", value: 2, limit: 1 }.needs_more_bytes());
    assert!(!GgufError::Duplicate { what: "tensor name", name: "x".into() }.needs_more_bytes());
}

#[test]
fn truncated_reports_where_and_how_much() {
    let bytes = vec![0x47u8, 0x47];
    let e = GgufHeader::from_bytes(&bytes, &formats()).unwrap_err();
    assert_eq!(e, GgufError::Truncated { offset: 0, needed: 2 });
}

#[test]
fn getters_say_what_is_missing_or_mistyped() {
    let bytes = write_to_vec(&every_kind_of_value(), &[], 64).unwrap();
    let h = GgufHeader::from_bytes(&bytes, &formats()).unwrap();
    assert_eq!(h.get_u64("a.u8").unwrap(), 200);
    assert_eq!(h.get_u64("a.u64").unwrap(), u64::MAX);
    assert_eq!(
        h.get_u64("a.i8").unwrap_err(),
        GgufError::TypeMismatch { key: "a.i8".into(), expected: "integer", actual: "i8" }
    );
    assert_eq!(h.get_u64("nope").unwrap_err(), GgufError::MissingKey("nope".into()));
    assert_eq!(h.get_str("a.string").unwrap(), "héllo");
    assert_eq!(
        h.get_str("a.bool").unwrap_err(),
        GgufError::TypeMismatch { key: "a.bool".into(), expected: "string", actual: "bool" }
    );
    assert!(h.get_bool("a.bool").unwrap());
    assert_eq!(
        h.get_bool("a.u8").unwrap_err(),
        GgufError::TypeMismatch { key: "a.u8".into(), expected: "bool", actual: "u8" }
    );
    assert_eq!(h.architecture().unwrap_err(), GgufError::MissingKey("general.architecture".into()));
    assert_eq!(h.range_of("nothing").unwrap_err(), GgufError::MissingKey("nothing".into()));
    assert!(h.tensor_by_name("nothing").is_none());
}

#[test]
fn a_clone_is_the_same_header() {
    let h = GgufHeader::from_bytes(&matrix_file(), &formats()).unwrap();
    let c = h.clone();
    assert_eq!(c.metadata(), h.metadata());
    assert_eq!(c.tensor_data_start(), h.tensor_data_start());
    assert_eq!(c.tensors().len(), h.tensors().len());
}

#[test]
fn rows_are_addressed_one_at_a_time() {
    let bytes = matrix_file();
    let h = GgufHeader::from_bytes(&bytes, &formats()).unwrap();
    let layout = h.row_layout("m").unwrap();
    assert_eq!(layout.width(), 4);
    assert_eq!(layout.count(), 3);
    assert_eq!(layout.row_bytes(), 16);
    assert_eq!(layout.start(), h.tensor_data_start());
    let row = layout.row(2).unwrap();
    assert_eq!(row, TensorRange { offset: h.tensor_data_start() + 32, bytes: 16 });
    let values: Vec<f32> = bytes[row.offset as usize..row.end() as usize]
        .chunks_exact(4)
        .map(|c| f32::from_le_bytes(c.try_into().unwrap()))
        .collect();
    assert_eq!(values, vec![8.0, 9.0, 10.0, 11.0]);
    assert_eq!(layout.row(3).unwrap_err(), GgufError::Truncated { offset: 3, needed: 3 });
    assert_eq!(
        h.row_layout("v").unwrap_err(),
        GgufError::TooManyDims { name: "v".into(), n_dims: 1 }
    );
    assert_eq!(h.row_layout("w").unwrap_err(), GgufError::MissingKey("w".into()));
}

#[test]
fn a_row_must_be_whole_blocks() {
    let t = TensorInfo { name: "q".into(), shape: vec![256, 2], dtype: q4k_layout(), offset: 0 };
    let bytes = write_to_vec(&[], &[(t, vec![0u8; 288])], 32).unwrap();
    let h = GgufHeader::from_bytes(&bytes, &formats()).unwrap();
    let layout = h.row_layout("q").unwrap();
    assert_eq!(layout.row_bytes(), 144);
    assert_eq!(layout.row(1).unwrap(), TensorRange { offset: h.tensor_data_start() + 144, bytes: 144 });

    // A block format whose width is not a whole number of blocks is refused
    // when parsed: 512 values are two blocks, but as [128, 4] a row is half
    // of one.
    let mut bytes = head(1, 0);
    string(&mut bytes, "odd");
    bytes.extend_from_slice(&2u32.to_le_bytes());
    bytes.extend_from_slice(&128u64.to_le_bytes());
    bytes.extend_from_slice(&4u64.to_le_bytes());
    bytes.extend_from_slice(&12u32.to_le_bytes());
    bytes.extend_from_slice(&0u64.to_le_bytes());
    let h = GgufHeader::from_bytes(&bytes, &formats()).unwrap();
    assert_eq!(
        h.row_layout("odd").unwrap_err(),
        GgufError::NotBlockAligned { name: "odd".into(), block: 256, numel: 128 }
    );
}

#[test]
fn a_tensor_that_is_not_whole_blocks_is_refused() {
    let mut bytes = head(1, 0);
    string(&mut bytes, "q");
    bytes.extend_from_slice(&1u32.to_le_bytes());
    bytes.extend_from_slice(&100u64.to_le_bytes());
    bytes.extend_from_slice(&12u32.to_le_bytes());
    bytes.extend_from_slice(&0u64.to_le_bytes());
    let e = GgufHeader::from_bytes(&bytes, &formats()).unwrap_err();
    assert_eq!(e, GgufError::NotBlockAligned { name: "q".into(), block: 256, numel: 100 });
}

#[test]
fn unknown_tags_are_refused() {
    let mut bytes = head(1, 0);
    string(&mut bytes, "t");
    bytes.extend_from_slice(&1u32.to_le_bytes());
    bytes.extend_from_slice(&4u64.to_le_bytes());
    bytes.extend_from_slice(&99u32.to_le_bytes());
    bytes.extend_from_slice(&0u64.to_le_bytes());
    assert_eq!(GgufHeader::from_bytes(&bytes, &formats()).unwrap_err(), GgufError::UnknownDtype(99));

    let mut bytes = head(0, 1);
    string(&mut bytes, "k");
    bytes.extend_from_slice(&13u32.to_le_bytes());
    bytes.extend_from_slice(&[0u8; 16]);
    assert_eq!(GgufHeader::from_bytes(&bytes, &formats()).unwrap_err(), GgufError::UnknownValueType(13));
}

#[test]
fn bad_utf8_and_nested_arrays_are_refused() {
    let mut bytes = head(0, 1);
    bytes.extend_from_slice(&2u64.to_le_bytes());
    bytes.extend_from_slice(&[0xc3, 0x28]);
    bytes.extend_from_slice(&[0u8; 16]);
    assert_eq!(GgufHeader::from_bytes(&bytes, &formats()).unwrap_err(), GgufError::BadUtf8);

    let mut bytes = head(0, 1);
    string(&mut bytes, "deep");
    bytes.extend_from_slice(&9u32.to_le_bytes());
    bytes.extend_from_slice(&9u32.to_le_bytes());
    bytes.extend_from_slice(&1u64.to_le_bytes());
    bytes.extend_from_slice(&[0u8; 16]);
    assert_eq!(
        GgufHeader::from_bytes(&bytes, &formats()).unwrap_err(),
        GgufError::NestedArray("deep".into())
    );
}

#[test]
fn byte_length_and_limits_are_checked() {
    // Four-byte values, a shape of 2^62: the byte length overflows.
    let mut bytes = head(1, 0);
    string(&mut bytes, "big");
    bytes.extend_from_slice(&1u32.to_le_bytes());
    bytes.extend_from_slice(&(1u64 << 62).to_le_bytes());
    bytes.extend_from_slice(&0u32.to_le_bytes());
    bytes.extend_from_slice(&0u64.to_le_bytes());
    let limits = ParseLimits { max_tensor_elements: u64::MAX, ..ParseLimits::default() };
    assert_eq!(
        GgufHeader::from_bytes_with_limits(&bytes, limits, &formats()).unwrap_err(),
        GgufError::Overflow("tensor byte length")
    );
    assert_eq!(
        GgufHeader::from_bytes(&bytes, &formats()).unwrap_err(),
        GgufError::TooLarge { what: "tensor element count", value: 1 << 62, limit: 1 << 44 }
    );
}

#[test]
fn default_limits() {
    let l = ParseLimits::default();
    assert_eq!(l.max_metadata_entries, 1 << 16);
    assert_eq!(l.max_tensors, 1 << 20);
    assert_eq!(l.max_array_len, 1 << 24);
    assert_eq!(l.max_string_bytes, 1 << 24);
    assert_eq!(l.max_dimensions, 4);
    assert_eq!(l.max_tensor_elements, 1 << 44);
}

#[test]
fn counts_and_bytes_saturate_rather_than_wrap() {
    let t = TensorInfo { name: "x".into(), shape: vec![u64::MAX, 2, 0], dtype: f32_layout(), offset: 0 };
    assert_eq!(t.numel(), 0);
    let t = TensorInfo { name: "x".into(), shape: vec![u64::MAX, 2], dtype: f32_layout(), offset: 0 };
    assert_eq!(t.numel(), u64::MAX);
    assert_eq!(t.nbytes(), u64::MAX);
    let t = TensorInfo { name: "q".into(), shape: vec![512, 3], dtype: q4k_layout(), offset: 0 };
    assert_eq!(t.numel(), 1536);
    assert_eq!(t.nbytes(), 6 * 144);
    assert_eq!(TensorRange { offset: u64::MAX - 1, bytes: 5 }.end(), u64::MAX);
    assert_eq!(TensorRange { offset: 10, bytes: 5 }.end(), 15);
}

#[test]
fn the_header_read_doubles_and_then_stops() {
    assert_eq!(first_read_len(0), 1);
    assert_eq!(first_read_len(500), 500);
    assert_eq!(first_read_len(10 << 30), FIRST_READ as usize);
    let l = ParseLimits::default();
    let short = GgufError::Truncated { offset: 10, needed: 20 };
    assert_eq!(next_read_len(1 << 20, 10 << 30, &short, &l), Some(2 << 20));
    assert_eq!(next_read_len(1 << 20, 3 << 19, &short, &l), Some(3 << 19));
    assert_eq!(next_read_len(48 << 20, 10 << 30, &short, &l), Some(LARGEST_READ as usize));
    assert_eq!(next_read_len(64 << 20, 10 << 30, &short, &l), None);
    assert_eq!(next_read_len(500, 500, &short, &l), None);
    // A file that is not a GGUF file is refused at once.
    assert_eq!(next_read_len(1 << 20, 10 << 30, &GgufError::BadMagic(7), &l), None);
    // A vocabulary that overruns the first megabyte is refused as longer
    // than the bytes read so far could hold: that reads on.
    let vocab = GgufError::TooLarge { what: "array length", value: 151936, limit: 130944 };
    assert_eq!(next_read_len(1 << 20, 10 << 30, &vocab, &l), Some(2 << 20));
    // Past the limit itself it is final.
    let huge = GgufError::TooLarge { what: "array length", value: (1 << 24) + 1, limit: 1 << 24 };
    assert_eq!(next_read_len(1 << 20, 10 << 30, &huge, &l), None);
    let many = GgufError::TooLarge { what: "metadata entry count", value: 90000, limit: 87000 };
    assert_eq!(next_read_len(1 << 20, 10 << 30, &many, &l), None);
    let tensors = GgufError::TooLarge { what: "tensor count", value: 5000, limit: 4000 };
    assert_eq!(next_read_len(1 << 20, 10 << 30, &tensors, &l), Some(2 << 20));
    assert_eq!(give_up_error(Some(GgufError::BadUtf8), short.clone(), &l), GgufError::BadUtf8);
    assert_eq!(give_up_error(Some(GgufError::BadUtf8), vocab.clone(), &l), GgufError::BadUtf8);
    assert_eq!(give_up_error(None, short.clone(), &l), short);
    assert_eq!(give_up_error(Some(short.clone()), GgufError::BadMagic(1), &l), GgufError::BadMagic(1));
    assert_eq!(give_up_error(Some(short.clone()), huge.clone(), &l), huge);
}

#[test]
fn refusals_that_more_bytes_could_lift() {
    let l = ParseLimits::default();
    assert!(!refusal_is_final(&GgufError::Truncated { offset: 0, needed: 1 }, &l));
    assert!(!refusal_is_final(
        &GgufError::TooLarge { what: "string length", value: 100, limit: 10 },
        &l
    ));
    assert!(refusal_is_final(
        &GgufError::TooLarge { what: "string length", value: (1 << 24) + 1, limit: 1 << 24 },
        &l
    ));
    assert!(refusal_is_final(
        &GgufError::TooLarge { what: "tensor element count", value: (1 << 44) + 1, limit: 1 << 44 },
        &l
    ));
    assert!(refusal_is_final(&GgufError::BadUtf8, &l));
    assert!(refusal_is_final(&GgufError::Duplicate { what: "tensor name", name: "a".into() }, &l));
}

#[test]
fn a_range_past_the_file_is_refused() {
    assert_eq!(check_range(10, 20, 30).unwrap(), 20);
    assert_eq!(check_range(10, 21, 30).unwrap_err(), GgufError::Truncated { offset: 10, needed: 21 });
    assert_eq!(
        check_range(u64::MAX, 2, 30).unwrap_err(),
        GgufError::Truncated { offset: u64::MAX, needed: 2 }
    );
}

#[test]
fn value_accessors() {
    assert_eq!(Value::I64(-1).as_u64(), None);
    assert_eq!(Value::I16(300).as_u64(), Some(300));
    assert_eq!(Value::String("x".into()).as_str(), Some("x"));
    assert_eq!(Value::U8(1).as_str(), None);
    assert_eq!(Value::Bool(false).as_bool(), Some(false));
    assert_eq!(Value::F32(0).type_str(), "f32");
    assert_eq!(Value::Array(Array::Bool(vec![])).type_str(), "array");
    let a = Array::String(vec!["a".into(), "b".into()]);
    assert_eq!(a.len(), 2);
    assert!(!a.is_empty());
    assert_eq!(a.element_type(), ValueType::String);
    assert_eq!(ValueType::from_u32(8).unwrap(), ValueType::String);
    assert_eq!(ValueType::String.tag(), 8);
    assert_eq!(ValueType::from_u32(40).unwrap_err(), GgufError::UnknownValueType(40));
}

#[test]
fn the_first_layout_for_a_tag_is_the_one() {
    let table = DtypeTable {
        layouts: vec![
            DtypeLayout { tag: 3, block_size: 32, type_size: 20 },
            DtypeLayout { tag: 3, block_size: 1, type_size: 1 },
        ],
    };
    assert_eq!(table.lookup(3), Some(DtypeLayout { tag: 3, block_size: 32, type_size: 20 }));
    assert_eq!(table.lookup(4), None);
}

#[test]
fn raising_limits_keeps_what_lower_limits_accepted() {
    let bytes = matrix_file();
    let tight = ParseLimits {
        max_metadata_entries: 1,
        max_tensors: 2,
        max_array_len: 0,
        max_string_bytes: 20,
        max_dimensions: 2,
        max_tensor_elements: 12,
    };
    let low = GgufHeader::from_bytes_with_limits(&bytes, tight, &formats()).unwrap();
    let high = GgufHeader::from_bytes(&bytes, &formats()).unwrap();
    assert_eq!(low.metadata(), high.metadata());
    assert_eq!(low.tensor_data_start(), high.tensor_data_start());
    assert_eq!(low.tensors().len(), high.tensors().len());
    let tighter = ParseLimits { max_tensor_elements: 11, ..tight };
    assert_eq!(
        GgufHeader::from_bytes_with_limits(&bytes, tighter, &formats()).unwrap_err(),
        GgufError::TooLarge { what: "tensor element count", value: 12, limit: 11 }
    );
}

#[test]
fn a_written_tensor_reads_back_from_its_range() {
    let bytes = matrix_file();
    let h = GgufHeader::from_bytes(&bytes, &formats()).unwrap();
    let r = h.range_of("m").unwrap();
    let expected: Vec<u8> = (0u32..12).flat_map(|i| (i as f32).to_le_bytes()).collect();
    assert_eq!(&bytes[r.offset as usize..r.end() as usize], &expected[..]);
}

#[test]
fn errors_say_what_went_wrong() {
    assert_eq!(GgufError::BadMagic(0x1234_abcd).message(), "not a GGUF file: bad magic 0x1234abcd");
    assert_eq!(GgufError::BadMagic(7).message(), "not a GGUF file: bad magic 0x00000007");
    assert_eq!(
        GgufError::UnsupportedVersion(1, &[2, 3]).message(),
        "unsupported GGUF version 1 (supported: [2, 3])"
    );
    assert_eq!(
        GgufError::UnsupportedVersion(9, &[]).message(),
        "unsupported GGUF version 9 (supported: [])"
    );
    assert_eq!(
        GgufError::Truncated { offset: 1024, needed: 0 }.message(),
        "file truncated: needed 0 more bytes at offset 1024"
    );
    assert_eq!(
        GgufError::TooLarge { what: "array length", value: 151936, limit: 130944 }.message(),
        "array length is 151936, past the limit of 130944"
    );
    assert_eq!(
        GgufError::TooLargeForMachine(u64::MAX).message(),
        "length 18446744073709551615 does not fit this machine's pointer width"
    );
    assert_eq!(
        GgufError::Duplicate { what: "tensor name", name: "w".into() }.message(),
        "duplicate tensor name: `w`"
    );
    assert_eq!(
        GgufError::NotBlockAligned { name: "q".into(), block: 32, numel: 33 }.message(),
        "tensor `q` length not a multiple of block size 32 (numel = 33)"
    );
    assert_eq!(
        GgufError::TypeMismatch { key: "k".into(), expected: "u32", actual: "string" }.message(),
        "metadata key `k` had wrong type: expected u32, got string"
    );
    assert_eq!(GgufError::Overflow("tensor end offset").message(), "tensor end offset overflowed");
    assert_eq!(GgufError::BadUtf8.message(), "string was not valid UTF-8");
    assert_eq!(GgufError::Io("gone".into()).message(), "io error: gone");
}

#[test]
fn only_the_header_bytes_are_read() {
    let bytes = matrix_file();
    let h = GgufHeader::from_bytes(&bytes, &formats()).unwrap();
    let n = h.header_bytes() as usize;
    let mut other = bytes[..n].to_vec();
    other.extend_from_slice(&[0xffu8; 100]);
    for b in [&bytes[..n], &other[..]] {
        let h2 = GgufHeader::from_bytes(b, &formats()).unwrap();
        assert_eq!(h2.version(), h.version());
        assert_eq!(h2.metadata(), h.metadata());
        assert_eq!(h2.tensors().len(), h.tensors().len());
        for (a, c) in h2.tensors().iter().zip(h.tensors()) {
            assert_eq!((&a.name, &a.shape, a.dtype, a.offset), (&c.name, &c.shape, c.dtype, c.offset));
        }
        assert_eq!(h2.tensor_data_start(), h.tensor_data_start());
        assert_eq!(h2.header_bytes(), h.header_bytes());
    }
    // One byte short of the header is not a header yet.
    assert!(matches!(
        GgufHeader::from_bytes(&bytes[..n - 1], &formats()),
        Err(GgufError::Truncated { .. })
    ));
}

#[test]
fn counts_and_limits_are_the_files() {
    let bytes = matrix_file();
    let h = GgufHeader::from_bytes(&bytes, &formats()).unwrap();
    assert_eq!(h.version() as u32, u32::from_le_bytes(bytes[4..8].try_into().unwrap()));
    assert_eq!(h.tensors().len() as u64, u64::from_le_bytes(bytes[8..16].try_into().unwrap()));
    assert_eq!(h.metadata().len() as u64, u64::from_le_bytes(bytes[16..24].try_into().unwrap()));
    let limits = ParseLimits::default();
    for t in h.tensors() {
        assert!(t.shape.len() <= limits.max_dimensions as usize);
        assert_eq!(t.numel(), t.shape.iter().product::<u64>());
        assert!(t.numel() <= limits.max_tensor_elements);
    }
}

#[test]
fn metadata_comes_in_key_order_whatever_the_file_order() {
    // Keys "b", "é" and "a", in that order in the file.
    let mut bytes = head(0, 3);
    for key in ["b", "\u{e9}", "a"] {
        string(&mut bytes, key);
        bytes.extend_from_slice(&4u32.to_le_bytes());
        bytes.extend_from_slice(&(key.len() as u32).to_le_bytes());
    }
    let h = GgufHeader::from_bytes(&bytes, &formats()).unwrap();
    let keys: Vec<&str> = h.metadata().iter().map(|e| e.0.as_str()).collect();
    assert_eq!(keys, vec!["a", "b", "\u{e9}"]);
    assert_eq!(h.get_u64("\u{e9}").unwrap(), 2);
    assert_eq!(h.get_u64("a").unwrap(), 1);
}

#[test]
fn keys_compare_by_their_bytes() {
    assert!(key_less("a", "b"));
    assert!(!key_less("b", "a"));
    assert!(key_less("ab", "abc"));
    assert!(!key_less("abc", "ab"));
    assert!(!key_less("x", "x"));
    assert!(key_less("", "a"));
    assert!(key_less("Z", "a"));
    assert!(key_less("z", "\u{e9}"));
    let sorted = sort_by_key(vec![
        ("c".to_string(), Value::U8(3)),
        ("a".to_string(), Value::U8(1)),
        ("b".to_string(), Value::U8(2)),
    ]);
    let keys: Vec<&str> = sorted.iter().map(|e| e.0.as_str()).collect();
    assert_eq!(keys, vec!["a", "b", "c"]);
    assert_eq!(sorted[0].1, Value::U8(1));
}
