//! Little-endian integers and UTF-8 strings, as GGUF stores them.
use vstd::prelude::*;
use vstd::utf8::*;

verus! {

/// The little-endian `u16` at `i`.
pub open spec fn le16(b: Seq<u8>, i: int) -> u16 {
    (b[i] as int + 256 * b[i + 1]) as u16
}

/// The little-endian `u32` at `i`.
pub open spec fn le32(b: Seq<u8>, i: int) -> u32 {
    (le16(b, i) as int + 65536 * le16(b, i + 2)) as u32
}

/// The little-endian `u64` at `i`.
pub open spec fn le64(b: Seq<u8>, i: int) -> u64 {
    (le32(b, i) as int + 4294967296 * le32(b, i + 4)) as u64
}

/// The two little-endian bytes of `x`.
pub open spec fn u16_bytes(x: u16) -> Seq<u8> {
    seq![(x % 256) as u8, (x / 256) as u8]
}

/// The four little-endian bytes of `x`.
pub open spec fn u32_bytes(x: u32) -> Seq<u8> {
    u16_bytes((x % 65536) as u16) + u16_bytes((x / 65536) as u16)
}

/// The eight little-endian bytes of `x`.
pub open spec fn u64_bytes(x: u64) -> Seq<u8> {
    u32_bytes((x % 4294967296) as u32) + u32_bytes((x / 4294967296) as u32)
}

/// Reading back the bytes of a `u16` gives the `u16`.
pub proof fn lemma_le16(b: Seq<u8>, i: int, x: u16)
    requires
        0 <= i,
        i + 2 <= b.len(),
        b.subrange(i, i + 2) == u16_bytes(x),
    ensures
        le16(b, i) == x,
{
    assert(b[i] == b.subrange(i, i + 2)[0]);
    assert(b[i + 1] == b.subrange(i, i + 2)[1]);
}

/// Reading back the bytes of a `u32` gives the `u32`.
pub proof fn lemma_le32(b: Seq<u8>, i: int, x: u32)
    requires
        0 <= i,
        i + 4 <= b.len(),
        b.subrange(i, i + 4) == u32_bytes(x),
    ensures
        le32(b, i) == x,
{
    assert(b.subrange(i, i + 2) =~= b.subrange(i, i + 4).subrange(0, 2));
    assert(b.subrange(i + 2, i + 4) =~= b.subrange(i, i + 4).subrange(2, 4));
    assert(u32_bytes(x).subrange(0, 2) =~= u16_bytes((x % 65536) as u16));
    assert(u32_bytes(x).subrange(2, 4) =~= u16_bytes((x / 65536) as u16));
    lemma_le16(b, i, (x % 65536) as u16);
    lemma_le16(b, i + 2, (x / 65536) as u16);
}

/// Reading back the bytes of a `u64` gives the `u64`.
pub proof fn lemma_le64(b: Seq<u8>, i: int, x: u64)
    requires
        0 <= i,
        i + 8 <= b.len(),
        b.subrange(i, i + 8) == u64_bytes(x),
    ensures
        le64(b, i) == x,
{
    assert(b.subrange(i, i + 4) =~= b.subrange(i, i + 8).subrange(0, 4));
    assert(b.subrange(i + 4, i + 8) =~= b.subrange(i, i + 8).subrange(4, 8));
    assert(u64_bytes(x).subrange(0, 4) =~= u32_bytes((x % 4294967296) as u32));
    assert(u64_bytes(x).subrange(4, 8) =~= u32_bytes((x / 4294967296) as u32));
    lemma_le32(b, i, (x % 4294967296) as u32);
    lemma_le32(b, i + 4, (x / 4294967296) as u32);
}

/// The little-endian `u16` at `i` of a slice.
pub fn read_le16(b: &[u8], i: usize) -> (r: u16)
    requires
        i + 2 <= b@.len(),
    ensures
        r == le16(b@, i as int),
{
    b[i] as u16 + 256 * (b[i + 1] as u16)
}

/// The little-endian `u32` at `i` of a slice.
pub fn read_le32(b: &[u8], i: usize) -> (r: u32)
    requires
        i + 4 <= b@.len(),
    ensures
        r == le32(b@, i as int),
{
    let n = b.len();
    let lo = read_le16(b, i) as u32;
    let hi = read_le16(b, i + 2) as u32;
    lo + 65536 * hi
}

/// The little-endian `u64` at `i` of a slice.
pub fn read_le64(b: &[u8], i: usize) -> (r: u64)
    requires
        i + 8 <= b@.len(),
    ensures
        r == le64(b@, i as int),
{
    let n = b.len();
    let lo = read_le32(b, i) as u64;
    let hi = read_le32(b, i + 4) as u64;
    lo + 4294967296 * hi
}

/// Appends the little-endian bytes of `x`.
pub fn push_u16(out: &mut Vec<u8>, x: u16)
    ensures
        final(out)@ == old(out)@ + u16_bytes(x),
{
    out.push((x % 256) as u8);
    out.push((x / 256) as u8);
    assert(final(out)@ =~= old(out)@ + u16_bytes(x));
}

/// Appends the little-endian bytes of `x`.
pub fn push_u32(out: &mut Vec<u8>, x: u32)
    ensures
        final(out)@ == old(out)@ + u32_bytes(x),
{
    push_u16(out, (x % 65536) as u16);
    push_u16(out, (x / 65536) as u16);
    assert(final(out)@ =~= old(out)@ + u32_bytes(x));
}

/// Appends the little-endian bytes of `x`.
pub fn push_u64(out: &mut Vec<u8>, x: u64)
    ensures
        final(out)@ == old(out)@ + u64_bytes(x),
{
    push_u32(out, (x % 4294967296) as u32);
    push_u32(out, (x / 4294967296) as u32);
    assert(final(out)@ =~= old(out)@ + u64_bytes(x));
}

/// Appends a slice.
pub fn push_bytes(out: &mut Vec<u8>, bytes: &[u8])
    ensures
        final(out)@ == old(out)@ + bytes@,
{
    let mut i: usize = 0;
    while i < bytes.len()
        invariant
            i <= bytes@.len(),
            out@ == old(out)@ + bytes@.subrange(0, i as int),
        decreases bytes.len() - i,
    {
        out.push(bytes[i]);
        i += 1;
        assert(out@ =~= old(out)@ + bytes@.subrange(0, i as int));
    }
    assert(bytes@.subrange(0, i as int) =~= bytes@);
}

/// `String::from_utf8`, which the standard library documents as succeeding
/// exactly when the bytes are valid UTF-8, and then holding those bytes: its
/// characters are the ones they encode.
#[verifier::external_body]
fn string_from_utf8(bytes: Vec<u8>) -> (r: Option<String>)
    ensures
        r is Some <==> valid_utf8(bytes@),
        r matches Some(s) ==> s@ == decode_utf8(bytes@),
{
    match String::from_utf8(bytes) {
        Ok(s) => Some(s),
        Err(_) => None,
    }
}

/// The string that some bytes encode, if they are valid UTF-8.
pub fn utf8_string(b: &[u8]) -> (r: Option<String>)
    ensures
        r is Some <==> valid_utf8(b@),
        r matches Some(s) ==> s@ == decode_utf8(b@),
{
    string_from_utf8(vstd::slice::slice_to_vec(b))
}

/// Whether two strings are the same characters, compared by their bytes.
pub fn str_equal(a: &str, b: &str) -> (r: bool)
    ensures
        r == (a@ == b@),
{
    let x = a.as_bytes();
    let y = b.as_bytes();
    proof {
        encode_utf8_decode_utf8(a@);
        encode_utf8_decode_utf8(b@);
    }
    if x.len() != y.len() {
        proof {
            if a@ == b@ {
                assert(x@ == y@);
            }
        }
        return false;
    }
    let mut i: usize = 0;
    while i < x.len()
        invariant
            i <= x@.len(),
            x@.len() == y@.len(),
            x@ == encode_utf8(a@),
            y@ == encode_utf8(b@),
            x@.subrange(0, i as int) == y@.subrange(0, i as int),
        decreases x.len() - i,
    {
        if x[i] != y[i] {
            proof {
                if a@ == b@ {
                    assert(x@ == y@);
                }
            }
            return false;
        }
        assert(x@.subrange(0, i + 1) =~= x@.subrange(0, i as int).push(x@[i as int]));
        assert(y@.subrange(0, i + 1) =~= y@.subrange(0, i as int).push(y@[i as int]));
        i += 1;
    }
    assert(x@ =~= x@.subrange(0, i as int));
    assert(y@ =~= y@.subrange(0, i as int));
    true
}

} // verus!
