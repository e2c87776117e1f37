//! GGUF header parsing: typed metadata, plus the shape, format and byte range
//! of every tensor.
use vstd::prelude::*;

use std::sync::Arc;
use vstd::hash_set::StringHashSet;

use crate::bytes::{le16, le32, le64, read_le16, read_le32, read_le64, str_equal, utf8_string};
use crate::error::{fails_with, ErrorModel, GgufError};
use crate::order::sort_by_key;
use crate::format::{
    align_up_spec, alignment_of, array_at, array_limit, dims_at, find_tensor, find_value, has_key,
    has_name, header_wf, is_power_of_two, kv_at, kvs_at, lemma_checked_product_none_stays,
    lemma_dims_err_stays, lemma_find_tensor_in, lemma_kvs_err_stays, law_parsed_header_is_well_formed,
    lemma_strings_err_stays, lemma_tensors_err_stays, metadata_spec, parse_spec, preamble_spec,
    some_end_overflows, string_at, strings_at, take_spec, tensor_at, tensors_at, u16_at, u32_at,
    u64_at, u8_at, value_at, HeaderModel,
};
use crate::tensor::{
    checked_product, effective_block, sat_mul, DtypeTable, TensorInfo, TensorModel,
};
use crate::value::{strings_view, Array, Value, ValueModel, ValueType};
use crate::{supported_versions, supported_versions_spec, DEFAULT_ALIGNMENT, GGUF_MAGIC};

verus! {

/// What a parser will accept from a file it has not verified.
///
/// The defaults are far above any real checkpoint and far below anything
/// that would hurt.
#[derive(Debug, Clone, Copy, PartialEq, Eq, Structural)]
pub struct ParseLimits {
    /// Metadata key/value pairs. Real files carry tens.
    pub max_metadata_entries: u64,
    /// Tensors. A 400B model has a few thousand.
    pub max_tensors: u64,
    /// Elements in one metadata array.
    pub max_array_len: u64,
    /// Bytes in one string.
    pub max_string_bytes: u64,
    /// Dimensions per tensor. GGUF itself allows four.
    pub max_dimensions: u32,
    /// Elements in one tensor, which bounds its byte length too.
    pub max_tensor_elements: u64,
}

/// The default limits: 2^16 metadata entries, 2^20 tensors, 2^24 array
/// elements, 2^24 string bytes, four dimensions and 2^44 tensor elements.
pub open spec fn default_limits() -> ParseLimits {
    ParseLimits {
        max_metadata_entries: 65536,
        max_tensors: 1048576,
        max_array_len: 16777216,
        max_string_bytes: 16777216,
        max_dimensions: 4,
        max_tensor_elements: 17592186044416,
    }
}

impl Default for ParseLimits {
    fn default() -> (r: Self)
        ensures
            r == default_limits(),
    {
        ParseLimits {
            max_metadata_entries: 65536,
            max_tensors: 1048576,
            max_array_len: 16777216,
            max_string_bytes: 16777216,
            max_dimensions: 4,
            max_tensor_elements: 17592186044416,
        }
    }
}

/// A `u64` from the file as a `usize` on this machine, or an error: on a
/// 32-bit target this is a real narrowing.
fn as_usize(value: u64) -> (r: Result<usize, GgufError>)
    ensures
        value <= usize::MAX ==> r == Ok::<usize, GgufError>(value as usize),
        value > usize::MAX ==> fails_with(r, ErrorModel::TooLargeForMachine(value)),
{
    if value <= usize::MAX as u64 {
        Ok(value as usize)
    } else {
        Err(GgufError::TooLargeForMachine(value))
    }
}

/// `value`, or `TooLarge` where it is past `limit`.
fn at_most(what: &'static str, value: u64, limit: u64) -> (r: Result<u64, GgufError>)
    ensures
        value <= limit ==> r == Ok::<u64, GgufError>(value),
        value > limit ==> fails_with(r, ErrorModel::TooLarge { what: what@, value, limit }),
{
    if value > limit {
        Err(GgufError::TooLarge { what, value, limit })
    } else {
        Ok(value)
    }
}

/// Whether a read from `old` to `new` gave what `s` says is at `old`'s
/// position: the value and the position after it, or the error.
spec fn read_matches<T: View>(
    r: Result<T, GgufError>,
    s: Result<(T::V, int), ErrorModel>,
    old: Cursor,
    new: Cursor,
) -> bool {
    &&& new.bytes@ == old.bytes@
    &&& new.limits == old.limits
    &&& new.wf()
    &&& match s {
        Ok((v, p)) => r matches Ok(x) && x@ == v && new.pos == p,
        Err(e) => r matches Err(x) && x@ == e,
    }
}

/// A read position in a header's bytes.
struct Cursor<'a> {
    bytes: &'a [u8],
    pos: usize,
    limits: ParseLimits,
}

impl<'a> Cursor<'a> {
    spec fn wf(&self) -> bool {
        &&& self.pos <= self.bytes@.len()
        &&& self.bytes@.len() <= usize::MAX
    }

    fn new(bytes: &'a [u8], limits: ParseLimits) -> (c: Self)
        ensures
            c.bytes@ == bytes@,
            c.pos == 0,
            c.limits == limits,
            c.wf(),
    {
        let _ = bytes.len();
        Cursor { bytes, pos: 0, limits }
    }

    fn remaining(&self) -> (r: usize)
        requires
            self.wf(),
        ensures
            r == self.bytes@.len() - self.pos,
    {
        self.bytes.len() - self.pos
    }

    /// Whether `n` more bytes are there.
    fn ensure(&self, n: usize) -> (r: Result<(), GgufError>)
        requires
            self.wf(),
        ensures
            match take_spec(self.bytes@, self.pos as int, n as int) {
                Ok(_) => r is Ok,
                Err(e) => r matches Err(x) && x@ == e,
            },
    {
        // Checked: `pos + n` on a length read out of the file is exactly
        // where an unchecked add would wrap.
        match self.pos.checked_add(n) {
            Some(end) if end <= self.bytes.len() => Ok(()),
            _ => Err(
                GgufError::Truncated {
                    offset: self.pos as u64,
                    needed: (n as u64).saturating_sub(self.remaining() as u64),
                },
            ),
        }
    }

    /// The next `n` bytes.
    fn take(&mut self, n: usize) -> (r: Result<&'a [u8], GgufError>)
        requires
            old(self).wf(),
        ensures
            final(self).bytes@ == old(self).bytes@,
            final(self).limits == old(self).limits,
            final(self).wf(),
            match take_spec(old(self).bytes@, old(self).pos as int, n as int) {
                Ok(p) => r matches Ok(s) && s@ == old(self).bytes@.subrange(
                    old(self).pos as int,
                    p,
                ) && final(self).pos == p,
                Err(e) => r matches Err(x) && x@ == e,
            },
    {
        match self.ensure(n) {
            Ok(()) => {},
            Err(e) => return Err(e),
        }
        let slice = &self.bytes[self.pos..self.pos + n];
        self.pos = self.pos + n;
        Ok(slice)
    }

    fn read_u8(&mut self) -> (r: Result<u8, GgufError>)
        requires
            old(self).wf(),
        ensures
            read_matches(r, u8_at(old(self).bytes@, old(self).pos as int), *old(self), *final(self)),
    {
        match self.ensure(1) {
            Ok(()) => {},
            Err(e) => return Err(e),
        }
        let v = self.bytes[self.pos];
        self.pos = self.pos + 1;
        Ok(v)
    }

    fn read_u16(&mut self) -> (r: Result<u16, GgufError>)
        requires
            old(self).wf(),
        ensures
            read_matches(r, u16_at(old(self).bytes@, old(self).pos as int), *old(self), *final(self)),
    {
        match self.ensure(2) {
            Ok(()) => {},
            Err(e) => return Err(e),
        }
        let v = read_le16(self.bytes, self.pos);
        self.pos = self.pos + 2;
        Ok(v)
    }

    fn read_u32(&mut self) -> (r: Result<u32, GgufError>)
        requires
            old(self).wf(),
        ensures
            read_matches(r, u32_at(old(self).bytes@, old(self).pos as int), *old(self), *final(self)),
    {
        match self.ensure(4) {
            Ok(()) => {},
            Err(e) => return Err(e),
        }
        let v = read_le32(self.bytes, self.pos);
        self.pos = self.pos + 4;
        Ok(v)
    }

    fn read_u64(&mut self) -> (r: Result<u64, GgufError>)
        requires
            old(self).wf(),
        ensures
            read_matches(r, u64_at(old(self).bytes@, old(self).pos as int), *old(self), *final(self)),
    {
        match self.ensure(8) {
            Ok(()) => {},
            Err(e) => return Err(e),
        }
        let v = read_le64(self.bytes, self.pos);
        self.pos = self.pos + 8;
        Ok(v)
    }

    fn read_string(&mut self) -> (r: Result<String, GgufError>)
        requires
            old(self).wf(),
        ensures
            read_matches(
                r,
                string_at(old(self).bytes@, old(self).pos as int, old(self).limits),
                *old(self),
                *final(self),
            ),
    {
        let len = match self.read_u64() {
            Ok(v) => v,
            Err(e) => return Err(e),
        };
        let len = match at_most("string length", len, self.limits.max_string_bytes) {
            Ok(v) => v,
            Err(e) => return Err(e),
        };
        let len = match as_usize(len) {
            Ok(v) => v,
            Err(e) => return Err(e),
        };
        // `take` bounds-checks before anything is copied, so a length larger
        // than the file cannot reserve for itself.
        let bytes = match self.take(len) {
            Ok(b) => b,
            Err(e) => return Err(e),
        };
        match utf8_string(bytes) {
            Some(s) => Ok(s),
            None => Err(GgufError::BadUtf8),
        }
    }

    /// `n` elements of u8, which the caller has checked are all there.
    fn read_u8s(&mut self, n: usize) -> (v: Vec<u8>)
        requires
            old(self).wf(),
            old(self).pos + n <= old(self).bytes@.len(),
        ensures
            final(self).bytes@ == old(self).bytes@,
            final(self).limits == old(self).limits,
            final(self).wf(),
            final(self).pos == old(self).pos + n,
            v@ == Seq::new(n as nat, |j: int| old(self).bytes@[old(self).pos + j]),
    {
        let ghost b = self.bytes@;
        let start = self.pos;
        let mut out: Vec<u8> = Vec::with_capacity(n);
        let mut i: usize = 0;
        while i < n
            invariant
                i <= n,
                self.bytes@ == b,
                self.limits == old(self).limits,
                start == old(self).pos,
                start + n <= b.len(),
                b.len() <= usize::MAX,
                self.pos == start + i,
                out@ == Seq::new(i as nat, |j: int| b[start + j]),
            decreases n - i,
        {
            let x = self.bytes[self.pos];
            out.push(x);
            self.pos = self.pos + 1;
            i += 1;
            assert(out@ =~= Seq::new(i as nat, |j: int| b[start + j]));
        }
        out
    }

    /// `n` elements of i8, which the caller has checked are all there.
    fn read_i8s(&mut self, n: usize) -> (v: Vec<i8>)
        requires
            old(self).wf(),
            old(self).pos + n <= old(self).bytes@.len(),
        ensures
            final(self).bytes@ == old(self).bytes@,
            final(self).limits == old(self).limits,
            final(self).wf(),
            final(self).pos == old(self).pos + n,
            v@ == Seq::new(n as nat, |j: int| old(self).bytes@[old(self).pos + j] as i8),
    {
        let ghost b = self.bytes@;
        let start = self.pos;
        let mut out: Vec<i8> = Vec::with_capacity(n);
        let mut i: usize = 0;
        while i < n
            invariant
                i <= n,
                self.bytes@ == b,
                self.limits == old(self).limits,
                start == old(self).pos,
                start + n <= b.len(),
                b.len() <= usize::MAX,
                self.pos == start + i,
                out@ == Seq::new(i as nat, |j: int| b[start + j] as i8),
            decreases n - i,
        {
            let x = self.bytes[self.pos] as i8;
            out.push(x);
            self.pos = self.pos + 1;
            i += 1;
            assert(out@ =~= Seq::new(i as nat, |j: int| b[start + j] as i8));
        }
        out
    }

    /// `n` elements of bool, which the caller has checked are all there.
    fn read_bools(&mut self, n: usize) -> (v: Vec<bool>)
        requires
            old(self).wf(),
            old(self).pos + n <= old(self).bytes@.len(),
        ensures
            final(self).bytes@ == old(self).bytes@,
            final(self).limits == old(self).limits,
            final(self).wf(),
            final(self).pos == old(self).pos + n,
            v@ == Seq::new(n as nat, |j: int| old(self).bytes@[old(self).pos + j] != 0),
    {
        let ghost b = self.bytes@;
        let start = self.pos;
        let mut out: Vec<bool> = Vec::with_capacity(n);
        let mut i: usize = 0;
        while i < n
            invariant
                i <= n,
                self.bytes@ == b,
                self.limits == old(self).limits,
                start == old(self).pos,
                start + n <= b.len(),
                b.len() <= usize::MAX,
                self.pos == start + i,
                out@ == Seq::new(i as nat, |j: int| b[start + j] != 0),
            decreases n - i,
        {
            let x = self.bytes[self.pos] != 0;
            out.push(x);
            self.pos = self.pos + 1;
            i += 1;
            assert(out@ =~= Seq::new(i as nat, |j: int| b[start + j] != 0));
        }
        out
    }

    /// `n` elements of u16, which the caller has checked are all there.
    fn read_u16s(&mut self, n: usize) -> (v: Vec<u16>)
        requires
            old(self).wf(),
            old(self).pos + 2 * n <= old(self).bytes@.len(),
        ensures
            final(self).bytes@ == old(self).bytes@,
            final(self).limits == old(self).limits,
            final(self).wf(),
            final(self).pos == old(self).pos + 2 * n,
            v@ == Seq::new(n as nat, |j: int| le16(old(self).bytes@, old(self).pos + 2 * j)),
    {
        let ghost b = self.bytes@;
        let start = self.pos;
        let mut out: Vec<u16> = Vec::with_capacity(n);
        let mut i: usize = 0;
        while i < n
            invariant
                i <= n,
                self.bytes@ == b,
                self.limits == old(self).limits,
                start == old(self).pos,
                start + 2 * n <= b.len(),
                b.len() <= usize::MAX,
                self.pos == start + 2 * i,
                out@ == Seq::new(i as nat, |j: int| le16(b, start + 2 * j)),
            decreases n - i,
        {
            let x = read_le16(self.bytes, self.pos);
            out.push(x);
            self.pos = self.pos + 2;
            i += 1;
            assert(out@ =~= Seq::new(i as nat, |j: int| le16(b, start + 2 * j)));
        }
        out
    }

    /// `n` elements of i16, which the caller has checked are all there.
    fn read_i16s(&mut self, n: usize) -> (v: Vec<i16>)
        requires
            old(self).wf(),
            old(self).pos + 2 * n <= old(self).bytes@.len(),
        ensures
            final(self).bytes@ == old(self).bytes@,
            final(self).limits == old(self).limits,
            final(self).wf(),
            final(self).pos == old(self).pos + 2 * n,
            v@ == Seq::new(n as nat, |j: int| le16(old(self).bytes@, old(self).pos + 2 * j) as i16),
    {
        let ghost b = self.bytes@;
        let start = self.pos;
        let mut out: Vec<i16> = Vec::with_capacity(n);
        let mut i: usize = 0;
        while i < n
            invariant
                i <= n,
                self.bytes@ == b,
                self.limits == old(self).limits,
                start == old(self).pos,
                start + 2 * n <= b.len(),
                b.len() <= usize::MAX,
                self.pos == start + 2 * i,
                out@ == Seq::new(i as nat, |j: int| le16(b, start + 2 * j) as i16),
            decreases n - i,
        {
            let x = read_le16(self.bytes, self.pos) as i16;
            out.push(x);
            self.pos = self.pos + 2;
            i += 1;
            assert(out@ =~= Seq::new(i as nat, |j: int| le16(b, start + 2 * j) as i16));
        }
        out
    }

    /// `n` elements of u32, which the caller has checked are all there.
    fn read_u32s(&mut self, n: usize) -> (v: Vec<u32>)
        requires
            old(self).wf(),
            old(self).pos + 4 * n <= old(self).bytes@.len(),
        ensures
            final(self).bytes@ == old(self).bytes@,
            final(self).limits == old(self).limits,
            final(self).wf(),
            final(self).pos == old(self).pos + 4 * n,
            v@ == Seq::new(n as nat, |j: int| le32(old(self).bytes@, old(self).pos + 4 * j)),
    {
        let ghost b = self.bytes@;
        let start = self.pos;
        let mut out: Vec<u32> = Vec::with_capacity(n);
        let mut i: usize = 0;
        while i < n
            invariant
                i <= n,
                self.bytes@ == b,
                self.limits == old(self).limits,
                start == old(self).pos,
                start + 4 * n <= b.len(),
                b.len() <= usize::MAX,
                self.pos == start + 4 * i,
                out@ == Seq::new(i as nat, |j: int| le32(b, start + 4 * j)),
            decreases n - i,
        {
            let x = read_le32(self.bytes, self.pos);
            out.push(x);
            self.pos = self.pos + 4;
            i += 1;
            assert(out@ =~= Seq::new(i as nat, |j: int| le32(b, start + 4 * j)));
        }
        out
    }

    /// `n` elements of i32, which the caller has checked are all there.
    fn read_i32s(&mut self, n: usize) -> (v: Vec<i32>)
        requires
            old(self).wf(),
            old(self).pos + 4 * n <= old(self).bytes@.len(),
        ensures
            final(self).bytes@ == old(self).bytes@,
            final(self).limits == old(self).limits,
            final(self).wf(),
            final(self).pos == old(self).pos + 4 * n,
            v@ == Seq::new(n as nat, |j: int| le32(old(self).bytes@, old(self).pos + 4 * j) as i32),
    {
        let ghost b = self.bytes@;
        let start = self.pos;
        let mut out: Vec<i32> = Vec::with_capacity(n);
        let mut i: usize = 0;
        while i < n
            invariant
                i <= n,
                self.bytes@ == b,
                self.limits == old(self).limits,
                start == old(self).pos,
                start + 4 * n <= b.len(),
                b.len() <= usize::MAX,
                self.pos == start + 4 * i,
                out@ == Seq::new(i as nat, |j: int| le32(b, start + 4 * j) as i32),
            decreases n - i,
        {
            let x = read_le32(self.bytes, self.pos) as i32;
            out.push(x);
            self.pos = self.pos + 4;
            i += 1;
            assert(out@ =~= Seq::new(i as nat, |j: int| le32(b, start + 4 * j) as i32));
        }
        out
    }

    /// `n` elements of u64, which the caller has checked are all there.
    fn read_u64s(&mut self, n: usize) -> (v: Vec<u64>)
        requires
            old(self).wf(),
            old(self).pos + 8 * n <= old(self).bytes@.len(),
        ensures
            final(self).bytes@ == old(self).bytes@,
            final(self).limits == old(self).limits,
            final(self).wf(),
            final(self).pos == old(self).pos + 8 * n,
            v@ == Seq::new(n as nat, |j: int| le64(old(self).bytes@, old(self).pos + 8 * j)),
    {
        let ghost b = self.bytes@;
        let start = self.pos;
        let mut out: Vec<u64> = Vec::with_capacity(n);
        let mut i: usize = 0;
        while i < n
            invariant
                i <= n,
                self.bytes@ == b,
                self.limits == old(self).limits,
                start == old(self).pos,
                start + 8 * n <= b.len(),
                b.len() <= usize::MAX,
                self.pos == start + 8 * i,
                out@ == Seq::new(i as nat, |j: int| le64(b, start + 8 * j)),
            decreases n - i,
        {
            let x = read_le64(self.bytes, self.pos);
            out.push(x);
            self.pos = self.pos + 8;
            i += 1;
            assert(out@ =~= Seq::new(i as nat, |j: int| le64(b, start + 8 * j)));
        }
        out
    }

    /// `n` elements of i64, which the caller has checked are all there.
    fn read_i64s(&mut self, n: usize) -> (v: Vec<i64>)
        requires
            old(self).wf(),
            old(self).pos + 8 * n <= old(self).bytes@.len(),
        ensures
            final(self).bytes@ == old(self).bytes@,
            final(self).limits == old(self).limits,
            final(self).wf(),
            final(self).pos == old(self).pos + 8 * n,
            v@ == Seq::new(n as nat, |j: int| le64(old(self).bytes@, old(self).pos + 8 * j) as i64),
    {
        let ghost b = self.bytes@;
        let start = self.pos;
        let mut out: Vec<i64> = Vec::with_capacity(n);
        let mut i: usize = 0;
        while i < n
            invariant
                i <= n,
                self.bytes@ == b,
                self.limits == old(self).limits,
                start == old(self).pos,
                start + 8 * n <= b.len(),
                b.len() <= usize::MAX,
                self.pos == start + 8 * i,
                out@ == Seq::new(i as nat, |j: int| le64(b, start + 8 * j) as i64),
            decreases n - i,
        {
            let x = read_le64(self.bytes, self.pos) as i64;
            out.push(x);
            self.pos = self.pos + 8;
            i += 1;
            assert(out@ =~= Seq::new(i as nat, |j: int| le64(b, start + 8 * j) as i64));
        }
        out
    }

    /// `n` strings, one after another.
    fn read_strings(&mut self, n: usize) -> (r: Result<Vec<String>, GgufError>)
        requires
            old(self).wf(),
        ensures
            final(self).bytes@ == old(self).bytes@,
            final(self).limits == old(self).limits,
            final(self).wf(),
            match strings_at(old(self).bytes@, old(self).pos as int, old(self).limits, n as nat) {
                Ok((v, p)) => r matches Ok(x) && strings_view(x@) == v && final(self).pos == p,
                Err(e) => fails_with(r, e),
            },
    {
        let ghost b = self.bytes@;
        let ghost start = self.pos as int;
        let mut out: Vec<String> = Vec::new();
        let mut i: usize = 0;
        assert(strings_view(out@) =~= Seq::<Seq<char>>::empty());
        while i < n
            invariant
                i <= n,
                b == old(self).bytes@,
                self.bytes@ == b,
                self.limits == old(self).limits,
                start == old(self).pos,
                self.wf(),
                strings_at(b, start, self.limits, i as nat) == Ok::<(Seq<Seq<char>>, int), ErrorModel>(
                    (strings_view(out@), self.pos as int),
                ),
            decreases n - i,
        {
            let s = match self.read_string() {
                Ok(s) => s,
                Err(e) => {
                    proof {
                        assert(strings_at(b, start, self.limits, (i + 1) as nat) is Err);
                        lemma_strings_err_stays(b, start, self.limits, (i + 1) as nat, n as nat);
                    }
                    return Err(e);
                },
            };
            let ghost before = out@;
            out.push(s);
            assert(strings_view(out@) =~= strings_view(before).push(s@));
            i += 1;
        }
        Ok(out)
    }

    /// An array: its element type, its count, then its elements.
    fn read_array(&mut self, key: &String) -> (r: Result<Array, GgufError>)
        requires
            old(self).wf(),
        ensures
            read_matches(
                r,
                array_at(old(self).bytes@, old(self).pos as int, old(self).limits, key@),
                *old(self),
                *final(self),
            ),
    {
        let tag = match self.read_u32() {
            Ok(t) => t,
            Err(e) => return Err(e),
        };
        let elem_ty = match ValueType::from_u32(tag) {
            Ok(t) => t,
            Err(e) => return Err(e),
        };
        let count = match self.read_u64() {
            Ok(c) => c,
            Err(e) => return Err(e),
        };
        if elem_ty == ValueType::Array {
            return Err(GgufError::NestedArray(key.clone()));
        }
        let len = match self.capacity_for(count, elem_ty.min_size()) {
            Ok(n) => n,
            Err(e) => return Err(e),
        };
        match elem_ty {
            ValueType::U8 => Ok(Array::U8(self.read_u8s(len))),
            ValueType::I8 => Ok(Array::I8(self.read_i8s(len))),
            ValueType::Bool => Ok(Array::Bool(self.read_bools(len))),
            ValueType::U16 => Ok(Array::U16(self.read_u16s(len))),
            ValueType::I16 => Ok(Array::I16(self.read_i16s(len))),
            ValueType::U32 => Ok(Array::U32(self.read_u32s(len))),
            ValueType::I32 => Ok(Array::I32(self.read_i32s(len))),
            ValueType::F32 => Ok(Array::F32(self.read_u32s(len))),
            ValueType::U64 => Ok(Array::U64(self.read_u64s(len))),
            ValueType::I64 => Ok(Array::I64(self.read_i64s(len))),
            ValueType::F64 => Ok(Array::F64(self.read_u64s(len))),
            ValueType::String => match self.read_strings(len) {
                Ok(v) => Ok(Array::String(v)),
                Err(e) => Err(e),
            },
            ValueType::Array => Err(GgufError::NestedArray(key.clone())),
        }
    }

    /// A value of type `ty`; `key` is the entry it belongs to.
    fn read_value(&mut self, ty: ValueType, key: &String) -> (r: Result<Value, GgufError>)
        requires
            old(self).wf(),
        ensures
            read_matches(
                r,
                value_at(old(self).bytes@, old(self).pos as int, old(self).limits, ty, key@),
                *old(self),
                *final(self),
            ),
    {
        match ty {
            ValueType::U8 => match self.read_u8() {
                Ok(x) => Ok(Value::U8(x)),
                Err(e) => Err(e),
            },
            ValueType::I8 => match self.read_u8() {
                Ok(x) => Ok(Value::I8(x as i8)),
                Err(e) => Err(e),
            },
            ValueType::U16 => match self.read_u16() {
                Ok(x) => Ok(Value::U16(x)),
                Err(e) => Err(e),
            },
            ValueType::I16 => match self.read_u16() {
                Ok(x) => Ok(Value::I16(x as i16)),
                Err(e) => Err(e),
            },
            ValueType::U32 => match self.read_u32() {
                Ok(x) => Ok(Value::U32(x)),
                Err(e) => Err(e),
            },
            ValueType::I32 => match self.read_u32() {
                Ok(x) => Ok(Value::I32(x as i32)),
                Err(e) => Err(e),
            },
            ValueType::F32 => match self.read_u32() {
                Ok(x) => Ok(Value::F32(x)),
                Err(e) => Err(e),
            },
            ValueType::Bool => match self.read_u8() {
                Ok(x) => Ok(Value::Bool(x != 0)),
                Err(e) => Err(e),
            },
            ValueType::String => match self.read_string() {
                Ok(s) => Ok(Value::String(s)),
                Err(e) => Err(e),
            },
            ValueType::Array => match self.read_array(key) {
                Ok(a) => Ok(Value::Array(a)),
                Err(e) => Err(e),
            },
            ValueType::U64 => match self.read_u64() {
                Ok(x) => Ok(Value::U64(x)),
                Err(e) => Err(e),
            },
            ValueType::I64 => match self.read_u64() {
                Ok(x) => Ok(Value::I64(x as i64)),
                Err(e) => Err(e),
            },
            ValueType::F64 => match self.read_u64() {
                Ok(x) => Ok(Value::F64(x)),
                Err(e) => Err(e),
            },
        }
    }

    /// One metadata entry: a key, a type tag, a value.
    fn read_kv(&mut self) -> (r: Result<(String, Value), GgufError>)
        requires
            old(self).wf(),
        ensures
            read_matches(
                r,
                kv_at(old(self).bytes@, old(self).pos as int, old(self).limits),
                *old(self),
                *final(self),
            ),
    {
        let key = match self.read_string() {
            Ok(k) => k,
            Err(e) => return Err(e),
        };
        let tag = match self.read_u32() {
            Ok(t) => t,
            Err(e) => return Err(e),
        };
        let ty = match ValueType::from_u32(tag) {
            Ok(t) => t,
            Err(e) => return Err(e),
        };
        match self.read_value(ty, &key) {
            Ok(v) => Ok((key, v)),
            Err(e) => Err(e),
        }
    }

    /// `n` dimensions, `u64` each.
    fn read_dims(&mut self, n: u32) -> (r: Result<Vec<u64>, GgufError>)
        requires
            old(self).wf(),
        ensures
            final(self).bytes@ == old(self).bytes@,
            final(self).limits == old(self).limits,
            final(self).wf(),
            match dims_at(old(self).bytes@, old(self).pos as int, n as nat) {
                Ok((v, p)) => r matches Ok(x) && x@ == v && final(self).pos == p,
                Err(e) => fails_with(r, e),
            },
    {
        let ghost b = self.bytes@;
        let ghost start = self.pos as int;
        let mut out: Vec<u64> = Vec::new();
        let mut i: u32 = 0;
        assert(out@ =~= Seq::<u64>::empty());
        while i < n
            invariant
                i <= n,
                b == old(self).bytes@,
                self.bytes@ == b,
                self.limits == old(self).limits,
                start == old(self).pos,
                self.wf(),
                dims_at(b, start, i as nat) == Ok::<(Seq<u64>, int), ErrorModel>((out@, self.pos as int)),
            decreases n - i,
        {
            let d = match self.read_u64() {
                Ok(d) => d,
                Err(e) => {
                    proof {
                        assert(dims_at(b, start, (i + 1) as nat) is Err);
                        lemma_dims_err_stays(b, start, (i + 1) as nat, n as nat);
                    }
                    return Err(e);
                },
            };
            out.push(d);
            i += 1;
        }
        Ok(out)
    }

    /// One tensor-info entry: name, dimensions, format and offset, each
    /// checked as it is read.
    fn read_tensor(&mut self, table: &DtypeTable) -> (r: Result<TensorInfo, GgufError>)
        requires
            old(self).wf(),
        ensures
            read_matches(
                r,
                tensor_at(old(self).bytes@, old(self).pos as int, old(self).limits, table.layouts@),
                *old(self),
                *final(self),
            ),
    {
        let name = match self.read_string() {
            Ok(s) => s,
            Err(e) => return Err(e),
        };
        let n_dims = match self.read_u32() {
            Ok(n) => n,
            Err(e) => return Err(e),
        };
        if n_dims > self.limits.max_dimensions {
            return Err(GgufError::TooManyDims { name, n_dims });
        }
        let shape = match self.read_dims(n_dims) {
            Ok(v) => v,
            Err(e) => return Err(e),
        };
        let tag = match self.read_u32() {
            Ok(t) => t,
            Err(e) => return Err(e),
        };
        let dtype = match table.lookup(tag) {
            Some(d) => d,
            None => return Err(GgufError::UnknownDtype(tag)),
        };
        let offset = match self.read_u64() {
            Ok(o) => o,
            Err(e) => return Err(e),
        };
        // A shape is a product of file values, so it is exactly where an
        // unchecked multiply wraps to something plausible and small.
        let numel = match checked_numel(&shape) {
            Some(n) => n,
            None => return Err(GgufError::Overflow("tensor element count")),
        };
        match at_most("tensor element count", numel, self.limits.max_tensor_elements) {
            Ok(_) => {},
            Err(e) => return Err(e),
        }
        let block = dtype.block_size;
        if block > 1 && numel % (block as u64) != 0 {
            return Err(GgufError::NotBlockAligned { name, block, numel });
        }
        // And the byte length, and where it ends, so `tensor_range` cannot.
        let per_block: u64 = if block == 0 { 1 } else { block as u64 };
        let nbytes = match (numel / per_block).checked_mul(dtype.type_size as u64) {
            Some(n) => n,
            None => return Err(GgufError::Overflow("tensor byte length")),
        };
        if offset.checked_add(nbytes).is_none() {
            return Err(GgufError::Overflow("tensor end offset"));
        }
        Ok(TensorInfo { name, shape, dtype, offset })
    }

    /// How many elements of `size` bytes each (a zero size counted as one)
    /// could possibly remain, checked against `count` and the array limit.
    fn capacity_for(&self, count: u64, size: usize) -> (r: Result<usize, GgufError>)
        requires
            self.wf(),
        ensures
            ({
                let limit = array_limit(
                    self.bytes@.len() - self.pos,
                    (if size == 0 { 1 } else { size as int }),
                    self.limits.max_array_len,
                );
                &&& count > limit ==> fails_with(
                    r,
                    ErrorModel::TooLarge { what: "array length"@, value: count, limit },
                )
                &&& count <= limit && count > usize::MAX ==> fails_with(
                    r,
                    ErrorModel::TooLargeForMachine(count),
                )
                &&& count <= limit && count <= usize::MAX ==> r == Ok::<usize, GgufError>(
                    count as usize,
                )
            }),
    {
        let per = if size == 0 { 1 } else { size };
        let possible = (self.remaining() / per) as u64;
        let limit = if possible < self.limits.max_array_len {
            possible
        } else {
            self.limits.max_array_len
        };
        match at_most("array length", count, limit) {
            Ok(_) => {},
            Err(e) => return Err(e),
        }
        as_usize(count)
    }
}

/// The product of the dimensions, or `None` where a partial product overflows.
fn checked_numel(shape: &Vec<u64>) -> (r: Option<u64>)
    ensures
        r == checked_product(shape@),
{
    let mut numel: u64 = 1;
    let mut i: usize = 0;
    while i < shape.len()
        invariant
            i <= shape@.len(),
            checked_product(shape@.take(i as int)) == Some(numel),
        decreases shape.len() - i,
    {
        assert(shape@.take(i + 1).drop_last() =~= shape@.take(i as int));
        match numel.checked_mul(shape[i]) {
            Some(n) => numel = n,
            None => {
                proof {
                    lemma_checked_product_none_stays(shape@, i + 1);
                }
                return None;
            },
        }
        i += 1;
    }
    assert(shape@.take(i as int) =~= shape@);
    Some(numel)
}

/// The metadata entries as mathematical values.
pub open spec fn metadata_view(md: Seq<(String, Value)>) -> Seq<(Seq<char>, ValueModel)> {
    md.map_values(|e: (String, Value)| e@)
}

/// The tensors as mathematical values.
pub open spec fn tensors_view(ts: Seq<TensorInfo>) -> Seq<TensorModel> {
    ts.map_values(|t: TensorInfo| t@)
}

/// Adding an entry adds exactly its key to the keys present.
proof fn lemma_has_key_push(md: Seq<(Seq<char>, ValueModel)>, kv: (Seq<char>, ValueModel), x: Seq<char>)
    ensures
        has_key(md.push(kv), x) <==> (has_key(md, x) || x == kv.0),
{
    let m2 = md.push(kv);
    if has_key(md, x) {
        let i = choose|i: int| 0 <= i < md.len() && #[trigger] md[i].0 == x;
        assert(m2[i].0 == x);
    }
    if x == kv.0 {
        assert(m2[md.len() as int].0 == x);
    }
    if has_key(m2, x) {
        let i = choose|i: int| 0 <= i < m2.len() && #[trigger] m2[i].0 == x;
        if i < md.len() {
            assert(md[i].0 == x);
        }
    }
}

/// Adding a tensor adds exactly its name to the names present.
proof fn lemma_has_name_push(ts: Seq<TensorModel>, t: TensorModel, x: Seq<char>)
    ensures
        has_name(ts.push(t), x) <==> (has_name(ts, x) || x == t.name),
{
    let t2 = ts.push(t);
    if has_name(ts, x) {
        let i = choose|i: int| 0 <= i < ts.len() && #[trigger] ts[i].name == x;
        assert(t2[i].name == x);
    }
    if x == t.name {
        assert(t2[ts.len() as int].name == x);
    }
    if has_name(t2, x) {
        let i = choose|i: int| 0 <= i < t2.len() && #[trigger] t2[i].name == x;
        if i < ts.len() {
            assert(ts[i].name == x);
        }
    }
}

/// `count` metadata entries, refusing a key seen before.
#[verifier::spinoff_prover]
#[verifier::rlimit(40)]
fn read_metadata(c: &mut Cursor, count: u64) -> (r: Result<Vec<(String, Value)>, GgufError>)
    requires
        old(c).wf(),
    ensures
        final(c).bytes@ == old(c).bytes@,
        final(c).limits == old(c).limits,
        final(c).wf(),
        match kvs_at(old(c).bytes@, old(c).pos as int, old(c).limits, count as nat) {
            Ok((md, p)) => r matches Ok(x) && metadata_view(x@) == md && final(c).pos == p,
            Err(e) => fails_with(r, e),
        },
{
    let ghost b = c.bytes@;
    let ghost start = c.pos as int;
    let mut md: Vec<(String, Value)> = Vec::new();
    let mut seen = StringHashSet::new();
    let mut i: u64 = 0;
    assert(metadata_view(md@) =~= Seq::<(Seq<char>, ValueModel)>::empty());
    while i < count
        invariant
            i <= count,
            forall|k: Seq<char>| #[trigger] seen@.contains(k) <==> has_key(metadata_view(md@), k),
            b == old(c).bytes@,
            c.bytes@ == b,
            c.limits == old(c).limits,
            start == old(c).pos,
            c.wf(),
            kvs_at(b, start, c.limits, i as nat) == Ok::<(Seq<(Seq<char>, ValueModel)>, int), ErrorModel>(
                (metadata_view(md@), c.pos as int),
            ),
        decreases count - i,
    {
        let (key, value) = match c.read_kv() {
            Ok(kv) => kv,
            Err(e) => {
                proof {
                    assert(kvs_at(b, start, c.limits, (i + 1) as nat) is Err);
                    lemma_kvs_err_stays(b, start, c.limits, (i + 1) as nat, count as nat);
                }
                return Err(e);
            },
        };
        // Which of two identical keys wins would be a choice, and a file that
        // makes a reader choose is malformed.
        if !seen.insert(key.clone()) {
            proof {
                assert(kvs_at(b, start, c.limits, (i + 1) as nat) is Err);
                lemma_kvs_err_stays(b, start, c.limits, (i + 1) as nat, count as nat);
            }
            return Err(GgufError::Duplicate { what: "metadata key", name: key });
        }
        let ghost before = md@;
        md.push((key, value));
        assert(metadata_view(md@) =~= metadata_view(before).push((key@, value@)));
        proof {
            assert forall|k: Seq<char>| #[trigger] seen@.contains(k) <==> has_key(metadata_view(md@), k) by {
                lemma_has_key_push(metadata_view(before), (key@, value@), k);
            }
        }
        i += 1;
    }
    Ok(md)
}

/// `count` tensor-info entries, refusing a name seen before.
#[verifier::spinoff_prover]
#[verifier::rlimit(40)]
fn read_tensors(c: &mut Cursor, table: &DtypeTable, count: usize) -> (r: Result<Vec<TensorInfo>, GgufError>)
    requires
        old(c).wf(),
    ensures
        final(c).bytes@ == old(c).bytes@,
        final(c).limits == old(c).limits,
        final(c).wf(),
        match tensors_at(old(c).bytes@, old(c).pos as int, old(c).limits, table.layouts@, count as nat) {
            Ok((ts, p)) => r matches Ok(x) && tensors_view(x@) == ts && final(c).pos == p,
            Err(e) => fails_with(r, e),
        },
{
    let ghost b = c.bytes@;
    let ghost start = c.pos as int;
    let mut tensors: Vec<TensorInfo> = Vec::with_capacity(count);
    let mut seen = StringHashSet::new();
    let mut i: usize = 0;
    assert(tensors_view(tensors@) =~= Seq::<TensorModel>::empty());
    while i < count
        invariant
            i <= count,
            forall|k: Seq<char>| #[trigger] seen@.contains(k) <==> has_name(tensors_view(tensors@), k),
            b == old(c).bytes@,
            c.bytes@ == b,
            c.limits == old(c).limits,
            start == old(c).pos,
            c.wf(),
            tensors_at(b, start, c.limits, table.layouts@, i as nat) == Ok::<(Seq<TensorModel>, int), ErrorModel>(
                (tensors_view(tensors@), c.pos as int),
            ),
        decreases count - i,
    {
        let tensor = match c.read_tensor(table) {
            Ok(t) => t,
            Err(e) => {
                proof {
                    assert(tensors_at(b, start, c.limits, table.layouts@, (i + 1) as nat) is Err);
                    lemma_tensors_err_stays(b, start, c.limits, table.layouts@, (i + 1) as nat, count as nat);
                }
                return Err(e);
            },
        };
        if !seen.insert(tensor.name.clone()) {
            proof {
                assert(tensors_at(b, start, c.limits, table.layouts@, (i + 1) as nat) is Err);
                lemma_tensors_err_stays(b, start, c.limits, table.layouts@, (i + 1) as nat, count as nat);
            }
            return Err(GgufError::Duplicate { what: "tensor name", name: tensor.name });
        }
        let ghost before = tensors@;
        let ghost model = tensor@;
        tensors.push(tensor);
        assert(tensors_view(tensors@) =~= tensors_view(before).push(model));
        proof {
            assert forall|k: Seq<char>| #[trigger] seen@.contains(k) <==> has_name(tensors_view(tensors@), k) by {
                lemma_has_name_push(tensors_view(before), model, k);
            }
        }
        i += 1;
    }
    Ok(tensors)
}

/// The alignment the metadata asks for: `general.alignment` where it is an
/// unsigned value, the default otherwise.
fn alignment_from(md: &Vec<(String, Value)>) -> (r: u64)
    ensures
        r == alignment_of(metadata_view(md@)),
{
    let ghost v = metadata_view(md@);
    let mut i: usize = 0;
    assert(v.skip(0) =~= v);
    while i < md.len()
        invariant
            i <= md@.len(),
            v == metadata_view(md@),
            find_value(v, "general.alignment"@) == find_value(v.skip(i as int), "general.alignment"@),
        decreases md.len() - i,
    {
        assert(v.skip(i as int).drop_first() =~= v.skip(i + 1));
        if str_equal(md[i].0.as_str(), "general.alignment") {
            return match md[i].1.as_u64() {
                Some(a) => a,
                None => DEFAULT_ALIGNMENT,
            };
        }
        i += 1;
    }
    DEFAULT_ALIGNMENT
}

/// Whether `x` is a power of two.
fn power_of_two(x: u64) -> (r: bool)
    ensures
        r == is_power_of_two(x as nat),
{
    let mut v = x;
    while v > 1 && v % 2 == 0
        invariant
            is_power_of_two(x as nat) == is_power_of_two(v as nat),
        decreases v,
    {
        v = v / 2;
    }
    v == 1
}

/// `value` rounded up to a multiple of `align`, or `None` where that
/// overflows; a zero alignment leaves the value as it is.
pub(crate) fn align_up(value: u64, align: u64) -> (r: Option<u64>)
    ensures
        r == align_up_spec(value, align),
{
    if align == 0 {
        return Some(value);
    }
    match value % align {
        0 => Some(value),
        rem => value.checked_add(align - rem),
    }
}

/// Whether this reader accepts a container version.
fn version_supported(version: u32) -> (r: bool)
    ensures
        r == supported_versions_spec().contains(version),
{
    let ok = supported_versions();
    let mut i: usize = 0;
    while i < ok.len()
        invariant
            i <= ok@.len(),
            ok@ == supported_versions_spec(),
            forall|j: int| 0 <= j < i ==> ok@[j] != version,
        decreases ok.len() - i,
    {
        if ok[i] == version {
            assert(ok@[i as int] == version);
            return true;
        }
        i += 1;
    }
    false
}

/// Where a tensor's bytes are, in the file the header came from.
#[derive(Debug, Clone, Copy, PartialEq, Eq, Structural)]
pub struct TensorRange {
    /// Absolute offset from the start of the file.
    pub offset: u64,
    /// How many bytes the tensor occupies, in whatever format it is stored in.
    pub bytes: u64,
}

impl TensorRange {
    /// The end offset, saturating; for a range a parsed header gives, it is
    /// exactly `offset + bytes`.
    pub fn end(&self) -> (r: u64)
        ensures
            self.offset + self.bytes <= u64::MAX ==> r == self.offset + self.bytes,
            self.offset + self.bytes > u64::MAX ==> r == u64::MAX,
    {
        self.offset.saturating_add(self.bytes)
    }
}

/// A parsed GGUF header. Cheap to clone (`Arc` internally).
///
/// Its metadata entries come in key order and its tensors in the order the
/// file gives them; its invariant (`header_wf`) says no key and no tensor
/// name comes twice and the keys are in order, so the entries are a map from
/// key to value gone through in key order.
///
/// It holds no file bytes. Ask it where a tensor is with
/// [`Self::tensor_range`] and read that range from wherever the file is.
#[derive(Debug)]
pub struct GgufHeader {
    inner: Arc<Inner>,
}

#[derive(Debug)]
struct Inner {
    version: u32,
    metadata: Vec<(String, Value)>,
    tensors: Vec<TensorInfo>,
    tensor_data_start: u64,
    alignment: u64,
    header_bytes: u64,
}

impl View for Inner {
    type V = HeaderModel;

    closed spec fn view(&self) -> HeaderModel {
        HeaderModel {
            version: self.version,
            metadata: metadata_view(self.metadata@),
            tensors: tensors_view(self.tensors@),
            tensor_data_start: self.tensor_data_start,
            alignment: self.alignment,
            header_bytes: self.header_bytes,
        }
    }
}

impl View for GgufHeader {
    type V = HeaderModel;

    closed spec fn view(&self) -> HeaderModel {
        (*self.inner)@
    }
}

/// `Arc::clone`: another handle to the same allocation, which the standard
/// library documents as not copying the value, so it is the same value.
#[verifier::external_body]
fn share(inner: &Arc<Inner>) -> (r: Arc<Inner>)
    ensures
        r == *inner,
{
    Arc::clone(inner)
}

impl Clone for GgufHeader {
    fn clone(&self) -> (r: Self)
        ensures
            r@ == self@,
    {
        proof {
            use_type_invariant(self);
        }
        GgufHeader { inner: share(&self.inner) }
    }
}

/// Parse a header; see `parse_spec` for exactly what comes back.
fn parse(bytes: &[u8], limits: ParseLimits, table: &DtypeTable) -> (r: Result<GgufHeader, GgufError>)
    ensures
        match parse_spec(bytes@, limits, table.layouts@) {
            Ok(h) => r matches Ok(x) && x@ == h,
            Err(e) => fails_with(r, e),
        },
{
    let mut c = Cursor::new(bytes, limits);

    // The fixed part: magic, version, the two counts.
    let magic = match c.read_u32() {
        Ok(m) => m,
        Err(e) => return Err(e),
    };
    if magic != GGUF_MAGIC {
        return Err(GgufError::BadMagic(magic));
    }
    let version = match c.read_u32() {
        Ok(v) => v,
        Err(e) => return Err(e),
    };
    if !version_supported(version) {
        return Err(GgufError::UnsupportedVersion(version, supported_versions()));
    }
    let tensor_count = match c.read_u64() {
        Ok(n) => n,
        Err(e) => return Err(e),
    };
    let tensor_count = match at_most("tensor count", tensor_count, limits.max_tensors) {
        Ok(n) => n,
        Err(e) => return Err(e),
    };
    let kv_count = match c.read_u64() {
        Ok(n) => n,
        Err(e) => return Err(e),
    };
    let kv_count = match at_most("metadata entry count", kv_count, limits.max_metadata_entries) {
        Ok(n) => n,
        Err(e) => return Err(e),
    };
    assert(preamble_spec(bytes@, limits) == Ok::<(u32, u64, u64), ErrorModel>((version, tensor_count, kv_count)));
    assert(c.pos == 24);

    // Metadata. A key is at least its own length prefix plus a type tag, so
    // twelve bytes bounds how many could possibly be here.
    match at_most("metadata entry count", kv_count, (c.remaining() / 12) as u64) {
        Ok(_) => {},
        Err(e) => return Err(e),
    }
    let metadata = match read_metadata(&mut c, kv_count) {
        Ok(md) => md,
        Err(e) => return Err(e),
    };
    let alignment = alignment_from(&metadata);
    if !power_of_two(alignment) {
        return Err(GgufError::BadAlignment(alignment));
    }
    assert(metadata_spec(bytes@, limits, kv_count) == Ok::<(Seq<(Seq<char>, ValueModel)>, int, u64), ErrorModel>(
        (metadata_view(metadata@), c.pos as int, alignment),
    ));

    // Tensor table. The smallest possible entry is a length prefix, an empty
    // name, a dimension count, a dtype and an offset: twenty bytes.
    match at_most("tensor count", tensor_count, (c.remaining() / 20) as u64) {
        Ok(_) => {},
        Err(e) => return Err(e),
    }
    let count = match as_usize(tensor_count) {
        Ok(n) => n,
        Err(e) => return Err(e),
    };
    let tensors = match read_tensors(&mut c, table, count) {
        Ok(ts) => ts,
        Err(e) => return Err(e),
    };

    let header_bytes = c.pos as u64;
    let tensor_data_start = match align_up(header_bytes, alignment) {
        Some(start) => start,
        None => return Err(GgufError::Overflow("tensor data start")),
    };
    // Every tensor's end is relative to that start, and it must stay a number.
    let ghost outcome = parse_spec(bytes@, limits, table.layouts@);
    assert(some_end_overflows(tensors_view(tensors@), tensor_data_start) ==> outcome == Err::<HeaderModel, ErrorModel>(ErrorModel::Overflow("tensor end offset"@)));
    let mut i: usize = 0;
    while i < tensors.len()
        invariant
            i <= tensors@.len(),
            outcome == parse_spec(bytes@, limits, table.layouts@),
            some_end_overflows(tensors_view(tensors@), tensor_data_start) ==> outcome == Err::<HeaderModel, ErrorModel>(ErrorModel::Overflow("tensor end offset"@)),
            forall|j: int| 0 <= j < i ==> tensor_data_start + (#[trigger] tensors@[j]).offset + tensors@[j]@.nbytes() <= u64::MAX,
        decreases tensors.len() - i,
    {
        let tensor = &tensors[i];
        let end = match tensor_data_start.checked_add(tensor.offset) {
            Some(start) => start.checked_add(tensor.nbytes()),
            None => None,
        };
        if end.is_none() {
            proof {
                let ts = tensors_view(tensors@);
                assert(ts[i as int] == tensor@);
                assert(tensor_data_start + ts[i as int].offset + ts[i as int].nbytes() > u64::MAX);
                assert(some_end_overflows(ts, tensor_data_start));
            }
            return Err(GgufError::Overflow("tensor end offset"));
        }
        i += 1;
    }
    proof {
        let ts = tensors_view(tensors@);
        assert forall|j: int| 0 <= j < ts.len() implies tensor_data_start + #[trigger] ts[j].offset + ts[j].nbytes() <= u64::MAX by {
            assert(ts[j] == tensors@[j]@);
        }
    }
    let metadata = sort_by_key(metadata);
    let inner = Inner { version, metadata, tensors, tensor_data_start, alignment, header_bytes };
    proof {
        law_parsed_header_is_well_formed(bytes@, limits, table.layouts@);
        assert(header_wf(inner@));
    }
    Ok(GgufHeader { inner: Arc::new(inner) })
}

/// `s` as an owned string.
fn owned(s: &str) -> (r: String)
    ensures
        r@ == s@,
{
    let r = s.to_string();
    proof {
        vstd::string::to_string_from_display_ensures_for_str(s, r);
    }
    r
}

/// How the rows of a matrix lie in the file: `count` rows of `width`
/// values, `row_bytes` bytes each, the first at `start`.
pub struct RowsModel {
    pub width: u64,
    pub count: u64,
    pub row_bytes: u64,
    pub start: u64,
}

/// How the rows of a matrix lie in the file.
///
/// Every block format packs a whole number of blocks into each row, so a row
/// is individually addressable.
#[derive(Debug, Clone, Copy)]
pub struct RowLayout {
    width: u64,
    count: u64,
    row_bytes: u64,
    start: u64,
}

impl View for RowLayout {
    type V = RowsModel;

    closed spec fn view(&self) -> RowsModel {
        RowsModel {
            width: self.width,
            count: self.count,
            row_bytes: self.row_bytes,
            start: self.start,
        }
    }
}

/// Rows `0..count` of `row_bytes` each, from `start`, end inside `u64`.
pub open spec fn rows_fit(start: u64, count: u64, row_bytes: u64) -> bool {
    count == 0 || start + count * row_bytes <= u64::MAX
}

impl RowLayout {
    #[verifier::type_invariant]
    spec fn fits(self) -> bool {
        rows_fit(self.start, self.count, self.row_bytes)
    }

    /// Values per row.
    pub fn width(&self) -> (r: u64)
        ensures
            r == self@.width,
    {
        self.width
    }

    /// How many rows.
    pub fn count(&self) -> (r: u64)
        ensures
            r == self@.count,
    {
        self.count
    }

    /// Bytes per row.
    pub fn row_bytes(&self) -> (r: u64)
        ensures
            r == self@.row_bytes,
    {
        self.row_bytes
    }

    /// Where row zero starts in the file.
    pub fn start(&self) -> (r: u64)
        ensures
            r == self@.start,
    {
        self.start
    }

    /// Where one row's bytes are. A row past the end is refused, not read:
    /// whatever follows the matrix in the file is not one of its rows.
    pub fn row(&self, row: u64) -> (r: Result<TensorRange, GgufError>)
        ensures
            row >= self@.count ==> fails_with(
                r,
                ErrorModel::Truncated { offset: row, needed: self@.count },
            ),
            row < self@.count ==> r == Ok::<TensorRange, GgufError>(
                TensorRange {
                    offset: (self@.start + row * self@.row_bytes) as u64,
                    bytes: self@.row_bytes,
                },
            ) && self@.start + row * self@.row_bytes + self@.row_bytes <= u64::MAX,
    {
        proof {
            use_type_invariant(self);
        }
        if row >= self.count {
            return Err(GgufError::Truncated { offset: row, needed: self.count });
        }
        proof {
            lemma_row_in_rows(self.start as int, self.count as int, self.row_bytes as int, row as int);
        }
        Ok(TensorRange { offset: self.start + row * self.row_bytes, bytes: self.row_bytes })
    }
}

/// A row before the last ends no later than the last one does.
proof fn lemma_row_in_rows(start: int, count: int, row_bytes: int, row: int)
    requires
        0 <= row < count,
        row_bytes >= 0,
        start + count * row_bytes <= u64::MAX,
    ensures
        0 <= row * row_bytes,
        start + row * row_bytes + row_bytes <= u64::MAX,
{
    assert(0 <= row * row_bytes && row * row_bytes + row_bytes <= count * row_bytes) by (nonlinear_arith)
        requires
            0 <= row < count,
            row_bytes >= 0,
    ;
}

/// When the width is a whole number of blocks, the tensor's bytes are its
/// rows' bytes.
proof fn lemma_rows_are_the_tensor(width: int, count: int, block: int, type_size: int)
    requires
        width >= 0,
        count >= 0,
        block >= 1,
        type_size >= 0,
        width % block == 0,
    ensures
        (width * count) / block * type_size == count * ((width / block) * type_size),
        count >= 1 ==> (width / block) * type_size <= count * ((width / block) * type_size),
{
    let q = width / block;
    assert(width == q * block) by (nonlinear_arith)
        requires
            width % block == 0,
            q == width / block,
            block >= 1,
    ;
    assert((q * block * count) / block == q * count) by (nonlinear_arith)
        requires
            block >= 1,
            q >= 0,
            count >= 0,
    ;
    assert(width * count == q * block * count) by (nonlinear_arith)
        requires
            width == q * block,
    ;
    assert((q * count) * type_size == count * (q * type_size)) by (nonlinear_arith);
    assert(count >= 1 ==> q * type_size <= count * (q * type_size)) by (nonlinear_arith)
        requires
            q >= 0,
            type_size >= 0,
    ;
}

/// The unsigned value stored under a key, or why there is none.
pub open spec fn u64_lookup(md: Seq<(Seq<char>, ValueModel)>, key: Seq<char>) -> Result<u64, ErrorModel> {
    match find_value(md, key) {
        None => Err(ErrorModel::MissingKey(key)),
        Some(v) => match v.as_u64() {
            Some(n) => Ok(n),
            None => Err(
                ErrorModel::TypeMismatch { key, expected: "integer"@, actual: v.kind_name() },
            ),
        },
    }
}

impl GgufHeader {
    #[verifier::type_invariant]
    spec fn well_formed(self) -> bool {
        header_wf(self@)
    }

    /// Parse a header with the default limits. `bytes` need only reach the
    /// end of the tensor-info table; nothing after that is read, and nothing
    /// is retained. `dtypes` says what each tensor format tag means.
    pub fn from_bytes(bytes: &[u8], dtypes: &DtypeTable) -> (r: Result<Self, GgufError>)
        ensures
            match parse_spec(bytes@, default_limits(), dtypes.layouts@) {
                Ok(h) => r matches Ok(x) && x@ == h,
                Err(e) => fails_with(r, e),
            },
    {
        Self::from_bytes_with_limits(bytes, ParseLimits::default(), dtypes)
    }

    /// As [`Self::from_bytes`], with limits of your own.
    pub fn from_bytes_with_limits(bytes: &[u8], limits: ParseLimits, dtypes: &DtypeTable) -> (r: Result<
        Self,
        GgufError,
    >)
        ensures
            match parse_spec(bytes@, limits, dtypes.layouts@) {
                Ok(h) => r matches Ok(x) && x@ == h,
                Err(e) => fails_with(r, e),
            },
    {
        parse(bytes, limits, dtypes)
    }

    /// The container version.
    pub fn version(&self) -> (r: u32)
        ensures
            r == self@.version,
    {
        self.inner.version
    }

    /// The alignment of the tensor data section.
    pub fn alignment(&self) -> (r: u64)
        ensures
            r == self@.alignment,
    {
        self.inner.alignment
    }

    /// Where the tensor data section begins, which is also how far into the
    /// file the header reaches once padded.
    pub fn tensor_data_start(&self) -> (r: u64)
        ensures
            r == self@.tensor_data_start,
    {
        self.inner.tensor_data_start
    }

    /// How many bytes the header itself occupied, before alignment padding.
    pub fn header_bytes(&self) -> (r: u64)
        ensures
            r == self@.header_bytes,
    {
        self.inner.header_bytes
    }

    /// The metadata entries in key order, each key once.
    pub fn metadata(&self) -> (r: &[(String, Value)])
        ensures
            metadata_view(r@) == self@.metadata,
    {
        self.inner.metadata.as_slice()
    }

    /// The tensors, in the order the file gives them.
    pub fn tensors(&self) -> (r: &[TensorInfo])
        ensures
            tensors_view(r@) == self@.tensors,
    {
        self.inner.tensors.as_slice()
    }

    /// The tensor with this name.
    pub fn tensor_by_name(&self, name: &str) -> (r: Option<&TensorInfo>)
        ensures
            match find_tensor(self@.tensors, name@) {
                Some(t) => r matches Some(x) && x@ == t,
                None => r is None,
            },
    {
        let ghost v = tensors_view(self.inner.tensors@);
        let mut i: usize = 0;
        assert(v.skip(0) =~= v);
        while i < self.inner.tensors.len()
            invariant
                i <= self.inner.tensors@.len(),
                v == tensors_view(self.inner.tensors@),
                v == self@.tensors,
                find_tensor(v, name@) == find_tensor(v.skip(i as int), name@),
            decreases self.inner.tensors.len() - i,
        {
            assert(v.skip(i as int).drop_first() =~= v.skip(i + 1));
            if str_equal(self.inner.tensors[i].name.as_str(), name) {
                return Some(&self.inner.tensors[i]);
            }
            i += 1;
        }
        None
    }

    /// Where a tensor's bytes are in the file: the data section's start plus
    /// the tensor's offset (saturating), and its byte length.
    pub fn tensor_range(&self, tensor: &TensorInfo) -> (r: TensorRange)
        ensures
            r.offset == (if self@.tensor_data_start + tensor.offset > u64::MAX {
                u64::MAX
            } else {
                (self@.tensor_data_start + tensor.offset) as u64
            }),
            r.bytes == tensor@.nbytes(),
    {
        TensorRange {
            offset: self.inner.tensor_data_start.saturating_add(tensor.offset),
            bytes: tensor.nbytes(),
        }
    }

    /// [`Self::tensor_range`] by name. For a tensor of this header the
    /// offset never saturates: the parser checked that its end is a number.
    pub fn range_of(&self, name: &str) -> (r: Result<TensorRange, GgufError>)
        ensures
            match find_tensor(self@.tensors, name@) {
                Some(t) => r == Ok::<TensorRange, GgufError>(
                    TensorRange {
                        offset: (self@.tensor_data_start + t.offset) as u64,
                        bytes: t.nbytes(),
                    },
                ) && self@.tensor_data_start + t.offset + t.nbytes() <= u64::MAX,
                None => fails_with(r, ErrorModel::MissingKey(name@)),
            },
    {
        proof {
            use_type_invariant(self);
            lemma_find_tensor_in(self@.tensors, name@);
        }
        match self.tensor_by_name(name) {
            Some(tensor) => Ok(self.tensor_range(tensor)),
            None => Err(GgufError::MissingKey(owned(name))),
        }
    }

    /// The value stored under a metadata key.
    pub fn get(&self, key: &str) -> (r: Result<&Value, GgufError>)
        ensures
            match find_value(self@.metadata, key@) {
                Some(v) => r matches Ok(x) && x@ == v,
                None => fails_with(r, ErrorModel::MissingKey(key@)),
            },
    {
        let ghost v = metadata_view(self.inner.metadata@);
        let mut i: usize = 0;
        assert(v.skip(0) =~= v);
        while i < self.inner.metadata.len()
            invariant
                i <= self.inner.metadata@.len(),
                v == metadata_view(self.inner.metadata@),
                v == self@.metadata,
                find_value(v, key@) == find_value(v.skip(i as int), key@),
            decreases self.inner.metadata.len() - i,
        {
            assert(v.skip(i as int).drop_first() =~= v.skip(i + 1));
            if str_equal(self.inner.metadata[i].0.as_str(), key) {
                return Ok(&self.inner.metadata[i].1);
            }
            i += 1;
        }
        Err(GgufError::MissingKey(owned(key)))
    }

    /// The unsigned integer stored under a key.
    pub fn get_u64(&self, key: &str) -> (r: Result<u64, GgufError>)
        ensures
            match u64_lookup(self@.metadata, key@) {
                Ok(n) => r == Ok::<u64, GgufError>(n),
                Err(e) => fails_with(r, e),
            },
    {
        let v = match self.get(key) {
            Ok(v) => v,
            Err(e) => return Err(e),
        };
        match v.as_u64() {
            Some(n) => Ok(n),
            None => Err(
                GgufError::TypeMismatch { key: owned(key), expected: "integer", actual: v.type_str() },
            ),
        }
    }

    /// The string stored under a key.
    pub fn get_str(&self, key: &str) -> (r: Result<&str, GgufError>)
        ensures
            match find_value(self@.metadata, key@) {
                None => fails_with(r, ErrorModel::MissingKey(key@)),
                Some(ValueModel::String(s)) => r matches Ok(x) && x@ == s,
                Some(v) => fails_with(
                    r,
                    ErrorModel::TypeMismatch { key: key@, expected: "string"@, actual: v.kind_name() },
                ),
            },
    {
        let v = match self.get(key) {
            Ok(v) => v,
            Err(e) => return Err(e),
        };
        match v.as_str() {
            Some(s) => Ok(s),
            None => Err(
                GgufError::TypeMismatch { key: owned(key), expected: "string", actual: v.type_str() },
            ),
        }
    }

    /// The boolean stored under a key.
    pub fn get_bool(&self, key: &str) -> (r: Result<bool, GgufError>)
        ensures
            match find_value(self@.metadata, key@) {
                None => fails_with(r, ErrorModel::MissingKey(key@)),
                Some(ValueModel::Bool(b)) => r == Ok::<bool, GgufError>(b),
                Some(v) => fails_with(
                    r,
                    ErrorModel::TypeMismatch { key: key@, expected: "bool"@, actual: v.kind_name() },
                ),
            },
    {
        let v = match self.get(key) {
            Ok(v) => v,
            Err(e) => return Err(e),
        };
        match v.as_bool() {
            Some(b) => Ok(b),
            None => Err(
                GgufError::TypeMismatch { key: owned(key), expected: "bool", actual: v.type_str() },
            ),
        }
    }

    /// How the rows of a two-dimensional tensor lie in the file.
    ///
    /// GGUF stores a shape fastest-varying first, so a matrix is
    /// `[width, rows]` and its width is the first dimension. The width must
    /// be a whole number of blocks for a row to be addressable.
    pub fn row_layout(&self, name: &str) -> (r: Result<RowLayout, GgufError>)
        ensures
            match find_tensor(self@.tensors, name@) {
                None => fails_with(r, ErrorModel::MissingKey(name@)),
                Some(t) => if t.shape.len() != 2 {
                    fails_with(
                        r,
                        ErrorModel::TooManyDims {
                            name: name@,
                            n_dims: #[verifier::truncate] (t.shape.len() as u32),
                        },
                    )
                } else if t.shape[0] % effective_block(t.dtype) != 0 {
                    fails_with(
                        r,
                        ErrorModel::NotBlockAligned {
                            name: name@,
                            block: effective_block(t.dtype) as usize,
                            numel: t.shape[0],
                        },
                    )
                } else {
                    r matches Ok(l) && l@ == (RowsModel {
                        width: t.shape[0],
                        count: t.shape[1],
                        row_bytes: sat_mul(
                            t.shape[0] / effective_block(t.dtype),
                            t.dtype.type_size as u64,
                        ),
                        start: (self@.tensor_data_start + t.offset) as u64,
                    }) && (t.shape[1] >= 1 ==> l@.count * l@.row_bytes == t.nbytes())
                },
            },
    {
        proof {
            use_type_invariant(self);
            lemma_find_tensor_in(self@.tensors, name@);
        }
        let info = match self.tensor_by_name(name) {
            Some(t) => t,
            None => return Err(GgufError::MissingKey(owned(name))),
        };
        if info.shape.len() != 2 {
            return Err(
                GgufError::TooManyDims {
                    name: owned(name),
                    n_dims: #[verifier::truncate] (info.shape.len() as u32),
                },
            );
        }
        let width = info.shape[0];
        let count = info.shape[1];
        let block: u64 = if info.dtype.block_size == 0 { 1 } else { info.dtype.block_size as u64 };
        if width % block != 0 {
            return Err(GgufError::NotBlockAligned { name: owned(name), block: block as usize, numel: width });
        }
        let row_bytes = match (width / block).checked_mul(info.dtype.type_size as u64) {
            Some(n) => n,
            None => u64::MAX,
        };
        let start = self.inner.tensor_data_start + info.offset;
        proof {
            let t = info@;
            let i = choose|i: int| 0 <= i < self@.tensors.len() && #[trigger] self@.tensors[i] == t;
            assert(self@.tensors[i] == t);
            assert(t.shape =~= seq![width, count]);
            assert(t.shape.drop_last() =~= seq![width]);
            assert(seq![width].drop_last() =~= Seq::<u64>::empty());
            assert(checked_product(t.shape) == Some(t.numel()));
            assert(checked_product(seq![width].drop_last()) == Some(1u64));
            assert(seq![width].last() == width);
            assert(t.shape.last() == count);
            assert(checked_product(seq![width]) == Some(width)) by {
                reveal_with_fuel(checked_product, 2);
                assert(1 * width == width);
            }
            assert(t.numel() == width * count);
            lemma_rows_are_the_tensor(width as int, count as int, block as int, info.dtype.type_size as int);
            if count >= 1 {
                assert(row_bytes == (width / block) * info.dtype.type_size);
                assert(count * row_bytes == t.nbytes());
            }
        }
        Ok(RowLayout { width, count, row_bytes, start })
    }

    /// `general.architecture`.
    pub fn architecture(&self) -> (r: Result<&str, GgufError>)
        ensures
            match find_value(self@.metadata, "general.architecture"@) {
                None => fails_with(r, ErrorModel::MissingKey("general.architecture"@)),
                Some(ValueModel::String(s)) => r matches Ok(x) && x@ == s,
                Some(v) => fails_with(
                    r,
                    ErrorModel::TypeMismatch {
                        key: "general.architecture"@,
                        expected: "string"@,
                        actual: v.kind_name(),
                    },
                ),
            },
    {
        self.get_str("general.architecture")
    }
}

} // verus!
