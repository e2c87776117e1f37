//! The decisions a reader of a file on disk makes: how much of the file to
//! read for a header, when to stop trying, and whether a range is inside the
//! file. The reading itself is the caller's.
use vstd::prelude::*;

use crate::bytes::str_equal;
use crate::error::{fails_with, ErrorModel, GgufError};
use crate::laws::{is_final, limit_named};
use crate::reader::ParseLimits;

verus! {

/// The first header read: a megabyte.
pub const FIRST_READ: u64 = 1048576;

/// The largest a header is allowed to be: 64 MiB.
pub const LARGEST_READ: u64 = 67108864;

/// How much to read first for a file of `size` bytes: a megabyte, or the
/// whole file if it is smaller, and never nothing.
pub fn first_read_len(size: u64) -> (r: usize)
    ensures
        r == (if size >= FIRST_READ {
            FIRST_READ
        } else if size == 0 {
            1
        } else {
            size
        }),
{
    let want = if size < FIRST_READ { size } else { FIRST_READ };
    if want == 0 {
        1
    } else {
        want as usize
    }
}

/// The `ParseLimits` field that a `TooLarge` refusal about `what` is checked
/// against.
fn limit_of(what: &str, limits: &ParseLimits) -> (r: u64)
    ensures
        r == limit_named(what@, *limits),
{
    if str_equal(what, "string length") {
        limits.max_string_bytes
    } else if str_equal(what, "array length") {
        limits.max_array_len
    } else if str_equal(what, "metadata entry count") {
        limits.max_metadata_entries
    } else if str_equal(what, "tensor count") {
        limits.max_tensors
    } else {
        limits.max_tensor_elements
    }
}

/// Whether reading more of the file cannot lift this refusal under these
/// limits: anything but a truncation, or a count past what the bytes read so
/// far could hold.
pub fn refusal_is_final(error: &GgufError, limits: &ParseLimits) -> (r: bool)
    ensures
        r == is_final(error@, *limits),
{
    match error {
        GgufError::Truncated { .. } => false,
        GgufError::TooLarge { what, value, .. } => *value > limit_of(what, limits),
        _ => true,
    }
}

/// After a read of `want` bytes failed to parse with `error` under `limits`,
/// how much to read next, or `None` to stop.
///
/// A header's size depends on how large its vocabulary is, which is not known
/// before reading it, so the read doubles until it parses. A refusal that
/// more bytes could lift (a truncation, or a count refused only because the
/// bytes read so far could not hold it) reads on; a final one stops at once,
/// and so does having read the whole file or the largest header allowed.
pub fn next_read_len(want: usize, size: u64, error: &GgufError, limits: &ParseLimits) -> (r:
    Option<usize>)
    ensures
        is_final(error@, *limits) || want >= size || want >= LARGEST_READ ==> r is None,
        !is_final(error@, *limits) && want < size && want < LARGEST_READ ==> r == Some(
            (if 2 * want <= LARGEST_READ && 2 * want <= size {
                2 * want
            } else if size <= LARGEST_READ {
                size as int
            } else {
                LARGEST_READ as int
            }) as usize,
        ),
        r matches Some(n) ==> want <= n <= LARGEST_READ && n <= size && (want >= 1 ==> want < n),
{
    if refusal_is_final(error, limits) {
        return None;
    }
    if want as u64 >= size || want as u64 >= LARGEST_READ {
        return None;
    }
    let doubled = 2 * (want as u64);
    let next = if doubled <= LARGEST_READ && doubled <= size {
        doubled
    } else if size <= LARGEST_READ {
        size
    } else {
        LARGEST_READ
    };
    Some(next as usize)
}

/// The error to report once the reads stop: a final refusal as it is; a
/// refusal that more bytes could have lifted, met at the whole file or the
/// largest read, gives way to the refusal of the read before it where there
/// was one.
pub fn give_up_error(last: Option<GgufError>, error: GgufError, limits: &ParseLimits) -> (r:
    GgufError)
    ensures
        !is_final(error@, *limits) && last is Some ==> r == last.unwrap(),
        !(!is_final(error@, *limits) && last is Some) ==> r == error,
{
    if refusal_is_final(&error, limits) {
        error
    } else {
        match last {
            Some(previous) => previous,
            None => error,
        }
    }
}

/// Whether `length` bytes at `offset` are inside a file of `size` bytes; if
/// they are, the length as a `usize` to allocate.
pub fn check_range(offset: u64, length: u64, size: u64) -> (r: Result<usize, GgufError>)
    ensures
        offset + length > size ==> fails_with(r, ErrorModel::Truncated { offset, needed: length }),
        offset + length <= size && length <= usize::MAX ==> r == Ok::<usize, GgufError>(
            length as usize,
        ),
        offset + length <= size && length > usize::MAX ==> fails_with(
            r,
            ErrorModel::TooLargeForMachine(length),
        ),
{
    if offset > size || length > size - offset {
        return Err(GgufError::Truncated { offset, needed: length });
    }
    if length <= usize::MAX as u64 {
        Ok(length as usize)
    } else {
        Err(GgufError::TooLargeForMachine(length))
    }
}

} // verus!
