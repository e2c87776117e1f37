//! GGUF header reading: typed metadata, the shape, format and byte range of
//! every tensor, and the decisions a reader makes around them.
//!
//! A header is not a file. What comes out of here describes where a tensor
//! lives; it does not contain one, and it keeps no bytes it was parsed from.
use vstd::prelude::*;

pub mod error;
pub mod value;
pub mod tensor;
pub mod bytes;
pub mod format;
pub mod reader;
pub mod reading;
pub mod writer;
pub mod laws;
pub mod roundtrip;
pub mod extent;
pub mod text;
pub mod order;
pub mod wire;

verus! {

/// `GGUF` read as a little-endian `u32`.
pub const GGUF_MAGIC: u32 = 0x4655_4747;

/// The alignment of the tensor data section when `general.alignment` is absent.
pub const DEFAULT_ALIGNMENT: u64 = 32;

/// The container versions this reader accepts.
pub open spec fn supported_versions_spec() -> Seq<u32> {
    seq![2u32, 3u32]
}

/// The container versions this reader accepts, as the error reports them.
pub fn supported_versions() -> (r: &'static [u32])
    ensures
        r@ == supported_versions_spec(),
{
    let r: &'static [u32] = &[2, 3];
    assert(r@ == supported_versions_spec());
    r
}

} // verus!
