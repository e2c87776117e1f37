//! Per-tensor metadata, and the layout of each tensor format.
//!
//! What a format tag means -- how many values share a block and how many
//! bytes a block takes -- belongs to the block-format library. This crate
//! reads those two numbers from a `DtypeTable` its caller fills from that
//! library, and never guesses them.
use vstd::prelude::*;

verus! {

/// The layout of one tensor format: `block_size` values are stored together
/// in `type_size` bytes.
#[derive(Debug, Clone, Copy, PartialEq, Eq, Structural)]
pub struct DtypeLayout {
    /// The tag the file uses for this format.
    pub tag: u32,
    /// Values per block (one for an unquantized format).
    pub block_size: usize,
    /// Bytes per block.
    pub type_size: usize,
}

/// The tensor formats a reader knows, each by its tag.
#[derive(Debug, Clone)]
pub struct DtypeTable {
    pub layouts: Vec<DtypeLayout>,
}

/// The first layout in `layouts` with this tag.
pub open spec fn lookup_layout(layouts: Seq<DtypeLayout>, tag: u32) -> Option<DtypeLayout>
    decreases layouts.len(),
{
    if layouts.len() == 0 {
        None
    } else if layouts[0].tag == tag {
        Some(layouts[0])
    } else {
        lookup_layout(layouts.drop_first(), tag)
    }
}

impl DtypeTable {
    /// The layout of the format with this tag, if the table knows it.
    pub fn lookup(&self, tag: u32) -> (r: Option<DtypeLayout>)
        ensures
            r == lookup_layout(self.layouts@, tag),
    {
        let mut i: usize = 0;
        assert(self.layouts@.skip(0) =~= self.layouts@);
        while i < self.layouts.len()
            invariant
                i <= self.layouts.len(),
                lookup_layout(self.layouts@, tag) == lookup_layout(self.layouts@.skip(i as int), tag),
            decreases self.layouts.len() - i,
        {
            let layout = self.layouts[i];
            assert(self.layouts@.skip(i as int).drop_first() =~= self.layouts@.skip(i + 1));
            if layout.tag == tag {
                return Some(layout);
            }
            i += 1;
        }
        None
    }
}

/// `a * b`, or `u64::MAX` where that does not fit.
pub open spec fn sat_mul(a: u64, b: u64) -> u64 {
    if a * b > u64::MAX {
        u64::MAX
    } else {
        (a * b) as u64
    }
}

/// The product of the dimensions, saturating at `u64::MAX` at every step.
pub open spec fn sat_product(shape: Seq<u64>) -> u64
    decreases shape.len(),
{
    if shape.len() == 0 {
        1
    } else {
        sat_mul(sat_product(shape.drop_last()), shape.last())
    }
}

/// The product of the dimensions, where no partial product overflows.
pub open spec fn checked_product(shape: Seq<u64>) -> Option<u64>
    decreases shape.len(),
{
    if shape.len() == 0 {
        Some(1)
    } else {
        match checked_product(shape.drop_last()) {
            Some(p) => if p * shape.last() <= u64::MAX {
                Some((p * shape.last()) as u64)
            } else {
                None
            },
            None => None,
        }
    }
}

/// Where no partial product overflows, saturating changes nothing.
pub proof fn lemma_checked_product_is_sat_product(shape: Seq<u64>)
    requires
        checked_product(shape) is Some,
    ensures
        sat_product(shape) == checked_product(shape).unwrap(),
    decreases shape.len(),
{
    if shape.len() > 0 {
        lemma_checked_product_is_sat_product(shape.drop_last());
    }
}

/// The product of the dimensions, as a mathematical integer.
pub open spec fn dims_product(shape: Seq<u64>) -> int
    decreases shape.len(),
{
    if shape.len() == 0 {
        1
    } else {
        dims_product(shape.drop_last()) * shape.last()
    }
}

/// Where no partial product overflows, the checked product is the exact one.
pub proof fn lemma_checked_product_is_exact(shape: Seq<u64>)
    requires
        checked_product(shape) is Some,
    ensures
        checked_product(shape).unwrap() == dims_product(shape),
    decreases shape.len(),
{
    if shape.len() > 0 {
        lemma_checked_product_is_exact(shape.drop_last());
    }
}

/// A block size of zero is read as one, so a division by it is defined.
pub open spec fn effective_block(layout: DtypeLayout) -> u64 {
    if layout.block_size == 0 {
        1
    } else {
        layout.block_size as u64
    }
}

/// How many bytes `numel` values take in this format, saturating.
pub open spec fn sat_nbytes(numel: u64, layout: DtypeLayout) -> u64 {
    sat_mul(numel / effective_block(layout), layout.type_size as u64)
}

/// Per-tensor metadata, parsed from the GGUF tensor info table.
#[derive(Debug, Clone)]
pub struct TensorInfo {
    pub name: String,
    /// Logical shape, as stored in GGUF: fastest-varying dimension first.
    pub shape: Vec<u64>,
    pub dtype: DtypeLayout,
    /// Offset within the tensor data section, not the file.
    pub offset: u64,
}

/// A tensor's metadata as a mathematical value.
pub struct TensorModel {
    pub name: Seq<char>,
    pub shape: Seq<u64>,
    pub dtype: DtypeLayout,
    pub offset: u64,
}

impl TensorModel {
    /// How many values the tensor holds, saturating.
    pub open spec fn numel(self) -> u64 {
        sat_product(self.shape)
    }

    /// How many bytes it occupies, saturating.
    pub open spec fn nbytes(self) -> u64 {
        sat_nbytes(self.numel(), self.dtype)
    }
}

impl View for TensorInfo {
    type V = TensorModel;

    open spec fn view(&self) -> TensorModel {
        TensorModel { name: self.name@, shape: self.shape@, dtype: self.dtype, offset: self.offset }
    }
}

impl TensorInfo {
    /// How many values this tensor holds.
    ///
    /// Saturating, not wrapping: a shape from an untrusted file must not turn
    /// into a small plausible number by wrapping.
    pub fn numel(&self) -> (r: u64)
        ensures
            r == self@.numel(),
    {
        let mut total: u64 = 1;
        let mut i: usize = 0;
        while i < self.shape.len()
            invariant
                i <= self.shape.len(),
                total == sat_product(self.shape@.take(i as int)),
            decreases self.shape.len() - i,
        {
            let d = self.shape[i];
            assert(self.shape@.take(i + 1).drop_last() =~= self.shape@.take(i as int));
            total = match total.checked_mul(d) {
                Some(p) => p,
                None => u64::MAX,
            };
            i += 1;
        }
        assert(self.shape@.take(i as int) =~= self.shape@);
        total
    }

    /// How many bytes it occupies, in whatever format it is stored in.
    /// Saturating, for the same reason.
    pub fn nbytes(&self) -> (r: u64)
        ensures
            r == self@.nbytes(),
    {
        let block: u64 = if self.dtype.block_size == 0 { 1 } else { self.dtype.block_size as u64 };
        let per = self.numel() / block;
        match per.checked_mul(self.dtype.type_size as u64) {
            Some(n) => n,
            None => u64::MAX,
        }
    }
}

} // verus!
