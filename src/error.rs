use vstd::prelude::*;

verus! {

/// The closed set of conditions that heap operations report in place of a result.
#[derive(Clone, Copy, Eq, PartialEq, Structural, Debug)]
pub enum HeapError {
    /// Every block identifier is in use.
    OutOfBlocks,
    /// No free run of words is large enough, even after a collection.
    OutOfMemory,
    /// A block identifier that cannot be used here: a tracer marked an
    /// identifier that names no live block, or a caller chose one for a new
    /// block that is out of range or already live. Holds the identifier,
    /// then the largest identifier of the table.
    IllegalBlock(usize, usize),
    /// The identifier names no live block.
    UnallocatedBlock(usize),
    /// The offset is not below the block's length: the offset, the block, the length.
    OffsetTooBig(usize, usize, usize),
    /// A physical address outside the heap: the address, then the largest address.
    IllegalAddress(usize, usize),
}

} // verus!
