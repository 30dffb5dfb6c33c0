//! Handles to claimed regions.

use vstd::prelude::*;

verus! {

/// A handle to a claimed run of bytes: the block it lies in, where it starts
/// within that block, its length in bytes, and the address of its first byte.
///
/// A handle is only a description. The bytes are reached by handing it back
/// to the `Allocator` that issued it.
#[derive(Clone, Copy, Debug, PartialEq, Eq)]
pub struct Region {
    pub block: usize,
    pub offset: usize,
    pub len: usize,
    pub addr: usize,
}

impl Region {
    /// The offset just behind the region's last byte.
    pub open spec fn end(self) -> int {
        self.offset + self.len
    }

    /// Two regions share no byte: they lie in different blocks, or one ends
    /// before the other starts.
    pub open spec fn disjoint(self, other: Region) -> bool {
        ||| self.block != other.block
        ||| self.end() <= other.offset
        ||| other.end() <= self.offset
    }
}

/// No two entries of `regions` share a byte.
pub open spec fn pairwise_disjoint(regions: Seq<Region>) -> bool {
    forall|i: int, j: int|
        0 <= i < j < regions.len() ==> (#[trigger] regions[i]).disjoint(#[trigger] regions[j])
}

} // verus!
