//! The arena: an ordered list of blocks that grows on demand.

use crate::align::lemma_padding_is_least;
use crate::block::{Block, BlockView};
use crate::region::Region;
use vstd::prelude::*;

verus! {

/// The model of an arena: its blocks, oldest first, and the size that a new
/// block is given by default.
pub struct ArenaView {
    pub blocks: Seq<BlockView>,
    pub block_size: int,
}

impl ArenaView {
    /// There is at least one block, every block is well formed, and the
    /// default block size can be allocated.
    pub open spec fn wf(self) -> bool {
        &&& self.blocks.len() >= 1
        &&& 0 <= self.block_size <= isize::MAX
        &&& forall|i: int| 0 <= i < self.blocks.len() ==> (#[trigger] self.blocks[i]).wf()
    }

    /// Nothing is claimed in any block.
    pub open spec fn idle(self) -> bool {
        forall|i: int| 0 <= i < self.blocks.len() ==> (#[trigger] self.blocks[i]).used == 0
    }

    /// The arena with every cursor back at zero. Blocks are neither added nor
    /// removed, and their bytes stay as they are.
    pub open spec fn released(self) -> ArenaView {
        ArenaView {
            blocks: Seq::new(self.blocks.len(), |i: int| self.blocks[i].reset()),
            ..self
        }
    }

    /// Block `i` exists and has room for `size` bytes at alignment `align`.
    pub open spec fn fits(self, i: int, size: int, align: int) -> bool {
        0 <= i < self.blocks.len() && self.blocks[i].has_room(size, align)
    }

    /// Block `i` is the oldest block with room for the request.
    pub open spec fn first_fit(self, i: int, size: int, align: int) -> bool {
        &&& self.fits(i, size, align)
        &&& forall|j: int| 0 <= j < i ==> !self.fits(j, size, align)
    }

    /// No block has room for the request.
    pub open spec fn full(self, size: int, align: int) -> bool {
        forall|j: int| !self.fits(j, size, align)
    }

    /// The capacity of a block that is added for a request that no block has
    /// room for: the default size, or `size + align` where that is more. The
    /// `align` bytes on top make the request fit wherever the block starts.
    pub open spec fn grown_capacity(self, size: int, align: int) -> int {
        if self.block_size >= size + align {
            self.block_size
        } else {
            size + align
        }
    }

    /// This arena still has every block of `earlier`, at the same place and
    /// with the same capacity, and the same default block size. Cursors and
    /// bytes may differ, and blocks may have been added.
    pub open spec fn extends(self, earlier: ArenaView) -> bool {
        &&& self.block_size == earlier.block_size
        &&& self.blocks.len() >= earlier.blocks.len()
        &&& forall|i: int|
            0 <= i < earlier.blocks.len() ==> {
                &&& (#[trigger] self.blocks[i]).base == earlier.blocks[i].base
                &&& self.blocks[i].capacity() == earlier.blocks[i].capacity()
            }
    }

    /// `r` describes bytes that are claimed in this arena, with their address.
    pub open spec fn holds(self, r: Region) -> bool {
        &&& r.block < self.blocks.len()
        &&& r.end() <= self.blocks[r.block as int].used
        &&& r.addr == self.blocks[r.block as int].base + r.offset
    }

    /// The bytes of region `r`.
    pub open spec fn content(self, r: Region) -> Seq<u8> {
        self.blocks[r.block as int].fetched(r.offset as int, r.len as int)
    }

    /// The `len` bytes of region `r` that start `at` bytes into it.
    pub open spec fn fetched(self, r: Region, at: int, len: int) -> Seq<u8> {
        self.blocks[r.block as int].fetched(r.offset + at, len)
    }

    /// The arena after `data` was written into region `r`, `at` bytes into it.
    pub open spec fn stored(self, r: Region, at: int, data: Seq<u8>) -> ArenaView {
        ArenaView {
            blocks: self.blocks.update(
                r.block as int,
                self.blocks[r.block as int].stored(r.offset + at, data),
            ),
            ..self
        }
    }

    /// What placing `image` at alignment `align` does: as many bytes as the
    /// image has are reserved, and the image is written into them.
    pub open spec fn places(self, image: Seq<u8>, align: int, post: ArenaView, r: Region) -> bool {
        exists|mid: ArenaView|
            {
                &&& #[trigger] self.reserves(image.len() as int, align, mid, r)
                &&& post == mid.stored(r, 0, image)
            }
    }

    /// What a reservation of `size` bytes at alignment `align` does: `post`
    /// is the arena afterwards and `r` the region handed out.
    ///
    /// Where some block has room, the oldest such block is claimed from and
    /// no other block changes. Where none has, one block of the grown
    /// capacity is added behind the others, with nothing claimed, and the
    /// region is claimed from it. Where the new block lies and what its bytes
    /// hold is left open.
    pub open spec fn reserves(self, size: int, align: int, post: ArenaView, r: Region) -> bool {
        &&& post.block_size == self.block_size
        &&& r.len == size
        &&& r.block < post.blocks.len()
        &&& r.addr == post.blocks[r.block as int].base + r.offset
        &&& if self.full(size, align) {
            let fresh = post.blocks.last().reset();
            &&& r.block == self.blocks.len()
            &&& fresh.wf()
            &&& fresh.capacity() == self.grown_capacity(size, align)
            &&& r.offset == fresh.placement(align)
            &&& post.blocks == self.blocks.push(fresh.claim(size, align))
        } else {
            let chosen = self.blocks[r.block as int];
            &&& self.first_fit(r.block as int, size, align)
            &&& r.offset == chosen.placement(align)
            &&& post.blocks == self.blocks.update(r.block as int, chosen.claim(size, align))
        }
    }
}

/// Provides the backing storage for the regions that an `Allocator` hands
/// out.
///
/// The arena starts with one block and adds blocks as requests outgrow the
/// ones it has. It never gives a block back. Regions are claimed through the
/// `Allocator` returned by `allocator`, of which there is at most one at a
/// time.
pub struct MemoryArena {
    blocks: Vec<Block>,
    block_size: usize,
}

impl View for MemoryArena {
    type V = ArenaView;

    closed spec fn view(&self) -> ArenaView {
        ArenaView {
            blocks: Seq::new(self.blocks@.len(), |i: int| self.blocks@[i]@),
            block_size: self.block_size as int,
        }
    }
}

impl MemoryArena {
    /// Creates an arena whose blocks hold `block_size_mb` MiB by default, with
    /// one such block in it and nothing claimed.
    pub fn new(block_size_mb: usize) -> (arena: MemoryArena)
        requires
            block_size_mb * 1024 * 1024 <= isize::MAX,
        ensures
            arena@.wf(),
            arena@.idle(),
            arena@.block_size == block_size_mb * 1024 * 1024,
            arena@.blocks.len() == 1,
            arena@.blocks[0].capacity() == arena@.block_size,
    {
        let block_size = block_size_mb * 1024 * 1024;
        let mut blocks: Vec<Block> = Vec::new();
        blocks.push(Block::new(block_size));
        MemoryArena { blocks, block_size }
    }

    /// The number of blocks.
    pub fn block_count(&self) -> (n: usize)
        ensures
            n == self@.blocks.len(),
    {
        self.blocks.len()
    }

    /// The size in bytes that a new block is given by default.
    pub fn block_size(&self) -> (n: usize)
        ensures
            n == self@.block_size,
    {
        self.block_size
    }

    /// Block `i`, counted from the oldest.
    pub fn block(&self, i: usize) -> (b: &Block)
        requires
            i < self@.blocks.len(),
        ensures
            b@ == self@.blocks[i as int],
    {
        &self.blocks[i]
    }

    /// Claims `size` bytes at alignment `align` from the oldest block that
    /// has room for them. When no block has, a block of
    /// `max(block_size, size + align)` bytes is added and claimed from.
    pub fn reserve(&mut self, size: usize, align: usize) -> (r: Region)
        requires
            old(self)@.wf(),
            align > 0,
            size + align <= isize::MAX,
        ensures
            final(self)@.wf(),
            old(self)@.reserves(size as int, align as int, final(self)@, r),
            r.addr as int % align as int == 0,
    {
        let n = self.blocks.len();
        let mut i: usize = 0;
        while i < n
            invariant
                0 <= i <= n,
                n == self.blocks@.len(),
                self.blocks@ == old(self).blocks@,
                self.block_size == old(self).block_size,
                self@.wf(),
                align > 0,
                forall|j: int| 0 <= j < i ==> !old(self)@.fits(j, size as int, align as int),
            decreases n - i,
        {
            assert(self@.blocks[i as int].wf());
            if self.blocks[i].has_room(size, align) {
                let ghost chosen = self.blocks@[i as int]@;
                let offset = self.blocks[i].reserve(size, align).unwrap();
                let addr = self.blocks[i].base() + offset;
                proof {
                    assert(self@.blocks =~= old(self)@.blocks.update(
                        i as int,
                        chosen.claim(size as int, align as int),
                    ));
                    assert(old(self)@.fits(i as int, size as int, align as int));
                }
                return Region { block: i, offset, len: size, addr };
            }
            i = i + 1;
        }
        let capacity = if self.block_size >= size + align {
            self.block_size
        } else {
            size + align
        };
        let block = Block::new(capacity);
        let ghost fresh = block@;
        proof {
            lemma_padding_is_least(fresh.base, align as int);
        }
        self.blocks.push(block);
        let offset = self.blocks[n].reserve(size, align).unwrap();
        let addr = self.blocks[n].base() + offset;
        proof {
            assert(self@.blocks =~= old(self)@.blocks.push(
                fresh.claim(size as int, align as int),
            ));
            assert(self@.blocks.last().reset() == fresh);
        }
        Region { block: n, offset, len: size, addr }
    }

    /// Puts the cursor of every block back to zero, so that all the storage
    /// can be claimed again. No block is removed and no byte is touched.
    pub fn reset(&mut self)
        ensures
            final(self)@ == old(self)@.released(),
    {
        let n = self.blocks.len();
        let mut i: usize = 0;
        while i < n
            invariant
                0 <= i <= n,
                n == self.blocks@.len(),
                n == old(self).blocks@.len(),
                self.block_size == old(self).block_size,
                forall|j: int| 0 <= j < i ==> (#[trigger] self.blocks@[j])@ == old(self).blocks@[j]@.reset(),
                forall|j: int| i <= j < n ==> (#[trigger] self.blocks@[j])@ == old(self).blocks@[j]@,
            decreases n - i,
        {
            self.blocks[i].reset();
            i = i + 1;
        }
        proof {
            assert(self@.blocks =~= old(self)@.released().blocks);
        }
    }

    /// Copies `data` into region `r`, starting `at` bytes into it.
    pub fn write(&mut self, r: &Region, at: usize, data: &[u8])
        requires
            old(self)@.wf(),
            old(self)@.holds(*r),
            at + data@.len() <= r.len,
        ensures
            final(self)@ == old(self)@.stored(*r, at as int, data@),
    {
        self.blocks[r.block].write(r.offset + at, data);
        proof {
            assert(self@.blocks =~= old(self)@.stored(*r, at as int, data@).blocks);
        }
    }

    /// Returns a copy of the `len` bytes of region `r` that start `at` bytes
    /// into it.
    pub fn read(&self, r: &Region, at: usize, len: usize) -> (out: Vec<u8>)
        requires
            self@.wf(),
            self@.holds(*r),
            at + len <= r.len,
        ensures
            out@ == self@.fetched(*r, at as int, len as int),
    {
        self.blocks[r.block].read(r.offset + at, len)
    }
}

} // verus!
