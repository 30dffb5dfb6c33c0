//! One fixed-capacity block of bytes with a bump cursor.

use crate::align::{align_address, padding};
use vstd::prelude::*;

verus! {

/// The model of a block: the address at which its storage starts, how many
/// of its bytes are claimed, and the bytes themselves. The capacity is the
/// number of bytes; it never changes.
pub struct BlockView {
    pub base: int,
    pub used: int,
    pub bytes: Seq<u8>,
}

impl BlockView {
    /// The number of bytes the block holds.
    pub open spec fn capacity(self) -> int {
        self.bytes.len() as int
    }

    /// The cursor lies within the block, and the block lies within the
    /// address space.
    pub open spec fn wf(self) -> bool {
        &&& 0 <= self.base
        &&& 0 <= self.used <= self.capacity()
        &&& self.base + self.capacity() <= usize::MAX
    }

    /// The bytes skipped so that the next region starts on a multiple of
    /// `align`: the padding of the cursor's address.
    pub open spec fn gap(self, align: int) -> int {
        padding(self.base + self.used, align)
    }

    /// Whether `size` bytes at alignment `align` still fit behind the cursor.
    pub open spec fn has_room(self, size: int, align: int) -> bool {
        self.capacity() - self.used >= size + self.gap(align)
    }

    /// The offset at which the next region of alignment `align` starts.
    pub open spec fn placement(self, align: int) -> int {
        self.used + self.gap(align)
    }

    /// The block after `size` bytes at alignment `align` were claimed: the
    /// cursor stands behind the new region, nothing else has changed.
    pub open spec fn claim(self, size: int, align: int) -> BlockView {
        BlockView { used: self.placement(align) + size, ..self }
    }

    /// The block with its cursor back at zero. The bytes stay as they are.
    pub open spec fn reset(self) -> BlockView {
        BlockView { used: 0, ..self }
    }

    /// The block after `data` was written at `offset`.
    pub open spec fn stored(self, offset: int, data: Seq<u8>) -> BlockView {
        BlockView {
            bytes: Seq::new(
                self.bytes.len(),
                |i: int|
                    if offset <= i < offset + data.len() {
                        data[i - offset]
                    } else {
                        self.bytes[i]
                    },
            ),
            ..self
        }
    }

    /// The `len` bytes that start at `offset`.
    pub open spec fn fetched(self, offset: int, len: int) -> Seq<u8> {
        self.bytes.subrange(offset, offset + len)
    }
}

/// A block of bytes that backs the regions handed out by a `MemoryArena`.
pub struct Block {
    buffer: Vec<u8>,
    base: usize,
    used: usize,
}

impl View for Block {
    type V = BlockView;

    closed spec fn view(&self) -> BlockView {
        BlockView { base: self.base as int, used: self.used as int, bytes: self.buffer@ }
    }
}

/// The address of the first byte of `buffer`, from `Vec::as_ptr`.
///
/// Where the address lies is left open. What is claimed is that it is not
/// zero, since std documents that the pointer of a vector is never null, and
/// that the buffer does not wrap around the address space: std documents that
/// for an allocation `base + size <= usize::MAX`, and for a vector that holds
/// no bytes that claim is empty.
#[verifier::external_body]
fn storage_address(buffer: &Vec<u8>) -> (addr: usize)
    ensures
        addr != 0,
        addr + buffer@.len() <= usize::MAX,
{
    buffer.as_ptr() as usize
}

impl Block {
    /// Creates a block of `size` bytes with nothing claimed. What the bytes
    /// hold is not specified.
    pub fn new(size: usize) -> (b: Block)
        requires
            size <= isize::MAX,
        ensures
            b@.wf(),
            b@.capacity() == size,
            b@.used == 0,
            b@.base != 0,
    {
        let buffer = vec![0u8; size];
        let base = storage_address(&buffer);
        Block { buffer, base, used: 0 }
    }

    /// The number of bytes the block holds.
    pub fn capacity(&self) -> (n: usize)
        ensures
            n == self@.capacity(),
    {
        self.buffer.len()
    }

    /// The number of bytes claimed so far, padding included.
    pub fn used(&self) -> (n: usize)
        ensures
            n == self@.used,
    {
        self.used
    }

    /// The address of the block's first byte.
    pub fn base(&self) -> (addr: usize)
        ensures
            addr == self@.base,
    {
        self.base
    }

    /// Checks whether `size` bytes at alignment `align` fit behind the cursor.
    pub fn has_room(&self, size: usize, align: usize) -> (fits: bool)
        requires
            self@.wf(),
            align > 0,
        ensures
            fits == self@.has_room(size as int, align as int),
    {
        let pad = align_address(self.base + self.used, align);
        let free = self.buffer.len() - self.used;
        pad <= free && size <= free - pad
    }

    /// Claims `size` bytes at alignment `align` and returns the offset of the
    /// claimed region within the block. Returns `None`, and leaves the block
    /// as it is, when the block has no room for them.
    pub fn reserve(&mut self, size: usize, align: usize) -> (offset: Option<usize>)
        requires
            old(self)@.wf(),
            align > 0,
        ensures
            final(self)@.wf(),
            match offset {
                Some(at) => {
                    &&& old(self)@.has_room(size as int, align as int)
                    &&& at == old(self)@.placement(align as int)
                    &&& (old(self)@.base + at) % (align as int) == 0
                    &&& final(self)@ == old(self)@.claim(size as int, align as int)
                },
                None => {
                    &&& !old(self)@.has_room(size as int, align as int)
                    &&& final(self)@ == old(self)@
                },
            },
    {
        if self.has_room(size, align) {
            let pad = align_address(self.base + self.used, align);
            let at = self.used + pad;
            self.used = at + size;
            Some(at)
        } else {
            None
        }
    }

    /// Puts the cursor back to zero, so that the whole block can be claimed
    /// again. The bytes are not touched.
    pub fn reset(&mut self)
        ensures
            final(self)@ == old(self)@.reset(),
    {
        self.used = 0;
    }

    /// Copies `data` into the claimed part of the block, starting at `offset`.
    pub fn write(&mut self, offset: usize, data: &[u8])
        requires
            old(self)@.wf(),
            offset + data@.len() <= old(self)@.used,
        ensures
            final(self)@ == old(self)@.stored(offset as int, data@),
    {
        let n = data.len();
        let mut i: usize = 0;
        proof {
            assert(self@.bytes =~= old(self)@.stored(offset as int, data@.take(0)).bytes);
        }
        while i < n
            invariant
                0 <= i <= n,
                n == data@.len(),
                offset + n <= self.buffer.len(),
                self.base == old(self).base,
                self.used == old(self).used,
                self.buffer@.len() == old(self).buffer@.len(),
                self@ == old(self)@.stored(offset as int, data@.take(i as int)),
            decreases n - i,
        {
            self.buffer[offset + i] = data[i];
            i = i + 1;
            proof {
                assert(self@.bytes =~= old(self)@.stored(
                    offset as int,
                    data@.take(i as int),
                ).bytes);
            }
        }
        proof {
            assert(data@.take(n as int) =~= data@);
        }
    }

    /// Returns a copy of the `len` bytes of the claimed part that start at
    /// `offset`.
    pub fn read(&self, offset: usize, len: usize) -> (out: Vec<u8>)
        requires
            self@.wf(),
            offset + len <= self@.used,
        ensures
            out@ == self@.fetched(offset as int, len as int),
    {
        let mut out: Vec<u8> = Vec::with_capacity(len);
        let mut i: usize = 0;
        while i < len
            invariant
                0 <= i <= len,
                offset + len <= self.buffer.len(),
                out@ == self.buffer@.subrange(offset as int, offset + i),
            decreases len - i,
        {
            out.push(self.buffer[offset + i]);
            i = i + 1;
            proof {
                assert(out@ =~= self.buffer@.subrange(offset as int, offset + i));
            }
        }
        out
    }
}

} // verus!
