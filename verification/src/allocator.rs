//! The scope: exclusive, temporary access to an arena.

use crate::arena::{ArenaView, MemoryArena};
use crate::region::{pairwise_disjoint, Region};
use vstd::layout::{align_nonzero, align_of, size_of};
use vstd::prelude::*;

verus! {

/// Exclusive access to a `MemoryArena` for the length of one scope.
///
/// Every region is claimed through the allocator and its bytes are reached
/// through it. The regions of one scope never overlap. When the scope ends,
/// all of them are given up at once: nothing is run for, or written to, any
/// of them.
pub struct Allocator<'a> {
    /// The arena that the scope holds. It is public so that contracts can
    /// say what the borrow leaves behind; the arena is meant to be reached
    /// through the methods of the scope.
    pub arena: &'a mut MemoryArena,
    /// The regions handed out in this scope, in the order of the requests.
    pub issued: Ghost<Seq<Region>>,
}

impl<'a> View for Allocator<'a> {
    type V = ArenaView;

    /// The arena as the scope sees it now.
    open spec fn view(&self) -> ArenaView {
        (*self.arena)@
    }
}

impl MemoryArena {
    /// Opens a scope on the arena. The borrow keeps the arena out of reach of
    /// everything else until the allocator is gone, so that there is never a
    /// second scope.
    ///
    /// Opening changes nothing: the blocks, their cursors and their bytes are
    /// as they were. What is claimed is given up by `Allocator::release`.
    pub fn allocator(&mut self) -> (scope: Allocator<'_>)
        requires
            old(self)@.wf(),
        ensures
            scope.wf(),
            scope@ == old(self)@,
            scope.issued@ == Seq::<Region>::empty(),
            *final(self) == *final(scope.arena),
    {
        Allocator { arena: self, issued: Ghost(Seq::empty()) }
    }
}

impl<'a> Allocator<'a> {
    /// The arena is well formed, every region handed out in this scope is
    /// claimed in it, and no two of them share a byte.
    pub open spec fn wf(&self) -> bool {
        &&& self@.wf()
        &&& forall|i: int| 0 <= i < self.issued@.len() ==> self@.holds(#[trigger] self.issued@[i])
        &&& pairwise_disjoint(self.issued@)
    }

    /// Claims `size` bytes at alignment `align`. The region starts on a
    /// multiple of `align` and shares no byte with any region handed out
    /// before in this scope. What its bytes hold is not specified.
    pub fn reserve(&mut self, size: usize, align: usize) -> (r: Region)
        requires
            old(self).wf(),
            align > 0,
            size + align <= isize::MAX,
        ensures
            final(self).wf(),
            old(self)@.reserves(size as int, align as int, final(self)@, r),
            final(self).issued@ == old(self).issued@.push(r),
            final(self).issued@.contains(r),
            r.addr as int % align as int == 0,
            forall|i: int|
                0 <= i < old(self).issued@.len() ==> (#[trigger] old(self).issued@[i]).disjoint(r),
            *final(final(self).arena) == *final(old(self).arena),
    {
        let r = self.arena.reserve(size, align);
        proof {
            self.issued@ = self.issued@.push(r);
            assert(self.issued@.last() == r);
        }
        r
    }

    /// Claims room for `len` values of type `T`: `len * size_of::<T>()` bytes
    /// at the alignment of `T`. What the bytes hold is not specified; write
    /// them before reading them as values.
    pub fn alloc_slice<T: Copy>(&mut self, len: usize) -> (r: Region)
        requires
            old(self).wf(),
            len * size_of::<T>() + align_of::<T>() <= isize::MAX,
        ensures
            final(self).wf(),
            old(self)@.reserves(
                len * size_of::<T>(),
                align_of::<T>() as int,
                final(self)@,
                r,
            ),
            final(self).issued@ == old(self).issued@.push(r),
            final(self).issued@.contains(r),
            r.addr as int % align_of::<T>() as int == 0,
            forall|i: int|
                0 <= i < old(self).issued@.len() ==> (#[trigger] old(self).issued@[i]).disjoint(r),
            *final(final(self).arena) == *final(old(self).arena),
    {
        proof {
            broadcast use align_nonzero;

        }
        let size = len * core::mem::size_of::<T>();
        self.reserve(size, core::mem::align_of::<T>())
    }

    /// Claims as many bytes as `image` has, at alignment `align`, and copies
    /// `image` into them: the region holds the value whose bit pattern
    /// `image` is.
    pub fn alloc_value(&mut self, image: &[u8], align: usize) -> (r: Region)
        requires
            old(self).wf(),
            align > 0,
            image@.len() + align <= isize::MAX,
        ensures
            final(self).wf(),
            old(self)@.places(image@, align as int, final(self)@, r),
            final(self)@.content(r) == image@,
            final(self).issued@ == old(self).issued@.push(r),
            final(self).issued@.contains(r),
            r.addr as int % align as int == 0,
            forall|i: int|
                0 <= i < old(self).issued@.len() ==> (#[trigger] old(self).issued@[i]).disjoint(r),
            *final(final(self).arena) == *final(old(self).arena),
    {
        let r = self.reserve(image.len(), align);
        let ghost mid = self@;
        self.write(&r, 0, image);
        proof {
            assert(old(self)@.reserves(image@.len() as int, align as int, mid, r));
            assert(self@.content(r) =~= image@);
        }
        r
    }

    /// Copies `data` into region `r`, starting `at` bytes into it. No byte
    /// outside of `r` changes, and nothing is claimed or given up.
    pub fn write(&mut self, r: &Region, at: usize, data: &[u8])
        requires
            old(self).wf(),
            old(self).issued@.contains(*r),
            at + data@.len() <= r.len,
        ensures
            final(self).wf(),
            final(self)@ == old(self)@.stored(*r, at as int, data@),
            final(self).issued@ == old(self).issued@,
            *final(final(self).arena) == *final(old(self).arena),
    {
        self.arena.write(r, at, data);
    }

    /// Returns a copy of the `len` bytes of region `r` that start `at` bytes
    /// into it.
    pub fn read(&self, r: &Region, at: usize, len: usize) -> (out: Vec<u8>)
        requires
            self.wf(),
            self.issued@.contains(*r),
            at + len <= r.len,
        ensures
            out@ == self@.fetched(*r, at as int, len as int),
    {
        self.arena.read(r, at, len)
    }

    /// Ends the scope: every cursor goes back to zero, and the storage is
    /// served again to the next scope. No block is given back and no byte is
    /// touched.
    pub fn release(self)
        requires
            self.wf(),
        ensures
            final(self.arena)@ == self@.released(),
            final(self.arena)@.wf(),
            final(self.arena)@.idle(),
    {
        self.arena.reset();
    }
}

} // verus!
