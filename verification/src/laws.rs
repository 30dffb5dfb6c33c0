//! What holds of every arena, stated over the model and proved once.
//!
//! The contracts of `MemoryArena` and `Allocator` say what one call does in
//! terms of `ArenaView::reserves`, `ArenaView::stored`, `ArenaView::fetched`
//! and `ArenaView::released`. The lemmas below say what follows for regions
//! and for runs of calls.

use crate::align::{lemma_padding_is_least, padding};
use crate::allocator::Allocator;
use crate::arena::ArenaView;
use crate::region::Region;
use vstd::prelude::*;

verus! {

/// A reservation keeps the arena well formed, and the region it hands out is
/// claimed afterwards.
pub proof fn lemma_reservation_preserves_wf(
    pre: ArenaView,
    size: int,
    align: int,
    post: ArenaView,
    r: Region,
)
    requires
        pre.wf(),
        0 <= size,
        0 < align,
        pre.reserves(size, align, post, r),
    ensures
        post.wf(),
        post.holds(r),
{
    if pre.full(size, align) {
        let fresh = post.blocks.last().reset();
        lemma_padding_is_least(fresh.base, align);
        assert forall|i: int| 0 <= i < post.blocks.len() implies (#[trigger] post.blocks[i]).wf() by {
            if i < pre.blocks.len() {
                assert(post.blocks[i] == pre.blocks[i]);
            }
        }
    } else {
        let k = r.block as int;
        assert(pre.fits(k, size, align));
        lemma_padding_is_least(pre.blocks[k].base + pre.blocks[k].used, align);
        assert forall|i: int| 0 <= i < post.blocks.len() implies (#[trigger] post.blocks[i]).wf() by {
            if i != k {
                assert(post.blocks[i] == pre.blocks[i]);
            }
        }
    }
}

/// Alignment: wherever the blocks lie in memory, the address of a reserved
/// region is a multiple of the alignment asked for.
pub proof fn lemma_reserved_address_is_aligned(
    pre: ArenaView,
    size: int,
    align: int,
    post: ArenaView,
    r: Region,
)
    requires
        pre.wf(),
        0 <= size,
        0 < align,
        pre.reserves(size, align, post, r),
    ensures
        r.addr as int % align == 0,
{
    if pre.full(size, align) {
        let fresh = post.blocks.last().reset();
        lemma_padding_is_least(fresh.base, align);
    } else {
        let k = r.block as int;
        assert(pre.fits(k, size, align));
        lemma_padding_is_least(pre.blocks[k].base + pre.blocks[k].used, align);
    }
}

/// Non-overlap, one step: a reservation hands out bytes that no region
/// claimed before contains. Such a region stays claimed, and its bytes stay
/// as they were.
pub proof fn lemma_reservation_spares_claimed(
    pre: ArenaView,
    size: int,
    align: int,
    post: ArenaView,
    r: Region,
    q: Region,
)
    requires
        pre.wf(),
        0 <= size,
        0 < align,
        pre.reserves(size, align, post, r),
        pre.holds(q),
    ensures
        post.holds(q),
        q.disjoint(r),
        post.content(q) == pre.content(q),
        post.blocks[q.block as int].bytes == pre.blocks[q.block as int].bytes,
{
    if !pre.full(size, align) {
        let k = r.block as int;
        assert(pre.fits(k, size, align));
        lemma_padding_is_least(pre.blocks[k].base + pre.blocks[k].used, align);
    }
}

/// Non-overlap: any two regions handed out in one scope share no byte, and
/// both are claimed in the arena.
pub proof fn lemma_issued_regions_are_disjoint(scope: &Allocator, i: int, j: int)
    requires
        scope.wf(),
        0 <= i < scope.issued@.len(),
        0 <= j < scope.issued@.len(),
        i != j,
    ensures
        scope.issued@[i].disjoint(scope.issued@[j]),
        scope@.holds(scope.issued@[i]),
        scope@.holds(scope.issued@[j]),
{
    if i < j {
        assert(scope.issued@[i].disjoint(scope.issued@[j]));
    } else {
        assert(scope.issued@[j].disjoint(scope.issued@[i]));
    }
}

/// Round trip: the bytes read from where bytes were written are the bytes
/// written. The write changes no cursor, so every claimed region stays
/// claimed.
pub proof fn lemma_read_returns_what_was_written(
    arena: ArenaView,
    r: Region,
    at: int,
    data: Seq<u8>,
)
    requires
        arena.wf(),
        arena.holds(r),
        0 <= at,
        at + data.len() <= r.len,
    ensures
        arena.stored(r, at, data).fetched(r, at, data.len() as int) == data,
        arena.stored(r, at, data).wf(),
        forall|q: Region| arena.holds(q) ==> arena.stored(r, at, data).holds(q),
{
    let after = arena.stored(r, at, data);
    assert(after.fetched(r, at, data.len() as int) =~= data);
    assert forall|i: int| 0 <= i < after.blocks.len() implies (#[trigger] after.blocks[i]).wf() by {
        assert(arena.blocks[i].wf());
    }
}

/// A write changes only the bytes it is aimed at: a run of bytes of a claimed
/// region that lies in another block, or apart from the written run in the
/// same block, reads as before.
pub proof fn lemma_write_spares_other_bytes(
    arena: ArenaView,
    r: Region,
    at: int,
    data: Seq<u8>,
    q: Region,
    from: int,
    len: int,
)
    requires
        arena.wf(),
        arena.holds(r),
        arena.holds(q),
        0 <= at,
        at + data.len() <= r.len,
        0 <= from,
        0 <= len,
        from + len <= q.len,
        q.block != r.block || q.offset + from + len <= r.offset + at || r.offset + at
            + data.len() <= q.offset + from,
    ensures
        arena.stored(r, at, data).fetched(q, from, len) == arena.fetched(q, from, len),
{
    assert(arena.blocks[q.block as int].wf());
    assert(arena.stored(r, at, data).fetched(q, from, len) =~= arena.fetched(q, from, len));
}

/// The first request of a scope: in an arena with nothing claimed, a request
/// that fits the first block behind its padding is served from that block,
/// at the first multiple of `align` in it.
pub proof fn lemma_first_request_placement(
    arena: ArenaView,
    size: int,
    align: int,
    post: ArenaView,
    r: Region,
)
    requires
        arena.wf(),
        arena.blocks[0].used == 0,
        0 <= size,
        0 < align,
        size + padding(arena.blocks[0].base, align) <= arena.blocks[0].capacity(),
        arena.reserves(size, align, post, r),
    ensures
        r.block == 0,
        r.offset == padding(arena.blocks[0].base, align),
        r.addr == arena.blocks[0].base + padding(arena.blocks[0].base, align),
        post.blocks.len() == arena.blocks.len(),
{
    assert(arena.fits(0, size, align));
}

/// Whatever a scope does, the arena keeps the blocks it had where they were:
/// a reservation, a write and a release each extend the arena they start
/// from, and extending carries over from step to step.
pub proof fn lemma_steps_extend(
    pre: ArenaView,
    size: int,
    align: int,
    post: ArenaView,
    r: Region,
    at: int,
    data: Seq<u8>,
)
    ensures
        pre.extends(pre),
        pre.released().extends(pre),
        pre.reserves(size, align, post, r) ==> post.extends(pre),
        r.block < pre.blocks.len() ==> pre.stored(r, at, data).extends(pre),
{
    if pre.reserves(size, align, post, r) {
        assert forall|i: int| 0 <= i < pre.blocks.len() implies {
            &&& (#[trigger] post.blocks[i]).base == pre.blocks[i].base
            &&& post.blocks[i].capacity() == pre.blocks[i].capacity()
        } by {
            if !pre.full(size, align) {
                assert(pre.fits(r.block as int, size, align));
            }
        }
    }
}

/// Extending is transitive.
pub proof fn lemma_extends_is_transitive(first: ArenaView, second: ArenaView, third: ArenaView)
    requires
        second.extends(first),
        third.extends(second),
    ensures
        third.extends(first),
{
    assert forall|i: int| 0 <= i < first.blocks.len() implies {
        &&& (#[trigger] third.blocks[i]).base == first.blocks[i].base
        &&& third.blocks[i].capacity() == first.blocks[i].capacity()
    } by {
        assert(second.blocks[i].base == first.blocks[i].base);
    }
}

/// Reuse: a scope claims a region in an arena with nothing claimed, goes on
/// to `last` by any writes and further reservations, and ends; the next
/// scope claims a region. If both regions lie in the same block, each starts
/// at the first multiple of its alignment in that block. With equal
/// alignments they start at the same address.
pub proof fn lemma_reuse_identity(
    arena: ArenaView,
    first_size: int,
    first_align: int,
    mid: ArenaView,
    first: Region,
    last: ArenaView,
    second_size: int,
    second_align: int,
    post: ArenaView,
    second: Region,
)
    requires
        arena.wf(),
        arena.idle(),
        0 <= first_size,
        0 < first_align,
        0 <= second_size,
        0 < second_align,
        arena.reserves(first_size, first_align, mid, first),
        last.extends(mid),
        last.released().reserves(second_size, second_align, post, second),
        second.block == first.block,
    ensures
        first.addr == mid.blocks[first.block as int].base + padding(
            mid.blocks[first.block as int].base,
            first_align,
        ),
        second.addr == mid.blocks[first.block as int].base + padding(
            mid.blocks[first.block as int].base,
            second_align,
        ),
        first_align == second_align ==> second.addr == first.addr,
{
    let k = first.block as int;
    lemma_reservation_preserves_wf(arena, first_size, first_align, mid, first);
    let again = last.released();
    assert(again.blocks[k] == last.blocks[k].reset());
    assert(last.blocks[k].base == mid.blocks[k].base);
    if !arena.full(first_size, first_align) {
        assert(arena.fits(k, first_size, first_align));
        assert(arena.blocks[k].used == 0);
    }
    if again.full(second_size, second_align) {
        assert(second.block == again.blocks.len());
    }
}

/// Reuse of the first block: in an arena with nothing claimed, two scopes in
/// a row whose first requests fit the first block behind their padding are
/// both served from the start of that block, whatever the first scope went
/// on to write and to claim. With equal alignments they are given the same
/// address.
pub proof fn lemma_reuse_of_first_block(
    arena: ArenaView,
    first_size: int,
    first_align: int,
    mid: ArenaView,
    first: Region,
    last: ArenaView,
    second_size: int,
    second_align: int,
    post: ArenaView,
    second: Region,
)
    requires
        arena.wf(),
        arena.idle(),
        0 <= first_size,
        0 < first_align,
        0 <= second_size,
        0 < second_align,
        first_size + padding(arena.blocks[0].base, first_align) <= arena.blocks[0].capacity(),
        second_size + padding(arena.blocks[0].base, second_align) <= arena.blocks[0].capacity(),
        arena.reserves(first_size, first_align, mid, first),
        last.extends(mid),
        last.released().reserves(second_size, second_align, post, second),
    ensures
        first.block == 0,
        second.block == 0,
        mid.blocks.len() == arena.blocks.len(),
        post.blocks.len() == last.blocks.len(),
        first.addr == arena.blocks[0].base + padding(arena.blocks[0].base, first_align),
        second.addr == arena.blocks[0].base + padding(arena.blocks[0].base, second_align),
        first_align == second_align ==> second.addr == first.addr,
{
    lemma_first_request_placement(arena, first_size, first_align, mid, first);
    lemma_reservation_preserves_wf(arena, first_size, first_align, mid, first);
    assert(arena.fits(0, first_size, first_align));
    let again = last.released();
    assert(again.blocks[0] == last.blocks[0].reset());
    assert(last.blocks[0].base == mid.blocks[0].base);
    assert(again.fits(0, second_size, second_align));
}

/// Growth: a request that no block has room for adds exactly one block
/// behind the others and is served from it. The new block holds
/// `max(block_size, size + align)` bytes, so never less than `size + align`.
/// The older blocks are as they were.
pub proof fn lemma_full_arena_grows(
    pre: ArenaView,
    size: int,
    align: int,
    post: ArenaView,
    r: Region,
)
    requires
        pre.wf(),
        0 <= size,
        0 < align,
        pre.full(size, align),
        pre.reserves(size, align, post, r),
    ensures
        post.blocks.len() == pre.blocks.len() + 1,
        r.block == pre.blocks.len(),
        post.blocks[r.block as int].capacity() >= size + align,
        post.blocks[r.block as int].capacity() >= pre.block_size,
        post.blocks[r.block as int].capacity() == size + align
            || post.blocks[r.block as int].capacity() == pre.block_size,
        forall|i: int| 0 <= i < pre.blocks.len() ==> post.blocks[i] == pre.blocks[i],
{
}

/// A request for more bytes than any block holds finds every block full.
pub proof fn lemma_oversized_request_finds_no_room(pre: ArenaView, size: int, align: int)
    requires
        pre.wf(),
        0 < align,
        forall|i: int| 0 <= i < pre.blocks.len() ==> (#[trigger] pre.blocks[i]).capacity() < size,
    ensures
        pre.full(size, align),
{
    assert forall|j: int| !pre.fits(j, size, align) by {
        if 0 <= j < pre.blocks.len() {
            assert(pre.blocks[j].wf());
            lemma_padding_is_least(pre.blocks[j].base + pre.blocks[j].used, align);
        }
    }
}

/// Over-alignment: when a region is claimed right behind another in the same
/// block, the bytes skipped between the end of the one and the start of the
/// other are the padding of that end for the alignment asked for, and the
/// start is a multiple of that alignment.
pub proof fn lemma_gap_is_padding(
    pre: ArenaView,
    first_size: int,
    first_align: int,
    mid: ArenaView,
    first: Region,
    second_size: int,
    second_align: int,
    post: ArenaView,
    second: Region,
)
    requires
        pre.wf(),
        0 <= first_size,
        0 < first_align,
        0 <= second_size,
        0 < second_align,
        pre.reserves(first_size, first_align, mid, first),
        mid.reserves(second_size, second_align, post, second),
        second.block == first.block,
    ensures
        second.addr as int % second_align == 0,
        second.addr - (first.addr + first.len) == padding(
            first.addr + first.len,
            second_align,
        ),
        0 <= second.addr - (first.addr + first.len) < second_align,
{
    lemma_reservation_preserves_wf(pre, first_size, first_align, mid, first);
    lemma_reserved_address_is_aligned(mid, second_size, second_align, post, second);
    lemma_padding_is_least(first.addr + first.len, second_align);
    let k = first.block as int;
    assert(mid.blocks[k].used == first.offset + first.len);
    if mid.full(second_size, second_align) {
        assert(second.block == mid.blocks.len());
    }
}

/// Release is idempotent: it leaves every cursor at zero, a second release
/// changes nothing, and neither does the release of a scope in which nothing
/// was claimed. Release keeps the blocks, their places and their bytes.
pub proof fn lemma_release_is_idempotent(arena: ArenaView)
    ensures
        arena.released().idle(),
        arena.released().released() == arena.released(),
        arena.idle() ==> arena.released() == arena,
        arena.wf() ==> arena.released().wf(),
        arena.released().block_size == arena.block_size,
        arena.released().blocks.len() == arena.blocks.len(),
        forall|i: int|
            0 <= i < arena.blocks.len() ==> {
                &&& (#[trigger] arena.released().blocks[i]).base == arena.blocks[i].base
                &&& arena.released().blocks[i].bytes == arena.blocks[i].bytes
            },
{
    assert(arena.released().released().blocks =~= arena.released().blocks);
    if arena.idle() {
        assert(arena.released().blocks =~= arena.blocks);
    }
    if arena.wf() {
        assert forall|i: int| 0 <= i < arena.blocks.len() implies (
        #[trigger] arena.released().blocks[i]).wf() by {
            assert(arena.blocks[i].wf());
        }
    }
}

/// One step of a scope that leaves the bytes `from .. from + len` of region
/// `q` alone: a reservation, or a write into a claimed region that lies in
/// another block or apart from those bytes.
pub open spec fn step_spares(
    pre: ArenaView,
    post: ArenaView,
    q: Region,
    from: int,
    len: int,
) -> bool {
    ||| exists|size: int, align: int, r: Region|
        0 <= size && 0 < align && #[trigger] pre.reserves(size, align, post, r)
    ||| exists|r: Region, at: int, data: Seq<u8>|
        {
            &&& pre.holds(r)
            &&& 0 <= at
            &&& at + data.len() <= r.len
            &&& {
                ||| r.block != q.block
                ||| q.offset + from + len <= r.offset + at
                ||| r.offset + at + data.len() <= q.offset + from
            }
            &&& post == #[trigger] pre.stored(r, at, data)
        }
}

/// Round trip over a whole scope: along any run of reservations and of
/// writes elsewhere, a claimed region stays claimed and the bytes written to
/// it read as they were written, however many steps follow.
pub proof fn lemma_run_spares_bytes(run: Seq<ArenaView>, q: Region, from: int, len: int, k: int)
    requires
        0 <= k < run.len(),
        run[0].wf(),
        run[0].holds(q),
        0 <= from,
        0 <= len,
        from + len <= q.len,
        forall|i: int|
            0 <= i < run.len() - 1 ==> step_spares(#[trigger] run[i], run[i + 1], q, from, len),
    ensures
        run[k].wf(),
        run[k].holds(q),
        run[k].fetched(q, from, len) == run[0].fetched(q, from, len),
    decreases k,
{
    if k > 0 {
        lemma_run_spares_bytes(run, q, from, len, k - 1);
        let pre = run[k - 1];
        let post = run[k];
        assert(step_spares(pre, post, q, from, len));
        if exists|size: int, align: int, r: Region|
            0 <= size && 0 < align && #[trigger] pre.reserves(size, align, post, r) {
            let (size, align, r) = choose|size: int, align: int, r: Region|
                0 <= size && 0 < align && #[trigger] pre.reserves(size, align, post, r);
            lemma_reservation_preserves_wf(pre, size, align, post, r);
            lemma_reservation_spares_claimed(pre, size, align, post, r, q);
        } else {
            let (r, at, data) = choose|r: Region, at: int, data: Seq<u8>|
                {
                    &&& pre.holds(r)
                    &&& 0 <= at
                    &&& at + data.len() <= r.len
                    &&& {
                        ||| r.block != q.block
                        ||| q.offset + from + len <= r.offset + at
                        ||| r.offset + at + data.len() <= q.offset + from
                    }
                    &&& post == #[trigger] pre.stored(r, at, data)
                };
            lemma_read_returns_what_was_written(pre, r, at, data);
            lemma_write_spares_other_bytes(pre, r, at, data, q, from, len);
        }
    }
}

} // verus!
