//! The arena: an ordered chain of backing blocks, a bump cursor into the
//! block currently serving requests, and bulk release of the whole chain.

use vstd::prelude::*;

use crate::block::{
    block_view_wf, capacity_for, fresh_block, is_block_capacity, lemma_capacity_for_bounds,
    lemma_capacity_for_minimal, lemma_capacity_for_shape, ArenaBlock, BlockView, HEADER_SIZE,
};
use crate::{ArenaError, ArenaResult};

verus! {

/// The caller's handle on one allocation: a borrowed view of `size` bytes
/// of the payload of block `block`, starting `offset` bytes in. It stays
/// valid until the owning arena is released.
#[derive(Debug, Clone, Copy, PartialEq, Eq, Structural)]
pub struct AllocHandle {
    pub block: usize,
    pub offset: usize,
    pub size: usize,
}

/// Whether block `b` still has room for `size` more bytes.
pub open spec fn block_fits(b: BlockView, size: nat) -> bool {
    b.usage + size <= b.capacity
}

/// Whether some block at or after index `from` has room for `size` bytes.
pub open spec fn has_fit_from(blocks: Seq<BlockView>, from: int, size: nat) -> bool {
    exists|i: int| from <= i < blocks.len() && #[trigger] block_fits(blocks[i], size)
}

/// The first index at or after `from` whose block has room for `size`
/// bytes, or the chain length when no such block exists.
pub open spec fn first_fit_from(blocks: Seq<BlockView>, from: int, size: nat) -> int
    decreases blocks.len() - from
        when 0 <= from
{
    if from >= blocks.len() {
        blocks.len() as int
    } else if block_fits(blocks[from], size) {
        from
    } else {
        first_fit_from(blocks, from + 1, size)
    }
}

pub proof fn lemma_first_fit_from(blocks: Seq<BlockView>, from: int, size: nat)
    requires
        0 <= from <= blocks.len(),
    ensures
        from <= first_fit_from(blocks, from, size) <= blocks.len(),
        has_fit_from(blocks, from, size) <==> first_fit_from(blocks, from, size) < blocks.len(),
        first_fit_from(blocks, from, size) < blocks.len() ==> block_fits(
            blocks[first_fit_from(blocks, from, size)],
            size,
        ),
        forall|j: int| from <= j < first_fit_from(blocks, from, size) ==> !block_fits(
            blocks[j],
            size,
        ),
    decreases blocks.len() - from,
{
    if from >= blocks.len() {
    } else if block_fits(blocks[from], size) {
    } else {
        lemma_first_fit_from(blocks, from + 1, size);
    }
}

/// The block view after `size` more bytes are handed out of `b`.
pub open spec fn bumped(b: BlockView, size: nat) -> BlockView {
    BlockView { usage: (b.usage + size) as nat, ..b }
}

/// What `allocate` does: how the result `r` and the arena state after the
/// call, `post`, follow from the state before it, `pre`, and the request.
///
/// A zero-byte request is rejected. Otherwise the first block at or after
/// the cursor with enough room serves the request and becomes the
/// cursor's block; when no block has room, a block sized for the request
/// is appended and serves it. A failed allocation leaves the arena
/// exactly as it was.
pub open spec fn alloc_transition(
    pre: ArenaView,
    size: nat,
    r: ArenaResult<AllocHandle>,
    post: ArenaView,
) -> bool {
    if size == 0 {
        &&& r == Err::<AllocHandle, ArenaError>(ArenaError::InvalidSize)
        &&& post == pre
    } else if has_fit_from(pre.blocks, pre.end as int, size) {
        let i = first_fit_from(pre.blocks, pre.end as int, size);
        &&& (r matches Ok(h) && h.block == i && h.offset == pre.blocks[i].usage && h.size == size)
        &&& post.blocks == pre.blocks.update(i, bumped(pre.blocks[i], size))
        &&& post.end == i
    } else if capacity_for(size) + HEADER_SIZE <= usize::MAX {
        &&& (r matches Ok(h) && h.block == pre.blocks.len() && h.offset == 0 && h.size == size)
        &&& post.blocks == pre.blocks.push(bumped(fresh_block(capacity_for(size)), size))
        &&& post.end == pre.blocks.len()
    } else {
        &&& r == Err::<AllocHandle, ArenaError>(ArenaError::InvalidAlignment)
        &&& post == pre
    }
}

/// Whether `h` is a live allocation of the arena state `v`: it lies
/// wholly inside the handed-out prefix of its block's payload.
pub open spec fn handle_valid(v: ArenaView, h: AllocHandle) -> bool {
    &&& (h.block as int) < v.blocks.len()
    &&& h.offset + h.size <= v.blocks[h.block as int].usage
}

/// Whether two allocations share no byte.
pub open spec fn handles_disjoint(h1: AllocHandle, h2: AllocHandle) -> bool {
    ||| h1.block != h2.block
    ||| h1.offset + h1.size <= h2.offset
    ||| h2.offset + h2.size <= h1.offset
}

/// Byte `i` of the allocation `h` in the arena state `v`.
pub open spec fn handle_byte(v: ArenaView, h: AllocHandle, i: int) -> u8 {
    v.blocks[h.block as int].data[h.offset + i]
}

/// The arena state after byte `i` of the allocation `h` is set to `v`.
pub open spec fn write_effect(pre: ArenaView, h: AllocHandle, i: int, v: u8) -> ArenaView {
    ArenaView {
        blocks: pre.blocks.update(
            h.block as int,
            BlockView {
                data: pre.blocks[h.block as int].data.update(h.offset + i, v),
                ..pre.blocks[h.block as int]
            },
        ),
        end: pre.end,
    }
}

/// The mathematical content of an arena: the views of its blocks in chain
/// order, and the index of the block currently serving requests.
#[verifier::ext_equal]
pub ghost struct ArenaView {
    pub blocks: Seq<BlockView>,
    pub end: nat,
}

pub open spec fn arena_view_wf(v: ArenaView) -> bool {
    &&& forall|i: int| 0 <= i < v.blocks.len() ==> block_view_wf(#[trigger] v.blocks[i])
    &&& v.blocks.len() == 0 ==> v.end == 0
    &&& v.blocks.len() > 0 ==> v.end < v.blocks.len()
}

/// An arena of bump-allocated blocks. Blocks are only ever appended to
/// the chain; they are all released together by `free`.
pub struct Arena {
    blocks: Vec<ArenaBlock>,
    end: usize,
}

impl View for Arena {
    type V = ArenaView;

    closed spec fn view(&self) -> ArenaView {
        ArenaView {
            blocks: self.blocks@.map_values(|b: ArenaBlock| b@),
            end: self.end as nat,
        }
    }
}

impl Arena {
    pub open spec fn wf(&self) -> bool {
        arena_view_wf(self@)
    }

    /// A fresh arena: no blocks, nothing handed out.
    pub fn new() -> (a: Arena)
        ensures
            a.wf(),
            a@.blocks.len() == 0,
            a@.end == 0,
    {
        Arena { blocks: Vec::new(), end: 0 }
    }

    /// Serves a `size`-byte request by bump allocation.
    ///
    /// The first block at or after the cursor with enough remaining
    /// capacity serves the request; when none has room, a block sized for
    /// the request is appended to the chain. A zero-byte request is
    /// rejected with `InvalidSize` — mirroring block acquisition, so that
    /// the outcome does not depend on the arena's current shape — and a
    /// failed request leaves the arena exactly as it was.
    pub fn allocate(&mut self, size: usize) -> (r: ArenaResult<AllocHandle>)
        requires
            old(self).wf(),
        ensures
            final(self).wf(),
            alloc_transition(old(self)@, size as nat, r, final(self)@),
    {
        if size == 0 {
            return Err(ArenaError::InvalidSize);
        }
        let ghost pre = self@;
        if self.blocks.len() == 0 {
            match ArenaBlock::new(size) {
                Err(e) => {
                    return Err(e);
                },
                Ok(mut b) => {
                    proof {
                        lemma_capacity_for_bounds(size as nat);
                    }
                    b.bump(size);
                    self.blocks.push(b);
                    self.end = 0;
                    proof {
                        assert(self@.blocks =~= pre.blocks.push(
                            bumped(fresh_block(capacity_for(size as nat)), size as nat),
                        ));
                    }
                    return Ok(AllocHandle { block: 0, offset: 0, size });
                },
            }
        }
        let n: usize = self.blocks.len();
        let mut idx: usize = self.end;
        while size > self.blocks[idx].capacity() - self.blocks[idx].usage() && idx + 1 < n
            invariant
                pre.end <= idx < n,
                first_fit_from(pre.blocks, pre.end as int, size as nat) == first_fit_from(
                    pre.blocks,
                    idx as int,
                    size as nat,
                ),
            decreases n - idx,
        {
            idx = idx + 1;
        }
        proof {
            lemma_first_fit_from(pre.blocks, pre.end as int, size as nat);
        }
        let u: usize = self.blocks[idx].usage();
        let c: usize = self.blocks[idx].capacity();
        if size <= c - u {
            proof {
                assert(block_fits(pre.blocks[idx as int], size as nat));
                assert(first_fit_from(pre.blocks, idx as int, size as nat) == idx);
            }
            let blk = &mut self.blocks[idx];
            blk.bump(size);
            self.end = idx;
            proof {
                assert(self@.blocks =~= pre.blocks.update(
                    idx as int,
                    bumped(pre.blocks[idx as int], size as nat),
                ));
            }
            Ok(AllocHandle { block: idx, offset: u, size })
        } else {
            proof {
                assert(idx == n - 1);
                assert(block_view_wf(pre.blocks[idx as int]));
                assert(!block_fits(pre.blocks[idx as int], size as nat));
                assert(first_fit_from(pre.blocks, idx as int + 1, size as nat) == n);
                assert(first_fit_from(pre.blocks, idx as int, size as nat) == n);
                assert(!has_fit_from(pre.blocks, pre.end as int, size as nat));
            }
            match ArenaBlock::new(size) {
                Err(e) => Err(e),
                Ok(mut b) => {
                    proof {
                        lemma_capacity_for_bounds(size as nat);
                    }
                    b.bump(size);
                    self.blocks.push(b);
                    self.end = n;
                    proof {
                        assert(self@.blocks =~= pre.blocks.push(
                            bumped(fresh_block(capacity_for(size as nat)), size as nat),
                        ));
                    }
                    Ok(AllocHandle { block: n, offset: 0, size })
                },
            }
        }
    }

    /// Releases every block of the chain, in chain order, and resets the
    /// arena so it is immediately ready for reuse. Releasing an already
    /// empty arena is a no-op that succeeds, so a release is never a
    /// double release.
    pub fn free(&mut self) -> (r: ArenaResult<()>)
        ensures
            r == Ok::<(), ArenaError>(()),
            final(self).wf(),
            final(self)@.blocks.len() == 0,
            final(self)@.end == 0,
    {
        self.end = 0;
        while self.blocks.len() > 0
            invariant
                self.end == 0,
            decreases self.blocks@.len(),
        {
            let b = self.blocks.remove(0);
            match ArenaBlock::free(Some(b)) {
                Ok(_) => {},
                Err(e) => {
                    return Err(e);
                },
            }
        }
        Ok(())
    }

    /// Stores byte `i` of the allocation `h`. Only that byte of the
    /// arena changes.
    pub fn write(&mut self, h: AllocHandle, i: usize, v: u8)
        requires
            old(self).wf(),
            handle_valid(old(self)@, h),
            i < h.size,
        ensures
            final(self).wf(),
            final(self)@ == write_effect(old(self)@, h, i as int, v),
    {
        let ghost pre = self@;
        proof {
            assert(block_view_wf(pre.blocks[h.block as int]));
        }
        let blk = &mut self.blocks[h.block];
        blk.set_byte(h.offset + i, v);
        proof {
            assert(self@.blocks =~= write_effect(pre, h, i as int, v).blocks);
            assert(self@ =~= write_effect(pre, h, i as int, v));
        }
    }

    /// Loads byte `i` of the allocation `h`.
    pub fn read(&self, h: AllocHandle, i: usize) -> (b: u8)
        requires
            self.wf(),
            handle_valid(self@, h),
            i < h.size,
        ensures
            b == handle_byte(self@, h, i as int),
    {
        proof {
            assert(block_view_wf(self@.blocks[h.block as int]));
        }
        let blk = &self.blocks[h.block];
        blk.get_byte(h.offset + i)
    }

    /// How many blocks the chain holds.
    pub fn block_count(&self) -> (n: usize)
        ensures
            n == self@.blocks.len(),
    {
        self.blocks.len()
    }

    /// Bytes already handed out from block `i` of the chain.
    pub fn block_usage(&self, i: usize) -> (u: usize)
        requires
            i < self@.blocks.len(),
        ensures
            u == self@.blocks[i as int].usage,
    {
        self.blocks[i].usage()
    }

    /// The payload capacity of block `i` of the chain.
    pub fn block_capacity(&self, i: usize) -> (c: usize)
        requires
            i < self@.blocks.len(),
        ensures
            c == self@.blocks[i as int].capacity,
    {
        self.blocks[i].capacity()
    }

    /// The index of the block currently serving requests.
    pub fn end_index(&self) -> (e: usize)
        ensures
            e == self@.end,
    {
        self.end
    }
}

/// No allocation that `allocate` returns ever overlaps an allocation that
/// was already live: the bytes of every live allocation survive the call
/// unchanged, the allocation stays live, and the returned one is disjoint
/// from it.
pub proof fn lemma_allocate_no_alias(
    pre: ArenaView,
    size: nat,
    r: ArenaResult<AllocHandle>,
    post: ArenaView,
    h: AllocHandle,
)
    requires
        arena_view_wf(pre),
        alloc_transition(pre, size, r, post),
        handle_valid(pre, h),
    ensures
        handle_valid(post, h),
        forall|i: int| 0 <= i < h.size ==> handle_byte(post, h, i) == handle_byte(pre, h, i),
        r matches Ok(h2) ==> handles_disjoint(h, h2) && handle_valid(post, h2),
{
    if size == 0 {
    } else if has_fit_from(pre.blocks, pre.end as int, size) {
        lemma_first_fit_from(pre.blocks, pre.end as int, size);
    } else {
    }
}

/// A successful allocation appends a block exactly when no block at or
/// after the cursor could serve the request, and the appended block's
/// capacity is the smallest power-of-two multiple of the default capacity
/// that covers the request: no legal capacity below it could.
pub proof fn lemma_allocate_minimal_growth(
    pre: ArenaView,
    size: nat,
    r: ArenaResult<AllocHandle>,
    post: ArenaView,
)
    requires
        arena_view_wf(pre),
        alloc_transition(pre, size, r, post),
        size > 0,
        r is Ok,
    ensures
        has_fit_from(pre.blocks, pre.end as int, size) ==> post.blocks.len() == pre.blocks.len(),
        !has_fit_from(pre.blocks, pre.end as int, size) ==> {
            &&& post.blocks.len() == pre.blocks.len() + 1
            &&& post.blocks[pre.blocks.len() as int].capacity == capacity_for(size)
            &&& size <= capacity_for(size)
            &&& is_block_capacity(capacity_for(size))
            &&& forall|c: nat| #[trigger] is_block_capacity(c) && size <= c ==> capacity_for(size)
                <= c
        },
{
    if has_fit_from(pre.blocks, pre.end as int, size) {
        lemma_first_fit_from(pre.blocks, pre.end as int, size);
    }
    lemma_capacity_for_bounds(size);
    lemma_capacity_for_shape(size);
    assert forall|c: nat| #[trigger] is_block_capacity(c) && size <= c implies capacity_for(size)
        <= c by {
        lemma_capacity_for_minimal(size, c);
    }
}

/// Writing through one allocation never changes a byte seen through
/// another, disjoint allocation, and never unmakes a live allocation.
pub proof fn lemma_write_no_alias(
    pre: ArenaView,
    h1: AllocHandle,
    i: nat,
    v: u8,
    h2: AllocHandle,
    j: nat,
)
    requires
        arena_view_wf(pre),
        handle_valid(pre, h1),
        handle_valid(pre, h2),
        handles_disjoint(h1, h2),
        i < h1.size,
        j < h2.size,
    ensures
        handle_valid(write_effect(pre, h1, i as int, v), h2),
        handle_byte(write_effect(pre, h1, i as int, v), h2, j as int) == handle_byte(pre, h2, j as int),
{
    assert(block_view_wf(pre.blocks[h1.block as int]));
    assert(block_view_wf(pre.blocks[h2.block as int]));
    if h1.block == h2.block {
        assert(h1.offset + i != h2.offset + j);
    }
}

/// A released arena is indistinguishable from a freshly constructed one:
/// their states are equal, so — every operation's contract being a
/// function of that state alone — allocation after `free` behaves exactly
/// as on a new arena, with no residue from before the release.
pub proof fn lemma_released_is_fresh(released: ArenaView, fresh: ArenaView)
    requires
        released.blocks.len() == 0,
        released.end == 0,
        fresh.blocks.len() == 0,
        fresh.end == 0,
    ensures
        released == fresh,
{
    assert(released.blocks =~= fresh.blocks);
    assert(released =~= fresh);
}

} // verus!

