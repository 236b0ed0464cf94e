//! One backing block of the arena: a contiguous payload region with a
//! usage cursor, sized by doubling a default capacity until the request
//! that caused the block's creation fits.

use vstd::pervasive::VecAdditionalExecFns;
use vstd::prelude::*;

use crate::{ArenaError, ArenaResult};

verus! {

/// Payload bytes a freshly grown block starts from before doubling.
pub const DEFAULT_CAPACITY: usize = 8 * 1024;

/// Bytes of bookkeeping stored alongside each block's payload: the chain
/// link, the usage cursor and the capacity, one 8-byte word each.
pub const HEADER_SIZE: usize = 24;

/// 2^k.
pub open spec fn pow2(k: nat) -> nat
    decreases k,
{
    if k == 0 {
        1
    } else {
        2 * pow2((k - 1) as nat)
    }
}

/// A legal block capacity: a power-of-two multiple of `DEFAULT_CAPACITY`.
pub open spec fn is_block_capacity(c: nat) -> bool {
    exists|k: nat| c == DEFAULT_CAPACITY * pow2(k)
}

/// Doubles `cap` until it reaches `size`.
pub open spec fn grow_capacity(cap: nat, size: nat) -> nat
    decreases 2 * size - cap
        when 0 < cap
{
    if size > cap {
        grow_capacity(2 * cap, size)
    } else {
        cap
    }
}

/// The capacity chosen for a block created to serve a `size`-byte request.
pub open spec fn capacity_for(size: nat) -> nat {
    grow_capacity(DEFAULT_CAPACITY as nat, size)
}

pub proof fn lemma_grow_capacity_bounds(cap: nat, size: nat)
    requires
        0 < cap,
    ensures
        cap <= grow_capacity(cap, size),
        size <= grow_capacity(cap, size),
    decreases 2 * size - cap,
{
    if size > cap {
        lemma_grow_capacity_bounds(2 * cap, size);
    }
}

pub proof fn lemma_grow_capacity_shape(cap: nat, size: nat)
    requires
        0 < cap,
    ensures
        exists|k: nat| grow_capacity(cap, size) == cap * pow2(k),
    decreases 2 * size - cap,
{
    if size > cap {
        lemma_grow_capacity_shape(2 * cap, size);
        let k = choose|k: nat| grow_capacity(2 * cap, size) == (2 * cap) * pow2(k);
        assert(grow_capacity(cap, size) == cap * pow2(k + 1)) by {
            assert(pow2(k + 1) == 2 * pow2(k));
            assert((2 * cap) * pow2(k) == cap * (2 * pow2(k))) by (nonlinear_arith);
        }
    } else {
        assert(pow2(0) == 1);
        assert(cap * pow2(0) == cap) by (nonlinear_arith)
            requires
                pow2(0) == 1,
        ;
        assert(grow_capacity(cap, size) == cap * pow2(0));
    }
}

pub proof fn lemma_pow2_pos(k: nat)
    ensures
        1 <= pow2(k),
    decreases k,
{
    if k > 0 {
        lemma_pow2_pos((k - 1) as nat);
    }
}

pub proof fn lemma_grow_capacity_minimal(cap: nat, size: nat, j: nat)
    requires
        0 < cap,
        size <= cap * pow2(j),
    ensures
        grow_capacity(cap, size) <= cap * pow2(j),
    decreases 2 * size - cap,
{
    if size > cap {
        if j == 0 {
            assert(pow2(0) == 1);
            assert(cap * pow2(0) == cap) by (nonlinear_arith)
                requires
                    pow2(0) == 1,
            ;
            assert(false);
        }
        assert(cap * pow2(j) == (2 * cap) * pow2((j - 1) as nat)) by {
            assert(pow2(j) == 2 * pow2((j - 1) as nat));
            assert(cap * (2 * pow2((j - 1) as nat)) == (2 * cap) * pow2((j - 1) as nat))
                by (nonlinear_arith);
        }
        lemma_grow_capacity_minimal(2 * cap, size, (j - 1) as nat);
        assert(grow_capacity(cap, size) == grow_capacity(2 * cap, size));
        assert(grow_capacity(2 * cap, size) <= (2 * cap) * pow2((j - 1) as nat));
    } else {
        lemma_pow2_pos(j);
        assert(cap <= cap * pow2(j)) by (nonlinear_arith)
            requires
                1 <= pow2(j),
                0 < cap,
        ;
    }
}

pub proof fn lemma_capacity_for_bounds(size: nat)
    ensures
        size <= capacity_for(size),
        DEFAULT_CAPACITY <= capacity_for(size),
{
    lemma_grow_capacity_bounds(DEFAULT_CAPACITY as nat, size);
}

pub proof fn lemma_capacity_for_shape(size: nat)
    ensures
        is_block_capacity(capacity_for(size)),
{
    lemma_grow_capacity_shape(DEFAULT_CAPACITY as nat, size);
}

/// The chosen capacity is the smallest legal capacity that covers `size`:
/// any power-of-two multiple of the default that can hold the request is
/// at least as large as the one the block is created with.
pub proof fn lemma_capacity_for_minimal(size: nat, c: nat)
    requires
        is_block_capacity(c),
        size <= c,
    ensures
        capacity_for(size) <= c,
{
    let k = choose|k: nat| c == DEFAULT_CAPACITY * pow2(k);
    lemma_grow_capacity_minimal(DEFAULT_CAPACITY as nat, size, k);
}

/// The mathematical content of a block: its usage cursor, its capacity
/// and its payload bytes.
#[verifier::ext_equal]
pub ghost struct BlockView {
    pub usage: nat,
    pub capacity: nat,
    pub data: Seq<u8>,
}

pub open spec fn block_view_wf(b: BlockView) -> bool {
    &&& b.usage <= b.capacity
    &&& b.capacity <= usize::MAX
    &&& b.data.len() == b.capacity
    &&& is_block_capacity(b.capacity)
}

/// The state of a block just after acquisition: nothing handed out yet,
/// payload zeroed.
pub open spec fn fresh_block(capacity: nat) -> BlockView {
    BlockView { usage: 0, capacity, data: Seq::new(capacity, |i: int| 0u8) }
}

/// One backing block: a payload region of `capacity` bytes, of which the
/// first `usage` have been handed out to callers.
pub struct ArenaBlock {
    usage: usize,
    capacity: usize,
    data: Vec<u8>,
}

impl View for ArenaBlock {
    type V = BlockView;

    closed spec fn view(&self) -> BlockView {
        BlockView {
            usage: self.usage as nat,
            capacity: self.capacity as nat,
            data: self.data@,
        }
    }
}

impl ArenaBlock {
    pub open spec fn wf(&self) -> bool {
        block_view_wf(self@)
    }

    /// Acquires a block able to serve a `size`-byte request.
    ///
    /// The capacity starts at `DEFAULT_CAPACITY` and doubles until the
    /// request fits, so it is the smallest power-of-two multiple of the
    /// default that covers `size`. A zero-byte request is rejected with
    /// `InvalidSize`; a request whose header-plus-capacity total does not
    /// fit in `usize` is rejected with `InvalidAlignment`. Exhaustion of
    /// the process memory system aborts instead of returning
    /// `OutOfMemory`, matching systems-allocator convention.
    pub fn new(size: usize) -> (r: ArenaResult<ArenaBlock>)
        ensures
            size == 0 ==> r == Err::<ArenaBlock, ArenaError>(ArenaError::InvalidSize),
            size > 0 && capacity_for(size as nat) + HEADER_SIZE <= usize::MAX ==> (r matches Ok(b)
                && b.wf() && b@ == fresh_block(capacity_for(size as nat))),
            size > 0 && capacity_for(size as nat) + HEADER_SIZE > usize::MAX ==> r == Err::<
                ArenaBlock,
                ArenaError,
            >(ArenaError::InvalidAlignment),
    {
        if size == 0 {
            return Err(ArenaError::InvalidSize);
        }
        let mut capacity: usize = DEFAULT_CAPACITY;
        while size > capacity
            invariant
                DEFAULT_CAPACITY <= capacity,
                capacity_for(size as nat) == grow_capacity(capacity as nat, size as nat),
            decreases 2 * size - capacity,
        {
            if capacity > usize::MAX / 2 {
                proof {
                    lemma_grow_capacity_bounds(2 * (capacity as nat), size as nat);
                }
                return Err(ArenaError::InvalidAlignment);
            }
            capacity = capacity * 2;
        }
        if capacity > usize::MAX - HEADER_SIZE {
            return Err(ArenaError::InvalidAlignment);
        }
        let mut data: Vec<u8> = Vec::new();
        while data.len() < capacity
            invariant
                data@.len() <= capacity,
                forall|i: int| 0 <= i < data@.len() ==> data@[i] == 0u8,
            decreases capacity - data.len(),
        {
            data.push(0u8);
        }
        proof {
            lemma_capacity_for_shape(size as nat);
            assert(data@ =~= Seq::new(capacity as nat, |i: int| 0u8));
        }
        Ok(ArenaBlock { usage: 0, capacity, data })
    }

    /// Releases a previously acquired block: its region goes back to the
    /// memory system when the value is dropped here. An absent handle is
    /// rejected with `NullPointer`.
    pub fn free(block: Option<ArenaBlock>) -> (r: ArenaResult<()>)
        ensures
            block is Some <==> r == Ok::<(), ArenaError>(()),
            block is None <==> r == Err::<(), ArenaError>(ArenaError::NullPointer),
    {
        match block {
            Option::None => Err(ArenaError::NullPointer),
            Option::Some(_dropped) => Ok(()),
        }
    }

    /// Bytes already handed out from this block's payload.
    pub fn usage(&self) -> (u: usize)
        ensures
            u == self@.usage,
    {
        self.usage
    }

    /// Total payload bytes this block holds, fixed at acquisition.
    pub fn capacity(&self) -> (c: usize)
        ensures
            c == self@.capacity,
    {
        self.capacity
    }

    /// Advances the usage cursor by `size` bytes.
    pub(crate) fn bump(&mut self, size: usize)
        requires
            old(self).wf(),
            old(self)@.usage + size <= old(self)@.capacity,
        ensures
            final(self).wf(),
            final(self)@ == (BlockView { usage: (old(self)@.usage + size) as nat, ..old(self)@ }),
    {
        self.usage = self.usage + size;
    }

    /// Stores one byte of the payload.
    pub(crate) fn set_byte(&mut self, i: usize, v: u8)
        requires
            old(self).wf(),
            i < old(self)@.capacity,
        ensures
            final(self).wf(),
            final(self)@ == (BlockView { data: old(self)@.data.update(i as int, v), ..old(self)@ }),
    {
        self.data.set(i, v);
    }

    /// Loads one byte of the payload.
    pub(crate) fn get_byte(&self, i: usize) -> (b: u8)
        requires
            self.wf(),
            i < self@.capacity,
        ensures
            b == self@.data[i as int],
    {
        self.data[i]
    }
}

} // verus!
