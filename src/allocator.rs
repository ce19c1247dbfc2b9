//! The allocator capability and its default, host-backed implementation.
use crate::rcobj::{RcArena, RcObject};
use vstd::arithmetic::power2::is_pow2;
use vstd::prelude::*;

verus! {

/// A piece of storage handed out by an allocator: its bytes and the alignment
/// it was requested with.
pub struct Block {
    bytes: Vec<u8>,
    align: usize,
}

impl View for Block {
    type V = Seq<u8>;

    closed spec fn view(&self) -> Seq<u8> {
        self.bytes@
    }
}

impl Block {
    /// The alignment the block was requested with.
    pub closed spec fn spec_align(&self) -> usize {
        self.align
    }

    /// Takes `size` zeroed bytes from the host heap.
    pub fn new(size: usize, align: usize) -> (b: Block)
        ensures
            b@ == Seq::new(size as nat, |j: int| 0u8),
            b.spec_align() == align,
    {
        let mut bytes: Vec<u8> = Vec::with_capacity(size);
        let mut i: usize = 0;
        while i < size
            invariant
                i <= size,
                bytes@ == Seq::new(i as nat, |j: int| 0u8),
            decreases size - i,
        {
            bytes.push(0u8);
            i += 1;
            assert(bytes@ =~= Seq::new(i as nat, |j: int| 0u8));
        }
        Block { bytes, align }
    }

    pub fn size(&self) -> (r: usize)
        ensures
            r == self@.len(),
    {
        self.bytes.len()
    }

    pub fn align(&self) -> (r: usize)
        ensures
            r == self.spec_align(),
    {
        self.align
    }

    pub fn read(&self, i: usize) -> (r: u8)
        requires
            i < self@.len(),
        ensures
            r == self@[i as int],
    {
        self.bytes[i]
    }

    pub fn write(&mut self, i: usize, v: u8)
        requires
            i < old(self)@.len(),
        ensures
            final(self)@ == old(self)@.update(i as int, v),
            final(self).spec_align() == old(self).spec_align(),
    {
        self.bytes.set(i, v);
    }
}

/// The smaller of two sizes.
pub open spec fn min_size(a: usize, b: usize) -> usize {
    if a < b {
        a
    } else {
        b
    }
}

/// `b` holds the first `n` bytes of `a` unchanged.
pub open spec fn keeps_prefix(a: Seq<u8>, b: Seq<u8>, n: usize) -> bool {
    &&& n <= a.len()
    &&& n <= b.len()
    &&& b.subrange(0, n as int) == a.subrange(0, n as int)
}

/// A size and alignment that the host allocator accepts: the alignment is a
/// power of two and the size, rounded up to it, stays within `isize::MAX`.
pub open spec fn is_valid_layout(size: usize, align: usize) -> bool {
    vstd::layout::valid_layout(size, align)
}

/// A memory allocator that data structures can share.
///
/// `allocate` hands out a block of the requested size and alignment exactly
/// when the allocator, in its present state, [`grants`](Alloc::grants) the
/// request. `release` takes back a block with the size and alignment it was
/// handed out with, and leaves the allocator in a state
/// [`released`](Alloc::released) relates to the one before. `reallocate`
/// resizes a block exactly when the new request is granted; when it is not,
/// the block comes back untouched.
pub trait Alloc: RcObject {
    /// The allocator, as it stands, satisfies a request for `size` bytes
    /// aligned to `align`.
    spec fn grants(&self, size: usize, align: usize) -> bool;

    /// `next` is the allocator after it took back a block of `size` bytes
    /// aligned to `align`.
    spec fn released(&self, next: &Self, size: usize, align: usize) -> bool;

    fn allocate(&mut self, size: usize, alignment: usize) -> (r: Option<Block>)
        ensures
            r is Some <==> old(self).grants(size, alignment),
            r matches Some(b) ==> b@.len() == size && b.spec_align() == alignment,
    ;

    fn release(&mut self, block: Block, size: usize, alignment: usize)
        requires
            block@.len() == size,
            block.spec_align() == alignment,
        ensures
            old(self).released(&*final(self), size, alignment),
    ;

    fn reallocate(
        &mut self,
        block: Block,
        size: usize,
        alignment: usize,
        new_size: usize,
        new_alignment: usize,
    ) -> (r: Result<Block, Block>)
        requires
            block@.len() == size,
            block.spec_align() == alignment,
        ensures
            r is Ok <==> old(self).grants(new_size, new_alignment),
            r matches Ok(b) ==> {
                &&& b@.len() == new_size
                &&& b.spec_align() == new_alignment
                &&& keeps_prefix(block@, b@, min_size(size, new_size))
            },
            r matches Err(b) ==> b@ == block@ && b.spec_align() == block.spec_align(),
    ;
}

/// Checks that `n` is a power of two.
fn power_of_two(n: usize) -> (r: bool)
    ensures
        r == is_pow2(n as int),
{
    proof {
        reveal(is_pow2);
    }
    if n == 0 {
        return false;
    }
    let mut m: usize = n;
    while m > 1 && m % 2 == 0
        invariant
            m > 0,
            is_pow2(n as int) == is_pow2(m as int),
        decreases m,
    {
        proof {
            reveal(is_pow2);
        }
        m = m / 2;
    }
    proof {
        reveal(is_pow2);
    }
    m == 1
}

/// Checks [`is_valid_layout`].
pub fn valid_layout(size: usize, align: usize) -> (r: bool)
    ensures
        r == is_valid_layout(size, align),
{
    if !power_of_two(align) {
        return false;
    }
    proof {
        reveal(is_pow2);
    }
    let top = isize::MAX as usize;
    let rest = top % align;
    assert(rest <= top) by (nonlinear_arith)
        requires
            align > 0,
            rest == top % align,
    ;
    size <= top - rest
}

/// The default allocator: every block comes from the host heap. It is meant to
/// be owned by the application for the whole run, so its reference hooks do
/// nothing.
pub struct StdAlloc {}

impl StdAlloc {
    pub fn new() -> (r: StdAlloc) {
        StdAlloc {  }
    }

    /// Moves the allocator into `arena` and returns its index there.
    pub fn into_ptr(self, arena: &mut RcArena<StdAlloc>) -> (i: usize)
        ensures
            i == old(arena)@.len(),
            final(arena).is_unreferenced(i),
            final(arena)@.len() == old(arena)@.len() + 1,
            final(arena).ids() == old(arena).ids(),
            forall|j: int| 0 <= j < old(arena)@.len() ==> final(arena)@[j] == old(arena)@[j],
    {
        arena.insert(self)
    }

    /// As [`StdAlloc::into_ptr`]: the arena hands out mutable access through
    /// the index.
    pub fn into_ptr_mut(self, arena: &mut RcArena<StdAlloc>) -> (i: usize)
        ensures
            i == old(arena)@.len(),
            final(arena).is_unreferenced(i),
            final(arena)@.len() == old(arena)@.len() + 1,
            final(arena).ids() == old(arena).ids(),
            forall|j: int| 0 <= j < old(arena)@.len() ==> final(arena)@[j] == old(arena)@[j],
    {
        self.into_ptr(arena)
    }
}

impl RcObject for StdAlloc {
    fn inc_ref(&mut self) {
    }

    fn dec_ref(&mut self) {
    }
}

impl Alloc for StdAlloc {
    /// The host heap satisfies every valid layout.
    open spec fn grants(&self, size: usize, align: usize) -> bool {
        is_valid_layout(size, align)
    }

    /// Taking a block back leaves nothing to observe.
    open spec fn released(&self, next: &Self, size: usize, align: usize) -> bool {
        *next == *self
    }

    fn allocate(&mut self, size: usize, alignment: usize) -> (r: Option<Block>) {
        if valid_layout(size, alignment) {
            Some(Block::new(size, alignment))
        } else {
            None
        }
    }

    /// The block's bytes go back to the host heap when it goes out of scope.
    fn release(&mut self, block: Block, size: usize, alignment: usize) {
    }

    fn reallocate(
        &mut self,
        block: Block,
        size: usize,
        alignment: usize,
        new_size: usize,
        new_alignment: usize,
    ) -> (r: Result<Block, Block>) {
        if alignment == new_alignment {
            if !valid_layout(new_size, alignment) {
                return Err(block);
            }
            let mut block = block;
            let ghost before = block@;
            block.bytes.resize(new_size, 0u8);
            let ghost m = min_size(size, new_size);
            assert(block@.subrange(0, m as int) =~= before.subrange(0, m as int));
            Ok(block)
        } else {
            let copy_size = if new_size > size {
                size
            } else {
                new_size
            };
            match self.allocate(new_size, new_alignment) {
                None => Err(block),
                Some(mut fresh) => {
                    let mut i: usize = 0;
                    while i < copy_size
                        invariant
                            i <= copy_size,
                            copy_size == min_size(size, new_size),
                            block@.len() == size,
                            fresh@.len() == new_size,
                            fresh.spec_align() == new_alignment,
                            fresh@.subrange(0, i as int) == block@.subrange(0, i as int),
                        decreases copy_size - i,
                    {
                        let v = block.read(i);
                        fresh.write(i, v);
                        i += 1;
                        assert(fresh@.subrange(0, i as int) =~= block@.subrange(0, i as int));
                    }
                    self.release(block, size, alignment);
                    Ok(fresh)
                },
            }
        }
    }
}

} // verus!
