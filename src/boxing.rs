//! A single value whose storage is taken from a shared allocator.
use crate::allocator::{Alloc, Block};
use crate::rcobj::{only_used, RcArena, RcObjectPtr};
use vstd::layout::{align_of, size_of};
use vstd::prelude::*;

verus! {

/// Owns one value, the block of its allocator that stands for the value's
/// storage, and a handle to that allocator.
///
/// The box is empty once its value has been destroyed ([`Box::reset`]) or
/// handed out ([`Box::release`]).
pub struct Box<T, A> {
    value: Option<T>,
    block: Option<Block>,
    alloc: RcObjectPtr<A>,
}

impl<T, A> Box<T, A> {
    /// The value held, or `None` once the box is empty.
    pub closed spec fn view(&self) -> Option<T> {
        self.value
    }

    /// The index of the box's allocator in its arena.
    pub closed spec fn alloc_index(&self) -> usize {
        self.alloc@->0
    }

    /// A value is held exactly while its block is, and the block has the
    /// value's size and alignment.
    pub closed spec fn wf(&self) -> bool {
        &&& self.alloc@ is Some
        &&& self.value is Some <==> self.block is Some
        &&& self.block matches Some(b) ==> b@.len() == size_of::<T>() && b.spec_align()
            == align_of::<T>()
    }

    /// What [`Box::reset`] does: a full box is emptied and its allocator has
    /// been used but keeps its count; an empty box and the arena stay as they are.
    pub open spec fn reset_step(self, arena: RcArena<A>, next: Self, next_arena: RcArena<A>) -> bool {
        &&& next.wf()
        &&& next@ is None
        &&& next.alloc_index() == self.alloc_index()
        &&& self@ is Some ==> only_used(arena, next_arena, self.alloc_index())
        &&& self@ is None ==> next == self && next_arena == arena
    }

    /// The value. The box must not be empty.
    pub fn borrow(&self) -> (r: &T)
        requires
            self@ is Some,
        ensures
            *r == self@->0,
    {
        self.value.as_ref().unwrap()
    }

    /// The value, to change. The box must not be empty.
    pub fn borrow_mut(&mut self) -> (r: &mut T)
        requires
            old(self)@ is Some,
        ensures
            *r == old(self)@->0,
            final(self)@ == Some(*final(r)),
            final(self).wf() == old(self).wf(),
            final(self).alloc_index() == old(self).alloc_index(),
    {
        match &mut self.value {
            Some(v) => v,
            None => unreached(),
        }
    }

    /// The value, if the box holds one.
    pub fn into_raw(&self) -> (r: Option<&T>)
        ensures
            r matches Some(v) ==> self@ == Some(*v),
            r is None <==> self@ is None,
    {
        self.value.as_ref()
    }

    /// The value, to change, if the box holds one.
    pub fn into_raw_mut(&mut self) -> (r: Option<&mut T>)
        ensures
            r matches Some(v) ==> old(self)@ == Some(*v) && final(self)@ == Some(*final(v)),
            r is None <==> old(self)@ is None,
            r is None ==> final(self)@ is None,
            final(self).wf() == old(self).wf(),
            final(self).alloc_index() == old(self).alloc_index(),
    {
        self.value.as_mut()
    }

    /// Hands the value and its block out without destroying or releasing
    /// anything; the box becomes empty. The caller now owns the block and
    /// gives it back to the allocator.
    pub fn release(&mut self) -> (r: Option<(T, Block)>)
        requires
            old(self).wf(),
        ensures
            final(self).wf(),
            final(self)@ is None,
            final(self).alloc_index() == old(self).alloc_index(),
            r is Some <==> old(self)@ is Some,
            r matches Some(p) ==> Some(p.0) == old(self)@ && p.1@.len() == size_of::<T>()
                && p.1.spec_align() == align_of::<T>(),
    {
        let value = self.value.take();
        let block = self.block.take();
        match value {
            Some(v) => match block {
                Some(b) => Some((v, b)),
                None => None,
            },
            None => None,
        }
    }
}

impl<T, A: Alloc> Box<T, A> {
    /// Takes storage for `data` from the allocator at `i` and moves `data` in;
    /// the box holds a new handle to that allocator. When the allocator
    /// refuses, or its count cannot grow, `data` comes back and the count is
    /// as it was.
    pub fn new(arena: &mut RcArena<A>, i: usize, data: T) -> (r: Result<Box<T, A>, T>)
        requires
            old(arena).is_live(i),
        ensures
            r matches Ok(b) ==> {
                &&& b.wf()
                &&& b@ == Some(data)
                &&& b.alloc_index() == i
                &&& old(arena).handle_added(*final(arena), i)
            },
            r matches Err(d) ==> d == data && only_used(*old(arena), *final(arena), i),
            r is Ok <==> old(arena).count(i) < usize::MAX && old(arena).obj(i).grants(
                size_of::<T>() as usize,
                align_of::<T>() as usize,
            ),
            old(arena).count(i) == usize::MAX ==> *final(arena) == *old(arena),
    {
        if arena.ref_count(i) == usize::MAX {
            return Err(data);
        }
        let size = core::mem::size_of::<T>();
        let align = core::mem::align_of::<T>();
        match arena.get_mut(i).allocate(size, align) {
            None => Err(data),
            Some(block) => {
                let alloc = RcObjectPtr::new(arena, i);
                Ok(Box { value: Some(data), block: Some(block), alloc })
            },
        }
    }

    /// Destroys the value and then gives its block back to the allocator; the
    /// box becomes empty and keeps its handle. On an empty box it does nothing,
    /// so a second call changes nothing.
    pub fn reset(&mut self, arena: &mut RcArena<A>)
        requires
            old(self).wf(),
            old(arena).is_live(old(self).alloc_index()),
        ensures
            old(self).reset_step(*old(arena), *final(self), *final(arena)),
            old(self)@ is Some ==> old(arena).obj(old(self).alloc_index()).released(
                &final(arena).obj(old(self).alloc_index()),
                size_of::<T>() as usize,
                align_of::<T>() as usize,
            ),
    {
        let value = self.value.take();
        let block = self.block.take();
        match value {
            Some(v) => {
                {
                    let _value = v;
                }
                match block {
                    Some(b) => {
                        let size = core::mem::size_of::<T>();
                        let align = core::mem::align_of::<T>();
                        self.alloc.borrow_mut(arena).release(b, size, align);
                    },
                    None => {},
                }
            },
            None => {},
        }
    }

    /// Ends the box: destroys the value, gives its block back, then gives up
    /// the handle to the allocator, in that order.
    pub fn destroy(self, arena: &mut RcArena<A>)
        requires
            self.wf(),
            old(arena).is_live(self.alloc_index()),
            old(arena).count(self.alloc_index()) > 0,
        ensures
            self@ is Some ==> exists|mid: A|
                #[trigger] old(arena).obj(self.alloc_index()).released(
                    &mid,
                    size_of::<T>() as usize,
                    align_of::<T>() as usize,
                ),
            final(arena)@.len() == old(arena)@.len(),
            final(arena).is_live(self.alloc_index()),
            final(arena).count(self.alloc_index()) + 1 == old(arena).count(self.alloc_index()),
            forall|j: int|
                0 <= j < old(arena)@.len() && j != self.alloc_index() ==> final(arena)@[j]
                    == old(arena)@[j],
    {
        let mut b = self;
        b.reset(arena);
        let ghost mid = arena.obj(b.alloc_index());
        assert(self@ is Some ==> old(arena).obj(self.alloc_index()).released(
            &mid,
            size_of::<T>() as usize,
            align_of::<T>() as usize,
        ));
        b.alloc.reset(arena);
    }
}

/// Resetting a box twice has the effect of resetting it once: the second
/// reset finds the box empty and changes neither the box nor the arena.
pub proof fn lemma_reset_idempotent<T, A>(
    b0: Box<T, A>,
    a0: RcArena<A>,
    b1: Box<T, A>,
    a1: RcArena<A>,
    b2: Box<T, A>,
    a2: RcArena<A>,
)
    requires
        b0.reset_step(a0, b1, a1),
        b1.reset_step(a1, b2, a2),
    ensures
        b2 == b1,
        a2 == a1,
{
}

} // verus!
