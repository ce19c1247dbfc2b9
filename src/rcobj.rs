//! Counted handles to shared capability objects.
use vstd::prelude::*;

verus! {

/// The lifecycle hooks of an object that handles may share.
///
/// Only [`RcObjectPtr`] calls them: once for each handle that starts to
/// refer to the object and once for each handle that stops.
pub trait RcObject {
    fn inc_ref(&mut self);

    fn dec_ref(&mut self);
}

/// One place of an [`RcArena`]: the object, while it lives, and the number of
/// handles that refer to it.
pub struct RcSlot<T> {
    pub obj: Option<T>,
    pub count: usize,
}

/// The home of shared objects. An object is put in with [`RcArena::insert`],
/// is referred to by index, and can be taken out again only once no handle
/// refers to it.
pub struct RcArena<T> {
    slots: Vec<RcSlot<T>>,
    /// The identity the next list made on this arena receives.
    next_id: u64,
}

impl<T> View for RcArena<T> {
    type V = Seq<RcSlot<T>>;

    closed spec fn view(&self) -> Seq<RcSlot<T>> {
        self.slots@
    }
}

impl<T> RcArena<T> {
    /// How many list identities the arena has handed out; the next one is
    /// this number.
    pub closed spec fn ids(&self) -> u64 {
        self.next_id
    }

    /// Hands out a list identity that no earlier call on this arena gave.
    pub(crate) fn mint_id(&mut self) -> (r: u64)
        requires
            old(self).ids() < u64::MAX,
        ensures
            r == old(self).ids(),
            final(self).ids() == old(self).ids() + 1,
            final(self)@ == old(self)@,
    {
        let r = self.next_id;
        self.next_id = self.next_id + 1;
        r
    }

    /// The object at `i` exists.
    pub open spec fn is_live(&self, i: usize) -> bool {
        &&& i < self@.len()
        &&& self@[i as int].obj is Some
    }

    /// The object at `i`.
    pub open spec fn obj(&self, i: usize) -> T {
        self@[i as int].obj->0
    }

    /// The number of handles that refer to the object at `i`.
    pub open spec fn count(&self, i: usize) -> nat {
        self@[i as int].count as nat
    }

    pub fn new() -> (r: RcArena<T>)
        ensures
            r@.len() == 0,
            r.ids() == 0,
    {
        RcArena { slots: Vec::new(), next_id: 0 }
    }

    /// Puts `obj` in a new place, referred to by no handle yet.
    pub fn insert(&mut self, obj: T) -> (i: usize)
        ensures
            i == old(self)@.len(),
            final(self)@ == old(self)@.push(RcSlot { obj: Some(obj), count: 0 }),
            final(self).ids() == old(self).ids(),
    {
        let i = self.slots.len();
        self.slots.push(RcSlot { obj: Some(obj), count: 0 });
        i
    }

    pub fn len(&self) -> (r: usize)
        ensures
            r == self@.len(),
    {
        self.slots.len()
    }

    pub fn live(&self, i: usize) -> (r: bool)
        ensures
            r == self.is_live(i),
    {
        i < self.slots.len() && self.slots[i].obj.is_some()
    }

    pub fn ref_count(&self, i: usize) -> (r: usize)
        requires
            i < self@.len(),
        ensures
            r == self.count(i),
    {
        self.slots[i].count
    }

    /// The object at `i` may be destroyed: it exists and no handle refers to it.
    pub open spec fn is_unreferenced(&self, i: usize) -> bool {
        self.is_live(i) && self.count(i) == 0
    }

    /// Takes the object at `i` out when no handle refers to it any more;
    /// otherwise leaves everything as it is and returns `None`.
    pub fn retire(&mut self, i: usize) -> (r: Option<T>)
        ensures
            old(self).is_unreferenced(i) ==> r == Some(old(self).obj(i)) && final(self)@
                == old(self)@.update(i as int, RcSlot { obj: None, count: 0 }),
            !old(self).is_unreferenced(i) ==> r is None && final(self)@ == old(self)@,
            final(self).ids() == old(self).ids(),
    {
        if i < self.slots.len() && self.slots[i].count == 0 && self.slots[i].obj.is_some() {
            let mut slot = RcSlot { obj: None, count: 0 };
            std::mem::swap(&mut self.slots[i], &mut slot);
            slot.obj
        } else {
            None
        }
    }

    /// The object at `i`, to read.
    pub fn get(&self, i: usize) -> (r: &T)
        requires
            self.is_live(i),
        ensures
            *r == self.obj(i),
    {
        self.slots[i].obj.as_ref().unwrap()
    }

    /// The object at `i`, to change; its count stays.
    pub fn get_mut(&mut self, i: usize) -> (r: &mut T)
        requires
            old(self).is_live(i),
        ensures
            *r == old(self).obj(i),
            final(self)@ == old(self)@.update(
                i as int,
                RcSlot { obj: Some(*final(r)), count: old(self)@[i as int].count },
            ),
            final(self).ids() == old(self).ids(),
    {
        let slot = &mut self.slots[i];
        match &mut slot.obj {
            Some(o) => o,
            None => unreached(),
        }
    }
}


impl<T> RcArena<T> {
    /// `next` is `self` with one more handle to the object at `i`; only that
    /// object's hooks may have changed it.
    pub open spec fn handle_added(self, next: Self, i: usize) -> bool {
        &&& next@.len() == self@.len()
        &&& next.is_live(i)
        &&& next.count(i) == self.count(i) + 1
        &&& next.ids() == self.ids()
        &&& forall|j: int| 0 <= j < self@.len() && j != i ==> next@[j] == self@[j]
    }

    /// `next` is `self` with one handle fewer to the object at `i`; only that
    /// object's hooks may have changed it.
    pub open spec fn handle_dropped(self, next: Self, i: usize) -> bool {
        &&& next@.len() == self@.len()
        &&& next.is_live(i)
        &&& next.count(i) + 1 == self.count(i)
        &&& next.ids() == self.ids()
        &&& forall|j: int| 0 <= j < self@.len() && j != i ==> next@[j] == self@[j]
    }
}

/// The arena is as before but for the object at `i`, which is still there,
/// has the same count, and may have changed through its own methods.
pub open spec fn only_used<A>(a: RcArena<A>, b: RcArena<A>, i: usize) -> bool {
    &&& b@.len() == a@.len()
    &&& b.is_live(i)
    &&& b.count(i) == a.count(i)
    &&& b.ids() == a.ids()
    &&& forall|j: int| 0 <= j < a@.len() && j != i ==> b@[j] == a@[j]
}

impl<T: RcObject> RcArena<T> {
    fn acquire(&mut self, i: usize)
        requires
            old(self).is_live(i),
            old(self).count(i) < usize::MAX,
        ensures
            old(self).handle_added(*final(self), i),
    {
        let slot = &mut self.slots[i];
        slot.count = slot.count + 1;
        match &mut slot.obj {
            Some(o) => o.inc_ref(),
            None => {},
        }
    }

    fn unacquire(&mut self, i: usize)
        requires
            old(self).is_live(i),
            old(self).count(i) > 0,
        ensures
            old(self).handle_dropped(*final(self), i),
    {
        let slot = &mut self.slots[i];
        slot.count = slot.count - 1;
        match &mut slot.obj {
            Some(o) => o.dec_ref(),
            None => {},
        }
    }
}

/// A counted handle to an object of an [`RcArena`], or an inert handle.
///
/// A handle that refers to an object stands for one unit of its count.
/// Handles are given back with [`RcObjectPtr::reset`], which makes them inert.
pub struct RcObjectPtr<T> {
    slot: Option<usize>,
    marker: core::marker::PhantomData<T>,
}

impl<T> View for RcObjectPtr<T> {
    type V = Option<usize>;

    /// The index of the object referred to, or `None` when inert.
    closed spec fn view(&self) -> Option<usize> {
        self.slot
    }
}

impl<T: RcObject> RcObjectPtr<T> {
    /// A handle that refers to nothing.
    pub fn inert() -> (r: RcObjectPtr<T>)
        ensures
            r@ is None,
    {
        RcObjectPtr { slot: None, marker: core::marker::PhantomData }
    }

    /// Takes a new handle to the object at `i`.
    pub fn new(arena: &mut RcArena<T>, i: usize) -> (r: RcObjectPtr<T>)
        requires
            old(arena).is_live(i),
            old(arena).count(i) < usize::MAX,
        ensures
            r@ == Some(i),
            old(arena).handle_added(*final(arena), i),
    {
        arena.acquire(i);
        RcObjectPtr { slot: Some(i), marker: core::marker::PhantomData }
    }

    /// Takes a new handle to the object at `i`, as [`RcObjectPtr::new`].
    pub fn from_raw(arena: &mut RcArena<T>, i: usize) -> (r: RcObjectPtr<T>)
        requires
            old(arena).is_live(i),
            old(arena).count(i) < usize::MAX,
        ensures
            r@ == Some(i),
            old(arena).handle_added(*final(arena), i),
    {
        Self::new(arena, i)
    }

    /// The index referred to, or `None` when inert.
    pub fn into_raw(&self) -> (r: Option<usize>)
        ensures
            r == self@,
    {
        self.slot
    }

    /// The index referred to, or `None` when inert.
    pub fn into_raw_mut(&self) -> (r: Option<usize>)
        ensures
            r == self@,
    {
        self.slot
    }

    /// The object referred to. The handle must not be inert.
    pub fn borrow<'a>(&self, arena: &'a RcArena<T>) -> (r: &'a T)
        requires
            self@ is Some,
            arena.is_live(self@->0),
        ensures
            *r == arena.obj(self@->0),
    {
        arena.get(self.slot.unwrap())
    }

    /// The object referred to, to change. The handle must not be inert.
    pub fn borrow_mut<'a>(&self, arena: &'a mut RcArena<T>) -> (r: &'a mut T)
        requires
            self@ is Some,
            old(arena).is_live(self@->0),
        ensures
            *r == old(arena).obj(self@->0),
            final(arena)@ == old(arena)@.update(
                self@->0 as int,
                RcSlot { obj: Some(*final(r)), count: old(arena)@[self@->0 as int].count },
            ),
            final(arena).ids() == old(arena).ids(),
    {
        arena.get_mut(self.slot.unwrap())
    }

    /// Gives the handle's unit of count back, once: the handle becomes inert
    /// and a second reset does nothing.
    pub fn reset(&mut self, arena: &mut RcArena<T>)
        requires
            old(self)@ matches Some(i) ==> old(arena).is_live(i) && old(arena).count(i) > 0,
        ensures
            final(self)@ is None,
            old(self)@ matches Some(i) ==> old(arena).handle_dropped(*final(arena), i),
            old(self)@ is None ==> *final(arena) == *old(arena),
    {
        match self.slot {
            Some(i) => {
                arena.unacquire(i);
                self.slot = None;
            },
            None => {},
        }
    }

    /// Hands the reference over without giving its count back: the caller
    /// now stands for that unit. The handle becomes inert.
    pub fn release(&mut self) -> (r: Option<usize>)
        ensures
            r == old(self)@,
            final(self)@ is None,
    {
        let r = self.slot;
        self.slot = None;
        r
    }

    /// A second handle to the same object, which takes one more unit of its
    /// count. The clone of an inert handle is inert and changes nothing.
    pub fn clone(&self, arena: &mut RcArena<T>) -> (r: RcObjectPtr<T>)
        requires
            self@ matches Some(i) ==> old(arena).is_live(i) && old(arena).count(i) < usize::MAX,
        ensures
            r@ == self@,
            self@ matches Some(i) ==> old(arena).handle_added(*final(arena), i),
            self@ is None ==> *final(arena) == *old(arena),
    {
        match self.slot {
            Some(i) => {
                arena.acquire(i);
                RcObjectPtr { slot: Some(i), marker: core::marker::PhantomData }
            },
            None => RcObjectPtr { slot: None, marker: core::marker::PhantomData },
        }
    }
}


/// Counting law of handles. Start from an object that no handle refers to,
/// take one handle to it, clone it `n` times, then reset all `n + 1` handles,
/// one step per state of `s`: the object may be destroyed after the last
/// reset and at no state in between.
pub proof fn lemma_freed_only_after_last_reset<T>(s: Seq<RcArena<T>>, i: usize, n: nat)
    requires
        s.len() == 2 * n + 3,
        s[0].is_unreferenced(i),
        forall|j: int| 0 <= j <= n ==> #[trigger] s[j].handle_added(s[j + 1], i),
        forall|j: int| n + 1 <= j < 2 * n + 2 ==> #[trigger] s[j].handle_dropped(s[j + 1], i),
    ensures
        forall|j: int| 0 < j < 2 * n + 2 ==> !(#[trigger] s[j].is_unreferenced(i)),
        s[2 * n + 2 as int].is_unreferenced(i),
{
    lemma_counts_along(s, i, n, 2 * n + 2);
    assert forall|j: int| 0 < j < 2 * n + 2 implies !(#[trigger] s[j].is_unreferenced(i)) by {
        lemma_counts_along(s, i, n, j as nat);
    }
}

proof fn lemma_counts_along<T>(s: Seq<RcArena<T>>, i: usize, n: nat, k: nat)
    requires
        s.len() == 2 * n + 3,
        k <= 2 * n + 2,
        s[0].is_unreferenced(i),
        forall|j: int| 0 <= j <= n ==> #[trigger] s[j].handle_added(s[j + 1], i),
        forall|j: int| n + 1 <= j < 2 * n + 2 ==> #[trigger] s[j].handle_dropped(s[j + 1], i),
    ensures
        s[k as int].is_live(i),
        k <= n + 1 ==> s[k as int].count(i) == k,
        k > n + 1 ==> s[k as int].count(i) == 2 * n + 2 - k,
    decreases k,
{
    if k > 0 {
        let j: int = k - 1;
        lemma_counts_along(s, i, n, j as nat);
        if k <= n + 1 {
            assert(s[j].handle_added(s[j + 1], i));
        } else {
            assert(s[j].handle_dropped(s[j + 1], i));
        }
    }
}

} // verus!
