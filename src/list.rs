//! A doubly linked list whose nodes live in a slab and whose storage is
//! accounted for by a shared allocator.
use crate::allocator::{Alloc, Block};
use crate::rcobj::{only_used, RcArena, RcObjectPtr};
use vstd::layout::{align_of, size_of};
use vstd::prelude::*;

verus! {

/// One element of a [`List`]: the value, the links to its neighbours (slab
/// indices), the block its storage was taken as, and its own handle to the
/// allocator that block came from.
pub struct ListNode<T, A> {
    alloc: RcObjectPtr<A>,
    data: T,
    prev: Option<usize>,
    next: Option<usize>,
    block: Block,
}

/// A doubly linked sequence of values.
///
/// Nodes are kept in a slab and linked by index. Each node's storage is a
/// block taken from the list's allocator, and each node holds a handle of its
/// own to that allocator.
pub struct List<T, A> {
    alloc: RcObjectPtr<A>,
    /// The list's identity among the lists of its arena.
    id: u64,
    nodes: Vec<Option<ListNode<T, A>>>,
    first: Option<usize>,
    last: Option<usize>,
    size: usize,
    /// The slab indices of the nodes, from first to last.
    order: Ghost<Seq<usize>>,
    /// Empty places of the slab, to be used again.
    free: Vec<usize>,
}

impl<T, A> List<T, A> {
    pub closed spec fn node(&self, k: usize) -> ListNode<T, A> {
        self.nodes@[k as int]->0
    }

    /// The slab indices of the elements, from first to last.
    pub closed spec fn links(&self) -> Seq<usize> {
        self.order@
    }

    /// The index of the list's allocator in its arena.
    pub closed spec fn alloc_index(&self) -> usize {
        self.alloc@->0
    }

    /// The list's identity, which its cursors carry.
    pub closed spec fn id(&self) -> u64 {
        self.id
    }

    /// The values from first to last.
    pub closed spec fn view(&self) -> Seq<T> {
        self.order@.map_values(|k: usize| self.node(k).data)
    }

    /// The slab index at position `pos`, or `None` for the end.
    pub closed spec fn at(&self, pos: int) -> Option<usize> {
        if 0 <= pos < self.order@.len() {
            Some(self.order@[pos])
        } else {
            None
        }
    }

    fn prev_of(&self, k: usize) -> (r: Option<usize>)
        requires
            k < self.nodes@.len(),
            self.nodes@[k as int] is Some,
        ensures
            r == self.node(k).prev,
    {
        match &self.nodes[k] {
            Some(n) => n.prev,
            None => None,
        }
    }

    fn next_of(&self, k: usize) -> (r: Option<usize>)
        requires
            k < self.nodes@.len(),
            self.nodes@[k as int] is Some,
        ensures
            r == self.node(k).next,
    {
        match &self.nodes[k] {
            Some(n) => n.next,
            None => None,
        }
    }

    /// `c` names a node of the list, or the end when `None`.
    pub closed spec fn holds(&self, c: Option<usize>) -> bool {
        c matches Some(k) ==> exists|i: int| 0 <= i < self.order@.len() && self.order@[i] == k
    }

    /// The position that `c` names: that of its node, or the length for the end.
    pub closed spec fn position(&self, c: Option<usize>) -> int {
        match c {
            Some(k) => choose|i: int| 0 <= i < self.order@.len() && self.order@[i] == k,
            None => self.order@.len() as int,
        }
    }

    proof fn lemma_position(&self, c: Option<usize>)
        requires
            self.wf(),
            self.holds(c),
        ensures
            0 <= self.position(c) <= self@.len(),
            c is Some <==> self.position(c) < self@.len(),
            self.at(self.position(c)) == c,
    {
        if let Some(k) = c {
            let i = choose|i: int| 0 <= i < self.order@.len() && self.order@[i] == k;
            assert(self.position(c) == i);
        }
    }

    /// The node at position `i` is a node of the list.
    proof fn lemma_holds_at(&self, i: int)
        requires
            self.wf(),
            0 <= i <= self@.len(),
        ensures
            self.holds(self.at(i)),
            self.position(self.at(i)) == i,
    {
        if i < self@.len() {
            assert(self.order@[i] == self.at(i)->0);
            self.lemma_position(self.at(i));
            let j = self.position(self.at(i));
            if j != i {
                assert(self.order@[i] != self.order@[j]);
            }
        }
    }

    /// The list's links agree with its order of elements: the ends, the
    /// neighbours of every node, the count, and each node's block and handle.
    pub closed spec fn wf(&self) -> bool {
        let o = self.order@;
        &&& self.alloc@ is Some
        &&& o.len() == self.size
        &&& forall|i: int|
            0 <= i < o.len() ==> #[trigger] o[i] < self.nodes@.len() && self.nodes@[o[i] as int] is Some
        &&& forall|i: int, j: int| 0 <= i < j < o.len() ==> o[i] != o[j]
        &&& forall|i: int|
            0 <= i < o.len() ==> (#[trigger] self.node(o[i])).prev == if i == 0 {
                None
            } else {
                Some(o[i - 1])
            }
        &&& forall|i: int|
            0 <= i < o.len() ==> (#[trigger] self.node(o[i])).next == if i == o.len() - 1 {
                None
            } else {
                Some(o[i + 1])
            }
        &&& forall|i: int|
            0 <= i < o.len() ==> {
                let n = #[trigger] self.node(o[i]);
                &&& n.alloc@ == self.alloc@
                &&& n.block@.len() == size_of::<ListNode<T, A>>()
                &&& n.block.spec_align() == align_of::<ListNode<T, A>>()
            }
        &&& self.first == if o.len() == 0 {
            None
        } else {
            Some(o[0])
        }
        &&& forall|i: int|
            0 <= i < self.free@.len() ==> #[trigger] self.free@[i] < self.nodes@.len()
                && self.nodes@[self.free@[i] as int] is None
        &&& forall|i: int, j: int|
            0 <= i < j < self.free@.len() ==> self.free@[i] != self.free@[j]
        &&& self.last == if o.len() == 0 {
            None
        } else {
            Some(o[o.len() - 1])
        }
    }
}

/// The size of a list node, as requested from the allocator.
pub open spec fn node_size<T, A>() -> usize {
    size_of::<ListNode<T, A>>() as usize
}

/// The alignment of a list node, as requested from the allocator.
pub open spec fn node_align<T, A>() -> usize {
    align_of::<ListNode<T, A>>() as usize
}

/// A node can be added: the length and the allocator's count can grow, and
/// the allocator grants a node's layout.
pub open spec fn node_granted<T, A: Alloc>(len: nat, arena: RcArena<A>, a: usize) -> bool {
    &&& len < usize::MAX
    &&& arena.count(a) < usize::MAX
    &&& arena.obj(a).grants(node_size::<T, A>(), node_align::<T, A>())
}

/// Points the node at `k` forward to `v`.
fn set_next<T, A>(nodes: &mut Vec<Option<ListNode<T, A>>>, k: usize, v: Option<usize>)
    requires
        k < old(nodes)@.len(),
        old(nodes)@[k as int] is Some,
    ensures
        final(nodes)@ == old(nodes)@.update(
            k as int,
            Some(ListNode { next: v, ..old(nodes)@[k as int]->0 }),
        ),
{
    match &mut nodes[k] {
        Some(n) => {
            n.next = v;
        },
        None => {},
    }
}

/// Points the node at `k` back to `v`.
fn set_prev<T, A>(nodes: &mut Vec<Option<ListNode<T, A>>>, k: usize, v: Option<usize>)
    requires
        k < old(nodes)@.len(),
        old(nodes)@[k as int] is Some,
    ensures
        final(nodes)@ == old(nodes)@.update(
            k as int,
            Some(ListNode { prev: v, ..old(nodes)@[k as int]->0 }),
        ),
{
    match &mut nodes[k] {
        Some(n) => {
            n.prev = v;
        },
        None => {},
    }
}

/// Empties the place at `k` and returns the node that was there.
fn take_node<T, A>(nodes: &mut Vec<Option<ListNode<T, A>>>, k: usize) -> (r: ListNode<T, A>)
    requires
        k < old(nodes)@.len(),
        old(nodes)@[k as int] is Some,
    ensures
        r == old(nodes)@[k as int]->0,
        final(nodes)@ == old(nodes)@.update(k as int, None),
{
    let mut slot: Option<ListNode<T, A>> = None;
    std::mem::swap(&mut nodes[k], &mut slot);
    match slot {
        Some(n) => n,
        None => unreached(),
    }
}

/// The value of the node at `k`, to change.
fn data_mut<T, A>(nodes: &mut Vec<Option<ListNode<T, A>>>, k: usize) -> (r: &mut T)
    requires
        k < old(nodes)@.len(),
        old(nodes)@[k as int] is Some,
    ensures
        *r == old(nodes)@[k as int]->0.data,
        final(nodes)@ == old(nodes)@.update(
            k as int,
            Some(ListNode { data: *final(r), ..old(nodes)@[k as int]->0 }),
        ),
{
    match &mut nodes[k] {
        Some(n) => &mut n.data,
        None => unreached(),
    }
}


impl<T, A: Alloc> List<T, A> {
    /// An empty list that takes a handle to the allocator at `i` and the
    /// next list identity of the arena.
    pub fn new(arena: &mut RcArena<A>, i: usize) -> (r: List<T, A>)
        requires
            old(arena).is_live(i),
            old(arena).count(i) < usize::MAX,
            old(arena).ids() < u64::MAX,
        ensures
            r.wf(),
            r@ == Seq::<T>::empty(),
            r.alloc_index() == i,
            r.id() == old(arena).ids(),
            final(arena).ids() == old(arena).ids() + 1,
            final(arena)@.len() == old(arena)@.len(),
            final(arena).is_live(i),
            final(arena).count(i) == old(arena).count(i) + 1,
            forall|j: int| 0 <= j < old(arena)@.len() && j != i ==> final(arena)@[j] == old(arena)@[j],
    {
        let id = arena.mint_id();
        let alloc = RcObjectPtr::new(arena, i);
        let r = List {
            alloc,
            id,
            nodes: Vec::new(),
            first: None,
            last: None,
            size: 0,
            order: Ghost(Seq::empty()),
            free: Vec::new(),
        };
        assert(r@ =~= Seq::<T>::empty());
        r
    }

    /// A node for `data` whose storage is a fresh block of the list's
    /// allocator and which holds a handle of its own to it; `data` comes back
    /// when the allocator refuses or its count cannot grow.
    fn alloc_node(&self, arena: &mut RcArena<A>, data: T) -> (r: Result<ListNode<T, A>, T>)
        requires
            self.wf(),
            old(arena).is_live(self.alloc_index()),
        ensures
            r matches Ok(n) ==> {
                &&& n.data == data
                &&& n.prev is None
                &&& n.next is None
                &&& n.alloc@ == self.alloc@
                &&& n.block@.len() == size_of::<ListNode<T, A>>()
                &&& n.block.spec_align() == align_of::<ListNode<T, A>>()
                &&& old(arena).handle_added(*final(arena), self.alloc_index())
            },
            r matches Err(d) ==> d == data && only_used(*old(arena), *final(arena), self.alloc_index()),
            r is Ok <==> old(arena).count(self.alloc_index()) < usize::MAX && old(arena).obj(
                self.alloc_index(),
            ).grants(node_size::<T, A>(), node_align::<T, A>()),
            old(arena).count(self.alloc_index()) == usize::MAX ==> *final(arena) == *old(arena),
    {
        let a = self.alloc.into_raw().unwrap();
        if arena.ref_count(a) == usize::MAX {
            return Err(data);
        }
        let size = core::mem::size_of::<ListNode<T, A>>();
        let align = core::mem::align_of::<ListNode<T, A>>();
        let got = self.alloc.borrow_mut(arena).allocate(size, align);
        match got {
            None => Err(data),
            Some(block) => {
                let handle = self.alloc.clone(arena);
                Ok(ListNode { alloc: handle, data, prev: None, next: None, block })
            },
        }
    }

    /// Destroys the node's value, gives its block back to the allocator, then
    /// gives up the node's handle, in that order.
    fn dealloc_node(arena: &mut RcArena<A>, node: ListNode<T, A>)
        requires
            node.alloc@ is Some,
            old(arena).is_live(node.alloc@->0),
            old(arena).count(node.alloc@->0) > 0,
            node.block@.len() == size_of::<ListNode<T, A>>(),
            node.block.spec_align() == align_of::<ListNode<T, A>>(),
        ensures
            old(arena).handle_dropped(*final(arena), node.alloc@->0),
            exists|mid: A|
                #[trigger] old(arena).obj(node.alloc@->0).released(&mid, node_size::<T, A>(), node_align::<T, A>()),
    {
        let ListNode { mut alloc, data, prev, next, block } = node;
        {
            let _value = data;
        }
        let size = core::mem::size_of::<ListNode<T, A>>();
        let align = core::mem::align_of::<ListNode<T, A>>();
        alloc.borrow_mut(arena).release(block, size, align);
        let ghost mid = arena.obj(node.alloc@->0);
        assert(old(arena).obj(node.alloc@->0).released(&mid, node_size::<T, A>(), node_align::<T, A>()));
        alloc.reset(arena);
    }

    /// Links a fresh node in before the node `before` (at position `pos`), or
    /// at the end when `before` is `None`.
    #[verifier::rlimit(60)]
    fn link_before(&mut self, node: ListNode<T, A>, before: Option<usize>, pos: Ghost<int>)
        requires
            old(self).wf(),
            old(self).size < usize::MAX,
            0 <= pos@ <= old(self)@.len(),
            before == old(self).at(pos@),
            node.alloc@ == old(self).alloc@,
            node.block@.len() == size_of::<ListNode<T, A>>(),
            node.block.spec_align() == align_of::<ListNode<T, A>>(),
        ensures
            final(self).wf(),
            final(self).alloc == old(self).alloc,
            final(self).id == old(self).id,
            final(self)@ == old(self)@.insert(pos@, node.data),
            final(self).links() == old(self).links().insert(pos@, final(self).links()[pos@]),
    {
        let ghost old_order = self.order@;
        let ghost n = old_order.len() as int;
        let ghost p = pos@;
        let ghost old_free = self.free@;
        let mut node = node;
        let k = match self.free.pop() {
            Some(f) => f,
            None => {
                self.nodes.push(None);
                self.nodes.len() - 1
            },
        };
        let ghost old_nodes = self.nodes@;
        proof {
            assert forall|j: int| 0 <= j < n implies #[trigger] old_nodes[old_order[j] as int]
                == old(self).nodes@[old_order[j] as int] by {
                assert(old(self).nodes@[old_order[j] as int] is Some);
            }
            assert forall|i: int| 0 <= i < self.free@.len() implies #[trigger] self.free@[i] != k by {
                assert(old_free[i] != old_free[old_free.len() - 1]);
            }
        }
        let prev = match before {
            Some(b) => self.prev_of(b),
            None => self.last,
        };
        proof {
            if p > 0 {
                assert(old_nodes[old_order[p - 1] as int] is Some);
            }
            if p < n {
                assert(old_nodes[old_order[p] as int] is Some);
                assert(old(self).node(old_order[p]).prev == if p == 0 {
                    None
                } else {
                    Some(old_order[p - 1])
                });
            }
            assert(prev == if p == 0 {
                None
            } else {
                Some(old_order[p - 1])
            });
        }
        node.prev = prev;
        node.next = before;
        match prev {
            Some(q) => set_next(&mut self.nodes, q, Some(k)),
            None => {
                self.first = Some(k);
            },
        }
        match before {
            Some(b) => set_prev(&mut self.nodes, b, Some(k)),
            None => {
                self.last = Some(k);
            },
        }
        self.nodes.set(k, Some(node));
        self.size = self.size + 1;
        self.order = Ghost(old_order.insert(p, k));
        proof {
            let o = self.order@;
            assert forall|j: int| 0 <= j < n implies old_order[j] != k && #[trigger] self.nodes@[old_order[j] as int]
                == Some(ListNode {
                prev: if j == p {
                    Some(k)
                } else {
                    old_nodes[old_order[j] as int]->0.prev
                },
                next: if j == p - 1 {
                    Some(k)
                } else {
                    old_nodes[old_order[j] as int]->0.next
                },
                ..old_nodes[old_order[j] as int]->0
            }) by {
                assert(old_nodes[old_order[j] as int] is Some);
                if p > 0 && j != p - 1 {
                    assert(old_order[j] != old_order[p - 1]);
                }
                if p < n && j != p {
                    assert(old_order[j] != old_order[p]);
                }
            }
            assert forall|i: int| 0 <= i < o.len() implies o[i] == if i < p {
                old_order[i]
            } else if i == p {
                k
            } else {
                old_order[i - 1]
            } by {}
            assert forall|i: int| 0 <= i < o.len() implies #[trigger] o[i] < self.nodes@.len()
                && self.nodes@[o[i] as int] is Some by {
                if i < p {
                    assert(self.nodes@[old_order[i] as int] is Some);
                } else if i > p {
                    assert(self.nodes@[old_order[i - 1] as int] is Some);
                }
            }
            assert forall|i: int, j: int| 0 <= i < j < o.len() implies o[i] != o[j] by {
                let a = if i < p { i } else { i - 1 };
                let b = if j < p { j } else { j - 1 };
                if i != p && j != p {
                    assert(old_order[a] != old_order[b]);
                } else if i == p {
                    assert(self.nodes@[old_order[b] as int] is Some);
                } else {
                    assert(self.nodes@[old_order[a] as int] is Some);
                }
            }
            assert forall|i: int| 0 <= i < o.len() implies (#[trigger] self.node(o[i])).prev
                == if i == 0 {
                None
            } else {
                Some(o[i - 1])
            } && self.node(o[i]).next == if i == o.len() - 1 {
                None
            } else {
                Some(o[i + 1])
            } && {
                let nd = self.node(o[i]);
                &&& nd.alloc@ == self.alloc@
                &&& nd.block@.len() == size_of::<ListNode<T, A>>()
                &&& nd.block.spec_align() == align_of::<ListNode<T, A>>()
            } by {
                if i < p {
                    assert(self.nodes@[old_order[i] as int] is Some);
                    assert(old(self).node(old_order[i]) == old_nodes[old_order[i] as int]->0);
                } else if i > p {
                    assert(self.nodes@[old_order[i - 1] as int] is Some);
                    assert(old(self).node(old_order[i - 1]) == old_nodes[old_order[i
                        - 1] as int]->0);
                }
            }
            assert(self@ =~= old(self)@.insert(p, node.data)) by {
                assert forall|i: int| 0 <= i < o.len() implies self@[i] == old(self)@.insert(
                    p,
                    node.data,
                )[i] by {
                    if i < p {
                        assert(self.nodes@[old_order[i] as int] is Some);
                    } else if i > p {
                        assert(self.nodes@[old_order[i - 1] as int] is Some);
                    }
                }
            }
        }
    }

    /// Appends `data` and returns it, to change in place. It succeeds exactly
    /// when the allocator grants a node's layout and neither the length nor
    /// the allocator's count is at its limit; then the list holds one more
    /// node and the allocator one more handle. Otherwise `data` comes back and
    /// the list is as it was.
    pub fn push_back(&mut self, arena: &mut RcArena<A>, data: T) -> (r: Result<&mut T, T>)
        requires
            old(self).wf(),
            old(arena).is_live(old(self).alloc_index()),
        ensures
            final(self).wf(),
            final(self).alloc_index() == old(self).alloc_index(),
            final(self).id() == old(self).id(),
            r is Ok <==> node_granted::<T, A>(old(self)@.len(), *old(arena), old(self).alloc_index()),
            old(self)@.len() == usize::MAX || old(arena).count(old(self).alloc_index()) == usize::MAX
                ==> *final(arena) == *old(arena),
            r is Ok ==> final(self).links() == old(self).links().insert(old(self)@.len() as int, final(self).links()[old(self)@.len() as int]),
            r is Err ==> final(self).links() == old(self).links(),
            r matches Ok(v) ==> *v == data && final(self)@ == apply_op(old(self)@, EndOp::PushBack(*final(v))) && old(arena).handle_added(
                *final(arena),
                old(self).alloc_index(),
            ),
            r matches Err(d) ==> d == data && final(self)@ == old(self)@ && only_used(
                *old(arena),
                *final(arena),
                old(self).alloc_index(),
            ),
    {
        if self.size == usize::MAX {
            return Err(data);
        }
        match self.alloc_node(arena, data) {
            Err(d) => Err(d),
            Ok(node) => {
                let ghost pos = self@.len() as int;
                self.link_before(node, None, Ghost(pos));
                Ok(self.back_mut())
            },
        }
    }

    /// Prepends `data` and returns it, to change in place. It succeeds and
    /// fails as [`List::push_back`] does.
    pub fn push_front(&mut self, arena: &mut RcArena<A>, data: T) -> (r: Result<&mut T, T>)
        requires
            old(self).wf(),
            old(arena).is_live(old(self).alloc_index()),
        ensures
            final(self).wf(),
            final(self).alloc_index() == old(self).alloc_index(),
            final(self).id() == old(self).id(),
            r is Ok <==> node_granted::<T, A>(old(self)@.len(), *old(arena), old(self).alloc_index()),
            old(self)@.len() == usize::MAX || old(arena).count(old(self).alloc_index()) == usize::MAX
                ==> *final(arena) == *old(arena),
            r is Ok ==> final(self).links() == old(self).links().insert(0, final(self).links()[0]),
            r is Err ==> final(self).links() == old(self).links(),
            r matches Ok(v) ==> *v == data && final(self)@ == apply_op(old(self)@, EndOp::PushFront(*final(v))) && old(arena).handle_added(
                *final(arena),
                old(self).alloc_index(),
            ),
            r matches Err(d) ==> d == data && final(self)@ == old(self)@ && only_used(
                *old(arena),
                *final(arena),
                old(self).alloc_index(),
            ),
    {
        if self.size == usize::MAX {
            return Err(data);
        }
        match self.alloc_node(arena, data) {
            Err(d) => Err(d),
            Ok(node) => {
                let first = self.first;
                self.link_before(node, first, Ghost(0));
                assert(self@ =~= seq![data] + old(self)@);
                Ok(self.front_mut())
            },
        }
    }

    /// Takes the node at position `pos` (slab index `k`) out of the links
    /// and returns it.
    #[verifier::rlimit(60)]
    fn unlink(&mut self, k: usize, pos: Ghost<int>) -> (r: ListNode<T, A>)
        requires
            old(self).wf(),
            0 <= pos@ < old(self)@.len(),
            k == old(self).links()[pos@],
        ensures
            final(self).wf(),
            final(self).alloc == old(self).alloc,
            final(self).id == old(self).id,
            final(self)@ == old(self)@.remove(pos@),
            final(self).links() == old(self).links().remove(pos@),
            r.data == old(self)@[pos@],
            r.alloc@ == old(self).alloc@,
            r.block@.len() == size_of::<ListNode<T, A>>(),
            r.block.spec_align() == align_of::<ListNode<T, A>>(),
    {
        let ghost old_nodes = self.nodes@;
        let ghost old_order = self.order@;
        let ghost n = old_order.len() as int;
        let ghost p = pos@;
        proof {
            assert(old_nodes[old_order[p] as int] is Some);
        }
        let prev = self.prev_of(k);
        let next = self.next_of(k);
        proof {
            if p > 0 {
                assert(old_nodes[old_order[p - 1] as int] is Some);
                assert(old_order[p - 1] != k);
            }
            if p < n - 1 {
                assert(old_nodes[old_order[p + 1] as int] is Some);
                assert(old_order[p + 1] != k);
            }
        }
        match prev {
            Some(q) => set_next(&mut self.nodes, q, next),
            None => {
                self.first = next;
            },
        }
        match next {
            Some(q) => set_prev(&mut self.nodes, q, prev),
            None => {
                self.last = prev;
            },
        }
        let node = take_node(&mut self.nodes, k);
        proof {
            assert forall|i: int| 0 <= i < self.free@.len() implies #[trigger] self.free@[i] != k by {
                assert(old_nodes[self.free@[i] as int] is None);
            }
        }
        self.free.push(k);
        self.size = self.size - 1;
        self.order = Ghost(old_order.remove(p));
        proof {
            let o = self.order@;
            assert forall|j: int| 0 <= j < n && j != p implies #[trigger] self.nodes@[old_order[j] as int]
                == Some(ListNode {
                prev: if j == p + 1 {
                    prev
                } else {
                    old_nodes[old_order[j] as int]->0.prev
                },
                next: if j == p - 1 {
                    next
                } else {
                    old_nodes[old_order[j] as int]->0.next
                },
                ..old_nodes[old_order[j] as int]->0
            }) by {
                assert(old_nodes[old_order[j] as int] is Some);
                assert(old_order[j] != old_order[p]);
                if p > 0 && j != p - 1 {
                    assert(old_order[j] != old_order[p - 1]);
                }
                if p < n - 1 && j != p + 1 {
                    assert(old_order[j] != old_order[p + 1]);
                }
            }
            assert forall|i: int| 0 <= i < o.len() implies o[i] == if i < p {
                old_order[i]
            } else {
                old_order[i + 1]
            } by {}
            assert forall|i: int| 0 <= i < o.len() implies #[trigger] o[i] < self.nodes@.len()
                && self.nodes@[o[i] as int] is Some by {
                if i < p {
                    assert(self.nodes@[old_order[i] as int] is Some);
                } else {
                    assert(self.nodes@[old_order[i + 1] as int] is Some);
                }
            }
            assert forall|i: int, j: int| 0 <= i < j < o.len() implies o[i] != o[j] by {
                let a = if i < p { i } else { i + 1 };
                let b = if j < p { j } else { j + 1 };
                assert(old_order[a] != old_order[b]);
            }
            assert forall|i: int| 0 <= i < o.len() implies (#[trigger] self.node(o[i])).prev
                == if i == 0 {
                None
            } else {
                Some(o[i - 1])
            } && self.node(o[i]).next == if i == o.len() - 1 {
                None
            } else {
                Some(o[i + 1])
            } && {
                let nd = self.node(o[i]);
                &&& nd.alloc@ == self.alloc@
                &&& nd.block@.len() == size_of::<ListNode<T, A>>()
                &&& nd.block.spec_align() == align_of::<ListNode<T, A>>()
            } by {
                if i < p {
                    assert(self.nodes@[old_order[i] as int] is Some);
                    assert(old(self).node(old_order[i]) == old_nodes[old_order[i] as int]->0);
                } else {
                    assert(self.nodes@[old_order[i + 1] as int] is Some);
                    assert(old(self).node(old_order[i + 1]) == old_nodes[old_order[i
                        + 1] as int]->0);
                }
            }
            assert(self@ =~= old(self)@.remove(p)) by {
                assert forall|i: int| 0 <= i < o.len() implies self@[i] == old(self)@.remove(p)[i] by {
                    if i < p {
                        assert(self.nodes@[old_order[i] as int] is Some);
                    } else {
                        assert(self.nodes@[old_order[i + 1] as int] is Some);
                    }
                }
            }
        }
        node
    }

    /// Removes the first value, destroys it and gives its node's block and
    /// handle back to the allocator. The list must not be empty.
    pub fn pop_front(&mut self, arena: &mut RcArena<A>)
        requires
            old(self).wf(),
            old(self)@.len() > 0,
            old(arena).is_live(old(self).alloc_index()),
            old(arena).count(old(self).alloc_index()) > 0,
        ensures
            final(self).wf(),
            final(self).alloc_index() == old(self).alloc_index(),
            final(self).id() == old(self).id(),
            final(self).links() == old(self).links().drop_first(),
            final(self)@ == apply_op(old(self)@, EndOp::PopFront),
            old(arena).handle_dropped(*final(arena), old(self).alloc_index()),
            exists|mid: A|
                #[trigger] old(arena).obj(old(self).alloc_index()).released(
                    &mid,
                    node_size::<T, A>(),
                    node_align::<T, A>(),
                ),
    {
        let k = self.first.unwrap();
        let node = self.unlink(k, Ghost(0));
        Self::dealloc_node(arena, node);
        assert(self@ =~= old(self)@.drop_first());
    }

    /// Removes the last value, destroys it and gives its node's block and
    /// handle back to the allocator. The list must not be empty.
    pub fn pop_back(&mut self, arena: &mut RcArena<A>)
        requires
            old(self).wf(),
            old(self)@.len() > 0,
            old(arena).is_live(old(self).alloc_index()),
            old(arena).count(old(self).alloc_index()) > 0,
        ensures
            final(self).wf(),
            final(self).alloc_index() == old(self).alloc_index(),
            final(self).id() == old(self).id(),
            final(self).links() == old(self).links().drop_last(),
            final(self)@ == apply_op(old(self)@, EndOp::PopBack),
            old(arena).handle_dropped(*final(arena), old(self).alloc_index()),
            exists|mid: A|
                #[trigger] old(arena).obj(old(self).alloc_index()).released(
                    &mid,
                    node_size::<T, A>(),
                    node_align::<T, A>(),
                ),
    {
        let k = self.last.unwrap();
        let ghost pos = self@.len() - 1;
        let node = self.unlink(k, Ghost(pos));
        Self::dealloc_node(arena, node);
        assert(self@ =~= old(self)@.drop_last());
    }


    /// Inserts `data` before the node `it` names, or at the end when it names
    /// the end, and returns it, to change in place. `it` must come from this
    /// list. It succeeds and fails as [`List::push_back`] does.
    pub fn insert_front(&mut self, arena: &mut RcArena<A>, it: MutIter, data: T) -> (r: Result<&mut T, T>)
        requires
            old(self).wf(),
            old(self).holds(it@),
            it.owner() == old(self).id(),
            old(arena).is_live(old(self).alloc_index()),
        ensures
            final(self).wf(),
            final(self).alloc_index() == old(self).alloc_index(),
            final(self).id() == old(self).id(),
            r is Ok <==> node_granted::<T, A>(old(self)@.len(), *old(arena), old(self).alloc_index()),
            old(self)@.len() == usize::MAX || old(arena).count(old(self).alloc_index()) == usize::MAX
                ==> *final(arena) == *old(arena),
            r is Ok ==> final(self).links() == old(self).links().insert(old(self).position(it@), final(self).links()[old(self).position(it@)]),
            r is Err ==> final(self).links() == old(self).links(),
            r matches Ok(v) ==> *v == data && final(self)@ == old(self)@.insert(old(self).position(it@), *final(v))
                && old(arena).handle_added(*final(arena), old(self).alloc_index()),
            r matches Err(d) ==> d == data && final(self)@ == old(self)@ && only_used(
                *old(arena),
                *final(arena),
                old(self).alloc_index(),
            ),
    {
        if it.list != self.id {
            return Err(data);
        }
        if self.size == usize::MAX {
            return Err(data);
        }
        proof {
            self.lemma_position(it@);
        }
        match self.alloc_node(arena, data) {
            Err(d) => Err(d),
            Ok(node) => {
                let ghost pos = self.position(it@);
                let ghost before = *self;
                self.link_before(node, it.node, Ghost(pos));
                let k = match it.node {
                    Some(b) => {
                        proof {
                            assert(self.order@[pos + 1] == before.order@[pos]);
                            assert(self.nodes@[self.order@[pos + 1] as int] is Some);
                            assert(self.node(self.order@[pos + 1]).prev == Some(self.order@[pos]));
                        }
                        self.prev_of(b).unwrap()
                    },
                    None => self.last.unwrap(),
                };
                Ok(self.value_at_mut(k, Ghost(pos)))
            },
        }
    }

    /// Removes the node `it` names, destroys its value and gives its block and
    /// handle back to the allocator; the neighbours are linked to each other.
    /// `it` must name a node of this list, and is used up.
    pub fn remove(&mut self, arena: &mut RcArena<A>, it: MutIter)
        requires
            old(self).wf(),
            old(self).holds(it@),
            it.owner() == old(self).id(),
            old(self).position(it@) < old(self)@.len(),
            old(arena).is_live(old(self).alloc_index()),
            old(arena).count(old(self).alloc_index()) > 0,
        ensures
            final(self).wf(),
            final(self).alloc_index() == old(self).alloc_index(),
            final(self).id() == old(self).id(),
            final(self).links() == old(self).links().remove(old(self).position(it@)),
            final(self)@ == old(self)@.remove(old(self).position(it@)),
            old(arena).handle_dropped(*final(arena), old(self).alloc_index()),
            exists|mid: A|
                #[trigger] old(arena).obj(old(self).alloc_index()).released(
                    &mid,
                    node_size::<T, A>(),
                    node_align::<T, A>(),
                ),
    {
        if it.list != self.id {
            return;
        }
        proof {
            self.lemma_position(it@);
        }
        let ghost pos = self.position(it@);
        let k = it.node.unwrap();
        let node = self.unlink(k, Ghost(pos));
        Self::dealloc_node(arena, node);
    }


    /// Ends the list: removes the values from the first on, each with its
    /// node's block and handle, then gives up the list's own handle. The
    /// allocator's count must cover the list and each of its nodes.
    pub fn destroy(self, arena: &mut RcArena<A>)
        requires
            self.wf(),
            old(arena).is_live(self.alloc_index()),
            old(arena).count(self.alloc_index()) > self@.len(),
        ensures
            final(arena)@.len() == old(arena)@.len(),
            final(arena).is_live(self.alloc_index()),
            final(arena).count(self.alloc_index()) + self@.len() + 1 == old(arena).count(
                self.alloc_index(),
            ),
            forall|j: int|
                0 <= j < old(arena)@.len() && j != self.alloc_index() ==> final(arena)@[j]
                    == old(arena)@[j],
    {
        let mut list = self;
        let ghost a = list.alloc_index();
        while list.size > 0
            invariant
                list.wf(),
                list.alloc_index() == a,
                arena@.len() == old(arena)@.len(),
                arena.is_live(a),
                arena.count(a) > list@.len(),
                arena.count(a) + self@.len() == old(arena).count(a) + list@.len(),
                forall|j: int|
                    0 <= j < old(arena)@.len() && j != a ==> arena@[j] == old(arena)@[j],
            decreases list@.len(),
        {
            list.pop_front(arena);
        }
        list.alloc.reset(arena);
    }


    pub fn len(&self) -> (r: usize)
        requires
            self.wf(),
        ensures
            r == self@.len(),
    {
        self.size
    }

    pub fn is_empty(&self) -> (r: bool)
        requires
            self.wf(),
        ensures
            r == (self@.len() == 0),
    {
        self.size == 0
    }
}

impl<T, A> List<T, A> {
    fn data_of(&self, k: usize) -> (r: &T)
        requires
            k < self.nodes@.len(),
            self.nodes@[k as int] is Some,
        ensures
            *r == self.node(k).data,
    {
        match &self.nodes[k] {
            Some(n) => &n.data,
            None => unreached(),
        }
    }

    /// Changing the value at position `pos` keeps the links well formed.
    proof fn lemma_data_changed(&self, pos: int)
        requires
            self.wf(),
            0 <= pos < self@.len(),
        ensures
            forall|other: Self|
                #![trigger other.wf()]
                other.alloc == self.alloc && other.id == self.id && other.first == self.first && other.last == self.last
                    && other.size == self.size && other.order == self.order && other.free == self.free && other.nodes@
                    == self.nodes@.update(
                    self.order@[pos] as int,
                    Some(ListNode { data: other.node(self.order@[pos]).data, ..self.node(self.order@[pos]) }),
                ) ==> other.wf() && other@ == self@.update(pos, other.node(self.order@[pos]).data)
                    && other.links() == self.links(),
    {
        let o = self.order@;
        assert forall|other: Self|
            other.alloc == self.alloc && other.id == self.id && other.first == self.first && other.last == self.last
                && other.size == self.size && other.order == self.order && other.free == self.free && other.nodes@
                == self.nodes@.update(
                o[pos] as int,
                Some(ListNode { data: other.node(o[pos]).data, ..self.node(o[pos]) }),
            ) implies #[trigger] other.wf() && other@ == self@.update(pos, other.node(o[pos]).data) by {
            let v = other.node(o[pos]).data;
            assert forall|i: int| 0 <= i < o.len() implies #[trigger] other.nodes@[o[i] as int]
                == if i == pos {
                Some(ListNode { data: v, ..self.node(o[i]) })
            } else {
                self.nodes@[o[i] as int]
            } by {
                if i != pos {
                    assert(o[i] != o[pos]);
                }
            }
            assert(other@ =~= self@.update(pos, v));
        }
    }

    /// The value of the node `k` at position `pos`, to change.
    fn value_at_mut(&mut self, k: usize, pos: Ghost<int>) -> (r: &mut T)
        requires
            old(self).wf(),
            0 <= pos@ < old(self)@.len(),
            k == old(self).links()[pos@],
        ensures
            *r == old(self)@[pos@],
            final(self).wf(),
            final(self).alloc_index() == old(self).alloc_index(),
            final(self).id() == old(self).id(),
            final(self).links() == old(self).links(),
            final(self)@ == old(self)@.update(pos@, *final(r)),
    {
        proof {
            assert(self.nodes@[self.order@[pos@] as int] is Some);
            self.lemma_data_changed(pos@);
        }
        data_mut(&mut self.nodes, k)
    }

    /// The first value, to change. The list must not be empty.
    pub fn front_mut(&mut self) -> (r: &mut T)
        requires
            old(self).wf(),
            old(self)@.len() > 0,
        ensures
            *r == old(self)@[0],
            final(self).wf(),
            final(self).alloc_index() == old(self).alloc_index(),
            final(self).id() == old(self).id(),
            final(self).links() == old(self).links(),
            final(self)@ == old(self)@.update(0, *final(r)),
    {
        let k = self.first.unwrap();
        self.value_at_mut(k, Ghost(0))
    }

    /// The last value, to change. The list must not be empty.
    pub fn back_mut(&mut self) -> (r: &mut T)
        requires
            old(self).wf(),
            old(self)@.len() > 0,
        ensures
            *r == old(self)@[old(self)@.len() - 1],
            final(self).wf(),
            final(self).alloc_index() == old(self).alloc_index(),
            final(self).id() == old(self).id(),
            final(self).links() == old(self).links(),
            final(self)@ == old(self)@.update(old(self)@.len() - 1, *final(r)),
    {
        let k = self.last.unwrap();
        let ghost pos = self@.len() - 1;
        self.value_at_mut(k, Ghost(pos))
    }

    /// The first value. The list must not be empty.
    pub fn front(&self) -> (r: &T)
        requires
            self.wf(),
            self@.len() > 0,
        ensures
            *r == self@[0],
    {
        let k = self.first.unwrap();
        proof {
            assert(self.nodes@[self.order@[0] as int] is Some);
        }
        self.data_of(k)
    }

    /// The last value. The list must not be empty.
    pub fn back(&self) -> (r: &T)
        requires
            self.wf(),
            self@.len() > 0,
        ensures
            *r == self@[self@.len() - 1],
    {
        let k = self.last.unwrap();
        proof {
            assert(self.nodes@[self.order@[self@.len() - 1] as int] is Some);
        }
        self.data_of(k)
    }

    /// A read cursor at the first value.
    pub fn begin(&self) -> (r: Iter<'_, T, A>)
        requires
            self.wf(),
        ensures
            r.wf(),
            r.list() == *self,
            r.pos() == 0,
    {
        proof {
            self.lemma_holds_at(0);
        }
        Iter::new(self, self.first)
    }

    /// A read cursor at the end, one past the last value.
    pub fn end(&self) -> (r: Iter<'_, T, A>)
        requires
            self.wf(),
        ensures
            r.wf(),
            r.list() == *self,
            r.pos() == self@.len(),
    {
        proof {
            self.lemma_holds_at(self@.len() as int);
        }
        Iter::new(self, None)
    }

    /// A cursor at the first node, for [`List::insert_front`] and
    /// [`List::remove`].
    pub fn begin_mut(&self) -> (r: MutIter)
        requires
            self.wf(),
        ensures
            self.holds(r@),
            self.position(r@) == 0,
            r.owner() == self.id(),
    {
        proof {
            self.lemma_holds_at(0);
        }
        MutIter::new(self, self.first)
    }

    /// A cursor at the end, one past the last node.
    pub fn end_mut(&self) -> (r: MutIter)
        requires
            self.wf(),
        ensures
            self.holds(r@),
            self.position(r@) == self@.len(),
            r.owner() == self.id(),
    {
        proof {
            self.lemma_holds_at(self@.len() as int);
        }
        MutIter::new(self, None)
    }
}

/// A read cursor over a [`List`]: it walks from a node towards the end.
pub struct Iter<'a, T, A> {
    list: &'a List<T, A>,
    node: Option<usize>,
    pos: Ghost<int>,
}

impl<'a, T, A> Iter<'a, T, A> {
    pub closed spec fn list(&self) -> List<T, A> {
        *self.list
    }

    /// The slab index of the node under the cursor, or `None` at the end.
    pub closed spec fn node_at(&self) -> Option<usize> {
        self.node
    }

    /// The position of the next value to be read; the length at the end.
    pub closed spec fn pos(&self) -> int {
        self.pos@
    }

    pub closed spec fn wf(&self) -> bool {
        &&& self.list.wf()
        &&& 0 <= self.pos@ <= self.list@.len()
        &&& self.node == self.list.at(self.pos@)
    }

    /// A cursor at the node `node` of `list`, or at its end for `None`.
    pub fn new(list: &'a List<T, A>, node: Option<usize>) -> (r: Self)
        requires
            list.wf(),
            list.holds(node),
        ensures
            r.wf(),
            r.list() == *list,
            r.pos() == list.position(node),
    {
        proof {
            list.lemma_position(node);
        }
        Iter { list, node, pos: Ghost(list.position(node)) }
    }

    /// The value under the cursor, after which the cursor moves one step;
    /// `None` at the end.
    pub fn next(&mut self) -> (r: Option<&'a T>)
        requires
            old(self).wf(),
        ensures
            final(self).wf(),
            final(self).list() == old(self).list(),
            old(self).pos() < old(self).list()@.len() ==> r is Some && *r->0 == old(
                self,
            ).list()@[old(self).pos()] && final(self).pos() == old(self).pos() + 1,
            old(self).pos() == old(self).list()@.len() ==> r is None && final(self).pos()
                == old(self).pos(),
    {
        match self.node {
            None => None,
            Some(k) => {
                let list: &'a List<T, A> = self.list;
                proof {
                    assert(list.nodes@[list.order@[self.pos@] as int] is Some);
                }
                let data = list.data_of(k);
                self.node = list.next_of(k);
                self.pos = Ghost(self.pos@ + 1);
                Some(data)
            },
        }
    }
}

/// Two read cursors are equal when they stand at the same node, or both at
/// the end.
impl<'a, T, A> PartialEq for Iter<'a, T, A> {
    fn eq(&self, o: &Iter<'a, T, A>) -> (r: bool) {
        self.node == o.node
    }
}

impl<'a, T, A> vstd::std_specs::cmp::PartialEqSpecImpl for Iter<'a, T, A> {
    open spec fn obeys_eq_spec() -> bool {
        true
    }

    open spec fn eq_spec(&self, o: &Iter<'a, T, A>) -> bool {
        self.node_at() == o.node_at()
    }
}

/// A position in a [`List`]: a node, or the end. It stays valid until its
/// node is removed. Two cursors are equal when they name the same position.
#[derive(PartialEq, Eq, Structural)]
pub struct MutIter {
    list: u64,
    node: Option<usize>,
}

impl View for MutIter {
    type V = Option<usize>;

    closed spec fn view(&self) -> Option<usize> {
        self.node
    }
}

impl MutIter {
    /// The identity of the list the cursor belongs to.
    pub closed spec fn owner(&self) -> u64 {
        self.list
    }

    /// A cursor of `list` at the node with slab index `node`, or at the end
    /// for `None`.
    pub fn new<T, A>(list: &List<T, A>, node: Option<usize>) -> (r: MutIter)
        ensures
            r@ == node,
            r.owner() == list.id(),
    {
        MutIter { list: list.id, node }
    }

    /// Moves to the next node of `list`; at the end it stays.
    pub fn advance<T, A>(&mut self, list: &List<T, A>)
        requires
            list.wf(),
            list.holds(old(self)@),
        ensures
            list.holds(final(self)@),
            list.position(old(self)@) < list@.len() ==> list.position(final(self)@)
                == list.position(old(self)@) + 1,
            list.position(old(self)@) == list@.len() ==> final(self)@ == old(self)@,
    {
        proof {
            list.lemma_position(self@);
        }
        match self.node {
            None => {},
            Some(k) => {
                proof {
                    list.lemma_position(self@);
                    let p = list.position(self@);
                    assert(list.nodes@[list.order@[p] as int] is Some);
                    list.lemma_holds_at(p + 1);
                }
                self.node = list.next_of(k);
            },
        }
    }

    /// The value under the cursor, to change, after which the cursor moves
    /// one step; `None` at the end. The links of `list` stay as they are.
    pub fn next<'a, T, A>(&mut self, list: &'a mut List<T, A>) -> (r: Option<&'a mut T>)
        requires
            old(list).wf(),
            old(list).holds(old(self)@),
        ensures
            final(list).wf(),
            final(list).links() == old(list).links(),
            final(list).alloc_index() == old(list).alloc_index(),
            old(list).holds(final(self)@),
            old(list).position(old(self)@) == old(list)@.len() ==> r is None && final(self)@
                == old(self)@ && *final(list) == *old(list),
            old(list).position(old(self)@) < old(list)@.len() ==> r is Some && old(list).position(final(self)@) == old(
                list,
            ).position(old(self)@) + 1 && *r->0 == old(list)@[old(list).position(old(self)@)]
                && final(list)@ == old(list)@.update(
                old(list).position(old(self)@),
                *final(r->0),
            ),
    {
        proof {
            list.lemma_position(self@);
        }
        match self.node {
            None => None,
            Some(k) => {
                proof {
                    let p = list.position(self@);
                    assert(list.nodes@[list.order@[p] as int] is Some);
                    list.lemma_holds_at(p + 1);
                    list.lemma_data_changed(p);
                }
                self.node = list.next_of(k);
                Some(data_mut(&mut list.nodes, k))
            },
        }
    }

    /// The value under the cursor, which must name a node of `list`.
    pub fn get<'a, T, A>(&self, list: &'a List<T, A>) -> (r: &'a T)
        requires
            list.wf(),
            list.holds(self@),
            list.position(self@) < list@.len(),
        ensures
            *r == list@[list.position(self@)],
    {
        proof {
            list.lemma_position(self@);
            assert(list.nodes@[list.order@[list.position(self@)] as int] is Some);
        }
        list.data_of(self.node.unwrap())
    }
}

/// An operation on the ends of a list.
pub enum EndOp<T> {
    PushBack(T),
    PushFront(T),
    PopBack,
    PopFront,
}

/// The values after `op`, as the contracts of [`List::push_back`],
/// [`List::push_front`], [`List::pop_back`] and [`List::pop_front`] state it.
pub open spec fn apply_op<T>(s: Seq<T>, op: EndOp<T>) -> Seq<T> {
    match op {
        EndOp::PushBack(v) => s.push(v),
        EndOp::PushFront(v) => seq![v] + s,
        EndOp::PopBack => s.drop_last(),
        EndOp::PopFront => s.drop_first(),
    }
}

/// The values after each of `ops` in turn.
pub open spec fn apply_ops<T>(s: Seq<T>, ops: Seq<EndOp<T>>) -> Seq<T>
    decreases ops.len(),
{
    if ops.len() == 0 {
        s
    } else {
        apply_op(apply_ops(s, ops.drop_last()), ops.last())
    }
}

/// The number of pushes among `ops`.
pub open spec fn push_count<T>(ops: Seq<EndOp<T>>) -> nat
    decreases ops.len(),
{
    if ops.len() == 0 {
        0
    } else {
        push_count(ops.drop_last()) + if ops.last() is PushBack || ops.last() is PushFront {
            1nat
        } else {
            0nat
        }
    }
}

/// The number of pops among `ops`.
pub open spec fn pop_count<T>(ops: Seq<EndOp<T>>) -> nat
    decreases ops.len(),
{
    if ops.len() == 0 {
        0
    } else {
        pop_count(ops.drop_last()) + if ops.last() is PopBack || ops.last() is PopFront {
            1nat
        } else {
            0nat
        }
    }
}

/// Every pop among `ops` finds a value to remove, as the pops require.
pub open spec fn pops_allowed<T>(s: Seq<T>, ops: Seq<EndOp<T>>) -> bool
    decreases ops.len(),
{
    if ops.len() == 0 {
        true
    } else {
        &&& pops_allowed(s, ops.drop_last())
        &&& (ops.last() is PopBack || ops.last() is PopFront) ==> apply_ops(
            s,
            ops.drop_last(),
        ).len() > 0
    }
}

/// After any run of pushes and pops at the ends, the number of values is the
/// number at the start plus the pushes minus the pops, and the end just
/// pushed to holds the value pushed.
pub proof fn lemma_count_follows_ops<T>(s: Seq<T>, ops: Seq<EndOp<T>>)
    requires
        pops_allowed(s, ops),
    ensures
        apply_ops(s, ops).len() + pop_count(ops) == s.len() + push_count(ops),
        ops.len() > 0 ==> match ops.last() {
            EndOp::PushBack(v) => apply_ops(s, ops).last() == v,
            EndOp::PushFront(v) => apply_ops(s, ops)[0] == v,
            _ => true,
        },
    decreases ops.len(),
{
    if ops.len() > 0 {
        lemma_count_follows_ops(s, ops.drop_last());
    }
}

/// The pushes at the back of each of `vs` in turn.
pub open spec fn backs<T>(vs: Seq<T>) -> Seq<EndOp<T>> {
    vs.map_values(|v: T| EndOp::PushBack(v))
}

/// The pushes at the front of each of `vs` in turn.
pub open spec fn fronts<T>(vs: Seq<T>) -> Seq<EndOp<T>> {
    vs.map_values(|v: T| EndOp::PushFront(v))
}

/// Pushing `vs` at the back of an empty list leaves exactly `vs`, in order.
pub proof fn lemma_push_back_round_trip<T>(vs: Seq<T>)
    ensures
        apply_ops(Seq::empty(), backs(vs)) == vs,
    decreases vs.len(),
{
    if vs.len() > 0 {
        lemma_push_back_round_trip(vs.drop_last());
        assert(backs(vs).drop_last() =~= backs(vs.drop_last()));
        assert(vs.drop_last().push(vs.last()) =~= vs);
    } else {
        assert(backs(vs) =~= Seq::empty());
    }
}

/// Pushing `vs` at the front of an empty list leaves `vs` reversed.
pub proof fn lemma_push_front_reverses<T>(vs: Seq<T>)
    ensures
        apply_ops(Seq::empty(), fronts(vs)) == vs.reverse(),
    decreases vs.len(),
{
    if vs.len() > 0 {
        lemma_push_front_reverses(vs.drop_last());
        assert(fronts(vs).drop_last() =~= fronts(vs.drop_last()));
        assert(seq![vs.last()] + vs.drop_last().reverse() =~= vs.reverse());
    } else {
        assert(fronts(vs) =~= Seq::empty());
    }
}

/// Removing the value at position `p` leaves the others in their order: the
/// ones before `p` where they were, the ones after it one place earlier.
pub proof fn lemma_removal_keeps_order<T>(s: Seq<T>, p: int)
    requires
        0 <= p < s.len(),
    ensures
        s.remove(p) == s.take(p) + s.skip(p + 1),
        forall|i: int|
            0 <= i < s.len() - 1 ==> #[trigger] s.remove(p)[i] == if i < p {
                s[i]
            } else {
                s[i + 1]
            },
{
    assert(s.remove(p) =~= s.take(p) + s.skip(p + 1));
}

} // verus!
