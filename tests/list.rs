use shared_alloc::allocator::{Alloc, Block, StdAlloc};
use shared_alloc::list::{Iter, List};
use shared_alloc::rcobj::{RcArena, RcObject};

/// Delegates to the host allocator, but refuses the request numbered `fail_at`
/// (counting from 1), and counts releases.
struct FailAt {
    fail_at: usize,
    requests: usize,
    releases: usize,
}

impl RcObject for FailAt {
    fn inc_ref(&mut self) {}
    fn dec_ref(&mut self) {}
}

impl Alloc for FailAt {
    fn grants(&self, _size: usize, _alignment: usize) -> bool {
        self.requests + 1 != self.fail_at
    }

    fn released(&self, next: &Self, _size: usize, _alignment: usize) -> bool {
        next.releases == self.releases + 1
    }

    fn allocate(&mut self, size: usize, alignment: usize) -> Option<Block> {
        self.requests += 1;
        if self.requests == self.fail_at {
            None
        } else {
            Some(Block::new(size, alignment))
        }
    }

    fn release(&mut self, _block: Block, _size: usize, _alignment: usize) {
        self.releases += 1;
    }

    fn reallocate(
        &mut self,
        block: Block,
        _size: usize,
        _alignment: usize,
        _new_size: usize,
        _new_alignment: usize,
    ) -> Result<Block, Block> {
        Err(block)
    }
}

fn collect<A>(it: &mut Iter<'_, i32, A>) -> Vec<i32> {
    let mut out = Vec::new();
    while let Some(v) = it.next() {
        out.push(*v);
    }
    out
}

fn std_list() -> (RcArena<StdAlloc>, usize) {
    let mut arena = RcArena::new();
    let i = StdAlloc::new().into_ptr_mut(&mut arena);
    (arena, i)
}

#[test]
fn it_works() {
    let (mut arena, a) = std_list();
    let mut ls = List::<i32, StdAlloc>::new(&mut arena, a);

    for i in 1..100 {
        assert!(ls.push_back(&mut arena, i).is_ok());
    }

    let mut it = ls.begin();
    while let Some(i) = it.next() {
        println!("{}", i);
    }
    assert_eq!(ls.len(), 99);
    assert_eq!(collect(&mut ls.begin()), (1..100).collect::<Vec<i32>>());
}

#[test]
fn count_and_ends_follow_pushes_and_pops() {
    let (mut arena, a) = std_list();
    let mut ls = List::<i32, StdAlloc>::new(&mut arena, a);
    assert!(ls.is_empty());
    ls.push_back(&mut arena, 2).unwrap();
    ls.push_front(&mut arena, 1).unwrap();
    ls.push_back(&mut arena, 3).unwrap();
    assert_eq!(ls.len(), 3);
    assert_eq!(*ls.front(), 1);
    assert_eq!(*ls.back(), 3);
    ls.pop_front(&mut arena);
    assert_eq!(ls.len(), 2);
    assert_eq!(*ls.front(), 2);
    ls.pop_back(&mut arena);
    assert_eq!(ls.len(), 1);
    assert_eq!(*ls.front(), 2);
    assert_eq!(*ls.back(), 2);
    ls.pop_back(&mut arena);
    assert!(ls.is_empty());
    assert_eq!(collect(&mut ls.begin()), Vec::<i32>::new());
    ls.push_front(&mut arena, 7).unwrap();
    assert_eq!(*ls.front(), 7);
    assert_eq!(*ls.back(), 7);
}

#[test]
fn push_back_keeps_order_and_push_front_reverses() {
    let (mut arena, a) = std_list();
    let mut backs = List::<i32, StdAlloc>::new(&mut arena, a);
    let mut fronts = List::<i32, StdAlloc>::new(&mut arena, a);
    for v in [10, 20, 30, 40] {
        backs.push_back(&mut arena, v).unwrap();
        fronts.push_front(&mut arena, v).unwrap();
    }
    assert_eq!(collect(&mut backs.begin()), vec![10, 20, 30, 40]);
    assert_eq!(collect(&mut fronts.begin()), vec![40, 30, 20, 10]);
    // a fresh walk starts again at the first value
    assert_eq!(collect(&mut backs.begin()), vec![10, 20, 30, 40]);
    assert_eq!(collect(&mut backs.end()), Vec::<i32>::new());
}

#[test]
fn every_node_holds_a_handle() {
    let (mut arena, a) = std_list();
    let mut ls = List::<i32, StdAlloc>::new(&mut arena, a);
    assert_eq!(arena.ref_count(a), 1);
    ls.push_back(&mut arena, 1).unwrap();
    ls.push_back(&mut arena, 2).unwrap();
    assert_eq!(arena.ref_count(a), 3);
    ls.pop_front(&mut arena);
    assert_eq!(arena.ref_count(a), 2);
    ls.destroy(&mut arena);
    assert_eq!(arena.ref_count(a), 0);
    assert!(arena.retire(a).is_some());
}

#[test]
fn refused_allocation_leaves_list_intact() {
    let mut arena = RcArena::new();
    let a = arena.insert(FailAt { fail_at: 3, requests: 0, releases: 0 });
    let mut ls = List::<i32, FailAt>::new(&mut arena, a);
    ls.push_back(&mut arena, 1).unwrap();
    ls.push_front(&mut arena, 0).unwrap();
    assert_eq!(ls.push_back(&mut arena, 2), Err(2));
    assert_eq!(ls.len(), 2);
    assert_eq!(*ls.front(), 0);
    assert_eq!(*ls.back(), 1);
    assert_eq!(arena.ref_count(a), 3);
    ls.push_back(&mut arena, 2).unwrap();
    assert_eq!(collect(&mut ls.begin()), vec![0, 1, 2]);
    assert_eq!(*ls.back(), 2);
}

#[test]
fn refused_push_front_leaves_list_intact() {
    let mut arena = RcArena::new();
    let a = arena.insert(FailAt { fail_at: 1, requests: 0, releases: 0 });
    let mut ls = List::<i32, FailAt>::new(&mut arena, a);
    assert_eq!(ls.push_front(&mut arena, 5), Err(5));
    assert!(ls.is_empty());
    assert_eq!(arena.ref_count(a), 1);
    ls.push_front(&mut arena, 5).unwrap();
    assert_eq!(*ls.front(), 5);
}

#[test]
fn removal_under_cursor_relinks_neighbours() {
    let mut arena = RcArena::new();
    let a = arena.insert(FailAt { fail_at: 0, requests: 0, releases: 0 });
    let mut ls = List::<i32, FailAt>::new(&mut arena, a);
    for v in 1..=5 {
        ls.push_back(&mut arena, v).unwrap();
    }
    let mut cur = ls.begin_mut();
    cur.advance(&ls);
    cur.advance(&ls);
    assert_eq!(*cur.get(&ls), 3);
    ls.remove(&mut arena, cur);
    assert_eq!(collect(&mut ls.begin()), vec![1, 2, 4, 5]);
    assert_eq!(ls.len(), 4);
    assert_eq!(arena.get(a).releases, 1);

    let first = ls.begin_mut();
    ls.remove(&mut arena, first);
    assert_eq!(collect(&mut ls.begin()), vec![2, 4, 5]);
    assert_eq!(*ls.front(), 2);

    let mut last = ls.begin_mut();
    last.advance(&ls);
    last.advance(&ls);
    ls.remove(&mut arena, last);
    assert_eq!(collect(&mut ls.begin()), vec![2, 4]);
    assert_eq!(*ls.back(), 4);
    ls.push_back(&mut arena, 6).unwrap();
    assert_eq!(collect(&mut ls.begin()), vec![2, 4, 6]);
}

#[test]
fn insert_before_cursor_and_at_end() {
    let (mut arena, a) = std_list();
    let mut ls = List::<i32, StdAlloc>::new(&mut arena, a);
    ls.push_back(&mut arena, 1).unwrap();
    ls.push_back(&mut arena, 3).unwrap();
    let mut cur = ls.begin_mut();
    cur.advance(&ls);
    ls.insert_front(&mut arena, cur, 2).unwrap();
    let end = ls.end_mut();
    ls.insert_front(&mut arena, end, 4).unwrap();
    let first = ls.begin_mut();
    ls.insert_front(&mut arena, first, 0).unwrap();
    assert_eq!(collect(&mut ls.begin()), vec![0, 1, 2, 3, 4]);
    assert_eq!(*ls.back(), 4);
    assert_eq!(ls.len(), 5);
}

#[test]
fn ends_can_be_changed_in_place() {
    let (mut arena, a) = std_list();
    let mut ls = List::<i32, StdAlloc>::new(&mut arena, a);
    ls.push_back(&mut arena, 1).unwrap();
    ls.push_back(&mut arena, 2).unwrap();
    *ls.front_mut() = 10;
    *ls.back_mut() += 5;
    assert_eq!(collect(&mut ls.begin()), vec![10, 7]);
}

#[test]
fn cursor_at_end_reads_nothing() {
    let (mut arena, a) = std_list();
    let mut ls = List::<i32, StdAlloc>::new(&mut arena, a);
    ls.push_back(&mut arena, 1).unwrap();
    let mut end = ls.end_mut();
    end.advance(&ls);
    ls.insert_front(&mut arena, end, 2).unwrap();
    assert_eq!(collect(&mut ls.begin()), vec![1, 2]);
    let mut it = Iter::new(&ls, None);
    assert!(it.next().is_none());
}

#[test]
fn cursors_compare_by_position() {
    let (mut arena, a) = std_list();
    let mut ls = List::<i32, StdAlloc>::new(&mut arena, a);
    assert!(ls.begin_mut() == ls.end_mut());
    ls.push_back(&mut arena, 1).unwrap();
    let mut cur = ls.begin_mut();
    assert!(cur != ls.end_mut());
    cur.advance(&ls);
    assert!(cur == ls.end_mut());
}

#[test]
fn slots_are_used_again() {
    let mut arena = RcArena::new();
    let a = arena.insert(FailAt { fail_at: 0, requests: 0, releases: 0 });
    let mut ls = List::<i32, FailAt>::new(&mut arena, a);
    for round in 0..50 {
        ls.push_back(&mut arena, round).unwrap();
        ls.push_front(&mut arena, -round).unwrap();
        ls.pop_back(&mut arena);
    }
    assert_eq!(ls.len(), 50);
    assert_eq!(*ls.front(), -49);
    assert_eq!(*ls.back(), 0);
    assert_eq!(arena.get(a).releases, 50);
    assert_eq!(arena.ref_count(a), 51);
    ls.destroy(&mut arena);
    assert_eq!(arena.get(a).releases, 100);
    assert_eq!(arena.ref_count(a), 0);
}

#[test]
fn mutable_walk_changes_every_value() {
    let (mut arena, a) = std_list();
    let mut ls = List::<i32, StdAlloc>::new(&mut arena, a);
    for v in 1..=4 {
        ls.push_back(&mut arena, v).unwrap();
    }
    let mut cur = ls.begin_mut();
    while let Some(v) = cur.next(&mut ls) {
        *v *= 10;
    }
    assert!(cur == ls.end_mut());
    assert_eq!(collect(&mut ls.begin()), vec![10, 20, 30, 40]);
    assert_eq!(ls.len(), 4);
}

#[test]
fn cursor_of_another_list_is_refused() {
    let (mut arena, a) = std_list();
    let mut one = List::<i32, StdAlloc>::new(&mut arena, a);
    let mut two = List::<i32, StdAlloc>::new(&mut arena, a);
    one.push_back(&mut arena, 1).unwrap();
    two.push_back(&mut arena, 2).unwrap();
    let foreign = one.begin_mut();
    two.remove(&mut arena, foreign);
    assert_eq!(collect(&mut two.begin()), vec![2]);
    let foreign = one.begin_mut();
    assert_eq!(two.insert_front(&mut arena, foreign, 3), Err(3));
    assert_eq!(collect(&mut two.begin()), vec![2]);
    assert_eq!(collect(&mut one.begin()), vec![1]);
}

#[test]
fn granted_requests_succeed_on_the_host_allocator() {
    let mut alloc = StdAlloc::new();
    assert!(alloc.allocate(16, 8).is_some());
    assert!(alloc.allocate(16, 3).is_none());
}

#[test]
fn read_cursors_compare_by_node() {
    let (mut arena, a) = std_list();
    let mut ls = List::<i32, StdAlloc>::new(&mut arena, a);
    assert!(ls.begin() == ls.end());
    ls.push_back(&mut arena, 1).unwrap();
    let mut it = ls.begin();
    assert!(it != ls.end());
    it.next();
    assert!(it == ls.end());
}

#[test]
fn pushes_hand_back_the_new_value() {
    let (mut arena, a) = std_list();
    let mut ls = List::<i32, StdAlloc>::new(&mut arena, a);
    *ls.push_back(&mut arena, 1).unwrap() += 10;
    *ls.push_front(&mut arena, 2).unwrap() *= 3;
    assert_eq!(collect(&mut ls.begin()), vec![6, 11]);
}

#[test]
fn insert_hands_back_the_new_value() {
    let (mut arena, a) = std_list();
    let mut ls = List::<i32, StdAlloc>::new(&mut arena, a);
    ls.push_back(&mut arena, 1).unwrap();
    ls.push_back(&mut arena, 3).unwrap();
    let mut cur = ls.begin_mut();
    cur.advance(&ls);
    *ls.insert_front(&mut arena, cur, 2).unwrap() += 20;
    let end = ls.end_mut();
    *ls.insert_front(&mut arena, end, 4).unwrap() += 40;
    assert_eq!(collect(&mut ls.begin()), vec![1, 22, 3, 44]);
}
