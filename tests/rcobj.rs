use shared_alloc::rcobj::{RcArena, RcObject, RcObjectPtr};

/// Counts the hook calls it receives.
struct Hooks {
    incs: usize,
    decs: usize,
}

impl RcObject for Hooks {
    fn inc_ref(&mut self) {
        self.incs += 1;
    }
    fn dec_ref(&mut self) {
        self.decs += 1;
    }
}

#[test]
fn freed_only_after_last_reset() {
    let mut arena = RcArena::new();
    let i = arena.insert(Hooks { incs: 0, decs: 0 });
    assert!(arena.live(i));
    let first = RcObjectPtr::new(&mut arena, i);
    let n = 4;
    let mut handles = vec![first];
    for _ in 0..n {
        let c = handles[0].clone(&mut arena);
        handles.push(c);
    }
    assert_eq!(arena.ref_count(i), n + 1);
    assert_eq!(arena.get(i).incs, n + 1);
    let total = handles.len();
    for (k, h) in handles.iter_mut().enumerate() {
        assert!(arena.retire(i).is_none());
        h.reset(&mut arena);
        assert_eq!(arena.ref_count(i), total - k - 1);
    }
    assert_eq!(arena.get(i).decs, n + 1);
    let obj = arena.retire(i).unwrap();
    assert_eq!(obj.incs, 5);
    assert!(!arena.live(i));
    assert!(arena.retire(i).is_none());
}

#[test]
fn reset_is_once_and_inert_handles_do_nothing() {
    let mut arena = RcArena::new();
    let i = arena.insert(Hooks { incs: 0, decs: 0 });
    let mut h = RcObjectPtr::new(&mut arena, i);
    assert_eq!(h.into_raw(), Some(i));
    assert_eq!(h.borrow(&arena).incs, 1);
    h.borrow_mut(&mut arena).incs += 10;
    assert_eq!(arena.get(i).incs, 11);
    h.reset(&mut arena);
    assert_eq!(h.into_raw_mut(), None);
    h.reset(&mut arena);
    assert_eq!(arena.ref_count(i), 0);
    assert_eq!(arena.get(i).decs, 1);
    let c = h.clone(&mut arena);
    assert_eq!(c.into_raw(), None);
    assert_eq!(arena.ref_count(i), 0);
    let inert: RcObjectPtr<Hooks> = RcObjectPtr::inert();
    assert_eq!(inert.into_raw(), None);
}

#[test]
fn release_hands_over_the_count() {
    let mut arena = RcArena::new();
    let i = arena.insert(Hooks { incs: 0, decs: 0 });
    let mut h = RcObjectPtr::new(&mut arena, i);
    assert_eq!(h.release(), Some(i));
    assert_eq!(h.into_raw(), None);
    h.reset(&mut arena);
    assert_eq!(arena.ref_count(i), 1);
    assert_eq!(arena.len(), 1);
}
