use shared_alloc::allocator::{valid_layout, Alloc, Block, StdAlloc};

fn filled(alloc: &mut StdAlloc, size: usize, align: usize) -> Block {
    let mut b = alloc.allocate(size, align).unwrap();
    for i in 0..size {
        b.write(i, (i as u8).wrapping_mul(7).wrapping_add(1));
    }
    b
}

#[test]
fn allocate_gives_requested_layout() {
    let mut alloc = StdAlloc::new();
    let b = alloc.allocate(24, 8).unwrap();
    assert_eq!(b.size(), 24);
    assert_eq!(b.align(), 8);
    alloc.release(b, 24, 8);
    let z = alloc.allocate(0, 1).unwrap();
    assert_eq!(z.size(), 0);
}

#[test]
fn allocate_refuses_bad_layouts() {
    let mut alloc = StdAlloc::new();
    assert!(alloc.allocate(8, 3).is_none());
    assert!(alloc.allocate(8, 0).is_none());
    assert!(alloc.allocate(isize::MAX as usize, 2).is_none());
    assert!(alloc.allocate(usize::MAX, 1).is_none());
    assert!(valid_layout(isize::MAX as usize, 1));
    assert!(valid_layout(0, 1usize << 63));
    assert!(!valid_layout(1, 1usize << 63));
    assert!(valid_layout(0, 1usize << 62));
}

#[test]
fn realign_copies_the_shorter_prefix() {
    let mut alloc = StdAlloc::new();
    let old = filled(&mut alloc, 16, 4);
    let expect: Vec<u8> = (0..8).map(|i| old.read(i)).collect();
    let new = alloc.reallocate(old, 16, 4, 8, 16).ok().unwrap();
    assert_eq!(new.size(), 8);
    assert_eq!(new.align(), 16);
    let got: Vec<u8> = (0..8).map(|i| new.read(i)).collect();
    assert_eq!(got, expect);

    let old = filled(&mut alloc, 4, 2);
    let expect: Vec<u8> = (0..4).map(|i| old.read(i)).collect();
    let new = alloc.reallocate(old, 4, 2, 12, 8).ok().unwrap();
    assert_eq!(new.size(), 12);
    let got: Vec<u8> = (0..4).map(|i| new.read(i)).collect();
    assert_eq!(got, expect);
    assert_eq!(expect, vec![1, 8, 15, 22]);
}

#[test]
fn failed_realign_keeps_the_block() {
    let mut alloc = StdAlloc::new();
    let old = filled(&mut alloc, 6, 2);
    let expect: Vec<u8> = (0..6).map(|i| old.read(i)).collect();
    let back = alloc.reallocate(old, 6, 2, 10, 3).err().unwrap();
    assert_eq!(back.size(), 6);
    assert_eq!(back.align(), 2);
    let got: Vec<u8> = (0..6).map(|i| back.read(i)).collect();
    assert_eq!(got, expect);
}

#[test]
fn same_alignment_resizes() {
    let mut alloc = StdAlloc::new();
    let old = filled(&mut alloc, 5, 1);
    let grown = alloc.reallocate(old, 5, 1, 9, 1).ok().unwrap();
    assert_eq!(grown.size(), 9);
    let got: Vec<u8> = (0..5).map(|i| grown.read(i)).collect();
    assert_eq!(got, vec![1, 8, 15, 22, 29]);
    let shrunk = alloc.reallocate(grown, 9, 1, 2, 1).ok().unwrap();
    assert_eq!(shrunk.size(), 2);
    assert_eq!(shrunk.read(1), 8);
    let refused = alloc.reallocate(shrunk, 2, 1, usize::MAX, 1).err().unwrap();
    assert_eq!(refused.size(), 2);
}

#[test]
fn new_block_is_zeroed() {
    let b = Block::new(5, 4);
    assert_eq!(b.size(), 5);
    assert_eq!(b.align(), 4);
    assert!((0..5).all(|i| b.read(i) == 0));
}
