use gc_heap::{CopyingHeap, GarbageCollectingHeap, HeapError, Pointer, Tracer};

struct Roots(Vec<usize>);

impl Tracer for Roots {
    fn trace(&self, blocks_used: &mut [bool]) {
        for &b in &self.0 {
            blocks_used[b] = true;
        }
    }
}

type Small = CopyingHeap<10, 4>;

#[test]
fn store_then_load_round_trips() {
    let mut h = Small::new();
    let a = h.malloc(4, &Roots(vec![])).unwrap();
    let b = h.malloc(3, &Roots(vec![])).unwrap();
    for (i, w) in a.iter().collect_all().into_iter().enumerate() {
        h.store(w, 100 + i as u64).unwrap();
    }
    h.store(b.with_offset(1), 7).unwrap();
    for (i, w) in a.iter().collect_all().into_iter().enumerate() {
        assert_eq!(h.load(w), Ok(100 + i as u64));
    }
    assert_eq!(h.load(b), Ok(0));
    assert_eq!(h.load(b.with_offset(1)), Ok(7));
    assert_eq!(h.load(b.with_offset(2)), Ok(0));
}

#[test]
fn new_blocks_are_placed_in_order_and_zeroed() {
    let mut h = Small::new();
    let a = h.allocate(4).unwrap();
    let b = h.allocate(3).unwrap();
    assert_eq!((a.block_num(), a.offset(), a.len()), (0, 0, 4));
    assert_eq!((b.block_num(), b.offset(), b.len()), (1, 0, 3));
    assert_eq!(h.address(a), Ok(0));
    assert_eq!(h.address(b.with_offset(2)), Ok(6));
    assert_eq!(h.load(a.with_offset(3)), Ok(0));
    assert_eq!(h.blocks_in_use(), vec![0, 1]);
    assert_eq!(h.num_allocated_blocks(), 2);
}

#[test]
fn invalid_addresses_are_rejected() {
    let mut h = Small::new();
    let a = h.allocate(2).unwrap();
    assert_eq!(h.load(Pointer::new(3, 2)), Err(HeapError::UnallocatedBlock(3)));
    assert_eq!(h.load(Pointer::new(40, 2)), Err(HeapError::UnallocatedBlock(40)));
    assert_eq!(h.load(a.with_offset(2)), Err(HeapError::OffsetTooBig(2, 0, 2)));
    assert_eq!(h.store(a.with_offset(5), 1), Err(HeapError::OffsetTooBig(5, 0, 2)));
    assert_eq!(h.address(Pointer::new(1, 1)), Err(HeapError::UnallocatedBlock(1)));
    assert_eq!(h.load(a.with_offset(1)), Ok(0));
}

#[test]
fn failed_store_changes_nothing() {
    let mut h = Small::new();
    let a = h.allocate(2).unwrap();
    h.store(a, 5).unwrap();
    assert!(h.store(a.with_offset(2), 9).is_err());
    assert_eq!(h.load(a), Ok(5));
    assert_eq!(h.load(a.with_offset(1)), Ok(0));
}

#[test]
fn allocated_block_ptr_gives_whole_block() {
    let mut h = Small::new();
    h.allocate(3).unwrap();
    assert_eq!(h.allocated_block_ptr(0), Some(Pointer::new(0, 3)));
    assert_eq!(h.allocated_block_ptr(1), None);
    assert_eq!(h.allocated_block_ptr(99), None);
}

#[test]
fn zero_length_block_is_allocated() {
    let mut h = Small::new();
    let z = h.allocate(0).unwrap();
    assert_eq!(z.len(), 0);
    assert_eq!(h.blocks_in_use(), vec![0]);
    assert_eq!(h.load(z), Err(HeapError::OffsetTooBig(0, 0, 0)));
    let full = h.allocate(10).unwrap();
    assert_eq!(full.block_num(), 1);
    assert_eq!(h.allocate(0).unwrap().block_num(), 2);
}

#[test]
fn basic_allocator_reports_exhaustion() {
    let mut h = Small::new();
    assert_eq!(h.allocate(11), Err(HeapError::OutOfMemory));
    for _ in 0..4 {
        h.allocate(1).unwrap();
    }
    assert_eq!(h.allocate(1), Err(HeapError::OutOfBlocks));
    assert_eq!(h.num_allocated_blocks(), 4);
}

#[test]
fn collection_makes_room_for_allocation() {
    let mut h = Small::new();
    let a = h.malloc(4, &Roots(vec![])).unwrap();
    let b = h.malloc(4, &Roots(vec![])).unwrap();
    for (i, w) in a.iter().collect_all().into_iter().enumerate() {
        h.store(w, 10 + i as u64).unwrap();
    }
    h.store(b, 99).unwrap();
    let c = h.malloc(3, &Roots(vec![a.block_num()])).unwrap();
    assert_eq!(h.blocks_num_copies(), vec![(0, 1), (1, 0)]);
    assert_eq!(c.block_num(), 1);
    assert_eq!(c.len(), 3);
    assert_eq!(h.address(a), Ok(0));
    assert_eq!(h.address(c), Ok(4));
    for (i, w) in a.iter().collect_all().into_iter().enumerate() {
        assert_eq!(h.load(w), Ok(10 + i as u64));
    }
    assert_eq!(h.load(c), Ok(0));
}

#[test]
fn load_of_collected_block_is_unallocated() {
    let mut h = Small::new();
    let a = h.malloc(4, &Roots(vec![])).unwrap();
    let b = h.malloc(4, &Roots(vec![])).unwrap();
    h.store(a, 11).unwrap();
    h.store(b, 42).unwrap();
    let c = h.malloc(3, &Roots(vec![a.block_num()])).unwrap();
    assert_eq!(c.block_num(), 1);
    let d = h.malloc(1, &Roots(vec![a.block_num()])).unwrap();
    assert_eq!(d.block_num(), 2);
    assert_eq!(h.load(a), Ok(11));
    assert_eq!(h.load(d), Ok(0));
    let mut g = Small::new();
    let a2 = g.malloc(4, &Roots(vec![])).unwrap();
    let b2 = g.malloc(4, &Roots(vec![])).unwrap();
    g.store(b2, 42).unwrap();
    assert_eq!(g.malloc(7, &Roots(vec![a2.block_num()])), Err(HeapError::OutOfMemory));
    assert_eq!(g.load(b2), Err(HeapError::UnallocatedBlock(1)));
    assert_eq!(g.load(a2), Ok(0));
}

#[test]
fn malloc_with_marks_collects_then_retries_once() {
    let mut h = Small::new();
    let a = h.allocate(5).unwrap();
    let b = h.allocate(5).unwrap();
    h.store(b.with_offset(4), 9).unwrap();
    let c = h.malloc_with_marks(4, &[false, true, false, false]).unwrap();
    assert_eq!((c.block_num(), c.len()), (0, 4));
    assert_eq!(h.address(b), Ok(0));
    assert_eq!(h.address(c), Ok(5));
    assert_eq!(h.load(b.with_offset(4)), Ok(9));
    assert_eq!(h.load(a.with_offset(4)), Err(HeapError::OffsetTooBig(4, 0, 4)));
    assert_eq!(h.blocks_num_copies(), vec![(0, 0), (1, 1)]);
    assert_eq!(h.malloc_with_marks(2, &[true, true]), Err(HeapError::OutOfMemory));
    assert_eq!(h.blocks_num_copies(), vec![(0, 1), (1, 2)]);
    assert_eq!(h.malloc_with_marks(1, &[false, false, true]), Err(HeapError::IllegalBlock(2, 3)));
    assert_eq!(h.blocks_num_copies(), vec![(0, 1), (1, 2)]);
}

#[test]
fn allocate_at_takes_the_chosen_identifier() {
    let mut h = Small::new();
    let p = h.allocate_at(2, 3).unwrap();
    assert_eq!((p.block_num(), p.offset(), p.len()), (2, 0, 3));
    assert_eq!(h.address(p), Ok(0));
    assert_eq!(h.allocate_at(2, 1), Err(HeapError::IllegalBlock(2, 3)));
    assert_eq!(h.allocate_at(4, 1), Err(HeapError::IllegalBlock(4, 3)));
    assert_eq!(h.allocate_at(0, 8), Err(HeapError::OutOfMemory));
    assert_eq!(h.allocate(2).unwrap().block_num(), 0);
    assert_eq!(h.blocks_in_use(), vec![0, 2]);
    let mut empty = CopyingHeap::<4, 0>::new();
    assert_eq!(empty.allocate_at(0, 1), Err(HeapError::IllegalBlock(0, 0)));
}

#[test]
fn collection_relocates_in_identifier_order() {
    let mut h = Small::new();
    let a = h.allocate(2).unwrap();
    let b = h.allocate(3).unwrap();
    let c = h.allocate(4).unwrap();
    h.store(c.with_offset(3), 8).unwrap();
    h.store(a.with_offset(1), 6).unwrap();
    assert_eq!(h.collect(&[true, false, true]), Ok(()));
    assert_eq!(h.blocks_in_use(), vec![0, 2]);
    assert_eq!(h.address(a), Ok(0));
    assert_eq!(h.address(c), Ok(2));
    assert_eq!(h.load(c.with_offset(3)), Ok(8));
    assert_eq!(h.load(a.with_offset(1)), Ok(6));
    assert_eq!(h.load(b), Err(HeapError::UnallocatedBlock(1)));
    assert_eq!(h.allocate(4).unwrap().block_num(), 1);
}

#[test]
fn every_live_block_is_copied_each_cycle() {
    let mut h = Small::new();
    h.allocate(2).unwrap();
    h.allocate(2).unwrap();
    assert_eq!(h.collect(&[true, true]), Ok(()));
    assert_eq!(h.collect(&[true, true, false, false]), Ok(()));
    assert_eq!(h.blocks_num_copies(), vec![(0, 2), (1, 2)]);
}

#[test]
fn marking_an_unallocated_block_fails_and_changes_nothing() {
    let mut h = Small::new();
    let a = h.allocate(2).unwrap();
    h.store(a, 3).unwrap();
    assert_eq!(h.collect(&[true, false, true, true]), Err(HeapError::IllegalBlock(2, 3)));
    assert_eq!(h.blocks_num_copies(), vec![(0, 0)]);
    assert_eq!(h.load(a), Ok(3));
    h.allocate(8).unwrap();
    assert_eq!(h.malloc(1, &Roots(vec![0, 3])), Err(HeapError::IllegalBlock(3, 3)));
    assert_eq!(h.blocks_in_use(), vec![0, 1]);
}

#[test]
fn allocation_collects_at_most_once() {
    let mut h = Small::new();
    let a = h.malloc(6, &Roots(vec![])).unwrap();
    assert_eq!(h.malloc(5, &Roots(vec![a.block_num()])), Err(HeapError::OutOfMemory));
    assert_eq!(h.blocks_num_copies(), vec![(0, 1)]);
    assert_eq!(h.malloc(4, &Roots(vec![a.block_num()])).unwrap().block_num(), 1);
    assert_eq!(h.blocks_num_copies(), vec![(0, 1), (1, 0)]);
}

#[test]
fn collecting_allocator_reports_identifier_exhaustion() {
    let mut h = CopyingHeap::<10, 2>::new();
    h.malloc(1, &Roots(vec![])).unwrap();
    h.malloc(1, &Roots(vec![])).unwrap();
    assert_eq!(h.malloc(1, &Roots(vec![0, 1])), Err(HeapError::OutOfBlocks));
    assert_eq!(h.malloc(1, &Roots(vec![1])).unwrap().block_num(), 0);
}

#[test]
fn identical_histories_give_identical_heaps() {
    fn run() -> (Vec<(usize, usize)>, Vec<usize>) {
        let mut h = Small::new();
        let a = h.malloc(3, &Roots(vec![])).unwrap();
        let b = h.malloc(3, &Roots(vec![])).unwrap();
        let c = h.malloc(3, &Roots(vec![])).unwrap();
        h.malloc(2, &Roots(vec![c.block_num(), a.block_num()])).unwrap();
        let _ = b;
        let addrs = h
            .blocks_in_use()
            .into_iter()
            .map(|id| h.address(h.allocated_block_ptr(id).unwrap()).unwrap())
            .collect();
        (h.blocks_num_copies(), addrs)
    }
    let first = run();
    assert_eq!(first, run());
    assert_eq!(first, (vec![(0, 1), (1, 0), (2, 1)], vec![0, 6, 3]));
}

#[test]
fn failed_retry_short_of_words_and_identifiers_is_out_of_memory() {
    let mut h = CopyingHeap::<1, 1>::new();
    let a = h.malloc(1, &Roots(vec![])).unwrap();
    assert_eq!(h.malloc(1, &Roots(vec![a.block_num()])), Err(HeapError::OutOfMemory));
    assert_eq!(h.blocks_num_copies(), vec![(0, 1)]);
    assert_eq!(h.allocate(1), Err(HeapError::OutOfMemory));
    assert_eq!(h.allocate(0), Err(HeapError::OutOfBlocks));
}
