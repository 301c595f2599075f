use gc_heap::Pointer;

#[test]
fn test_pointer_iteration() {
    let p = Pointer::new(0, 5);
    let addresses = p.iter().collect_all();
    assert_eq!(5, addresses.len());
    for i in 0..5 {
        assert_eq!(i, addresses[i].offset());
    }
}

#[test]
fn pointer_iteration_restarts_from_the_same_address() {
    let p = Pointer::new(3, 4);
    let first = p.iter().collect_all();
    let second = p.iter().collect_all();
    assert_eq!(first, second);
    assert!(first.iter().all(|q| q.block_num() == 3 && q.len() == 4));
}

#[test]
fn pointer_iteration_steps_one_word_at_a_time() {
    let p = Pointer::new(2, 2);
    let mut it = p.iter();
    assert_eq!(it.next(), Some(Pointer::new(2, 2)));
    assert_eq!(it.next(), Some(Pointer::new(2, 2).with_offset(1)));
    assert_eq!(it.next(), None);
    assert_eq!(it.next(), None);
}

#[test]
fn empty_block_yields_no_addresses() {
    let p = Pointer::new(1, 0);
    assert!(p.iter().collect_all().is_empty());
}

#[test]
fn pointer_getters() {
    let p = Pointer::new(7, 9).with_offset(4);
    assert_eq!(p.block_num(), 7);
    assert_eq!(p.offset(), 4);
    assert_eq!(p.len(), 9);
    assert_eq!(Pointer::default().len(), 0);
}
