use term_bank::array_bank::ArrayBank;
use term_bank::error::Error;

#[test]
fn empty_sequence_round_trip() {
    let mut arena: ArrayBank<u32> = ArrayBank::new();
    let h = arena.allocate(&[]).unwrap();
    assert_eq!(0, h.length());
    assert_eq!(Vec::<u32>::new(), arena.get(h));
    assert_eq!(0, arena.len());
    // freeing a length-0 handle is a no-op that succeeds
    arena.free(h).unwrap();
    assert_eq!(Some(vec![]), arena.try_get(h));
}

#[test]
fn three_element_sequence_round_trip() {
    let mut arena: ArrayBank<u32> = ArrayBank::new();
    let h = arena.allocate(&[1, 2, 3]).unwrap();
    assert_eq!(3, h.length());
    assert_eq!(vec![1, 2, 3], arena.get(h));
    assert_eq!(1, arena.len());
    arena.free(h).unwrap();
    assert_eq!(None, arena.try_get(h));
    assert_eq!(0, arena.len());
}

#[test]
fn every_size_class_round_trips() {
    let mut arena: ArrayBank<i64> = ArrayBank::new();
    let h1 = arena.allocate(&[-1]).unwrap();
    let h2 = arena.allocate(&[1, 2]).unwrap();
    let h3 = arena.allocate(&[1, 2, 3]).unwrap();
    let h7 = arena.allocate(&[1, 2, 3, 4, 5, 6, 7]).unwrap();
    assert_eq!(1, h1.length());
    assert_eq!(2, h2.length());
    assert_eq!(3, h3.length());
    assert_eq!(7, h7.length());
    assert_eq!(4, arena.len());
    assert_eq!(vec![-1], arena.get(h1));
    assert_eq!(vec![1, 2], arena.get(h2));
    assert_eq!(vec![1, 2, 3], arena.get(h3));
    assert_eq!(vec![1, 2, 3, 4, 5, 6, 7], arena.get(h7));
    // freeing one class leaves the others untouched
    arena.free(h2).unwrap();
    assert_eq!(None, arena.try_get(h2));
    assert_eq!(Some(vec![-1]), arena.try_get(h1));
    assert_eq!(Some(vec![1, 2, 3]), arena.try_get(h3));
    assert_eq!(Some(vec![1, 2, 3, 4, 5, 6, 7]), arena.try_get(h7));
    assert_eq!(3, arena.len());
}

#[test]
fn array_double_free_rejected() {
    let mut arena: ArrayBank<u8> = ArrayBank::new();
    let h = arena.allocate(&[9, 9]).unwrap();
    arena.free(h).unwrap();
    assert!(matches!(arena.free(h), Err(Error::InvalidIndex(_))));
    assert_eq!(0, arena.len());
}

#[test]
fn array_slot_reuse_changes_generation() {
    let mut arena: ArrayBank<u8> = ArrayBank::new();
    let h1 = arena.allocate(&[1, 2, 3]).unwrap();
    arena.free(h1).unwrap();
    let h2 = arena.allocate(&[4, 5, 6]).unwrap();
    assert_eq!(h1.index().index(), h2.index().index());
    assert_ne!(h1, h2);
    assert_eq!(None, arena.try_get(h1));
    assert_eq!(Some(vec![4, 5, 6]), arena.try_get(h2));
}
