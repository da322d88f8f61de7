use proof_list::key::ProofListKey;

#[test]
fn children_and_parent() {
    let key = ProofListKey::new(3, 5);
    let left = key.left();
    let right = key.right();
    assert_eq!((2, 10), (left.height(), left.index()));
    assert_eq!((2, 11), (right.height(), right.index()));
    assert_eq!(key, left.parent());
    assert_eq!(key, right.parent());
    assert!(left.is_left());
    assert!(!right.is_left());
    assert_eq!(left, right.as_left());
    assert_eq!(right, left.as_right());
    assert_eq!(right, right.as_right());
}

#[test]
fn leaf_ranges() {
    let key = ProofListKey::new(3, 5);
    assert_eq!(20, key.first_left_leaf_index());
    assert_eq!(22, key.first_right_leaf_index());
    assert_eq!(7, ProofListKey::new(1, 7).first_left_leaf_index());
    assert_eq!(1, ProofListKey::new(2, 0).first_right_leaf_index());
    let leaf = ProofListKey::leaf(9);
    assert_eq!((0, 9), (leaf.height(), leaf.index()));
}

#[test]
fn key_bytes() {
    let key = ProofListKey::new(2, 0x0102_0304_0506_0708);
    assert_eq!(vec![2, 1, 2, 3, 4, 5, 6, 7, 8], key.to_bytes());
    let leaf = ProofListKey::leaf(1);
    assert_eq!(vec![0, 0, 0, 0, 0, 0, 0, 0, 1], leaf.to_bytes());
    assert!(leaf.to_bytes() < ProofListKey::new(1, 0).to_bytes());
}
