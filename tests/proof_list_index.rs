use proof_list::hash::{
    empty_list_hash, hash_leaf, hash_list_node, hash_node, hash_single_node, Digest,
};
use proof_list::index::ProofListIndex;
use proof_list::list_proof::{ListProof, ListProofError, ProofOfAbsence};
use sha2::Digest as _;

fn sha(data: &[u8]) -> Vec<u8> {
    sha2::Sha256::digest(data).to_vec()
}

fn index_of(values: &[u8]) -> ProofListIndex {
    let mut index = ProofListIndex::new("name".to_string());
    for v in values {
        index.push(vec![*v]);
    }
    index
}

fn entries_of(values: &[(u64, u8)]) -> Vec<(u64, Vec<u8>)> {
    values.iter().map(|(p, v)| (*p, vec![*v])).collect()
}

#[test]
fn get_after_push() {
    let mut index = ProofListIndex::new("name".to_string());
    assert_eq!(None, index.get(0));
    index.push(vec![10]);
    assert_eq!(Some(vec![10]), index.get(0));
}

#[test]
fn pushes_keep_order_and_last() {
    let mut index = ProofListIndex::new("name".to_string());
    assert_eq!(None, index.last());
    for v in 0..20u8 {
        index.push(vec![v, v + 1]);
        assert_eq!(Some(vec![v, v + 1]), index.last());
    }
    for v in 0..20u8 {
        assert_eq!(Some(vec![v, v + 1]), index.get(v as u64));
    }
    assert_eq!(None, index.get(20));
}

#[test]
fn is_empty_and_len() {
    let mut index = ProofListIndex::new("name".to_string());
    assert!(index.is_empty());
    assert_eq!(0, index.len());
    index.push(vec![1]);
    assert!(!index.is_empty());
    assert_eq!(1, index.len());
}

#[test]
fn height_follows_length() {
    let mut index = ProofListIndex::new("name".to_string());
    assert_eq!(1, index.height());
    let expected = [1u8, 2, 3, 3, 4, 4, 4, 4, 5];
    for (k, h) in expected.iter().enumerate() {
        index.push(vec![k as u8]);
        assert_eq!(*h, index.height(), "length {}", k + 1);
    }
}

#[test]
fn height_of_powers_of_two() {
    let mut index = ProofListIndex::new("name".to_string());
    for n in 1..=64u64 {
        index.push(vec![n as u8]);
        if n.is_power_of_two() {
            assert_eq!(n.trailing_zeros() as u8 + 1, index.height());
        }
    }
}

#[test]
fn wrappers_hash_their_input() {
    let value = vec![7u8, 8, 9];
    let leaf = hash_leaf(&value);
    assert_eq!(sha(&[0, 7, 8, 9]), leaf.bytes);
    assert_ne!(value, leaf.bytes);
    let single = hash_single_node(&leaf);
    let mut pre = vec![1u8];
    pre.extend_from_slice(&leaf.bytes);
    assert_eq!(sha(&pre), single.bytes);
    let node = hash_node(&leaf, &single);
    let mut pre = vec![1u8];
    pre.extend_from_slice(&leaf.bytes);
    pre.extend_from_slice(&single.bytes);
    assert_eq!(sha(&pre), node.bytes);
}

#[test]
fn empty_list() {
    let index = ProofListIndex::new("name".to_string());
    assert_eq!(0, index.len());
    assert_eq!(1, index.height());
    assert_eq!(empty_list_hash(), index.list_hash());
    let mut pre = vec![2u8, 0, 0, 0, 0, 0, 0, 0, 0];
    pre.extend_from_slice(&[0u8; 32]);
    assert_eq!(sha(&pre), index.list_hash().bytes);
    match index.get_proof(0) {
        ListProof::Absent(a) => {
            assert_eq!(0, a.length);
            assert_eq!(Digest::zero(), a.merkle_root);
        }
        other => panic!("expected a proof of absence, got {:?}", other),
    }
}

#[test]
fn single_element_list_hash() {
    let index = index_of(&[1]);
    let leaf = sha(&[0, 1]);
    let mut pre = vec![2u8, 0, 0, 0, 0, 0, 0, 0, 1];
    pre.extend_from_slice(&leaf);
    assert_eq!(sha(&pre), index.list_hash().bytes);
    assert_ne!(empty_list_hash(), index.list_hash());
}

#[test]
fn three_elements_root() {
    let index = index_of(&[1, 2, 3]);
    assert_eq!(3, index.height());
    let l1 = hash_leaf(&vec![1]);
    let l2 = hash_leaf(&vec![2]);
    let l3 = hash_leaf(&vec![3]);
    let left = hash_node(&l1, &l2);
    let right = hash_single_node(&l3);
    let root = hash_node(&left, &right);
    assert_eq!(root, index.merkle_root());
    assert_eq!(hash_list_node(3, &root), index.list_hash());
    let proof = index.get_range_proof(0..3);
    assert_eq!(
        Ok(entries_of(&[(0, 1), (1, 2), (2, 3)])),
        proof.validate(&index.list_hash(), 3)
    );
}

#[test]
fn range_past_end_is_absent() {
    let index = index_of(&[1, 2, 3, 4, 5]);
    match index.get_range_proof(1..10) {
        ListProof::Absent(a) => {
            assert_eq!(5, a.length);
            assert_eq!(index.merkle_root(), a.merkle_root);
        }
        other => panic!("expected a proof of absence, got {:?}", other),
    }
}

#[test]
fn set_then_range_proof() {
    let mut index = index_of(&[10, 20, 30, 40]);
    let before = index.list_hash();
    index.set(2, vec![99]);
    assert_eq!(Some(vec![99]), index.get(2));
    let proof = index.get_range_proof(2..3);
    assert_eq!(Ok(entries_of(&[(2, 99)])), proof.validate(&index.list_hash(), 4));
    assert_eq!(Err(ListProofError::HashMismatch), proof.validate(&before, 4));
}

#[test]
fn every_position_proof_verifies() {
    for n in 1..=17u8 {
        let values: Vec<u8> = (0..n).map(|v| v.wrapping_mul(37)).collect();
        let index = index_of(&values);
        let list_hash = index.list_hash();
        for i in 0..n {
            let proof = index.get_proof(i as u64);
            assert_eq!(
                Ok(vec![(i as u64, vec![values[i as usize]])]),
                proof.validate(&list_hash, n as u64)
            );
        }
    }
}

#[test]
fn every_range_proof_verifies() {
    for n in 1..=11u8 {
        let values: Vec<u8> = (100..100 + n).collect();
        let index = index_of(&values);
        let list_hash = index.list_hash();
        for a in 0..n {
            for b in a + 1..=n {
                let proof = index.get_range_proof(a as u64..b as u64);
                let expected: Vec<(u64, Vec<u8>)> =
                    (a..b).map(|k| (k as u64, vec![values[k as usize]])).collect();
                assert_eq!(Ok(expected), proof.validate(&list_hash, n as u64));
            }
        }
    }
}

#[test]
fn absent_proofs_verify() {
    let index = index_of(&[1, 2, 3]);
    let proof = index.get_proof(3);
    match &proof {
        ListProof::Absent(a) => {
            assert_eq!(3, a.length);
            assert_eq!(index.merkle_root(), a.merkle_root);
        }
        other => panic!("expected a proof of absence, got {:?}", other),
    }
    assert_eq!(Ok(vec![]), proof.validate(&index.list_hash(), 3));
    assert!(matches!(index.get_proof(100), ListProof::Absent(_)));
}

#[test]
fn absent_with_other_length_is_rejected() {
    let index = index_of(&[1, 2, 3]);
    let proof = index.get_proof(5);
    assert_eq!(Err(ListProofError::LengthMismatch), proof.validate(&index.list_hash(), 4));
}

#[test]
fn misshapen_proofs_are_rejected() {
    let index = index_of(&[1, 2, 3]);
    let list_hash = index.list_hash();
    let leaf_at_root = ListProof::Leaf(vec![1]);
    assert_eq!(Err(ListProofError::MalformedTree), leaf_at_root.validate(&list_hash, 3));
    let inner = ListProof::Left(Box::new(ListProof::Leaf(vec![1])), Some(hash_leaf(&vec![2])));
    let missing_right = ListProof::Left(Box::new(inner), None);
    assert_eq!(Err(ListProofError::MalformedTree), missing_right.validate(&list_hash, 3));
    let absent_in_tree = ListProof::Left(
        Box::new(ListProof::Absent(ProofOfAbsence { length: 3, merkle_root: Digest::zero() })),
        None,
    );
    assert_eq!(Err(ListProofError::MalformedTree), absent_in_tree.validate(&list_hash, 3));
    assert_eq!(
        Err(ListProofError::MalformedTree),
        ListProof::Leaf(vec![1]).validate(&empty_list_hash(), 0)
    );
}

#[test]
fn forged_value_is_rejected() {
    let index = index_of(&[1, 2, 3, 4]);
    let proof = index.get_proof(1);
    let forged = match proof {
        ListProof::Left(sub, right) => match *sub {
            ListProof::Right(l, _) => ListProof::Left(
                Box::new(ListProof::Right(l, Box::new(ListProof::Leaf(vec![9])))),
                right,
            ),
            other => panic!("unexpected shape {:?}", other),
        },
        other => panic!("unexpected shape {:?}", other),
    };
    assert_eq!(Err(ListProofError::HashMismatch), forged.validate(&index.list_hash(), 4));
}

#[test]
fn set_twice_keeps_list_hash() {
    let mut index = index_of(&[5, 6, 7]);
    index.set(1, vec![42]);
    let once = index.list_hash();
    index.set(1, vec![42]);
    assert_eq!(once, index.list_hash());
}

#[test]
fn swapped_values_change_list_hash() {
    let ab = index_of(&[1, 2]);
    let ba = index_of(&[2, 1]);
    assert_ne!(ab.list_hash(), ba.list_hash());
}

#[test]
fn incremental_and_bulk_agree() {
    let values: Vec<Vec<u8>> = (0..13u8).map(|v| vec![v; (v % 4) as usize + 1]).collect();
    let mut one_by_one = ProofListIndex::new("a".to_string());
    for v in &values {
        one_by_one.push(v.clone());
    }
    let mut bulk = ProofListIndex::new("b".to_string());
    bulk.extend(values.clone());
    assert_eq!(one_by_one.list_hash(), bulk.list_hash());
    assert_eq!(13, bulk.len());
}

#[test]
fn set_matches_fresh_build() {
    let mut index = index_of(&[1, 2, 3, 4, 5, 6, 7]);
    index.set(6, vec![70]);
    index.set(0, vec![10]);
    let fresh = index_of(&[10, 2, 3, 4, 5, 6, 70]);
    assert_eq!(fresh.list_hash(), index.list_hash());
}

#[test]
fn clear_empties_the_list() {
    let mut index = index_of(&[1, 2, 3]);
    index.clear();
    assert!(index.is_empty());
    assert_eq!(empty_list_hash(), index.list_hash());
    index.push(vec![4]);
    assert_eq!(index_of(&[4]).list_hash(), index.list_hash());
}

#[test]
fn iter_and_iter_from() {
    let index = index_of(&[1, 2, 3, 4]);
    let mut it = index.iter();
    let mut all = Vec::new();
    while let Some(v) = it.next() {
        all.push(v);
    }
    assert_eq!(vec![vec![1], vec![2], vec![3], vec![4]], all);
    let mut it = index.iter_from(2);
    assert_eq!(Some(vec![3]), it.next());
    assert_eq!(Some(vec![4]), it.next());
    assert_eq!(None, it.next());
    let mut it = index.iter_from(9);
    assert_eq!(None, it.next());
}

#[test]
fn family_index_is_a_separate_list() {
    let mut a = ProofListIndex::new_in_family("family".to_string(), &vec![1]);
    let b = ProofListIndex::new_in_family("family".to_string(), &vec![2]);
    a.push(vec![1]);
    assert_eq!(1, a.len());
    assert_eq!(0, b.len());
}
