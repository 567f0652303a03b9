use expander_rs::merkle_tree::{MerkleRoot, MerkleTreeProver, MerkleTreeVerifier, HASH_SIZE};
use expander_rs::{as_bytes_vec, FieldArith, FieldSerde, Msn61};

fn pair(a: u32, b: u32) -> Vec<u8> {
    as_bytes_vec(&[Msn61::from(a), Msn61::from(b)])
}

fn eight_leaves() -> Vec<Vec<u8>> {
    vec![
        pair(1, 2),
        pair(3, 4),
        pair(5, 6),
        pair(7, 8),
        pair(9, 10),
        pair(11, 12),
        pair(13, 14),
        pair(15, 16),
    ]
}

#[test]
fn commit_and_open() {
    let leaf_values = vec![
        as_bytes_vec(&[Msn61::from(1u32), Msn61::from(2u32)]),
        as_bytes_vec(&[Msn61::from(3u32), Msn61::from(4u32)]),
        as_bytes_vec(&[Msn61::from(5u32), Msn61::from(6u32)]),
        as_bytes_vec(&[Msn61::from(7u32), Msn61::from(8u32)]),
        as_bytes_vec(&[Msn61::from(9u32), Msn61::from(10u32)]),
        as_bytes_vec(&[Msn61::from(11u32), Msn61::from(12u32)]),
        as_bytes_vec(&[Msn61::from(13u32), Msn61::from(14u32)]),
        as_bytes_vec(&[Msn61::from(15u32), Msn61::from(16u32)]),
    ];
    let leave_number = leaf_values.len();
    let prover = MerkleTreeProver::new(leaf_values);
    let root = prover.commit();
    let verifier = MerkleTreeVerifier::new(leave_number, &root);
    let leaf_indices = vec![2, 3, 4];
    let proof_bytes = prover.open(&leaf_indices);
    assert_eq!(proof_bytes.len(), verifier.proof_length(&leaf_indices));
    let open_values = vec![
        as_bytes_vec(&[Msn61::from(5u32), Msn61::from(6u32)]),
        as_bytes_vec(&[Msn61::from(7u32), Msn61::from(8u32)]),
        as_bytes_vec(&[Msn61::from(9u32), Msn61::from(10u32)]),
    ];
    assert!(verifier.verify(proof_bytes, &leaf_indices, &open_values));
}

#[test]
fn leaves_are_sixteen_bytes() {
    assert_eq!(pair(1, 2), vec![1, 0, 0, 0, 0, 0, 0, 0, 2, 0, 0, 0, 0, 0, 0, 0]);
    assert_eq!(Msn61::size(), 8);
}

#[test]
fn proof_length_counts_missing_siblings() {
    let root = [0u8; HASH_SIZE];
    let verifier = MerkleTreeVerifier::new(8, &root);
    // one leaf: one sibling at each of the three levels
    assert_eq!(verifier.proof_length(&vec![5]), 3 * HASH_SIZE);
    // two siblings: nothing at the first level, one at each level above
    assert_eq!(verifier.proof_length(&vec![4, 5]), 2 * HASH_SIZE);
    // 2 and 3 are siblings, 4 needs 5; above, (1) and (2) need (0) and (3)
    assert_eq!(verifier.proof_length(&vec![2, 3, 4]), 3 * HASH_SIZE);
    // every leaf: nothing to add
    assert_eq!(verifier.proof_length(&vec![0, 1, 2, 3, 4, 5, 6, 7]), 0);
    assert_eq!(verifier.proof_length(&vec![]), 0);
    let single = MerkleTreeVerifier::new(1, &root);
    assert_eq!(single.proof_length(&vec![0]), 0);
}

#[test]
fn difference_keeps_order() {
    assert_eq!(MerkleTreeVerifier::difference(&[3, 2, 5, 2], &[2, 4]), vec![3, 5]);
    assert_eq!(MerkleTreeVerifier::difference(&[], &[1]), Vec::<usize>::new());
    assert_eq!(MerkleTreeVerifier::difference(&[1, 1], &[]), vec![1, 1]);
}

#[test]
fn every_index_set_of_a_small_tree_verifies() {
    let leaves = eight_leaves();
    let prover = MerkleTreeProver::new(leaves.clone());
    assert_eq!(prover.leave_num(), 8);
    let root = prover.commit();
    let verifier = MerkleTreeVerifier::new(8, &root);
    for mask in 1u32..256 {
        let indices: Vec<usize> = (0..8).filter(|i| mask & (1 << i) != 0).collect();
        let opened: Vec<Vec<u8>> = indices.iter().map(|i| leaves[*i].clone()).collect();
        let proof_bytes = prover.open(&indices);
        assert_eq!(proof_bytes.len(), verifier.proof_length(&indices), "mask {}", mask);
        assert!(verifier.verify(proof_bytes, &indices, &opened), "mask {}", mask);
    }
}

#[test]
fn any_flipped_bit_is_rejected() {
    let leaves = eight_leaves();
    let prover = MerkleTreeProver::new(leaves.clone());
    let root = prover.commit();
    let verifier = MerkleTreeVerifier::new(8, &root);
    let indices = vec![1, 6];
    let opened = vec![leaves[1].clone(), leaves[6].clone()];
    let proof_bytes = prover.open(&indices);
    assert!(verifier.verify(proof_bytes.clone(), &indices, &opened));
    // a leaf
    for byte in 0..opened[0].len() {
        let mut bad = opened.clone();
        bad[0][byte] ^= 1;
        assert!(!verifier.verify(proof_bytes.clone(), &indices, &bad));
    }
    // a proof byte
    for byte in 0..proof_bytes.len() {
        let mut bad = proof_bytes.clone();
        bad[byte] ^= 0x10;
        assert!(!verifier.verify(bad, &indices, &opened));
    }
    // the root
    for byte in 0..HASH_SIZE {
        let mut bad_root = root;
        bad_root[byte] ^= 2;
        let other = MerkleTreeVerifier::new(8, &bad_root);
        assert!(!other.verify(proof_bytes.clone(), &indices, &opened));
    }
}

#[test]
fn malformed_proofs_are_rejected_without_panic() {
    let leaves = eight_leaves();
    let prover = MerkleTreeProver::new(leaves.clone());
    let root = prover.commit();
    let verifier = MerkleTreeVerifier::new(8, &root);
    let indices = vec![3];
    let opened = vec![leaves[3].clone()];
    let proof_bytes = prover.open(&indices);
    // not a whole number of hashes
    assert!(!verifier.verify(proof_bytes[..proof_bytes.len() - 1].to_vec(), &indices, &opened));
    // too few hashes
    assert!(!verifier.verify(proof_bytes[..HASH_SIZE].to_vec(), &indices, &opened));
    assert!(!verifier.verify(Vec::new(), &indices, &opened));
    // leaves and indices do not match up
    assert!(!verifier.verify(proof_bytes.clone(), &vec![3, 4], &opened));
    // another leaf count
    let other = MerkleTreeVerifier::new(4, &root);
    assert!(!other.verify(proof_bytes, &indices, &opened));
}

#[test]
fn get_root_recovers_the_commitment() {
    let leaves = eight_leaves();
    let prover = MerkleTreeProver::new(leaves.clone());
    let root = prover.commit();
    let proof_bytes = prover.open(&vec![5]);
    assert_eq!(MerkleRoot::get_root(proof_bytes.clone(), 5, leaves[5].clone(), 8), Some(root));
    assert_ne!(MerkleRoot::get_root(proof_bytes.clone(), 4, leaves[5].clone(), 8), Some(root));
    assert_eq!(MerkleRoot::get_root(vec![1, 2, 3], 5, leaves[5].clone(), 8), None);
}

#[test]
fn root_depends_on_every_leaf() {
    let leaves = eight_leaves();
    let root = MerkleTreeProver::new(leaves.clone()).commit();
    for i in 0..8 {
        let mut changed = leaves.clone();
        changed[i][0] ^= 1;
        assert_ne!(MerkleTreeProver::new(changed).commit(), root);
    }
    assert!(Msn61::from(3u32).equals(&Msn61::from(3u64)));
}

#[test]
fn a_single_leaf_is_committed_to_by_its_hash() {
    // the BLAKE3 hash of the empty string
    let expected: [u8; HASH_SIZE] = [
        0xaf, 0x13, 0x49, 0xb9, 0xf5, 0xf9, 0xa1, 0xa6, 0xa0, 0x40, 0x4d, 0xea, 0x36, 0xdc, 0xc9,
        0x49, 0x9b, 0xcb, 0x25, 0xc9, 0xad, 0xc1, 0x12, 0xb7, 0xcc, 0x9a, 0x93, 0xca, 0xe4, 0x1f,
        0x32, 0x62,
    ];
    let prover = MerkleTreeProver::new(vec![vec![]]);
    assert_eq!(prover.commit(), expected);
    let verifier = MerkleTreeVerifier::new(1, &expected);
    assert!(verifier.verify(prover.open(&vec![0]), &vec![0], &vec![vec![]]));
    assert!(!verifier.verify(Vec::new(), &vec![0], &vec![vec![0]]));
}

#[test]
fn every_ascending_index_set_verifies_in_trees_of_any_size() {
    for count in 1usize..=11 {
        let leaves: Vec<Vec<u8>> = (0..count).map(|i| pair(i as u32, 1000 + i as u32)).collect();
        let prover = MerkleTreeProver::new(leaves.clone());
        let root = prover.commit();
        let verifier = MerkleTreeVerifier::new(count, &root);
        for mask in 1u32..(1 << count) {
            let indices: Vec<usize> = (0..count).filter(|i| mask >> i & 1 == 1).collect();
            let opened: Vec<Vec<u8>> = indices.iter().map(|i| leaves[*i].clone()).collect();
            let proof_bytes = prover.open(&indices);
            assert!(
                verifier.verify(proof_bytes, &indices, &opened),
                "{} leaves, indices {:?}",
                count,
                indices
            );
        }
    }
}

#[test]
fn ascending_index_sets_verify_in_larger_trees() {
    for count in [12usize, 13, 16, 17, 31, 32, 33, 64, 100] {
        let leaves: Vec<Vec<u8>> = (0..count).map(|i| pair(i as u32, 7 * i as u32)).collect();
        let prover = MerkleTreeProver::new(leaves.clone());
        let root = prover.commit();
        let verifier = MerkleTreeVerifier::new(count, &root);
        for step in 1..=count {
            for start in 0..step.min(5) {
                let indices: Vec<usize> = (start..count).step_by(step).collect();
                if indices.is_empty() {
                    continue;
                }
                let opened: Vec<Vec<u8>> = indices.iter().map(|i| leaves[*i].clone()).collect();
                let proof_bytes = prover.open(&indices);
                assert!(
                    verifier.verify(proof_bytes, &indices, &opened),
                    "{} leaves, indices {:?}",
                    count,
                    indices
                );
            }
        }
        let last = vec![count - 1];
        let proof_bytes = prover.open(&last);
        assert!(verifier.verify(proof_bytes, &last, &vec![leaves[count - 1].clone()]));
    }
}

#[test]
fn an_opening_of_no_leaf_is_not_accepted() {
    let prover = MerkleTreeProver::new(eight_leaves());
    let root = prover.commit();
    let verifier = MerkleTreeVerifier::new(8, &root);
    let none: Vec<usize> = vec![];
    let proof_bytes = prover.open(&none);
    assert!(!verifier.verify(proof_bytes, &none, &vec![]));
}
