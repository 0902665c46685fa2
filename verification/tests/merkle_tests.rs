use phlopchain::merkle::FastMerkleTree;

#[test]
fn test_hash_creation() {
    let hash1 = phlopchain::digest::Hash::from_string("test1");
    let hash2 = phlopchain::digest::Hash::from_string("test2");
    assert_ne!(hash1, hash2);
}

#[test]
fn test_merkle_tree_single_leaf() {
    let mut tree = FastMerkleTree::new();
    tree.add_leaf(phlopchain::digest::Hash::from_string("single"));
    tree.build();
    assert!(tree.get_root().is_some());
}

#[test]
fn test_merkle_tree_multiple_leaves() {
    let data = vec![
        "leaf1".to_string(),
        "leaf2".to_string(),
        "leaf3".to_string(),
        "leaf4".to_string(),
    ];
    let tree = FastMerkleTree::from_data(data);
    assert!(tree.get_root().is_some());
    assert_eq!(tree.len(), 4);
}

#[test]
fn test_merkle_proof() {
    let data = vec![
        "leaf1".to_string(),
        "leaf2".to_string(),
        "leaf3".to_string(),
        "leaf4".to_string(),
    ];
    let tree = FastMerkleTree::from_data(data);

    let leaf = phlopchain::digest::Hash::from_string("leaf1");
    let proof = tree.get_proof(0).unwrap();
    assert!(tree.verify_proof(&leaf, &proof, 0));
}

#[test]
fn test_known_digests() {
    // SHA-256 of the empty input and of "abc", rendered in lowercase hex
    assert_eq!(
        phlopchain::digest::Hash::from_string("").to_hex(),
        "e3b0c44298fc1c149afbf4c8996fb92427ae41e4649b934ca495991b7852b855"
    );
    assert_eq!(
        phlopchain::digest::Hash::from_bytes(&[97, 98, 99]).to_hex(),
        "ba7816bf8f01cfea414140de5dae2223b00361a396177a9cb410ff61f20015ad"
    );
    assert_eq!(
        phlopchain::digest::Hash::new([0u8; 32]).to_hex(),
        "0".repeat(64)
    );
}

#[test]
fn test_combine_is_order_sensitive() {
    let a = phlopchain::digest::Hash::from_string("a");
    let b = phlopchain::digest::Hash::from_string("b");
    assert_ne!(a.combine(&b), b.combine(&a));
    assert_eq!(a.combine(&b), a.combine(&b));
}

#[test]
fn test_root_is_deterministic_and_order_sensitive() {
    let data = || {
        vec!["x".to_string(), "y".to_string(), "z".to_string()]
    };
    let tree1 = FastMerkleTree::from_data(data());
    let tree2 = FastMerkleTree::from_data(data());
    assert_eq!(tree1.get_root().unwrap(), tree2.get_root().unwrap());

    let swapped = FastMerkleTree::from_data(vec![
        "y".to_string(),
        "x".to_string(),
        "z".to_string(),
    ]);
    assert_ne!(tree1.get_root().unwrap(), swapped.get_root().unwrap());
}

#[test]
fn test_empty_tree_has_no_root() {
    let mut tree = FastMerkleTree::new();
    tree.build();
    assert!(tree.is_empty());
    assert_eq!(tree.len(), 0);
    assert!(tree.get_root().is_none());
    assert!(tree.get_proof(0).is_none());
}

#[test]
fn test_single_leaf_root_is_the_leaf() {
    let leaf = phlopchain::digest::Hash::from_string("single");
    let mut tree = FastMerkleTree::new();
    tree.add_leaf(leaf);
    tree.build();
    assert_eq!(*tree.get_root().unwrap(), leaf);
    let proof = tree.get_proof(0).unwrap();
    assert_eq!(proof.len(), 0);
    assert!(tree.verify_proof(&leaf, &proof, 0));
}

#[test]
fn test_proofs_verify_at_every_index() {
    let names = ["p0", "p1", "p2", "p3", "p4"];
    let mut data = Vec::new();
    for n in &names {
        data.push(n.to_string());
    }
    let tree = FastMerkleTree::from_data(data);
    for (i, n) in names.iter().enumerate() {
        let leaf = phlopchain::digest::Hash::from_string(n);
        let proof = tree.get_proof(i).unwrap();
        assert!(tree.verify_proof(&leaf, &proof, i));
    }
    assert!(tree.get_proof(names.len()).is_none());
}

#[test]
fn test_tampering_breaks_verification() {
    let data = vec![
        "leaf1".to_string(),
        "leaf2".to_string(),
        "leaf3".to_string(),
        "leaf4".to_string(),
    ];
    let tree = FastMerkleTree::from_data(data);
    let leaf = phlopchain::digest::Hash::from_string("leaf2");
    let proof = tree.get_proof(1).unwrap();
    assert!(tree.verify_proof(&leaf, &proof, 1));

    for k in 0..proof.len() {
        let mut tampered = proof.clone();
        tampered[k] = phlopchain::digest::Hash::from_string("tampered");
        assert!(!tree.verify_proof(&leaf, &tampered, 1));
    }

    let wrong_leaf = phlopchain::digest::Hash::from_string("leaf5");
    assert!(!tree.verify_proof(&wrong_leaf, &proof, 1));
    assert!(!tree.verify_proof(&leaf, &proof, 0));
}

#[test]
fn test_root_invalidated_by_insertion() {
    let mut tree = FastMerkleTree::new();
    tree.add_leaf(phlopchain::digest::Hash::from_string("one"));
    tree.build();
    assert!(tree.get_root().is_some());
    tree.add_leaf(phlopchain::digest::Hash::from_string("two"));
    assert!(tree.get_root().is_none());
    assert!(tree.get_proof(0).is_none());
    tree.build();
    assert!(tree.get_root().is_some());
    assert_eq!(tree.len(), 2);
}

#[test]
fn test_decimal_rendering() {
    assert_eq!(phlopchain::decimal::u128_to_dec(0), "0");
    assert_eq!(phlopchain::decimal::u128_to_dec(7), "7");
    assert_eq!(phlopchain::decimal::u128_to_dec(12345), "12345");
    assert_eq!(phlopchain::decimal::u32_to_dec(100), "100");
    assert_eq!(
        phlopchain::decimal::u64_to_dec(u64::MAX),
        "18446744073709551615"
    );
}
