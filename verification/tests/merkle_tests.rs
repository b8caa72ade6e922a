use chunk_ipfss::errors::MerkleError;
use chunk_ipfss::hashing::Hasher;
use chunk_ipfss::merkle::{Block, MerkleNode};
use chunk_ipfss::merkle_proof::MerkleProof;
use sha2::{Digest, Sha256};

/// The pairing hash recomputed independently of the library.
fn expected_pair(a: &str, b: &str) -> String {
    let mut hasher = Sha256::new();
    hasher.update(a);
    hasher.update(b);
    hex::encode(hasher.finalize())
}

fn build_block(leaves: &[&str]) -> Block {
    let hashes: Vec<String> = leaves.iter().map(|s| s.to_string()).collect();
    let mut block = Block::new(&hashes);
    block.build_merkle_tree().expect("build should succeed");
    block
}

fn root_of(block: &Block) -> String {
    block.get_merkle_root().clone().expect("root should be set")
}

#[test]
fn pair_is_sha256_hex_of_concatenation() {
    let h1 = "h1".to_string();
    let h2 = "h2".to_string();
    let paired = Hasher::pair(&h1, &h2);
    assert_eq!(paired, expected_pair("h1", "h2"));
    assert_eq!(paired.len(), 64);
    assert!(paired.chars().all(|c| c.is_ascii_hexdigit() && !c.is_ascii_uppercase()));
    assert_ne!(paired, "h1h2");
}

#[test]
fn pair_is_order_sensitive() {
    let a = "a".to_string();
    let b = "b".to_string();
    assert_ne!(Hasher::pair(&a, &b), Hasher::pair(&b, &a));
}

#[test]
fn determinism_same_root_and_tree() {
    let leaves = ["x1", "x2", "x3", "x4", "x5"];
    let b1 = build_block(&leaves);
    let b2 = build_block(&leaves);
    assert_eq!(root_of(&b1), root_of(&b2));
    assert_eq!(b1.get_merkle_tree(), b2.get_merkle_tree());
}

#[test]
fn rebuild_overwrites_with_same_root() {
    let hashes: Vec<String> = vec!["a".to_string(), "b".to_string(), "c".to_string()];
    let mut block = Block::new(&hashes);
    block.build_merkle_tree().expect("first build");
    let first_root = root_of(&block);
    block.build_merkle_tree().expect("rebuild");
    assert_eq!(root_of(&block), first_root);
}

#[test]
fn order_sensitivity_two_leaves() {
    let b1 = build_block(&["a", "b"]);
    let b2 = build_block(&["b", "a"]);
    assert_ne!(root_of(&b1), root_of(&b2));
}

#[test]
fn order_sensitivity_four_leaves() {
    let b1 = build_block(&["h1", "h2", "h3", "h4"]);
    let b2 = build_block(&["h1", "h3", "h2", "h4"]);
    assert_ne!(root_of(&b1), root_of(&b2));
}

#[test]
fn single_leaf_root_is_identifier_unchanged() {
    let block = build_block(&["h1"]);
    assert_eq!(root_of(&block), "h1");
    match block.get_merkle_tree() {
        Some(MerkleNode::Leaf(hash)) => assert_eq!(hash, "h1"),
        other => panic!("expected a single leaf, got {:?}", other),
    }
}

#[test]
fn three_leaf_odd_node_promotion() {
    let block = build_block(&["a", "b", "c"]);
    let ab = expected_pair("a", "b");
    let expected_root = expected_pair(&ab, "c");
    assert_eq!(root_of(&block), expected_root);
    // Not the duplicate-the-last-node policy.
    let cc = expected_pair("c", "c");
    assert_ne!(root_of(&block), expected_pair(&ab, &cc));
    match block.get_merkle_tree() {
        Some(MerkleNode::Branch(hash, left, right)) => {
            assert_eq!(hash, &expected_root);
            match &**left {
                MerkleNode::Branch(inner, la, lb) => {
                    assert_eq!(inner, &ab);
                    assert_eq!(&**la, &MerkleNode::Leaf("a".to_string()));
                    assert_eq!(&**lb, &MerkleNode::Leaf("b".to_string()));
                },
                other => panic!("expected inner branch, got {:?}", other),
            }
            assert_eq!(&**right, &MerkleNode::Leaf("c".to_string()));
        },
        other => panic!("expected a branch root, got {:?}", other),
    }
}

#[test]
fn two_leaf_scenario() {
    let block = build_block(&["h1", "h2"]);
    let expected_root = expected_pair("h1", "h2");
    assert_eq!(root_of(&block), expected_root);
    let generator = MerkleProof::new(block, 0);
    let merkle_proof = generator.generate_merkle_proof().expect("proof for index 0");
    assert_eq!(merkle_proof.chunk_hash, "h1");
    assert_eq!(merkle_proof.proof_hashes, vec![("h2".to_string(), true)]);
    assert_eq!(merkle_proof.root_hash, expected_root);
    assert_eq!(merkle_proof.target_index, 0);
    let ok = generator.verify_merkle_proof(&merkle_proof).expect("verification runs");
    assert!(ok);
}

#[test]
fn four_leaf_scenario() {
    let block = build_block(&["h1", "h2", "h3", "h4"]);
    let n1 = expected_pair("h1", "h2");
    let n2 = expected_pair("h3", "h4");
    let expected_root = expected_pair(&n1, &n2);
    assert_eq!(root_of(&block), expected_root);
    let generator = MerkleProof::new(block, 2);
    let merkle_proof = generator.generate_merkle_proof().expect("proof for index 2");
    assert_eq!(merkle_proof.chunk_hash, "h3");
    assert_eq!(
        merkle_proof.proof_hashes,
        vec![("h4".to_string(), true), (n1.clone(), false)]
    );
    assert_eq!(merkle_proof.root_hash, expected_root);
    let ok = generator.verify_merkle_proof(&merkle_proof).expect("verification runs");
    assert!(ok);
}

#[test]
fn round_trip_all_sizes_and_indices() {
    for n in 1..=6 {
        let hashes: Vec<String> = (0..n).map(|i| format!("leaf{}", i)).collect();
        let mut block = Block::new(&hashes);
        block.build_merkle_tree().expect("build should succeed");
        for i in 0..n {
            let generator = MerkleProof::new(block.clone(), i);
            let merkle_proof = generator.generate_merkle_proof().expect("proof generation");
            assert_eq!(merkle_proof.chunk_hash, hashes[i]);
            assert_eq!(merkle_proof.target_index, i);
            let ok = generator.verify_merkle_proof(&merkle_proof).expect("verification runs");
            assert!(ok, "proof for index {} of {} leaves must verify", i, n);
        }
    }
}

#[test]
fn tamper_sibling_hash_detected() {
    let block = build_block(&["h1", "h2", "h3", "h4", "h5"]);
    let generator = MerkleProof::new(block, 1);
    let merkle_proof = generator.generate_merkle_proof().expect("proof generation");
    for pos in 0..merkle_proof.proof_hashes.len() {
        let (sibling, side) = merkle_proof.proof_hashes[pos].clone();
        for at in 0..sibling.len() {
            let mut chars: Vec<char> = sibling.chars().collect();
            chars[at] = if chars[at] == 'a' { 'b' } else { 'a' };
            let flipped: String = chars.into_iter().collect();
            if flipped == sibling {
                continue;
            }
            let mut tampered = generator.generate_merkle_proof().expect("proof generation");
            tampered.proof_hashes[pos] = (flipped, side);
            let ok = generator.verify_merkle_proof(&tampered).expect("verification runs");
            assert!(!ok, "tampered sibling {} at {} must be rejected", pos, at);
        }
    }
}

#[test]
fn tamper_root_hash_detected() {
    let block = build_block(&["h1", "h2", "h3"]);
    let generator = MerkleProof::new(block, 0);
    let mut merkle_proof = generator.generate_merkle_proof().expect("proof generation");
    merkle_proof.root_hash = expected_pair("somewhere", "else");
    let ok = generator.verify_merkle_proof(&merkle_proof).expect("verification runs");
    assert!(!ok);
}

#[test]
fn empty_input_rejected() {
    let hashes: Vec<String> = Vec::new();
    let mut block = Block::new(&hashes);
    assert_eq!(block.build_merkle_tree(), Err(MerkleError::EmptyInput));
    assert!(block.get_merkle_root().is_none());
    assert!(block.get_merkle_tree().is_none());
}

#[test]
fn proof_before_build_is_no_root() {
    let hashes: Vec<String> = vec!["h1".to_string(), "h2".to_string()];
    let block = Block::new(&hashes);
    let generator = MerkleProof::new(block, 0);
    assert_eq!(generator.generate_merkle_proof().err(), Some(MerkleError::NoRoot));
}

#[test]
fn out_of_range_index_rejected() {
    let block = build_block(&["h1", "h2"]);
    let generator = MerkleProof::new(block, 5);
    assert_eq!(generator.generate_merkle_proof().err(), Some(MerkleError::IndexOutOfRange));
}

#[test]
fn leaves_are_stored_verbatim() {
    let hashes: Vec<String> = vec!["q".to_string(), "r".to_string()];
    let block = Block::new(&hashes);
    assert_eq!(block.get_hashes(), &hashes);
    assert!(block.get_merkle_root().is_none());
}
