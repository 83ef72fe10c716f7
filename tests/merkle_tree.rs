use rand::{Rng, SeedableRng};
use rand_chacha::ChaCha20Rng;
use stark_merkle::{HashValue, MerkleTree, MerkleTreeTwinProof, PushItem};

const P: u32 = 2147483647;

fn rand_leaf(prng: &mut ChaCha20Rng) -> Vec<u32> {
    (0..4).map(|_| prng.gen_range(0..P)).collect()
}

fn leaf(seed: u32) -> Vec<u32> {
    vec![seed, seed + 1, seed + 2, seed + 3]
}

fn stwo_hash_node(children: Option<([u8; 32], [u8; 32])>, l: &[u32]) -> [u8; 32] {
    let column: Vec<stwo::core::fields::m31::M31> =
        l.iter().map(|v| stwo::core::fields::m31::M31(*v)).collect();
    let children = children.map(|(a, b)| {
        (
            stwo::core::vcs::blake2_hash::Blake2sHash(a),
            stwo::core::vcs::blake2_hash::Blake2sHash(b),
        )
    });
    <stwo::core::vcs::blake2_merkle::Blake2sMerkleHasher as stwo::core::vcs::MerkleHasher>::hash_node(
        children, &column,
    )
    .0
}

fn stwo_node_hash(a: [u8; 32], b: [u8; 32]) -> [u8; 32] {
    stwo_hash_node(Some((a, b)), &[])
}

fn stwo_pair_hash(l: &[u32], r: &[u32]) -> [u8; 32] {
    stwo_node_hash(stwo_hash_node(None, l), stwo_hash_node(None, r))
}

#[test]
fn test_merkle_tree() {
    let mut prng = ChaCha20Rng::seed_from_u64(0);

    let mut last_layer = vec![];
    for _ in 0..1 << 12 {
        last_layer.push(rand_leaf(&mut prng));
    }

    let merkle_tree = MerkleTree::new(last_layer.clone());

    for _ in 0..10 {
        let mut query = (prng.gen::<u32>() % (1 << 12)) as usize;
        if query & 1 != 0 {
            query ^= 1;
        }

        let proof = merkle_tree.query(query);
        assert!(MerkleTree::verify_twin(&merkle_tree.root_hash, 12, &proof, query));
    }
}

#[test]
fn layer_count_is_log2_of_leaf_count() {
    for k in 1..=6u32 {
        let leaves: Vec<Vec<u32>> = (0..(1u32 << k)).map(|i| leaf(4 * i)).collect();
        let tree = MerkleTree::new(leaves);
        assert_eq!(tree.intermediate_layers.len(), k as usize);
        assert_eq!(tree.intermediate_layers.last().unwrap().len(), 1);
        assert_eq!(tree.intermediate_layers[0].len(), 1usize << (k - 1));
    }
}

#[test]
fn every_even_query_verifies() {
    let leaves: Vec<Vec<u32>> = (0..16u32).map(|i| leaf(10 * i)).collect();
    let tree = MerkleTree::new(leaves.clone());
    let depth = tree.intermediate_layers.len();
    for q in (0..16).step_by(2) {
        let proof = tree.query(q);
        assert_eq!(proof.left, leaves[q]);
        assert_eq!(proof.right, leaves[q + 1]);
        assert_eq!(proof.siblings.len(), depth - 1);
        assert!(MerkleTree::verify_twin(&tree.root_hash, depth, &proof, q));
    }
}

#[test]
fn tampered_proofs_are_rejected() {
    let leaves: Vec<Vec<u32>> = (0..8u32).map(|i| leaf(7 * i)).collect();
    let tree = MerkleTree::new(leaves);
    let proof = tree.query(2);
    assert!(MerkleTree::verify_twin(&tree.root_hash, 3, &proof, 2));

    let mut p = proof.clone();
    p.left[1] += 1;
    assert!(!MerkleTree::verify_twin(&tree.root_hash, 3, &p, 2));

    let mut p = proof.clone();
    p.right[3] ^= 1;
    assert!(!MerkleTree::verify_twin(&tree.root_hash, 3, &p, 2));

    for i in 0..proof.siblings.len() {
        let mut p = proof.clone();
        p.siblings[i].bytes[0] ^= 1;
        assert!(!MerkleTree::verify_twin(&tree.root_hash, 3, &p, 2));
    }
}

#[test]
fn same_leaves_give_same_root() {
    let leaves: Vec<Vec<u32>> = (0..8u32).map(|i| leaf(3 * i)).collect();
    let t1 = MerkleTree::new(leaves.clone());
    let t2 = MerkleTree::new(leaves.clone());
    assert!(t1.root_hash == t2.root_hash);
    let mut other = leaves;
    other[5][0] += 1;
    let t3 = MerkleTree::new(other);
    assert!(t1.root_hash != t3.root_hash);
}

#[test]
fn four_leaves_scenario() {
    let leaves: Vec<Vec<u32>> = (0..4u32).map(|i| leaf(100 * i)).collect();
    let tree = MerkleTree::new(leaves.clone());
    assert_eq!(tree.intermediate_layers.len(), 2);
    let proof = tree.query(0);
    assert_eq!(proof.left, leaves[0]);
    assert_eq!(proof.right, leaves[1]);
    assert_eq!(proof.siblings.len(), 1);
    assert_eq!(proof.siblings[0].bytes, stwo_pair_hash(&leaves[2], &leaves[3]));
    assert!(MerkleTree::verify_twin(&tree.root_hash, 2, &proof, 0));
    assert!(!MerkleTree::verify_twin(&tree.root_hash, 2, &proof, 2));
}

#[test]
fn two_leaves_scenario() {
    let leaves = vec![leaf(1), leaf(2)];
    let tree = MerkleTree::new(leaves.clone());
    assert_eq!(tree.intermediate_layers.len(), 1);
    let proof = tree.query(0);
    assert!(proof.siblings.is_empty());
    assert!(MerkleTree::verify_twin(&tree.root_hash, 1, &proof, 0));
    assert_eq!(tree.root_hash.bytes, stwo_pair_hash(&leaves[0], &leaves[1]));
}

#[test]
fn root_matches_stwo_hasher() {
    let leaves: Vec<Vec<u32>> = (0..4u32).map(|i| leaf(9 * i + 1)).collect();
    let tree = MerkleTree::new(leaves.clone());
    let expected = stwo_node_hash(
        stwo_pair_hash(&leaves[0], &leaves[1]),
        stwo_pair_hash(&leaves[2], &leaves[3]),
    );
    assert_eq!(tree.root_hash.bytes, expected);
    assert_ne!(tree.root_hash.bytes, [0u8; 32]);
}

#[test]
fn sibling_order_follows_index_parity() {
    let leaves: Vec<Vec<u32>> = (0..8u32).map(|i| leaf(5 * i)).collect();
    let tree = MerkleTree::new(leaves);
    let proof = tree.query(6);
    assert!(proof.siblings[0] == tree.intermediate_layers[0][2]);
    assert!(proof.siblings[1] == tree.intermediate_layers[1][0]);
    assert!(MerkleTree::verify_twin(&tree.root_hash, 3, &proof, 6));
    assert!(!MerkleTree::verify_twin(&tree.root_hash, 3, &proof, 4));
}

#[test]
fn push_layout_is_left_right_siblings() {
    let h = HashValue { bytes: [7u8; 32] };
    let proof = MerkleTreeTwinProof { left: vec![1, 2], right: vec![3], siblings: vec![h] };
    let out = proof.bitcoin_script_push(vec![PushItem::Element(0)]);
    assert_eq!(out.len(), 5);
    assert!(matches!(out[0], PushItem::Element(0)));
    assert!(matches!(out[1], PushItem::Element(1)));
    assert!(matches!(out[2], PushItem::Element(2)));
    assert!(matches!(out[3], PushItem::Element(3)));
    assert!(matches!(out[4], PushItem::Digest(d) if d == h));
}

#[test]
fn hash_values_compare_bytewise() {
    let a = HashValue { bytes: [1u8; 32] };
    let mut b = a;
    assert!(a == b);
    b.bytes[31] = 2;
    assert!(a != b);
}
