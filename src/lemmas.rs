//! Facts that relate building, querying and checking.
use vstd::prelude::*;

use crate::hash::{hash_node_of, node_hash};
use crate::merkle_tree::{
    lemma_path_in_layer, depth_of, fold_path, is_pow2, layer_at, log2, merkle_root, next_layer, pair_hash, parent_pos,
    path_siblings, sibling_pos, twin_root, two_pow, MerkleTree,
};

verus! {

proof fn lemma_two_pow(k: nat)
    ensures
        is_pow2(two_pow(k)),
        log2(two_pow(k)) == k,
    decreases k,
{
    if k > 0 {
        lemma_two_pow((k - 1) as nat);
        assert(two_pow(k) / 2 == two_pow((k - 1) as nat));
    }
}

/// A tree over `2^k` leaves has `k` hash layers.
pub proof fn lemma_layer_count(tree: MerkleTree, k: nat)
    requires
        tree.wf(),
        tree.leaves().len() == two_pow(k),
    ensures
        tree.intermediate_layers@.len() == k,
{
    lemma_two_pow(k);
}

/// Every power of two of at least two leaves can be built into a tree:
/// `2^k` meets what `MerkleTree::new` asks of the leaf count when `k >= 1`.
pub proof fn lemma_two_pow_buildable(k: nat)
    requires
        k >= 1,
    ensures
        is_pow2(two_pow(k)),
        two_pow(k) >= 2,
        log2(two_pow(k)) == k,
{
    lemma_two_pow(k);
    assert(two_pow(k) == 2 * two_pow((k - 1) as nat));
    lemma_two_pow((k - 1) as nat);
}

/// Folding the sibling path from layer `i` up reaches the root.
proof fn lemma_fold_from(leaves: Seq<Seq<u32>>, q: nat, i: nat)
    requires
        is_pow2(leaves.len()),
        leaves.len() >= 2,
        q < leaves.len(),
        i < depth_of(leaves),
    ensures
        fold_path(
            layer_at(leaves, i)[parent_pos(q / 2, i) as int],
            path_siblings(leaves, q).subrange(i as int, depth_of(leaves) - 1),
            parent_pos(q / 2, i),
        ) == merkle_root(leaves),
    decreases depth_of(leaves) - i,
{
    let d = depth_of(leaves);
    let sibs = path_siblings(leaves, q);
    let rest = sibs.subrange(i as int, d - 1);
    let p = parent_pos(q / 2, i);
    let layer = layer_at(leaves, i);
    lemma_path_in_layer(leaves, q, i);
    if i + 1 == d {
        assert(rest.len() == 0);
    } else {
        lemma_fold_from(leaves, q, i + 1);
        assert(rest[0] == layer[sibling_pos(p) as int]);
        assert(rest.drop_first() =~= sibs.subrange((i + 1) as int, d - 1));
        assert(parent_pos(q / 2, i + 1) == p / 2);
        assert(layer_at(leaves, i + 1) == next_layer(layer));
        let k = (p / 2) as int;
        if p % 2 == 0 {
            assert(2 * k == p && 2 * k + 1 == sibling_pos(p));
        } else {
            assert(2 * k == sibling_pos(p) && 2 * k + 1 == p);
        }
        assert(next_layer(layer)[k] == node_hash(layer[2 * k], layer[2 * k + 1]));
    }
}

/// Every twin proof that `query` produces for an even index of a tree is
/// accepted by `verify_twin` against that tree's root.
pub proof fn lemma_query_verifies(tree: MerkleTree, q: nat)
    requires
        tree.wf(),
        q % 2 == 0,
        q < tree.leaves().len(),
    ensures
        twin_root(tree.leaves()[q as int], tree.leaves()[(q + 1) as int], path_siblings(tree.leaves(), q), q)
            == tree.root_hash@,
{
    let leaves = tree.leaves();
    let d = depth_of(leaves);
    lemma_fold_from(leaves, q, 0);
    assert(path_siblings(leaves, q).subrange(0, d - 1) =~= path_siblings(leaves, q));
    assert(2 * (q / 2) == q);
    assert(layer_at(leaves, 0)[(q / 2) as int] == pair_hash(leaves[q as int], leaves[(q + 1) as int]));
}

/// Two distinct inputs of the node hash that give the same digest.
pub open spec fn hash_collision() -> bool {
    exists|c1: Option<(Seq<u8>, Seq<u8>)>, v1: Seq<u32>, c2: Option<(Seq<u8>, Seq<u8>)>, v2: Seq<u32>|
        (c1, v1) != (c2, v2) && #[trigger] hash_node_of(c1, v1) == #[trigger] hash_node_of(c2, v2)
}

proof fn lemma_node_hash_injective(a1: Seq<u8>, b1: Seq<u8>, a2: Seq<u8>, b2: Seq<u8>)
    requires
        !hash_collision(),
        node_hash(a1, b1) == node_hash(a2, b2),
    ensures
        a1 == a2,
        b1 == b2,
{
    let e = Seq::<u32>::empty();
    assert(hash_node_of(Some((a1, b1)), e) == hash_node_of(Some((a2, b2)), e));
}

proof fn lemma_fold_injective(c1: Seq<u8>, s1: Seq<Seq<u8>>, c2: Seq<u8>, s2: Seq<Seq<u8>>, p: nat)
    requires
        !hash_collision(),
        s1.len() == s2.len(),
        fold_path(c1, s1, p) == fold_path(c2, s2, p),
    ensures
        c1 == c2,
        s1 == s2,
    decreases s1.len(),
{
    if s1.len() > 0 {
        let u1 = if p % 2 == 0 { node_hash(c1, s1[0]) } else { node_hash(s1[0], c1) };
        let u2 = if p % 2 == 0 { node_hash(c2, s2[0]) } else { node_hash(s2[0], c2) };
        lemma_fold_injective(u1, s1.drop_first(), u2, s2.drop_first(), p / 2);
        if p % 2 == 0 {
            lemma_node_hash_injective(c1, s1[0], c2, s2[0]);
        } else {
            lemma_node_hash_injective(s1[0], c1, s2[0], c2);
        }
        assert(s1 =~= seq![s1[0]] + s1.drop_first());
        assert(s2 =~= seq![s2[0]] + s2.drop_first());
    } else {
        assert(s1 =~= s2);
    }
}

/// A twin proof that differs from an accepted one in any leaf element or any
/// sibling digest, with as many siblings, is rejected for the same index and
/// root, unless the node hash has a collision.
pub proof fn lemma_tamper_detected(
    root: Seq<u8>,
    q: nat,
    left: Seq<u32>,
    right: Seq<u32>,
    siblings: Seq<Seq<u8>>,
    left2: Seq<u32>,
    right2: Seq<u32>,
    siblings2: Seq<Seq<u8>>,
)
    requires
        twin_root(left, right, siblings, q) == root,
        siblings2.len() == siblings.len(),
        (left2, right2, siblings2) != (left, right, siblings),
    ensures
        twin_root(left2, right2, siblings2, q) != root || hash_collision(),
{
    if !hash_collision() && twin_root(left2, right2, siblings2, q) == root {
        lemma_fold_injective(pair_hash(left, right), siblings, pair_hash(left2, right2), siblings2, q / 2);
        lemma_node_hash_injective(
            crate::hash::leaf_hash(left),
            crate::hash::leaf_hash(right),
            crate::hash::leaf_hash(left2),
            crate::hash::leaf_hash(right2),
        );
        assert(hash_node_of(None, left) == hash_node_of(None, left2));
        assert(hash_node_of(None, right) == hash_node_of(None, right2));
    }
}

/// Two trees built over the same leaves have the same root.
pub proof fn lemma_root_deterministic(t1: MerkleTree, t2: MerkleTree)
    requires
        t1.wf(),
        t2.wf(),
        t1.leaves() == t2.leaves(),
    ensures
        t1.root_hash@ == t2.root_hash@,
        t1.root_hash@ == merkle_root(t1.leaves()),
{
}

} // verus!
