//! Building the tree, and producing and checking twin proofs.
use vstd::prelude::*;

use crate::hash::{hash_node, leaf_hash, node_hash, HashValue};

verus! {

/// Number of times `n` can be halved before it reaches one.
pub open spec fn log2(n: nat) -> nat
    decreases n,
{
    if n <= 1 {
        0
    } else {
        1 + log2(n / 2)
    }
}

/// `n` is a power of two (one included).
pub open spec fn is_pow2(n: nat) -> bool
    decreases n,
{
    if n <= 1 {
        n == 1
    } else {
        n % 2 == 0 && is_pow2(n / 2)
    }
}

/// Two to the power `k`.
pub open spec fn two_pow(k: nat) -> nat
    decreases k,
{
    if k == 0 {
        1
    } else {
        2 * two_pow((k - 1) as nat)
    }
}

/// Digest of a pair of adjacent leaves.
pub open spec fn pair_hash(left: Seq<u32>, right: Seq<u32>) -> Seq<u8> {
    node_hash(leaf_hash(left), leaf_hash(right))
}

/// The lowest hash layer: one digest per pair of leaves `(2k, 2k + 1)`.
pub open spec fn first_layer(leaves: Seq<Seq<u32>>) -> Seq<Seq<u8>> {
    Seq::new(leaves.len() / 2, |k: int| pair_hash(leaves[2 * k], leaves[2 * k + 1]))
}

/// The layer above `layer`: one digest per pair of nodes `(2k, 2k + 1)`.
pub open spec fn next_layer(layer: Seq<Seq<u8>>) -> Seq<Seq<u8>> {
    Seq::new(layer.len() / 2, |k: int| node_hash(layer[2 * k], layer[2 * k + 1]))
}

/// Hash layer `i` of the tree over `leaves`, counted from the leaves up.
pub open spec fn layer_at(leaves: Seq<Seq<u32>>, i: nat) -> Seq<Seq<u8>>
    decreases i,
{
    if i == 0 {
        first_layer(leaves)
    } else {
        next_layer(layer_at(leaves, (i - 1) as nat))
    }
}

/// Number of hash layers of the tree over `leaves`.
pub open spec fn depth_of(leaves: Seq<Seq<u32>>) -> nat {
    log2(leaves.len())
}

/// Root digest of the tree over `leaves`: the one node of its top layer.
pub open spec fn merkle_root(leaves: Seq<Seq<u32>>) -> Seq<u8> {
    layer_at(leaves, (depth_of(leaves) - 1) as nat)[0]
}

/// Index of node `p` of the lowest hash layer after `i` steps up the tree.
pub open spec fn parent_pos(p: nat, i: nat) -> nat
    decreases i,
{
    if i == 0 {
        p
    } else {
        parent_pos(p, (i - 1) as nat) / 2
    }
}

/// Index of the node that shares a parent with node `p`.
pub open spec fn sibling_pos(p: nat) -> nat {
    if p % 2 == 0 {
        p + 1
    } else {
        (p - 1) as nat
    }
}

/// The sibling path of the pair of leaves `(q, q + 1)`: in each hash layer
/// but the top one, the sibling of the node above that pair.
pub open spec fn path_siblings(leaves: Seq<Seq<u32>>, q: nat) -> Seq<Seq<u8>> {
    Seq::new(
        (depth_of(leaves) - 1) as nat,
        |i: int| layer_at(leaves, i as nat)[sibling_pos(parent_pos(q / 2, i as nat)) as int],
    )
}

/// Digest reached from node `cur` at index `p` by hashing in `siblings` one
/// after the other, each to the right of an even index and to the left of an
/// odd one.
pub open spec fn fold_path(cur: Seq<u8>, siblings: Seq<Seq<u8>>, p: nat) -> Seq<u8>
    decreases siblings.len(),
{
    if siblings.len() == 0 {
        cur
    } else {
        let up = if p % 2 == 0 {
            node_hash(cur, siblings[0])
        } else {
            node_hash(siblings[0], cur)
        };
        fold_path(up, siblings.drop_first(), p / 2)
    }
}

/// Root recomputed from a twin proof for the pair of leaves `(q, q + 1)`.
pub open spec fn twin_root(left: Seq<u32>, right: Seq<u32>, siblings: Seq<Seq<u8>>, q: nat) -> Seq<u8> {
    fold_path(pair_hash(left, right), siblings, q / 2)
}

/// The digests held by a run of hash values.
pub open spec fn digests(v: Seq<HashValue>) -> Seq<Seq<u8>> {
    v.map_values(|h: HashValue| h@)
}

pub(crate) proof fn lemma_layer_shape(leaves: Seq<Seq<u32>>, i: nat)
    requires
        is_pow2(leaves.len()),
        leaves.len() >= 2,
        i < depth_of(leaves),
    ensures
        is_pow2(layer_at(leaves, i).len()),
        log2(layer_at(leaves, i).len()) + i + 1 == depth_of(leaves),
    decreases i,
{
    if i > 0 {
        lemma_layer_shape(leaves, (i - 1) as nat);
        let m = layer_at(leaves, (i - 1) as nat).len();
        assert(m > 1);
    }
}

pub(crate) proof fn lemma_path_in_layer(leaves: Seq<Seq<u32>>, q: nat, i: nat)
    requires
        is_pow2(leaves.len()),
        leaves.len() >= 2,
        q < leaves.len(),
        i < depth_of(leaves),
    ensures
        parent_pos(q / 2, i) < layer_at(leaves, i).len(),
        i + 1 < depth_of(leaves) ==> layer_at(leaves, i).len() % 2 == 0 && layer_at(leaves, i).len() >= 2,
        i + 1 == depth_of(leaves) ==> layer_at(leaves, i).len() == 1,
    decreases i,
{
    lemma_layer_shape(leaves, i);
    if i > 0 {
        lemma_path_in_layer(leaves, q, (i - 1) as nat);
    }
}

proof fn lemma_flip_low_bit(p: usize)
    ensures
        (p ^ 1) as nat == sibling_pos(p as nat),
{
    assert(p % 2 == 0 ==> p ^ 1 == p + 1) by (bit_vector);
    assert(p % 2 == 1 ==> p ^ 1 == p - 1) by (bit_vector);
}

/// A Merkle tree over leaves of field elements.
pub struct MerkleTree {
    /// The leaves, each a sequence of field elements.
    pub leaf_layer: Vec<Vec<u32>>,
    /// Hash layers from the one above the leaves up to the root's.
    pub intermediate_layers: Vec<Vec<HashValue>>,
    /// Root digest.
    pub root_hash: HashValue,
}

impl MerkleTree {
    /// The leaves, each as its sequence of elements.
    pub open spec fn leaves(&self) -> Seq<Seq<u32>> {
        self.leaf_layer@.map_values(|l: Vec<u32>| l@)
    }

    /// The hash layers, each as its sequence of digests.
    pub open spec fn layers(&self) -> Seq<Seq<Seq<u8>>> {
        self.intermediate_layers@.map_values(|l: Vec<HashValue>| digests(l@))
    }

    /// The tree is the one built over its leaves.
    pub open spec fn wf(&self) -> bool {
        &&& is_pow2(self.leaves().len())
        &&& self.leaves().len() >= 2
        &&& self.layers().len() == depth_of(self.leaves())
        &&& forall|i: int|
            0 <= i < self.layers().len() ==> #[trigger] self.layers()[i] == layer_at(self.leaves(), i as nat)
        &&& self.root_hash@ == merkle_root(self.leaves())
    }

    /// Builds the tree over `leaf_layer`, whose length is a power of two.
    pub fn new(leaf_layer: Vec<Vec<u32>>) -> (r: Self)
        requires
            is_pow2(leaf_layer@.len()),
            leaf_layer@.len() >= 2,
        ensures
            r.wf(),
            r.leaves() == leaf_layer@.map_values(|l: Vec<u32>| l@),
            r.intermediate_layers@.len() == log2(leaf_layer@.len()),
    {
        let ghost leaves = leaf_layer@.map_values(|l: Vec<u32>| l@);
        let n = leaf_layer.len();
        let empty: Vec<u32> = Vec::new();
        let mut cur: Vec<HashValue> = Vec::new();
        let mut k: usize = 0;
        while k < n / 2
            invariant
                leaves == leaf_layer@.map_values(|l: Vec<u32>| l@),
                n == leaf_layer@.len(),
                empty@ == Seq::<u32>::empty(),
                k <= n / 2,
                cur@.len() == k,
                forall|j: int| 0 <= j < k ==> #[trigger] cur@[j]@ == first_layer(leaves)[j],
            decreases n / 2 - k,
        {
            let h1 = hash_node(None, leaf_layer[2 * k].as_slice());
            let h2 = hash_node(None, leaf_layer[2 * k + 1].as_slice());
            let h = hash_node(Some((h1, h2)), empty.as_slice());
            proof {
                assert(leaves[2 * k as int] == leaf_layer@[2 * k as int]@);
                assert(leaves[2 * k + 1] == leaf_layer@[2 * k + 1]@);
                assert(h@ == first_layer(leaves)[k as int]);
            }
            cur.push(h);
            k = k + 1;
        }
        proof {
            assert(digests(cur@) =~= first_layer(leaves));
            lemma_layer_shape(leaves, 0);
        }
        let mut intermediate_layers: Vec<Vec<HashValue>> = Vec::new();
        intermediate_layers.push(cur);
        while intermediate_layers[intermediate_layers.len() - 1].len() > 1
            invariant
                leaves == leaf_layer@.map_values(|l: Vec<u32>| l@),
                is_pow2(leaves.len()),
                leaves.len() >= 2,
                empty@ == Seq::<u32>::empty(),
                1 <= intermediate_layers@.len() <= depth_of(leaves),
                forall|i: int|
                    0 <= i < intermediate_layers@.len() ==> #[trigger] digests(intermediate_layers@[i]@)
                        == layer_at(leaves, i as nat),
            decreases depth_of(leaves) - intermediate_layers@.len(),
        {
            let t = intermediate_layers.len() - 1;
            let ghost prev_layer = layer_at(leaves, t as nat);
            proof {
                lemma_layer_shape(leaves, t as nat);
            }
            let prev = &intermediate_layers[t];
            let m = prev.len();
            assert(digests(prev@) == prev_layer);
            let mut next: Vec<HashValue> = Vec::new();
            let mut k: usize = 0;
            while k < m / 2
                invariant
                    m == prev@.len(),
                    digests(prev@) == prev_layer,
                    empty@ == Seq::<u32>::empty(),
                    k <= m / 2,
                    next@.len() == k,
                    forall|j: int| 0 <= j < k ==> #[trigger] next@[j]@ == next_layer(prev_layer)[j],
                decreases m / 2 - k,
            {
                let h = hash_node(Some((prev[2 * k], prev[2 * k + 1])), empty.as_slice());
                assert(prev_layer[2 * k as int] == prev@[2 * k as int]@);
                assert(prev_layer[2 * k + 1] == prev@[2 * k + 1]@);
                assert(h@ == next_layer(prev_layer)[k as int]);
                next.push(h);
                k = k + 1;
            }
            proof {
                assert(digests(next@) =~= next_layer(prev_layer));
                assert(layer_at(leaves, (t + 1) as nat) == next_layer(prev_layer));
            }
            intermediate_layers.push(next);
        }
        let ghost d = intermediate_layers@.len();
        proof {
            lemma_layer_shape(leaves, (d - 1) as nat);
            assert(digests(intermediate_layers@[d - 1]@) == layer_at(leaves, (d - 1) as nat));
        }
        let root_hash = intermediate_layers[intermediate_layers.len() - 1][0];
        let r = MerkleTree { leaf_layer, intermediate_layers, root_hash };
        proof {
            assert(r.leaves() == leaves);
            assert(r.layers().len() == d);
            assert forall|i: int| 0 <= i < r.layers().len() implies #[trigger] r.layers()[i] == layer_at(
                r.leaves(),
                i as nat,
            ) by {
                assert(digests(r.intermediate_layers@[i]@) == layer_at(leaves, i as nat));
            }
        }
        r
    }
}

/// A proof that two adjacent leaves belong to a tree.
#[derive(Default, Clone, Debug)]
pub struct MerkleTreeTwinProof {
    /// The leaf at the even index.
    pub left: Vec<u32>,
    /// The leaf just after it.
    pub right: Vec<u32>,
    /// The sibling digests on the way up, lowest layer first.
    pub siblings: Vec<HashValue>,
}

/// One unit of a proof laid out flat.
#[derive(Clone, Copy, Debug)]
pub enum PushItem {
    /// A field element of a leaf.
    Element(u32),
    /// A sibling digest.
    Digest(HashValue),
}

impl MerkleTreeTwinProof {
    /// The sibling digests, lowest layer first.
    pub open spec fn sibling_digests(&self) -> Seq<Seq<u8>> {
        digests(self.siblings@)
    }

    /// The flat layout of the proof: every element of `left`, then every
    /// element of `right`, then every sibling digest.
    pub open spec fn push_items(&self) -> Seq<PushItem> {
        self.left@.map_values(|v: u32| PushItem::Element(v)) + self.right@.map_values(
            |v: u32| PushItem::Element(v),
        ) + self.siblings@.map_values(|h: HashValue| PushItem::Digest(h))
    }

    /// Appends the flat layout of the proof to `builder`.
    pub fn bitcoin_script_push(&self, builder: Vec<PushItem>) -> (r: Vec<PushItem>)
        ensures
            r@ == builder@ + self.push_items(),
    {
        let mut out = builder;
        let ghost start = out@;
        let mut i: usize = 0;
        while i < self.left.len()
            invariant
                i <= self.left@.len(),
                out@ == start + self.left@.take(i as int).map_values(|v: u32| PushItem::Element(v)),
            decreases self.left@.len() - i,
        {
            out.push(PushItem::Element(self.left[i]));
            i = i + 1;
            assert(self.left@.take(i as int).map_values(|v: u32| PushItem::Element(v)) =~= self.left@.take(
                (i - 1) as int,
            ).map_values(|v: u32| PushItem::Element(v)).push(PushItem::Element(self.left@[i - 1])));
        }
        assert(self.left@.take(i as int) =~= self.left@);
        let ghost mid = out@;
        let mut i: usize = 0;
        while i < self.right.len()
            invariant
                i <= self.right@.len(),
                out@ == mid + self.right@.take(i as int).map_values(|v: u32| PushItem::Element(v)),
            decreases self.right@.len() - i,
        {
            out.push(PushItem::Element(self.right[i]));
            i = i + 1;
            assert(self.right@.take(i as int).map_values(|v: u32| PushItem::Element(v)) =~= self.right@.take(
                (i - 1) as int,
            ).map_values(|v: u32| PushItem::Element(v)).push(PushItem::Element(self.right@[i - 1])));
        }
        assert(self.right@.take(i as int) =~= self.right@);
        let ghost top = out@;
        let mut i: usize = 0;
        while i < self.siblings.len()
            invariant
                i <= self.siblings@.len(),
                out@ == top + self.siblings@.take(i as int).map_values(|h: HashValue| PushItem::Digest(h)),
            decreases self.siblings@.len() - i,
        {
            out.push(PushItem::Digest(self.siblings[i]));
            i = i + 1;
            assert(self.siblings@.take(i as int).map_values(|h: HashValue| PushItem::Digest(h))
                =~= self.siblings@.take((i - 1) as int).map_values(|h: HashValue| PushItem::Digest(h)).push(
                PushItem::Digest(self.siblings@[i - 1]),
            ));
        }
        assert(self.siblings@.take(i as int) =~= self.siblings@);
        assert(out@ =~= builder@ + self.push_items());
        out
    }
}

impl MerkleTree {
    /// Twin proof for the leaves at `pos` and `pos + 1`, where `pos` is even.
    pub fn query(&self, pos: usize) -> (r: MerkleTreeTwinProof)
        requires
            self.wf(),
            pos % 2 == 0,
            pos < self.leaves().len(),
        ensures
            r.left@ == self.leaves()[pos as int],
            r.right@ == self.leaves()[pos + 1],
            r.sibling_digests() == path_siblings(self.leaves(), pos as nat),
            r.siblings@.len() + 1 == self.intermediate_layers@.len(),
    {
        let logn = self.intermediate_layers.len();
        let ghost leaves = self.leaves();
        assert(self.leaves()[pos as int] == self.leaf_layer@[pos as int]@);
        assert(self.leaves()[pos + 1] == self.leaf_layer@[pos + 1]@);
        let left = self.leaf_layer[pos].clone();
        let right = self.leaf_layer[pos + 1].clone();
        let mut siblings: Vec<HashValue> = Vec::new();
        let mut p: usize = pos / 2;
        let mut i: usize = 0;
        while i + 1 < logn
            invariant
                self.wf(),
                leaves == self.leaves(),
                logn == depth_of(leaves),
                pos < leaves.len(),
                i < logn,
                p == parent_pos(pos as nat / 2, i as nat),
                siblings@.len() == i,
                forall|j: int| 0 <= j < i ==> #[trigger] siblings@[j]@ == path_siblings(leaves, pos as nat)[j],
            decreases logn - i,
        {
            proof {
                lemma_path_in_layer(leaves, pos as nat, i as nat);
                lemma_flip_low_bit(p);
                assert(self.layers()[i as int] == layer_at(leaves, i as nat));
            }
            let h = self.intermediate_layers[i][p ^ 1];
            siblings.push(h);
            p = p / 2;
            i = i + 1;
        }
        let r = MerkleTreeTwinProof { left, right, siblings };
        assert(r.sibling_digests() =~= path_siblings(leaves, pos as nat));
        r
    }

    /// Checks a twin proof for the leaves at the even index `query` against
    /// `root_hash`, for a tree of `logn` hash layers.
    pub fn verify_twin(root_hash: &HashValue, logn: usize, proof: &MerkleTreeTwinProof, query: usize) -> (r: bool)
        requires
            logn >= 1,
            proof.siblings@.len() + 1 == logn,
            query % 2 == 0,
        ensures
            r == (twin_root(proof.left@, proof.right@, proof.sibling_digests(), query as nat) == root_hash@),
    {
        let empty: Vec<u32> = Vec::new();
        let left_hash = hash_node(None, proof.left.as_slice());
        let right_hash = hash_node(None, proof.right.as_slice());
        let mut cur = hash_node(Some((left_hash, right_hash)), empty.as_slice());
        let ghost sibs = proof.sibling_digests();
        let ghost start = cur@;
        let mut p: usize = query / 2;
        let mut i: usize = 0;
        assert(sibs.subrange(0, sibs.len() as int) =~= sibs);
        while i + 1 < logn
            invariant
                empty@ == Seq::<u32>::empty(),
                sibs == proof.sibling_digests(),
                proof.siblings@.len() + 1 == logn,
                i < logn,
                fold_path(cur@, sibs.subrange(i as int, sibs.len() as int), p as nat) == fold_path(
                    start,
                    sibs,
                    query as nat / 2,
                ),
            decreases logn - i,
        {
            let ghost rest = sibs.subrange(i as int, sibs.len() as int);
            assert(rest.drop_first() =~= sibs.subrange(i + 1, sibs.len() as int));
            assert(rest[0] == proof.siblings@[i as int]@);
            let s = proof.siblings[i];
            if p % 2 == 0 {
                cur = hash_node(Some((cur, s)), empty.as_slice());
            } else {
                cur = hash_node(Some((s, cur)), empty.as_slice());
            }
            p = p / 2;
            i = i + 1;
        }
        assert(sibs.subrange(i as int, sibs.len() as int) =~= Seq::<Seq<u8>>::empty());
        cur == *root_hash
    }
}

} // verus!
