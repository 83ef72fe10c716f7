//! The node hash of the tree and the digest type it produces.
use vstd::prelude::*;


verus! {

/// A 32-byte digest of a leaf or of an inner node.
#[derive(Clone, Copy, Debug)]
pub struct HashValue {
    pub bytes: [u8; 32],
}

impl View for HashValue {
    type V = Seq<u8>;

    open spec fn view(&self) -> Seq<u8> {
        self.bytes@
    }
}

impl PartialEq for HashValue {
    fn eq(&self, o: &HashValue) -> (r: bool)
        ensures
            r == (self@ == o@),
    {
        let mut i: usize = 0;
        while i < 32
            invariant
                0 <= i <= 32,
                forall|j: int| 0 <= j < i ==> self@[j] == o@[j],
            decreases 32 - i,
        {
            if self.bytes[i] != o.bytes[i] {
                return false;
            }
            i = i + 1;
        }
        assert(self@ =~= o@);
        true
    }
}

impl vstd::std_specs::cmp::PartialEqSpecImpl for HashValue {
    open spec fn obeys_eq_spec() -> bool {
        true
    }

    open spec fn eq_spec(&self, o: &HashValue) -> bool {
        self@ == o@
    }
}

/// What the node hash gives for optional child digests and a run of field
/// elements, each element given by its 32-bit representative.
pub uninterp spec fn hash_node_of(children: Option<(Seq<u8>, Seq<u8>)>, values: Seq<u32>) -> Seq<u8>;

/// Digest of a leaf: the node hash with no children and the leaf's elements.
pub open spec fn leaf_hash(leaf: Seq<u32>) -> Seq<u8> {
    hash_node_of(None, leaf)
}

/// Digest of an inner node: the node hash of its two children and no elements.
pub open spec fn node_hash(left: Seq<u8>, right: Seq<u8>) -> Seq<u8> {
    hash_node_of(Some((left, right)), Seq::empty())
}

/// Relies on `Blake2sMerkleHasher::hash_node` of stwo: the digest depends on the
/// children's digests and the elements alone (Blake2s over the children's bytes,
/// then each element's little-endian bytes).
#[verifier::external_body]
pub(crate) fn hash_node(children: Option<(HashValue, HashValue)>, values: &[u32]) -> (r: HashValue)
    ensures
        r@ == hash_node_of(
            match children {
                Some((a, b)) => Some((a@, b@)),
                None => None,
            },
            values@,
        ),
{
    let column: Vec<stwo::core::fields::m31::M31> =
        values.iter().map(|v| stwo::core::fields::m31::M31(*v)).collect();
    let h = <stwo::core::vcs::blake2_merkle::Blake2sMerkleHasher as stwo::core::vcs::MerkleHasher>::hash_node(
        children.map(|(a, b)| (
            stwo::core::vcs::blake2_hash::Blake2sHash(a.bytes),
            stwo::core::vcs::blake2_hash::Blake2sHash(b.bytes),
        )), 
        &column,
    );
    HashValue { bytes: h.0 }
}

} // verus!
