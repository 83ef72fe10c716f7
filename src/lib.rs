//! A binary Merkle tree over leaves of M31 field elements, with twin proofs
//! that authenticate two adjacent leaves at once.
pub mod hash;
pub mod lemmas;
pub mod merkle_tree;

pub use hash::HashValue;
pub use merkle_tree::{MerkleTree, MerkleTreeTwinProof, PushItem};
