//! A shielded pool: notes committed into an append-only Merkle tree, spent
//! through nullifiers, and accepted by a pool that checks two Groth16 proofs.

pub mod builder;
pub mod circuit;
pub mod client;
pub mod ecc;
pub mod field;
pub mod groth16;
pub mod hash;
pub mod merkle;
pub mod note;
pub mod pool;
pub mod random;
pub mod select;
pub mod storage;
pub mod transfer;
pub mod tree;
pub mod tx;
pub mod uint;
pub mod wire;
