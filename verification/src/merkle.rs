//! The Merkle tree of commitments: its hash of two children, its empty
//! subtrees, and the root that a path of siblings leads to.

use crate::field::Num;
use crate::hash::{nums_view, poseidon_spec, poseidon_with_salt, SEED_NONE};
use crate::tx::PoolBN256;
use vstd::prelude::*;

verus! {

/// The hash of two children.
pub open spec fn compress_spec(left: nat, right: nat) -> nat {
    poseidon_spec(3, 8, 53, SEED_NONE@, seq![left, right])
}

/// The hash of two children.
pub fn compress(left: &Num, right: &Num, params: &PoolBN256) -> (r: Num)
    ensures
        r@ == compress_spec(left@, right@),
{
    let inputs: [Num; 2] = [*left, *right];
    assert(nums_view(inputs@) =~= seq![left@, right@]);
    poseidon_with_salt(inputs.as_slice(), SEED_NONE, &params.compress())
}

/// The root of the empty subtree of a height: zero for a leaf, and the
/// hash of two empty subtrees above.
pub open spec fn empty_root_spec(height: nat) -> nat
    decreases height,
{
    if height == 0 {
        0
    } else {
        compress_spec(
            empty_root_spec((height - 1) as nat),
            empty_root_spec((height - 1) as nat),
        )
    }
}

/// The roots of the empty subtrees of the heights from zero to `height`.
pub fn empty_roots(height: usize, params: &PoolBN256) -> (r: Vec<Num>)
    requires
        height < usize::MAX,
    ensures
        r@.len() == height + 1,
        forall|i: int| 0 <= i <= height ==> (#[trigger] r@[i])@ == empty_root_spec(i as nat),
{
    let mut cells: Vec<Num> = Vec::new();
    cells.push(Num::zero());
    let mut i: usize = 0;
    while i < height
        invariant
            i <= height,
            cells@.len() == i + 1,
            forall|k: int| 0 <= k <= i ==> (#[trigger] cells@[k])@ == empty_root_spec(k as nat),
        decreases height - i,
    {
        let c: Num = cells[i];
        let next: Num = compress(&c, &c, params);
        cells.push(next);
        i += 1;
    }
    cells
}

/// The siblings of the nodes on the way from a leaf to the root, from the
/// leaf up, and for each node whether it is a right child.
#[derive(Clone, Debug, PartialEq, Eq)]
pub struct MerkleProof {
    pub sibling: Vec<Num>,
    pub path: Vec<bool>,
}

/// The node that the first `k` steps of a path lead to from a leaf.
pub open spec fn merkle_root_spec(leaf: nat, sibling: Seq<nat>, path: Seq<bool>, k: nat) -> nat
    decreases k,
{
    if k == 0 {
        leaf
    } else {
        let below = merkle_root_spec(leaf, sibling, path, (k - 1) as nat);
        if path[k - 1] {
            compress_spec(sibling[k - 1], below)
        } else {
            compress_spec(below, sibling[k - 1])
        }
    }
}

/// The root that a path leads to from a leaf.
pub fn poseidon_merkle_proof_root(leaf: Num, proof: &MerkleProof, params: &PoolBN256) -> (r: Num)
    requires
        proof.sibling@.len() == proof.path@.len(),
    ensures
        r@ == merkle_root_spec(
            leaf@,
            nums_view(proof.sibling@),
            proof.path@,
            proof.path@.len(),
        ),
{
    let mut root: Num = leaf;
    let mut i: usize = 0;
    while i < proof.path.len()
        invariant
            i <= proof.path@.len(),
            proof.sibling@.len() == proof.path@.len(),
            root@ == merkle_root_spec(leaf@, nums_view(proof.sibling@), proof.path@, i as nat),
        decreases proof.path@.len() - i,
    {
        let s: Num = proof.sibling[i];
        root = if proof.path[i] {
            compress(&s, &root, params)
        } else {
            compress(&root, &s, params)
        };
        i += 1;
    }
    root
}

} // verus!
