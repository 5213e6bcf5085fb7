//! The public signal and the secret witness of a transfer.

use crate::field::Num;
use crate::merkle::MerkleProof;
use crate::note::Note;
use crate::tx::{H, IN, OUT};
use vstd::prelude::*;

verus! {

/// The notes that a transfer spends and creates.
#[derive(Clone, Debug, PartialEq, Eq)]
pub struct Tx {
    pub input: Vec<Note>,
    pub output: Vec<Note>,
}

/// The public signal of a transfer.
#[derive(Clone, Debug, PartialEq, Eq)]
pub struct TransferPub {
    pub root: Num,
    pub nullifier: Vec<Num>,
    pub out_hash: Vec<Num>,
    pub delta: Num,
    pub memo: Num,
}

/// The secret witness of a transfer.
#[derive(Clone, Debug, PartialEq, Eq)]
pub struct TransferSec {
    pub tx: Tx,
    pub in_proof: Vec<MerkleProof>,
    pub eddsa_s: Num,
    pub eddsa_r: Num,
    pub eddsa_a: Num,
}

impl TransferPub {
    /// Whether there are as many nullifiers as inputs and as many
    /// commitments as outputs.
    pub open spec fn wf(self) -> bool {
        &&& self.nullifier@.len() == IN
        &&& self.out_hash@.len() == OUT
    }
}

impl TransferSec {
    /// Whether there are as many notes as inputs and outputs, and a path of
    /// the height of the tree for each input.
    pub open spec fn wf(self) -> bool {
        &&& self.tx.input@.len() == IN
        &&& self.tx.output@.len() == OUT
        &&& self.in_proof@.len() == IN
        &&& forall|i: int|
            0 <= i < IN ==> (#[trigger] self.in_proof@[i]).sibling@.len() == H
                && self.in_proof@[i].path@.len() == H
    }
}

/// The sum of the values of the first `k` notes.
pub open spec fn values_sum(notes: Seq<Note>, k: nat) -> int
    decreases k,
{
    if k == 0 {
        0
    } else {
        values_sum(notes, (k - 1) as nat) + notes[k - 1].v@
    }
}

/// Whether the outputs are worth the inputs and the delta together.
pub open spec fn balanced(tx: Tx, delta: int) -> bool {
    values_sum(tx.input@, tx.input@.len()) + delta == values_sum(tx.output@, tx.output@.len())
}

} // verus!
