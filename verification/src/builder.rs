//! The builder of transactions: which notes are spent, which random values
//! are drawn, and what the public signal, the witness and the message of a
//! transfer are.

use crate::circuit::is_member;
use crate::client::{
    cell_spec, holds_note, note_key, note_list_spec, path_spec, siblings_spec, ClientError,
    ClientState, Wallet, COL_NOTE,
};
use crate::field::{Fs, Num};
use crate::hash::{memo_hash, memo_spec, nums_view};
use crate::merkle::MerkleProof;
use crate::note::{Note, NOTE_CHUNKS};
use crate::random::{rand_biguint, random_fr, random_fs};
use crate::select::{
    is_descending_order, precedes, select, selected_sum, selection_spec, sort_by_value,
    sort_spec,
};
use crate::transfer::{balanced, values_sum, TransferPub, TransferSec, Tx};
use crate::tree::{is_tree, lemma_tree_member, note_at_leaf};
use crate::tx::{
    delta_amount, derive_key_pk_d, dk_spec, note_encrypt, note_encrypt_spec, note_hash,
    note_hash_spec, note_hashes, nullfifier, nullifier_spec, pk_d_spec, pk_d_x_spec,
    prepare_delta, tx_hash, tx_hash_spec, PoolBN256, H, IN, MESSAGE_SIZE, OUT,
};
use crate::uint::{lemma_pow2_values, pow2_64, pow2_80};
use rand::rngs::StdRng;
use vstd::prelude::*;

verus! {

/// The values of notes, where each fits 64 bits.
pub open spec fn note_values_spec(notes: Seq<(usize, Note)>) -> Option<Seq<u64>> {
    if forall|i: int| 0 <= i < notes.len() ==> (#[trigger] notes[i]).1.v@ < pow2_64() {
        Some(Seq::new(notes.len(), |i: int| notes[i].1.v@ as u64))
    } else {
        None
    }
}

/// The values in the order of a list of positions.
pub open spec fn in_order(values: Seq<u64>, order: Seq<usize>) -> Seq<u64> {
    Seq::new(order.len(), |j: int| values[order[j] as int])
}

/// The notes that a transaction spends and the value of the note that goes
/// back to the sender: the notes are taken by value, the largest first,
/// then smaller ones in their place as far as the amount allows. Nothing
/// where the notes and the delta do not cover the amount.
pub open spec fn plan_spec(notes: Seq<(usize, Note)>, amount: u64, delta: i64) -> Result<
    Option<(Seq<(usize, Note)>, u64)>,
    ClientError,
> {
    match note_values_spec(notes) {
        None => Err(ClientError::BadNote),
        Some(values) => {
            let order = sort_spec(values, values.len());
            match selection_spec(in_order(values, order), IN as nat, amount, delta) {
                None => Ok(None),
                Some(sel) => if sel.1 - amount > u64::MAX {
                    Err(ClientError::NoteTooWide)
                } else {
                    Ok(
                        Some(
                            (
                                Seq::new(sel.0.len(), |k: int| notes[order[sel.0[k] as int] as int]),
                                (sel.1 - amount) as u64,
                            ),
                        ),
                    )
                },
            }
        },
    }
}

/// The sum of the values of the first `k` notes.
pub open spec fn notes_sum(notes: Seq<(usize, Note)>, k: nat) -> int
    decreases k,
{
    if k == 0 {
        0
    } else {
        notes_sum(notes, (k - 1) as nat) + notes[k - 1].1.v@
    }
}

/// The notes of a selection have the sum of the selection.
pub proof fn lemma_notes_sum(
    inputs: Seq<(usize, Note)>,
    sorted: Seq<u64>,
    places: Seq<usize>,
    k: nat,
)
    requires
        k <= inputs.len(),
        k <= places.len(),
        forall|i: int| 0 <= i < k ==> (#[trigger] inputs[i]).1.v@ == sorted[places[i] as int],
    ensures
        notes_sum(inputs, k) == selected_sum(sorted, places, k),
    decreases k,
{
    if k > 0 {
        lemma_notes_sum(inputs, sorted, places, (k - 1) as nat);
    }
}

/// What a transaction spends, and what goes back to the sender.
#[derive(Clone, Debug)]
pub struct Plan {
    pub inputs: Vec<(usize, Note)>,
    pub change: u64,
}

/// Chooses the notes that a transaction spends.
pub fn plan_transaction(notes: &Vec<(usize, Note)>, amount: u64, delta: i64) -> (r: Result<
    Option<Plan>,
    ClientError,
>)
    ensures
        match plan_spec(notes@, amount, delta) {
            Ok(Some(p)) => r is Ok && r->Ok_0 is Some && r->Ok_0->0.inputs@ == p.0 && r->Ok_0->0.change
                == p.1,
            Ok(None) => r is Ok && r->Ok_0 is None,
            Err(e) => r is Err && r->Err_0 == e,
        },
        r matches Ok(Some(plan)) ==> plan.inputs@.len() <= IN && notes_sum(
            plan.inputs@,
            plan.inputs@.len(),
        ) + delta == amount + plan.change,
        r matches Ok(Some(plan)) ==> forall|k: int|
            0 <= k < plan.inputs@.len() ==> notes@.contains(#[trigger] plan.inputs@[k]),
        r matches Ok(Some(plan)) ==> ((forall|a: int, b: int|
            0 <= a < b < notes@.len() ==> (#[trigger] notes@[a]).0 != (#[trigger] notes@[b]).0)
            ==> (forall|a: int, b: int|
            0 <= a < b < plan.inputs@.len() ==> (#[trigger] plan.inputs@[a]).0 != (
            #[trigger] plan.inputs@[b]).0)),
{
    let mut values: Vec<u64> = Vec::new();
    let mut i: usize = 0;
    while i < notes.len()
        invariant
            i <= notes@.len(),
            values@.len() == i,
            forall|k: int| 0 <= k < i ==> (#[trigger] notes@[k]).1.v@ == values@[k],
        decreases notes@.len() - i,
    {
        match notes[i].1.v.to_uint().to_u64() {
            Some(v) => { values.push(v); },
            None => { return Err(ClientError::BadNote); },
        }
        i += 1;
    }
    assert(values@ =~= note_values_spec(notes@)->0);
    let order: Vec<usize> = sort_by_value(&values);
    let mut sorted: Vec<u64> = Vec::new();
    let mut j: usize = 0;
    while j < order.len()
        invariant
            j <= order@.len(),
            order@.len() == values@.len(),
            is_descending_order(values@, order@),
            sorted@ == in_order(values@, order@).subrange(0, j as int),
        decreases order@.len() - j,
    {
        sorted.push(values[order[j]]);
        assert(sorted@ =~= in_order(values@, order@).subrange(0, j + 1));
        j += 1;
    }
    assert(sorted@ =~= in_order(values@, order@));
    let (places, spending): (Vec<usize>, i128) = match select(&sorted, IN, amount, delta) {
        Some(s) => s,
        None => { return Ok(None); },
    };
    let change: i128 = spending - amount as i128;
    if change > u64::MAX as i128 {
        return Err(ClientError::NoteTooWide);
    }
    let mut inputs: Vec<(usize, Note)> = Vec::new();
    let mut k: usize = 0;
    while k < places.len()
        invariant
            k <= places@.len(),
            order@.len() == values@.len(),
            values@.len() == notes@.len(),
            sorted@ == in_order(values@, order@),
            is_descending_order(values@, order@),
            forall|n: int| 0 <= n < notes@.len() ==> (#[trigger] notes@[n]).1.v@ == values@[n],
            forall|n: int| 0 <= n < places@.len() ==> #[trigger] places@[n] < sorted@.len(),
            inputs@.len() == k,
            forall|n: int|
                0 <= n < k ==> #[trigger] inputs@[n] == notes@[order@[places@[n] as int] as int],
            forall|n: int|
                0 <= n < k ==> 0 <= #[trigger] order@[places@[n] as int] < notes@.len(),
        decreases places@.len() - k,
    {
        let at: usize = order[places[k]];
        inputs.push(notes[at]);
        k += 1;
    }
    proof {
        let expected = plan_spec(notes@, amount, delta)->Ok_0->0;
        assert(inputs@ =~= expected.0);
        let expected_places = match selection_spec(sorted@, IN as nat, amount, delta) {
            Some(sel) => sel.0,
            None => Seq::empty(),
        };
        assert(places@ == expected_places);
        assert forall|k: int| 0 <= k < inputs@.len() implies notes@.contains(
            #[trigger] inputs@[k],
        ) by {
            let at = order@[places@[k] as int] as int;
            assert(0 <= at < notes@.len());
            assert(notes@[at] == inputs@[k]);
        }
        // No note is taken twice: the places differ, and so do the notes
        // at different places of the order.
        if forall|a: int, b: int|
            0 <= a < b < notes@.len() ==> (#[trigger] notes@[a]).0 != (#[trigger] notes@[b]).0 {
            assert forall|a: int, b: int| 0 <= a < b < inputs@.len() implies (
            #[trigger] inputs@[a]).0 != (#[trigger] inputs@[b]).0 by {
                let pa = places@[a] as int;
                let pb = places@[b] as int;
                assert(pa == expected_places[a] && pb == expected_places[b]);
                assert(pa < pb);
                let oa = order@[pa] as int;
                let ob = order@[pb] as int;
                assert(precedes(values@, oa, ob));
                assert(inputs@[a] == notes@[oa] && inputs@[b] == notes@[ob]);
                if oa < ob {
                    assert(notes@[oa].0 != notes@[ob].0);
                } else {
                    assert(notes@[ob].0 != notes@[oa].0);
                }
            }
        }
        lemma_notes_sum(inputs@, sorted@, places@, inputs@.len());
    }
    Ok(Some(Plan { inputs, change: change as u64 }))
}

/// The random values of a transaction: the diversifier and the salt of
/// the note that goes back to the sender, the salt of the note of the
/// receiver, a note without value for each input that may stay empty, and
/// an ephemeral key for each output.
#[derive(Clone, Debug)]
pub struct TxRandomness {
    pub sender_d: Num,
    pub sender_st: Num,
    pub receiver_st: Num,
    pub padding: Vec<Note>,
    pub esk: Vec<Fs>,
}

impl TxRandomness {
    /// Whether the values are as wide as drawn ones are: the diversifier
    /// and the salts have at most 80 bits, there is a note without value
    /// that has a wire form for each input, and a key for each output.
    pub open spec fn wf(self) -> bool {
        &&& self.sender_d@ < pow2_80()
        &&& self.sender_st@ < pow2_80()
        &&& self.receiver_st@ < pow2_80()
        &&& self.padding@.len() == IN
        &&& forall|k: int| 0 <= k < IN ==> (#[trigger] self.padding@[k]).v@ == 0
        &&& forall|k: int| 0 <= k < IN ==> (#[trigger] self.padding@[k]).fits()
        &&& self.esk@.len() == OUT
    }

    /// Draws the random values of a transaction.
    pub fn draw(rng: &mut StdRng) -> (r: TxRandomness)
        ensures
            r.wf(),
    {
        proof {
            lemma_pow2_values();
        }
        let sender_d: Option<Num> = Num::new(rand_biguint(rng, NOTE_CHUNKS[0] * 8));
        let sender_st: Option<Num> = Num::new(rand_biguint(rng, NOTE_CHUNKS[3] * 8));
        let receiver_st: Option<Num> = Num::new(rand_biguint(rng, NOTE_CHUNKS[3] * 8));
        let mut padding: Vec<Note> = Vec::new();
        let mut k: usize = 0;
        while k < IN
            invariant
                k <= IN,
                padding@.len() == k,
                forall|i: int| 0 <= i < k ==> (#[trigger] padding@[i]).v@ == 0,
                forall|i: int| 0 <= i < k ==> (#[trigger] padding@[i]).fits(),
            decreases IN - k,
        {
            proof {
                lemma_pow2_values();
            }
            let d: Option<Num> = Num::new(rand_biguint(rng, NOTE_CHUNKS[0] * 8));
            let pk_d: Num = random_fr(rng);
            let st: Option<Num> = Num::new(rand_biguint(rng, NOTE_CHUNKS[3] * 8));
            padding.push(Note { d: d.unwrap(), pk_d, v: Num::zero(), st: st.unwrap() });
            k += 1;
        }
        let mut esk: Vec<Fs> = Vec::new();
        let mut j: usize = 0;
        while j < OUT
            invariant
                j <= OUT,
                esk@.len() == j,
            decreases OUT - j,
        {
            esk.push(random_fs(rng));
            j += 1;
        }
        TxRandomness {
            sender_d: sender_d.unwrap(),
            sender_st: sender_st.unwrap(),
            receiver_st: receiver_st.unwrap(),
            padding,
            esk,
        }
    }
}

/// The note that goes back to the sender.
pub open spec fn sender_note_spec(rnd: TxRandomness, dk: nat, change: u64) -> Note {
    Note {
        d: rnd.sender_d,
        pk_d: Num::of_nat(pk_d_x_spec(rnd.sender_d@, dk)),
        v: Num::of_nat(change as nat),
        st: rnd.sender_st,
    }
}

/// The note of the receiver.
pub open spec fn receiver_note_spec(rnd: TxRandomness, recv_addr: (Num, Num), amount: u64) -> Note {
    Note { d: recv_addr.0, pk_d: recv_addr.1, v: Num::of_nat(amount as nat), st: rnd.receiver_st }
}

/// The first error in reading the paths of the first `k` notes.
pub open spec fn proofs_error(
    entries: Map<(u32, Seq<u8>), Seq<u8>>,
    columns: nat,
    inputs: Seq<(usize, Note)>,
    k: nat,
) -> Option<ClientError>
    decreases k,
{
    if k == 0 {
        None
    } else {
        match proofs_error(entries, columns, inputs, (k - 1) as nat) {
            Some(e) => Some(e),
            None => match siblings_spec(entries, columns, inputs[k - 1].0 as u64, H as nat) {
                Err(e) => Some(e),
                Ok(_) => None,
            },
        }
    }
}

/// `n` times zero.
pub open spec fn zero_siblings(n: nat) -> Seq<nat> {
    Seq::new(n, |i: int| 0nat)
}

/// `n` times left.
pub open spec fn left_path(n: nat) -> Seq<bool> {
    Seq::new(n, |i: int| false)
}

impl<W: Wallet> ClientState<W> {
    /// Why a transaction cannot be built from the notes to spend and the
    /// random values, if it cannot: a key cannot be derived, a note cannot
    /// be encrypted, or the tree cannot be read.
    pub open spec fn build_error(
        &self,
        inputs: Seq<(usize, Note)>,
        change: u64,
        recv_addr: (Num, Num),
        amount: u64,
        rnd: TxRandomness,
    ) -> Option<ClientError> {
        let dk = dk_spec(self.wallet_spec().xsk_spec());
        if pk_d_spec(rnd.sender_d@, dk) is None {
            Some(ClientError::NoKey)
        } else if note_encrypt_spec(rnd.esk@[0]@, dk, sender_note_spec(rnd, dk, change)) is None {
            Some(ClientError::NoKey)
        } else if note_encrypt_spec(rnd.esk@[1]@, dk, receiver_note_spec(rnd, recv_addr, amount))
            is None {
            Some(ClientError::NoKey)
        } else if proofs_error(self.entries(), self.columns(), inputs, inputs.len()) is Some {
            proofs_error(self.entries(), self.columns(), inputs, inputs.len())
        } else {
            match cell_spec(self.entries(), self.columns(), H as nat, 0) {
                Err(e) => Some(e),
                Ok(_) => None,
            }
        }
    }

    /// Whether a public signal, a witness and a message are those of the
    /// transaction that spends the given notes, with the given random
    /// values: the inputs are those notes, then notes without value; the
    /// outputs are the note that goes back to the sender and the note of
    /// the receiver; the message is the two outputs, encrypted; the memo
    /// binds the message; each input has its path in the tree, or an empty
    /// path where it has no value; the nullifiers and the commitments are
    /// those of the notes; the wallet has signed the hash of the
    /// transaction; the root is that of the tree; the delta is the one
    /// given.
    pub open spec fn is_built(
        &self,
        p: TransferPub,
        s: TransferSec,
        message: Seq<u8>,
        inputs: Seq<(usize, Note)>,
        change: u64,
        recv_addr: (Num, Num),
        amount: u64,
        delta: i64,
        rnd: TxRandomness,
    ) -> bool {
        let xsk = self.wallet_spec().xsk_spec();
        let dk = dk_spec(xsk);
        let out0 = sender_note_spec(rnd, dk, change);
        let out1 = receiver_note_spec(rnd, recv_addr, amount);
        &&& p.wf()
        &&& s.wf()
        &&& s.tx.output@ == seq![out0, out1]
        &&& forall|k: int|
            0 <= k < IN ==> #[trigger] s.tx.input@[k] == if k < inputs.len() {
                inputs[k].1
            } else {
                rnd.padding@[k]
            }
        &&& message == note_encrypt_spec(rnd.esk@[0]@, dk, out0)->0 + note_encrypt_spec(
            rnd.esk@[1]@,
            dk,
            out1,
        )->0
        &&& message.len() == OUT * MESSAGE_SIZE
        &&& p.memo@ == memo_spec(message)
        &&& forall|k: int|
            0 <= k < IN ==> nums_view((#[trigger] s.in_proof@[k]).sibling@) == if k < inputs.len() {
                siblings_spec(self.entries(), self.columns(), inputs[k].0 as u64, H as nat)->Ok_0
            } else {
                zero_siblings(H as nat)
            }
        &&& forall|k: int|
            0 <= k < IN ==> (#[trigger] s.in_proof@[k]).path@ == if k < inputs.len() {
                path_spec(inputs[k].0 as u64, H as nat)
            } else {
                left_path(H as nat)
            }
        &&& forall|k: int|
            0 <= k < IN ==> (#[trigger] p.nullifier@[k])@ == nullifier_spec(
                note_hash_spec(s.tx.input@[k]),
                xsk,
            )
        &&& forall|j: int|
            0 <= j < OUT ==> (#[trigger] p.out_hash@[j])@ == note_hash_spec(s.tx.output@[j])
        &&& (s.eddsa_s@, s.eddsa_r@) == self.wallet_spec().sign_spec(
            tx_hash_spec(note_hashes(s.tx.input@), note_hashes(s.tx.output@)),
        )
        &&& s.eddsa_a@ == xsk
        &&& cell_spec(self.entries(), self.columns(), H as nat, 0) == Ok::<nat, ClientError>(
            p.root@,
        )
        &&& p.delta@ < pow2_64()
        &&& delta_amount(p.delta@) == delta
    }
}

/// An error in reading the paths of some notes is the error in reading
/// those of more notes.
pub proof fn lemma_proofs_error(
    entries: Map<(u32, Seq<u8>), Seq<u8>>,
    columns: nat,
    inputs: Seq<(usize, Note)>,
    k: nat,
    n: nat,
)
    requires
        k <= n,
        proofs_error(entries, columns, inputs, k) is Some,
    ensures
        proofs_error(entries, columns, inputs, n) == proofs_error(entries, columns, inputs, k),
    decreases n,
{
    if k < n {
        lemma_proofs_error(entries, columns, inputs, k, (n - 1) as nat);
    }
}

/// The path of a note without value: zeros, always to the left.
pub fn empty_proof() -> (r: MerkleProof)
    ensures
        nums_view(r.sibling@) == zero_siblings(H as nat),
        r.path@ == left_path(H as nat),
        r.sibling@.len() == H,
        r.path@.len() == H,
{
    let mut sibling: Vec<Num> = Vec::new();
    let mut path: Vec<bool> = Vec::new();
    let mut i: usize = 0;
    while i < H
        invariant
            i <= H,
            sibling@.len() == i,
            path@.len() == i,
            forall|k: int| 0 <= k < i ==> (#[trigger] sibling@[k])@ == 0,
            forall|k: int| 0 <= k < i ==> !(#[trigger] path@[k]),
        decreases H - i,
    {
        sibling.push(Num::zero());
        path.push(false);
        i += 1;
    }
    assert(nums_view(sibling@) =~= zero_siblings(H as nat));
    assert(path@ =~= left_path(H as nat));
    MerkleProof { sibling, path }
}

/// The commitments of notes.
pub fn hash_notes(notes: &Vec<Note>, params: &PoolBN256) -> (r: Vec<Num>)
    ensures
        nums_view(r@) == note_hashes(notes@),
        r@.len() == notes@.len(),
{
    let mut hashes: Vec<Num> = Vec::new();
    let mut k: usize = 0;
    while k < notes.len()
        invariant
            k <= notes@.len(),
            hashes@.len() == k,
            forall|i: int| 0 <= i < k ==> (#[trigger] hashes@[i])@ == note_hash_spec(notes@[i]),
        decreases notes@.len() - k,
    {
        hashes.push(note_hash(notes[k], params));
        k += 1;
    }
    assert(nums_view(hashes@) =~= note_hashes(notes@));
    hashes
}

impl<W: Wallet> ClientState<W> {
    /// The notes that a transaction spends, filled up with notes without
    /// value, and a path for each.
    fn gather_inputs(&self, inputs: &Vec<(usize, Note)>, rnd: &TxRandomness) -> (r: Result<
        (Vec<Note>, Vec<MerkleProof>),
        ClientError,
    >)
        requires
            rnd.wf(),
            inputs@.len() <= IN,
        ensures
            match proofs_error(self.entries(), self.columns(), inputs@, inputs@.len()) {
                Some(e) => r is Err && r->Err_0 == e,
                None => r matches Ok(g) && {
                    &&& g.0@.len() == IN
                    &&& g.1@.len() == IN
                    &&& forall|k: int|
                        0 <= k < IN ==> (#[trigger] g.1@[k]).sibling@.len() == H && g.1@[k].path@.len()
                            == H
                    &&& forall|k: int|
                        0 <= k < IN ==> #[trigger] g.0@[k] == if k < inputs@.len() {
                            inputs@[k].1
                        } else {
                            rnd.padding@[k]
                        }
                    &&& forall|k: int|
                        0 <= k < IN ==> nums_view((#[trigger] g.1@[k]).sibling@) == if k
                            < inputs@.len() {
                            siblings_spec(
                                self.entries(),
                                self.columns(),
                                inputs@[k].0 as u64,
                                H as nat,
                            )->Ok_0
                        } else {
                            zero_siblings(H as nat)
                        }
                    &&& forall|k: int|
                        0 <= k < IN ==> (#[trigger] g.1@[k]).path@ == if k < inputs@.len() {
                            path_spec(inputs@[k].0 as u64, H as nat)
                        } else {
                            left_path(H as nat)
                        }
                },
            },
    {
        let ghost whole = proofs_error(self.entries(), self.columns(), inputs@, inputs@.len());
        let mut notes: Vec<Note> = Vec::new();
        let mut proofs: Vec<MerkleProof> = Vec::new();
        let mut k: usize = 0;
        while k < IN
            invariant
                k <= IN,
                rnd.wf(),
                inputs@.len() <= IN,
                whole == proofs_error(self.entries(), self.columns(), inputs@, inputs@.len()),
                k <= inputs@.len() ==> proofs_error(
                    self.entries(),
                    self.columns(),
                    inputs@,
                    k as nat,
                ) is None,
                k > inputs@.len() ==> whole is None,
                notes@.len() == k,
                proofs@.len() == k,
                forall|i: int|
                    0 <= i < k ==> (#[trigger] proofs@[i]).sibling@.len() == H && proofs@[i].path@.len()
                        == H,
                forall|i: int|
                    0 <= i < k ==> #[trigger] notes@[i] == if i < inputs@.len() {
                        inputs@[i].1
                    } else {
                        rnd.padding@[i]
                    },
                forall|i: int|
                    0 <= i < k ==> nums_view((#[trigger] proofs@[i]).sibling@) == if i
                        < inputs@.len() {
                        siblings_spec(
                            self.entries(),
                            self.columns(),
                            inputs@[i].0 as u64,
                            H as nat,
                        )->Ok_0
                    } else {
                        zero_siblings(H as nat)
                    },
                forall|i: int|
                    0 <= i < k ==> (#[trigger] proofs@[i]).path@ == if i < inputs@.len() {
                        path_spec(inputs@[i].0 as u64, H as nat)
                    } else {
                        left_path(H as nat)
                    },
            decreases IN - k,
        {
            if k < inputs.len() {
                let proof_k: MerkleProof = match self.get_merkle_proof(inputs[k].0) {
                    Ok(p) => p,
                    Err(e) => {
                        proof {
                            lemma_proofs_error(
                                self.entries(),
                                self.columns(),
                                inputs@,
                                (k + 1) as nat,
                                inputs@.len(),
                            );
                        }
                        return Err(e);
                    },
                };
                notes.push(inputs[k].1);
                proofs.push(proof_k);
            } else {
                notes.push(rnd.padding[k]);
                proofs.push(empty_proof());
            }
            k += 1;
        }
        Ok((notes, proofs))
    }

    /// Builds the transaction that spends the notes of a plan, with given
    /// random values.
    #[verifier::rlimit(60)]
    pub fn build_transaction(
        &self,
        plan: &Plan,
        recv_addr: (Num, Num),
        amount: u64,
        delta: i64,
        rnd: &TxRandomness,
    ) -> (r: Result<(TransferPub, TransferSec, Vec<u8>), ClientError>)
        requires
            rnd.wf(),
            plan.inputs@.len() <= IN,
        ensures
            match self.build_error(plan.inputs@, plan.change, recv_addr, amount, *rnd) {
                Some(e) => r is Err && r->Err_0 == e,
                None => r matches Ok(t) && self.is_built(
                    t.0,
                    t.1,
                    t.2@,
                    plan.inputs@,
                    plan.change,
                    recv_addr,
                    amount,
                    delta,
                    *rnd,
                ),
            },
    {
        let dk: Fs = self.dk();
        let xsk: Num = self.xsk();
        let params: PoolBN256 = self.params();
        let sender_key = match derive_key_pk_d(rnd.sender_d, dk, &params) {
            Some(p) => p,
            None => { return Err(ClientError::NoKey); },
        };
        let sender_note = Note {
            d: rnd.sender_d,
            pk_d: sender_key.x(),
            v: Num::from_u64(plan.change),
            st: rnd.sender_st,
        };
        let receiver_note = Note {
            d: recv_addr.0,
            pk_d: recv_addr.1,
            v: Num::from_u64(amount),
            st: rnd.receiver_st,
        };
        proof {
            sender_note.pk_d.lemma_of_nat();
            sender_note.v.lemma_of_nat();
            receiver_note.v.lemma_of_nat();
            assert(sender_note == sender_note_spec(*rnd, dk@, plan.change));
            assert(receiver_note == receiver_note_spec(*rnd, recv_addr, amount));
        }
        let mut assets: Vec<u8> = match note_encrypt(rnd.esk[0], dk, sender_note, &params) {
            Some(m) => m,
            None => { return Err(ClientError::NoKey); },
        };
        let mut second: Vec<u8> = match note_encrypt(
            rnd.esk[1],
            dk,
            receiver_note,
            &params,
        ) {
            Some(m) => m,
            None => { return Err(ClientError::NoKey); },
        };
        assets.append(&mut second);
        let memo: Num = memo_hash(assets.as_slice());
        let (input, in_proof): (Vec<Note>, Vec<MerkleProof>) = match self.gather_inputs(
            &plan.inputs,
            rnd,
        ) {
            Ok(g) => g,
            Err(e) => { return Err(e); },
        };
        let root: Num = match self.get_cell((H, 0)) {
            Ok(c) => c,
            Err(e) => { return Err(e); },
        };
        let mut output: Vec<Note> = Vec::new();
        output.push(sender_note);
        output.push(receiver_note);
        assert(output@ =~= seq![sender_note, receiver_note]);
        let in_note_hash: Vec<Num> = hash_notes(&input, &params);
        let out_note_hash: Vec<Num> = hash_notes(&output, &params);
        let m: Num = tx_hash(in_note_hash.as_slice(), out_note_hash.as_slice(), &params);
        let (s, r) = self.sign(m);
        let eddsa_s: Option<Num> = Num::new(s.to_uint());
        let mut nullifier: Vec<Num> = Vec::new();
        let mut k: usize = 0;
        while k < IN
            invariant
                k <= IN,
                nullifier@.len() == k,
                in_note_hash@.len() == IN,
                input@.len() == IN,
                nums_view(in_note_hash@) == note_hashes(input@),
                forall|i: int|
                    0 <= i < k ==> (#[trigger] nullifier@[i])@ == nullifier_spec(
                        note_hash_spec(input@[i]),
                        xsk@,
                    ),
            decreases IN - k,
        {
            assert(nums_view(in_note_hash@)[k as int] == in_note_hash@[k as int]@);
            nullifier.push(nullfifier(in_note_hash[k], xsk, &params));
            k += 1;
        }
        proof {
            assert forall|j: int| 0 <= j < OUT implies (#[trigger] out_note_hash@[j])@
                == note_hash_spec(output@[j]) by {
                assert(nums_view(out_note_hash@)[j] == out_note_hash@[j]@);
            }
        }
        let transfer_sec = TransferSec {
            tx: Tx { input, output },
            in_proof,
            eddsa_s: eddsa_s.unwrap(),
            eddsa_r: r,
            eddsa_a: xsk,
        };
        let transfer_pub = TransferPub {
            root,
            nullifier,
            out_hash: out_note_hash,
            delta: prepare_delta(delta),
            memo,
        };
        Ok((transfer_pub, transfer_sec, assets))
    }
}

/// The notes of a transaction are worth what the notes it spends are
/// worth: the notes that fill it up have no value.
pub proof fn lemma_inputs_sum(
    input: Seq<Note>,
    inputs: Seq<(usize, Note)>,
    padding: Seq<Note>,
    k: nat,
)
    requires
        k <= input.len(),
        k <= padding.len(),
        forall|i: int|
            0 <= i < k ==> #[trigger] input[i] == if i < inputs.len() {
                inputs[i].1
            } else {
                padding[i]
            },
        forall|i: int| 0 <= i < k ==> (#[trigger] padding[i]).v@ == 0,
    ensures
        values_sum(input, k) == notes_sum(inputs, if k < inputs.len() {
            k
        } else {
            inputs.len()
        }),
    decreases k,
{
    if k > 0 {
        lemma_inputs_sum(input, inputs, padding, (k - 1) as nat);
    }
}

impl<W: Wallet> ClientState<W> {
    /// What building a transaction gives for given random values: the
    /// error, or the transaction.
    pub open spec fn is_outcome(
        &self,
        r: Result<Option<(TransferPub, TransferSec, Vec<u8>)>, ClientError>,
        inputs: Seq<(usize, Note)>,
        change: u64,
        recv_addr: (Num, Num),
        amount: u64,
        delta: i64,
        rnd: TxRandomness,
    ) -> bool {
        match self.build_error(inputs, change, recv_addr, amount, rnd) {
            Some(e) => r is Err && r->Err_0 == e,
            None => r matches Ok(Some(t)) && self.is_built(
                t.0,
                t.1,
                t.2@,
                inputs,
                change,
                recv_addr,
                amount,
                delta,
                rnd,
            ),
        }
    }

    /// A transaction that was built is balanced: its outputs are worth its
    /// inputs and the delta together.
    pub proof fn lemma_built_is_balanced(
        &self,
        p: TransferPub,
        s: TransferSec,
        message: Seq<u8>,
        inputs: Seq<(usize, Note)>,
        change: u64,
        recv_addr: (Num, Num),
        amount: u64,
        delta: i64,
        rnd: TxRandomness,
    )
        requires
            rnd.wf(),
            inputs.len() <= IN,
            notes_sum(inputs, inputs.len()) + delta == amount + change,
            self.is_built(p, s, message, inputs, change, recv_addr, amount, delta, rnd),
        ensures
            balanced(s.tx, delta as int),
            values_sum(s.tx.output@, OUT as nat) == change + amount,
    {
        lemma_inputs_sum(s.tx.input@, inputs, rnd.padding@, IN as nat);
        Num::lemma_of_nat_small(change as nat);
        Num::lemma_of_nat_small(amount as nat);
        reveal_with_fuel(values_sum, 3);
    }

    /// Builds the transaction that sends an amount to an address, with a
    /// delta that flows into or out of the pool: the notes to spend are
    /// chosen among the notes of the client, what they give beyond the
    /// amount goes back to the client, and the outputs are encrypted for
    /// the receiver and for the client. There is no transaction where the
    /// notes of the client and the delta do not cover the amount. Every
    /// note of a transaction has a wire form, and where the store holds a
    /// tree, every input of value has its path to the root.
    pub fn make_transaction_object(
        &self,
        rng: &mut StdRng,
        recv_addr: (Num, Num),
        amount: u64,
        delta: i64,
    ) -> (r: Result<Option<(TransferPub, TransferSec, Vec<u8>)>, ClientError>)
        ensures
            match note_list_spec(self.entries(), self.columns()) {
                Err(e) => r is Err && r->Err_0 == e,
                Ok(notes) => match plan_spec(notes, amount, delta) {
                    Err(e) => r is Err && r->Err_0 == e,
                    Ok(None) => r is Ok && r->Ok_0 is None,
                    Ok(Some(p)) => exists|rnd: TxRandomness| #[trigger]
                        rnd.wf() && self.is_outcome(r, p.0, p.1, recv_addr, amount, delta, rnd),
                },
            },
            r matches Ok(Some(t)) ==> balanced(t.1.tx, delta as int),
            r matches Ok(Some(t)) ==> (forall|k: int|
                0 <= k < IN ==> (#[trigger] t.1.tx.input@[k]).fits()) && (forall|j: int|
                0 <= j < OUT ==> (#[trigger] t.1.tx.output@[j]).fits()),
            is_tree(self.entries(), self.columns()) ==> (r matches Ok(Some(t)) ==> forall|k: int|
                0 <= k < IN ==> is_member(#[trigger] t.1.tx.input@[k], t.1.in_proof@[k], t.0.root@)),
    {
        let notes: Vec<(usize, Note)> = match self.get_note_list() {
            Ok(notes) => notes,
            Err(e) => { return Err(e); },
        };
        let plan: Plan = match plan_transaction(&notes, amount, delta) {
            Ok(Some(plan)) => plan,
            Ok(None) => { return Ok(None); },
            Err(e) => { return Err(e); },
        };
        let rnd: TxRandomness = TxRandomness::draw(rng);
        let r = match self.build_transaction(&plan, recv_addr, amount, delta, &rnd) {
            Ok(t) => Ok(Some(t)),
            Err(e) => Err(e),
        };
        proof {
            assert(rnd.wf() && self.is_outcome(
                r,
                plan.inputs@,
                plan.change,
                recv_addr,
                amount,
                delta,
                rnd,
            ));
            if r is Ok {
                let t = r->Ok_0->0;
                self.lemma_built_is_balanced(
                    t.0,
                    t.1,
                    t.2@,
                    plan.inputs@,
                    plan.change,
                    recv_addr,
                    amount,
                    delta,
                    rnd,
                );
                assert forall|k: int| 0 <= k < IN implies (#[trigger] t.1.tx.input@[k]).fits() by {
                    if k < plan.inputs@.len() {
                        let e = plan.inputs@[k];
                        assert(notes@.contains(e));
                        assert(holds_note(self.entries(), e));
                        Note::lemma_decoded_fits(
                            self.entries()[(COL_NOTE, note_key(e.0 as u64))],
                        );
                    } else {
                        assert(rnd.padding@[k].fits());
                    }
                }
                assert forall|j: int| 0 <= j < OUT implies (#[trigger] t.1.tx.output@[j]).fits() by {
                    t.1.tx.output@[j].lemma_wire_exists();
                }
                if is_tree(self.entries(), self.columns()) {
                    assert forall|k: int| 0 <= k < IN implies is_member(
                        #[trigger] t.1.tx.input@[k],
                        t.1.in_proof@[k],
                        t.0.root@,
                    ) by {
                        if k < plan.inputs@.len() {
                            let e = plan.inputs@[k];
                            assert(notes@.contains(e));
                            assert(holds_note(self.entries(), e));
                            assert(note_at_leaf(
                                self.entries(),
                                self.columns(),
                                note_key(e.0 as u64),
                            ));
                            lemma_tree_member(self.entries(), self.columns(), e.0 as u64);
                        }
                    }
                }
            }
        }
        r
    }
}

} // verus!
