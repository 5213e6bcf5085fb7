//! The pool: the set of spent nullifiers, the set of commitments, the history
//! of Merkle roots and the log of messages, and the one operation that
//! changes them.

use crate::field::Num;
use crate::groth16::{alt_bn128_groth16verify, groth16_spec, Proof, VK};
use crate::hash::{memo_hash, memo_spec};
use crate::uint::U256;
use vstd::prelude::*;
use vstd::slice::slice_to_vec;

verus! {

/// Number of notes that a transaction spends.
pub const UTXO_IN: usize = 6;

/// Number of notes that a transaction creates.
pub const UTXO_OUT: usize = 2;

/// Whether no value occurs twice.
pub fn is_unique(items: &[U256]) -> (r: bool)
    ensures
        r == items@.no_duplicates(),
{
    let mut i: usize = 0;
    while i < items.len()
        invariant
            i <= items@.len(),
            forall|a: int, b: int| 0 <= a < i && 0 <= b < items@.len() && a != b ==> items@[a] != items@[b],
        decreases items@.len() - i,
    {
        let mut j: usize = i + 1;
        while j < items.len()
            invariant
                i < items@.len(),
                i < j <= items@.len(),
                forall|b: int| i < b < j ==> items@[i as int] != items@[b],
            decreases items@.len() - j,
        {
            if items[i].same(&items[j]) {
                return false;
            }
            j += 1;
        }
        i += 1;
    }
    true
}

/// Whether a value is among those of a list.
fn contains(list: &Vec<U256>, x: &U256) -> (r: bool)
    ensures
        r == list@.contains(*x),
{
    let mut i: usize = 0;
    while i < list.len()
        invariant
            i <= list@.len(),
            forall|k: int| 0 <= k < i ==> list@[k] != *x,
        decreases list@.len() - i,
    {
        if list[i].same(x) {
            return true;
        }
        i += 1;
    }
    false
}

/// Whether some value of `items` is among those of `list`.
fn any_contained(list: &Vec<U256>, items: &[U256]) -> (r: bool)
    ensures
        r == exists|k: int| 0 <= k < items@.len() && list@.contains(#[trigger] items@[k]),
{
    let mut i: usize = 0;
    while i < items.len()
        invariant
            i <= items@.len(),
            forall|k: int| 0 <= k < i ==> !list@.contains(#[trigger] items@[k]),
        decreases items@.len() - i,
    {
        if contains(list, &items[i]) {
            return true;
        }
        i += 1;
    }
    false
}

/// The part of a list between two positions, cut to the list.
pub open spec fn clamped_slice<T>(s: Seq<T>, from: u64, to: u64) -> Seq<T> {
    let lo = if from <= s.len() { from as int } else { s.len() as int };
    let hi = if to <= s.len() { to as int } else { s.len() as int };
    if lo < hi {
        s.subrange(lo, hi)
    } else {
        Seq::empty()
    }
}

fn slice_of(list: &Vec<U256>, from: u64, to: u64) -> (r: Vec<U256>)
    ensures
        r@ == clamped_slice(list@, from, to),
{
    let len: usize = list.len();
    let lo: usize = if from <= len as u64 { from as usize } else { len };
    let hi: usize = if to <= len as u64 { to as usize } else { len };
    let mut result: Vec<U256> = Vec::new();
    let mut i: usize = lo;
    while i < hi
        invariant
            lo <= i,
            hi <= list@.len(),
            lo < hi ==> i <= hi,
            lo < hi ==> result@ == list@.subrange(lo as int, i as int),
            lo >= hi ==> result@ == Seq::<U256>::empty(),
        decreases hi - i,
    {
        result.push(list[i]);
        assert(list@.subrange(lo as int, i as int).push(list@[i as int]) =~= list@.subrange(
            lo as int,
            i + 1,
        ));
        i += 1;
    }
    assert(list@.subrange(lo as int, lo as int) =~= Seq::<U256>::empty());
    result
}

/// A transaction as it is submitted to the pool.
#[derive(Clone, Debug)]
pub struct TransferAndUpdateRoot {
    pub root: U256,
    pub nullifier: [U256; UTXO_IN],
    pub out_hash: [U256; UTXO_OUT],
    pub delta: U256,
    pub memo: U256,
    pub message: Vec<u8>,
    pub before_root: U256,
    pub after_root: U256,
}

impl TransferAndUpdateRoot {
    /// The public inputs of the transfer proof, in their fixed order.
    pub open spec fn transfer_inputs(self) -> Seq<U256> {
        seq![self.root] + self.nullifier@ + self.out_hash@ + seq![self.delta, self.memo]
    }

    /// The public inputs of the proof that the root was updated, in their
    /// fixed order.
    pub open spec fn update_root_inputs(self, pos: u64) -> Seq<U256> {
        seq![self.before_root, self.after_root, U256 { l0: pos, l1: 0, l2: 0, l3: 0 }]
            + self.out_hash@
    }

    /// The public inputs of the transfer proof.
    pub fn input_vec_transfer(&self) -> (res: Vec<U256>)
        ensures
            res@ == self.transfer_inputs(),
    {
        let mut res: Vec<U256> = Vec::with_capacity(3 + UTXO_IN + UTXO_OUT);
        res.push(self.root);
        let mut i: usize = 0;
        while i < UTXO_IN
            invariant
                i <= UTXO_IN,
                res@ == seq![self.root] + self.nullifier@.subrange(0, i as int),
            decreases UTXO_IN - i,
        {
            res.push(self.nullifier[i]);
            assert(res@ =~= seq![self.root] + self.nullifier@.subrange(0, i + 1));
            i += 1;
        }
        assert(self.nullifier@.subrange(0, UTXO_IN as int) =~= self.nullifier@);
        let mut j: usize = 0;
        while j < UTXO_OUT
            invariant
                j <= UTXO_OUT,
                res@ == seq![self.root] + self.nullifier@ + self.out_hash@.subrange(0, j as int),
            decreases UTXO_OUT - j,
        {
            res.push(self.out_hash[j]);
            assert(res@ =~= seq![self.root] + self.nullifier@ + self.out_hash@.subrange(0, j + 1));
            j += 1;
        }
        assert(self.out_hash@.subrange(0, UTXO_OUT as int) =~= self.out_hash@);
        res.push(self.delta);
        res.push(self.memo);
        assert(res@ =~= self.transfer_inputs());
        res
    }

    /// The public inputs of the proof that the root was updated, for new
    /// leaves that start at position `pos`.
    pub fn input_vec_update_root(&self, pos: u64) -> (res: Vec<U256>)
        ensures
            res@ == self.update_root_inputs(pos),
    {
        let mut res: Vec<U256> = Vec::with_capacity(3 + UTXO_OUT);
        res.push(self.before_root);
        res.push(self.after_root);
        res.push(U256::from_u64(pos));
        let ghost head = res@;
        let mut j: usize = 0;
        while j < UTXO_OUT
            invariant
                j <= UTXO_OUT,
                res@ == head + self.out_hash@.subrange(0, j as int),
            decreases UTXO_OUT - j,
        {
            res.push(self.out_hash[j]);
            assert(res@ =~= head + self.out_hash@.subrange(0, j + 1));
            j += 1;
        }
        assert(self.out_hash@.subrange(0, UTXO_OUT as int) =~= self.out_hash@);
        assert(res@ =~= self.update_root_inputs(pos));
        res
    }
}

/// Why the pool refused a transaction.
#[derive(Clone, Copy, Debug, PartialEq, Eq, Structural)]
pub enum PoolError {
    /// Two nullifiers of the transaction are equal.
    NullifierNotUnique,
    /// Two commitments of the transaction are equal.
    UtxoNotUnique,
    /// A nullifier of the transaction was spent before.
    NullifierInHistory,
    /// A commitment of the transaction was appended before.
    UtxoInHistory,
    /// The root that the transfer was proved against was never a root of the pool.
    NoRootInHistory,
    /// The memo is not the hash of the message.
    WrongMemoHash,
    /// The root before the update is not the current root.
    WrongCurrentRoot,
    /// The transfer proof does not verify.
    WrongTransferSnark,
    /// The proof of the update of the root does not verify.
    WrongUpdateRootSnark,
    /// A verifying key has not one point more than its proof has public
    /// inputs.
    WrongInputLen,
}

impl PoolError {
    /// The reason, in words.
    pub fn reason(&self) -> (r: &'static str)
        ensures
            r@ == match *self {
                PoolError::NullifierNotUnique => "not unique nullifier in transaction"@,
                PoolError::UtxoNotUnique => "not unique utxo in transaction"@,
                PoolError::NullifierInHistory => "not unique nullifier in history"@,
                PoolError::UtxoInHistory => "not unique utxo in history"@,
                PoolError::NoRootInHistory => "no root in history"@,
                PoolError::WrongMemoHash => "wrong memo hash"@,
                PoolError::WrongCurrentRoot => "wrong current root"@,
                PoolError::WrongTransferSnark => "wrong transfer snark check"@,
                PoolError::WrongUpdateRootSnark => "wrong update root snark check"@,
                PoolError::WrongInputLen => "Wrong input len."@,
            },
    {
        match self {
            PoolError::NullifierNotUnique => "not unique nullifier in transaction",
            PoolError::UtxoNotUnique => "not unique utxo in transaction",
            PoolError::NullifierInHistory => "not unique nullifier in history",
            PoolError::UtxoInHistory => "not unique utxo in history",
            PoolError::NoRootInHistory => "no root in history",
            PoolError::WrongMemoHash => "wrong memo hash",
            PoolError::WrongCurrentRoot => "wrong current root",
            PoolError::WrongTransferSnark => "wrong transfer snark check",
            PoolError::WrongUpdateRootSnark => "wrong update root snark check",
            PoolError::WrongInputLen => "Wrong input len.",
        }
    }
}

/// The contents of a list of byte strings.
pub open spec fn bytes_views(s: Seq<Vec<u8>>) -> Seq<Seq<u8>> {
    s.map_values(|m: Vec<u8>| m@)
}

/// What the pool holds: its four lists as sequences, and its two keys.
pub struct PoolState {
    pub nullifier: Seq<U256>,
    pub root_history: Seq<U256>,
    pub utxo: Seq<U256>,
    pub message: Seq<Seq<u8>>,
    pub vk_tx: VK,
    pub vk_update_root: VK,
}

impl PoolState {
    /// There is a first root, every accepted transaction has left its
    /// nullifiers, its commitments, its message and its root, and nothing was
    /// spent or appended twice.
    pub open spec fn wf(self) -> bool {
        &&& self.root_history.len() >= 1
        &&& self.nullifier.len() == UTXO_IN * (self.root_history.len() - 1)
        &&& self.utxo.len() == UTXO_OUT * (self.root_history.len() - 1)
        &&& self.message.len() == self.root_history.len() - 1
        &&& self.nullifier.no_duplicates()
        &&& self.utxo.no_duplicates()
    }

    /// Number of accepted transactions.
    pub open spec fn num_tx(self) -> int {
        self.root_history.len() - 1
    }

    /// Position of the first leaf that the next transaction appends.
    pub open spec fn next_leaf(self) -> u64 {
        (self.num_tx() * UTXO_OUT) as u64
    }

    /// The last root of the history.
    pub open spec fn current_root(self) -> U256
        recommends
            self.root_history.len() >= 1,
    {
        self.root_history[self.root_history.len() - 1]
    }

    /// The first rule on the state that a transaction breaks, if it breaks one.
    pub open spec fn check(self, tx: TransferAndUpdateRoot) -> Option<PoolError> {
        if !tx.nullifier@.no_duplicates() {
            Some(PoolError::NullifierNotUnique)
        } else if !tx.out_hash@.no_duplicates() {
            Some(PoolError::UtxoNotUnique)
        } else if exists|k: int|
            0 <= k < tx.nullifier@.len() && self.nullifier.contains(#[trigger] tx.nullifier@[k]) {
            Some(PoolError::NullifierInHistory)
        } else if exists|k: int|
            0 <= k < tx.out_hash@.len() && self.utxo.contains(#[trigger] tx.out_hash@[k]) {
            Some(PoolError::UtxoInHistory)
        } else if !self.root_history.contains(tx.root) {
            Some(PoolError::NoRootInHistory)
        } else if tx.memo@ != memo_spec(tx.message@) {
            Some(PoolError::WrongMemoHash)
        } else if self.current_root() != tx.before_root {
            Some(PoolError::WrongCurrentRoot)
        } else {
            None
        }
    }

    /// What the pool answers to a transaction, given whether its two proofs verify.
    pub open spec fn accept(self, tx: TransferAndUpdateRoot, transfer_ok: bool, update_ok: bool)
        -> Result<(), PoolError> {
        match self.check(tx) {
            Some(e) => Err(e),
            None => if !transfer_ok {
                Err(PoolError::WrongTransferSnark)
            } else if !update_ok {
                Err(PoolError::WrongUpdateRootSnark)
            } else {
                Ok(())
            },
        }
    }

    /// What the pool answers to a transaction with its two proofs: the
    /// first rule on the state that the transaction breaks; else, for the
    /// transfer proof and then for the proof of the new root, that the key
    /// has not one point more than the proof has public inputs, or that the
    /// proof does not verify; else that the transaction is accepted.
    pub open spec fn verdict(
        self,
        transfer_proof: Proof,
        update_root_proof: Proof,
        tx: TransferAndUpdateRoot,
    ) -> Result<(), PoolError> {
        let transfer_inputs = tx.transfer_inputs();
        let update_inputs = tx.update_root_inputs(self.next_leaf());
        match self.check(tx) {
            Some(e) => Err(e),
            None => if self.vk_tx.ic@.len() != transfer_inputs.len() + 1 {
                Err(PoolError::WrongInputLen)
            } else if !groth16_spec(self.vk_tx, transfer_proof, transfer_inputs) {
                Err(PoolError::WrongTransferSnark)
            } else if self.vk_update_root.ic@.len() != update_inputs.len() + 1 {
                Err(PoolError::WrongInputLen)
            } else if !groth16_spec(self.vk_update_root, update_root_proof, update_inputs) {
                Err(PoolError::WrongUpdateRootSnark)
            } else {
                Ok(())
            },
        }
    }

    /// The pool after it has accepted a transaction.
    pub open spec fn commit(self, tx: TransferAndUpdateRoot) -> PoolState {
        PoolState {
            nullifier: self.nullifier + tx.nullifier@,
            root_history: self.root_history.push(tx.after_root),
            utxo: self.utxo + tx.out_hash@,
            message: self.message.push(tx.message@),
            vk_tx: self.vk_tx,
            vk_update_root: self.vk_update_root,
        }
    }

    /// The pool after a transaction was submitted: changed where it was
    /// accepted, the same where it was not.
    pub open spec fn step(self, tx: TransferAndUpdateRoot, transfer_ok: bool, update_ok: bool)
        -> PoolState {
        if self.accept(tx, transfer_ok, update_ok) is Ok {
            self.commit(tx)
        } else {
            self
        }
    }
}

/// Two lists without repeated values, with no value in common, make one
/// such list when joined.
pub proof fn lemma_append_no_duplicates(a: Seq<U256>, b: Seq<U256>)
    requires
        a.no_duplicates(),
        b.no_duplicates(),
        forall|k: int| 0 <= k < b.len() ==> !a.contains(#[trigger] b[k]),
    ensures
        (a + b).no_duplicates(),
{
    let c = a + b;
    assert forall|i: int, j: int| 0 <= i < c.len() && 0 <= j < c.len() && i != j implies c[i]
        != c[j] by {
        if i < a.len() && j >= a.len() {
            assert(c[j] == b[j - a.len()]);
            assert(a.contains(a[i]));
        } else if j < a.len() && i >= a.len() {
            assert(c[i] == b[i - a.len()]);
            assert(a.contains(a[j]));
        }
    }
}

/// An accepted transaction leaves a pool that is well formed, with one
/// transaction more, `UTXO_IN` nullifiers more and `UTXO_OUT` commitments
/// more.
pub proof fn lemma_commit_preserves_wf(s: PoolState, tx: TransferAndUpdateRoot)
    requires
        s.wf(),
        s.check(tx) is None,
    ensures
        s.commit(tx).wf(),
        s.commit(tx).num_tx() == s.num_tx() + 1,
        s.commit(tx).nullifier.len() == UTXO_IN * s.commit(tx).num_tx(),
        s.commit(tx).utxo.len() == UTXO_OUT * s.commit(tx).num_tx(),
        s.commit(tx).current_root() == tx.after_root,
{
    lemma_append_no_duplicates(s.nullifier, tx.nullifier@);
    lemma_append_no_duplicates(s.utxo, tx.out_hash@);
}

/// Whatever is submitted, the pool stays well formed, and its two sets have
/// `UTXO_IN` nullifiers and `UTXO_OUT` commitments for each accepted
/// transaction.
pub proof fn lemma_step_preserves_counts(
    s: PoolState,
    tx: TransferAndUpdateRoot,
    transfer_ok: bool,
    update_ok: bool,
)
    requires
        s.wf(),
    ensures
        s.step(tx, transfer_ok, update_ok).wf(),
        s.step(tx, transfer_ok, update_ok).nullifier.len() == UTXO_IN * s.step(
            tx,
            transfer_ok,
            update_ok,
        ).num_tx(),
        s.step(tx, transfer_ok, update_ok).utxo.len() == UTXO_OUT * s.step(
            tx,
            transfer_ok,
            update_ok,
        ).num_tx(),
{
    if s.accept(tx, transfer_ok, update_ok) is Ok {
        lemma_commit_preserves_wf(s, tx);
    }
}

/// A transaction that was accepted is refused when it is submitted again,
/// whatever its proofs: its nullifiers are spent.
pub proof fn lemma_replay_rejected(
    s: PoolState,
    tx: TransferAndUpdateRoot,
    transfer_ok: bool,
    update_ok: bool,
)
    requires
        s.wf(),
        s.check(tx) is None,
    ensures
        s.commit(tx).accept(tx, transfer_ok, update_ok) == Err::<(), PoolError>(
            PoolError::NullifierInHistory,
        ),
{
    let after = s.commit(tx);
    assert(after.nullifier[s.nullifier.len() as int] == tx.nullifier@[0]);
    assert(after.nullifier.contains(tx.nullifier@[0]));
}

/// A transaction made for the root `R_k` is refused once another
/// transaction, which gave the pool another root, was accepted.
pub proof fn lemma_stale_root_rejected(
    s: PoolState,
    first: TransferAndUpdateRoot,
    second: TransferAndUpdateRoot,
    transfer_ok: bool,
    update_ok: bool,
)
    requires
        s.wf(),
        s.check(first) is None,
        second.before_root == s.current_root(),
        first.after_root != s.current_root(),
    ensures
        s.commit(first).check(second) is Some,
        s.commit(first).accept(second, transfer_ok, update_ok) is Err,
{
    let after = s.commit(first);
    assert(after.current_root() == first.after_root);
}

/// The pool.
#[derive(Debug)]
pub struct PrivateTxEngine {
    pub nullifier: Vec<U256>,
    pub root_history: Vec<U256>,
    pub utxo: Vec<U256>,
    pub message: Vec<Vec<u8>>,
    pub vk_tx: VK,
    pub vk_update_root: VK,
}

impl View for PrivateTxEngine {
    type V = PoolState;

    open spec fn view(&self) -> PoolState {
        PoolState {
            nullifier: self.nullifier@,
            root_history: self.root_history@,
            utxo: self.utxo@,
            message: bytes_views(self.message@),
            vk_tx: self.vk_tx,
            vk_update_root: self.vk_update_root,
        }
    }
}

impl PrivateTxEngine {
    /// A pool without transactions, whose history holds the root of the
    /// empty tree.
    pub fn new(vk_tx: VK, vk_update_root: VK, empty_root: U256) -> (r: PrivateTxEngine)
        ensures
            r@.wf(),
            r@.num_tx() == 0,
            r@.root_history == seq![empty_root],
            r@.nullifier.len() == 0,
            r@.utxo.len() == 0,
            r@.message.len() == 0,
            r.vk_tx == vk_tx,
            r.vk_update_root == vk_update_root,
    {
        let mut root_history: Vec<U256> = Vec::new();
        root_history.push(empty_root);
        PrivateTxEngine {
            nullifier: Vec::new(),
            root_history,
            utxo: Vec::new(),
            message: Vec::new(),
            vk_tx,
            vk_update_root,
        }
    }

    /// Whether the pool holds what accepted transactions leave: a first
    /// root, then for each transaction its nullifiers, its commitments, its
    /// message and its root, and nothing twice.
    pub fn is_well_formed(&self) -> (r: bool)
        ensures
            r == self@.wf(),
    {
        let roots: usize = self.root_history.len();
        if roots == 0 {
            return false;
        }
        let accepted: u128 = (roots - 1) as u128;
        let spent: u128 = UTXO_IN as u128;
        let created: u128 = UTXO_OUT as u128;
        assert(spent * accepted <= 6 * usize::MAX && created * accepted <= 2 * usize::MAX)
            by (nonlinear_arith)
            requires
                spent == 6,
                created == 2,
                accepted <= usize::MAX,
        ;
        if self.nullifier.len() as u128 != spent * accepted {
            return false;
        }
        if self.utxo.len() as u128 != created * accepted {
            return false;
        }
        if self.message.len() as u128 != accepted {
            return false;
        }
        is_unique(self.nullifier.as_slice()) && is_unique(self.utxo.as_slice())
    }

    /// Number of accepted transactions.
    pub fn num_tx(&self) -> (r: u64)
        requires
            self@.wf(),
        ensures
            r == self@.num_tx(),
            self@.nullifier.len() == UTXO_IN * r,
            self@.utxo.len() == UTXO_OUT * r,
    {
        (self.root_history.len() - 1) as u64
    }

    /// The root of the tree after the last accepted transaction.
    pub fn current_root(&self) -> (r: U256)
        requires
            self@.wf(),
        ensures
            r == self@.current_root(),
    {
        self.root_history[self.root_history.len() - 1]
    }

    /// Whether a nullifier was spent.
    pub fn is_nullifier(&self, nullifier: U256) -> (r: bool)
        ensures
            r == self@.nullifier.contains(nullifier),
    {
        contains(&self.nullifier, &nullifier)
    }

    /// Whether a commitment was appended.
    pub fn is_utxo(&self, utxo: U256) -> (r: bool)
        ensures
            r == self@.utxo.contains(utxo),
    {
        contains(&self.utxo, &utxo)
    }

    /// Whether a value was ever the root of the tree.
    pub fn is_root_history(&self, root_history: U256) -> (r: bool)
        ensures
            r == self@.root_history.contains(root_history),
    {
        contains(&self.root_history, &root_history)
    }

    /// The nullifiers at positions `from..to`, as far as there are any.
    pub fn get_nullifier_slice(&self, from: u64, to: u64) -> (r: Vec<U256>)
        ensures
            r@ == clamped_slice(self@.nullifier, from, to),
    {
        slice_of(&self.nullifier, from, to)
    }

    /// The commitments at positions `from..to`, as far as there are any.
    pub fn get_utxo_slice(&self, from: u64, to: u64) -> (r: Vec<U256>)
        ensures
            r@ == clamped_slice(self@.utxo, from, to),
    {
        slice_of(&self.utxo, from, to)
    }

    /// The roots at positions `from..to`, as far as there are any.
    pub fn get_root_history_slice(&self, from: u64, to: u64) -> (r: Vec<U256>)
        ensures
            r@ == clamped_slice(self@.root_history, from, to),
    {
        slice_of(&self.root_history, from, to)
    }

    /// The messages at positions `from..to`, as far as there are any.
    pub fn get_message_slice(&self, from: u64, to: u64) -> (r: Vec<Vec<u8>>)
        ensures
            bytes_views(r@) == clamped_slice(self@.message, from, to),
    {
        let len: usize = self.message.len();
        let lo: usize = if from <= len as u64 { from as usize } else { len };
        let hi: usize = if to <= len as u64 { to as usize } else { len };
        let mut result: Vec<Vec<u8>> = Vec::new();
        let mut i: usize = lo;
        while i < hi
            invariant
                lo <= i,
                hi <= self.message@.len(),
                lo < hi ==> i <= hi,
                lo < hi ==> result@.len() == i - lo,
                lo < hi ==> bytes_views(result@) == self@.message.subrange(lo as int, i as int),
                lo >= hi ==> result@.len() == 0,
            decreases hi - i,
        {
            let ghost prev = result@;
            let m: Vec<u8> = slice_to_vec(self.message[i].as_slice());
            result.push(m);
            assert forall|k: int| 0 <= k < result@.len() implies bytes_views(result@)[k]
                == self@.message.subrange(lo as int, i + 1)[k] by {
                if k < prev.len() {
                    assert(bytes_views(prev)[k] == self@.message.subrange(lo as int, i as int)[k]);
                } else {
                    assert(bytes_views(self.message@)[i as int] == self.message@[i as int]@);
                }
            }
            assert(bytes_views(result@) =~= self@.message.subrange(lo as int, i + 1));
            i += 1;
        }
        assert(self@.message.subrange(lo as int, lo as int) =~= Seq::<Seq<u8>>::empty());
        assert(lo >= hi ==> bytes_views(result@) =~= Seq::<Seq<u8>>::empty());
        result
    }

    /// The first rule on the state that a transaction breaks, if it breaks one.
    pub fn check_transfer(&self, txobj: &TransferAndUpdateRoot) -> (r: Result<(), PoolError>)
        requires
            self@.wf(),
        ensures
            r == match self@.check(*txobj) {
                Some(e) => Err::<(), PoolError>(e),
                None => Ok(()),
            },
    {
        if !is_unique(txobj.nullifier.as_slice()) {
            return Err(PoolError::NullifierNotUnique);
        }
        if !is_unique(txobj.out_hash.as_slice()) {
            return Err(PoolError::UtxoNotUnique);
        }
        if any_contained(&self.nullifier, txobj.nullifier.as_slice()) {
            return Err(PoolError::NullifierInHistory);
        }
        if any_contained(&self.utxo, txobj.out_hash.as_slice()) {
            return Err(PoolError::UtxoInHistory);
        }
        if !self.is_root_history(txobj.root) {
            return Err(PoolError::NoRootInHistory);
        }
        let memo: Num = memo_hash(txobj.message.as_slice());
        if !txobj.memo.same(&memo.to_uint()) {
            return Err(PoolError::WrongMemoHash);
        }
        if !self.current_root().same(&txobj.before_root) {
            return Err(PoolError::WrongCurrentRoot);
        }
        Ok(())
    }

    /// Appends what an accepted transaction leaves.
    fn commit(&mut self, txobj: TransferAndUpdateRoot)
        requires
            old(self)@.wf(),
            old(self)@.check(txobj) is None,
        ensures
            final(self)@ == old(self)@.commit(txobj),
            final(self)@.wf(),
            final(self).vk_tx == old(self).vk_tx,
            final(self).vk_update_root == old(self).vk_update_root,
    {
        proof {
            lemma_commit_preserves_wf(self@, txobj);
        }
        let mut i: usize = 0;
        while i < UTXO_IN
            invariant
                i <= UTXO_IN,
                self.nullifier@ == old(self).nullifier@ + txobj.nullifier@.subrange(0, i as int),
                self.root_history == old(self).root_history,
                self.utxo == old(self).utxo,
                self.message == old(self).message,
                self.vk_tx == old(self).vk_tx,
                self.vk_update_root == old(self).vk_update_root,
            decreases UTXO_IN - i,
        {
            self.nullifier.push(txobj.nullifier[i]);
            assert(self.nullifier@ =~= old(self).nullifier@ + txobj.nullifier@.subrange(0, i + 1));
            i += 1;
        }
        assert(txobj.nullifier@.subrange(0, UTXO_IN as int) =~= txobj.nullifier@);
        let mut j: usize = 0;
        while j < UTXO_OUT
            invariant
                j <= UTXO_OUT,
                self.nullifier@ == old(self).nullifier@ + txobj.nullifier@,
                self.utxo@ == old(self).utxo@ + txobj.out_hash@.subrange(0, j as int),
                self.root_history == old(self).root_history,
                self.message == old(self).message,
                self.vk_tx == old(self).vk_tx,
                self.vk_update_root == old(self).vk_update_root,
            decreases UTXO_OUT - j,
        {
            self.utxo.push(txobj.out_hash[j]);
            assert(self.utxo@ =~= old(self).utxo@ + txobj.out_hash@.subrange(0, j + 1));
            j += 1;
        }
        assert(txobj.out_hash@.subrange(0, UTXO_OUT as int) =~= txobj.out_hash@);
        self.message.push(txobj.message);
        self.root_history.push(txobj.after_root);
        assert(self@.message =~= old(self)@.message.push(txobj.message@));
        assert(self@.nullifier =~= old(self)@.commit(txobj).nullifier);
    }

    /// Submits a transaction whose two proofs were checked elsewhere:
    /// `transfer_ok` and `update_ok` say whether they verify.
    pub fn apply_transfer(
        &mut self,
        txobj: TransferAndUpdateRoot,
        transfer_ok: bool,
        update_ok: bool,
    ) -> (r: Result<(), PoolError>)
        requires
            old(self)@.wf(),
        ensures
            r == old(self)@.accept(txobj, transfer_ok, update_ok),
            final(self)@ == old(self)@.step(txobj, transfer_ok, update_ok),
            final(self)@.wf(),
            r is Ok ==> final(self)@.num_tx() == old(self)@.num_tx() + 1,
            r is Err ==> *final(self) == *old(self),
            final(self).vk_tx == old(self).vk_tx,
            final(self).vk_update_root == old(self).vk_update_root,
    {
        match self.check_transfer(&txobj) {
            Err(e) => { return Err(e); },
            Ok(_) => {},
        }
        if !transfer_ok {
            return Err(PoolError::WrongTransferSnark);
        }
        if !update_ok {
            return Err(PoolError::WrongUpdateRootSnark);
        }
        self.commit(txobj);
        Ok(())
    }

    /// Submits a transaction with its two proofs. The pool checks the rules
    /// on its state, then the transfer proof against its public inputs, then
    /// the proof of the new root against the old root, the new root, the
    /// position of the first new leaf and the new commitments; it accepts the
    /// transaction where all of them hold, and stays as it was where one
    /// does not.
    pub fn transfer_and_update_root(
        &mut self,
        transfer_proof: Proof,
        update_root_proof: Proof,
        txobj: TransferAndUpdateRoot,
    ) -> (r: Result<(), PoolError>)
        requires
            old(self)@.wf(),
        ensures
            r == old(self)@.verdict(transfer_proof, update_root_proof, txobj),
            r is Ok <==> old(self)@.accept(
                txobj,
                groth16_spec(old(self).vk_tx, transfer_proof, txobj.transfer_inputs()),
                groth16_spec(
                    old(self).vk_update_root,
                    update_root_proof,
                    txobj.update_root_inputs(old(self)@.next_leaf()),
                ),
            ) is Ok,
            r is Ok ==> final(self)@ == old(self)@.commit(txobj),
            r is Ok ==> final(self)@.num_tx() == old(self)@.num_tx() + 1,
            r is Err ==> *final(self) == *old(self),
            final(self)@.wf(),
            final(self).vk_tx == old(self).vk_tx,
            final(self).vk_update_root == old(self).vk_update_root,
    {
        match self.check_transfer(&txobj) {
            Err(e) => { return Err(e); },
            Ok(_) => {},
        }
        let transfer_inputs: Vec<U256> = txobj.input_vec_transfer();
        if self.vk_tx.ic.len() != transfer_inputs.len() + 1 {
            return Err(PoolError::WrongInputLen);
        }
        if !alt_bn128_groth16verify(&self.vk_tx, &transfer_proof, transfer_inputs.as_slice()) {
            return Err(PoolError::WrongTransferSnark);
        }
        let appended: usize = self.utxo.len();
        let pos: u64 = self.num_tx() * (UTXO_OUT as u64);
        assert(pos == appended);
        let update_inputs: Vec<U256> = txobj.input_vec_update_root(pos);
        if self.vk_update_root.ic.len() != update_inputs.len() + 1 {
            return Err(PoolError::WrongInputLen);
        }
        if !alt_bn128_groth16verify(
            &self.vk_update_root,
            &update_root_proof,
            update_inputs.as_slice(),
        ) {
            return Err(PoolError::WrongUpdateRootSnark);
        }
        self.commit(txobj);
        Ok(())
    }
}

} // verus!
