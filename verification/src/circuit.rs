//! The transfer relation: what a public signal and a secret witness must
//! satisfy for a transfer to be valid. The relation is what a proof of a
//! transfer proves; here it is checked on the values themselves.

use crate::ecc::{edwards_g_mul_spec, edwards_g_mul_uint_spec, EdwardsPoint};
use crate::field::{fr_modulus, fs_modulus, fs_modulus_uint, Fs, Num};
use crate::hash::{nums_view, poseidon_spec, poseidon_with_salt, SEED_DECRYPTION_KEY};
use crate::merkle::{merkle_root_spec, poseidon_merkle_proof_root, MerkleProof};
use crate::note::Note;
use crate::transfer::{values_sum, TransferPub, TransferSec};
use crate::tx::{
    delta_amount, derive_key_pk_d, dk_spec, note_hash, note_hash_spec, note_hashes, nullfifier,
    nullifier_spec, pk_d_spec, tx_hash, tx_hash_spec, tx_verify, tx_verify_spec, PoolBN256, H,
    IN, OUT,
};
use crate::uint::{lemma_limbs_bound, pow2_64, pow2_80, U256};
use vstd::prelude::*;

verus! {

/// The hash of the extended spending key, before it is reduced into `Fs`.
pub open spec fn dk_hash_spec(xsk: nat) -> nat {
    poseidon_spec(2, 8, 53, SEED_DECRYPTION_KEY@, seq![xsk])
}

/// The decryption key that the relation derives from the extended spending
/// key, where it accepts the key: the key must be below the order of `Fs`
/// less one, and the base point must have the same `x` multiplied by the
/// key and multiplied by the hash that the key is reduced from.
pub open spec fn c_derive_key_dk_spec(xsk: nat) -> Option<nat> {
    let dk = dk_spec(xsk);
    if dk < fs_modulus() - 1 && edwards_g_mul_uint_spec(dk_hash_spec(xsk)).0 == edwards_g_mul_spec(
        dk,
    ).0 {
        Some(dk)
    } else {
        None
    }
}

/// The product of the differences of all pairs of a list, each the earlier
/// element less the later, after the pairs of the first `i` elements with
/// all later ones and of the element `i` with those before `j`.
pub open spec fn unique_acc(xs: Seq<nat>, i: nat, j: nat) -> nat
    decreases i, j,
{
    if j > i + 1 {
        (unique_acc(xs, i, (j - 1) as nat) * (((xs[i as int] - xs[j - 1]) % (fr_modulus() as int))
            as nat)) % fr_modulus()
    } else if i == 0 {
        1
    } else {
        unique_acc(xs, (i - 1) as nat, xs.len())
    }
}

/// The product of the differences of all pairs of a list. It is zero where
/// two elements are equal; that it is zero only there rests on the order of
/// the field being prime.
pub open spec fn unique_product(xs: Seq<nat>) -> nat {
    unique_acc(xs, xs.len(), 0)
}

/// Once the product of differences is zero it stays zero.
pub proof fn lemma_unique_acc_stays_zero(xs: Seq<nat>, i: nat, j: nat, i2: nat, j2: nat)
    requires
        unique_acc(xs, i, j) == 0,
        i < i2 || (i == i2 && j <= j2),
        j <= xs.len(),
    ensures
        unique_acc(xs, i2, j2) == 0,
    decreases i2, j2,
{
    if i == i2 && (j == j2 || (j <= i + 1 && j2 <= i + 1)) {
        // The same product.
    } else if j2 > i2 + 1 {
        lemma_unique_acc_stays_zero(xs, i, j, i2, (j2 - 1) as nat);
        let before = unique_acc(xs, i2, (j2 - 1) as nat);
        let factor = ((xs[i2 as int] - xs[j2 - 1]) % (fr_modulus() as int)) as nat;
        assert(before * factor == 0) by (nonlinear_arith)
            requires
                before == 0,
        ;
    } else if i2 > 0 {
        if i == i2 {
            // No pair of the element `i` was multiplied yet, before `j` or
            // before `j2`.
        } else {
            lemma_unique_acc_stays_zero(xs, i, j, (i2 - 1) as nat, xs.len());
        }
    }
}

/// A list with two equal elements has the product zero: where the product
/// of the differences of all pairs is not zero, no two elements are equal.
pub proof fn lemma_unique_product_distinct(xs: Seq<nat>)
    requires
        unique_product(xs) != 0,
    ensures
        xs.no_duplicates(),
{
    assert forall|a: int, b: int| 0 <= a < xs.len() && 0 <= b < xs.len() && a != b implies xs[a]
        != xs[b] by {
        if xs[a] == xs[b] {
            let lo = if a < b { a } else { b };
            let hi = if a < b { b } else { a };
            // The pair of the two contributes the factor zero.
            let before = unique_acc(xs, lo as nat, hi as nat);
            let factor = ((xs[lo] - xs[hi]) % (fr_modulus() as int)) as nat;
            assert(factor == 0);
            assert(before * factor == 0) by (nonlinear_arith)
                requires
                    factor == 0,
            ;
            assert(unique_acc(xs, lo as nat, (hi + 1) as nat) == 0);
            lemma_unique_acc_stays_zero(xs, lo as nat, (hi + 1) as nat, xs.len(), 0);
        }
    }
}

/// A transfer that satisfies the relation spends no note twice and creates
/// no note twice: its nullifiers differ from one another, and so do its
/// commitments.
pub proof fn lemma_relation_is_unique(p: TransferPub, s: TransferSec)
    requires
        transfer_relation(p, s),
    ensures
        nums_view(p.nullifier@).no_duplicates(),
        nums_view(p.out_hash@).no_duplicates(),
{
    lemma_unique_product_distinct(nums_view(p.nullifier@));
    lemma_unique_product_distinct(nums_view(p.out_hash@));
}

/// Whether the transmission key of a note is the diversified key of its
/// diversifier and a decryption key.
pub open spec fn is_owned(note: Note, dk: nat) -> bool {
    match pk_d_spec(note.d@, dk) {
        Some(key) => key.0 == note.pk_d@,
        None => false,
    }
}

/// Whether an input is in the tree under a root: a note without value
/// need not be.
pub open spec fn is_member(note: Note, proof: MerkleProof, root: nat) -> bool {
    note.v@ == 0 || merkle_root_spec(
        note_hash_spec(note),
        nums_view(proof.sibling@),
        proof.path@,
        H as nat,
    ) == root
}

/// The transfer relation: every note is in range; the extended spending
/// key gives an acceptable decryption key, and that key owns every input;
/// the nullifiers are those of the inputs, and no two are equal; the
/// commitments are those of the outputs, and no two are equal; every input
/// of value is in the tree; the memo is bound; the signature is one of the
/// hash of the transaction for the extended spending key, with a scalar
/// below the order of `Fs`; and the inputs and the delta are worth the
/// outputs.
pub open spec fn transfer_relation(p: TransferPub, s: TransferSec) -> bool {
    let xsk = s.eddsa_a@;
    &&& forall|i: int| 0 <= i < IN ==> (#[trigger] s.tx.input@[i]).fits()
    &&& forall|j: int| 0 <= j < OUT ==> (#[trigger] s.tx.output@[j]).fits()
    &&& c_derive_key_dk_spec(xsk) is Some
    &&& forall|i: int| 0 <= i < IN ==> is_owned(#[trigger] s.tx.input@[i], dk_spec(xsk))
    &&& forall|i: int|
        0 <= i < IN ==> (#[trigger] p.nullifier@[i])@ == nullifier_spec(
            note_hash_spec(s.tx.input@[i]),
            xsk,
        )
    &&& unique_product(nums_view(p.nullifier@)) != 0
    &&& unique_product(nums_view(p.out_hash@)) != 0
    &&& forall|j: int|
        0 <= j < OUT ==> (#[trigger] p.out_hash@[j])@ == note_hash_spec(s.tx.output@[j])
    &&& forall|i: int|
        0 <= i < IN ==> is_member(#[trigger] s.tx.input@[i], s.in_proof@[i], p.root@)
    &&& (p.memo@ + 1) % fr_modulus() != 0
    &&& s.eddsa_s@ < fs_modulus()
    &&& tx_verify_spec(
        s.eddsa_s@,
        s.eddsa_r@,
        xsk,
        tx_hash_spec(note_hashes(s.tx.input@), nums_view(p.out_hash@)),
    )
    &&& p.delta@ < pow2_64()
    &&& delta_amount(p.delta@) + values_sum(s.tx.input@, IN as nat) == values_sum(
        s.tx.output@,
        OUT as nat,
    )
}

/// A transfer that satisfies the relation is balanced: its delta is what
/// its outputs are worth more than its inputs, and so it is in the
/// arithmetic of 64 bits.
pub proof fn lemma_relation_is_balanced(p: TransferPub, s: TransferSec)
    requires
        p.wf(),
        s.wf(),
        transfer_relation(p, s),
    ensures
        delta_amount(p.delta@) == values_sum(s.tx.output@, OUT as nat) - values_sum(
            s.tx.input@,
            IN as nat,
        ),
        p.delta@ as int % (pow2_64() as int) == (values_sum(s.tx.output@, OUT as nat) - values_sum(
            s.tx.input@,
            IN as nat,
        )) % (pow2_64() as int),
{
    let d = delta_amount(p.delta@);
    if p.delta@ >= 0x8000_0000_0000_0000nat {
        assert((d + pow2_64()) % (pow2_64() as int) == d % (pow2_64() as int)) by {
            vstd::arithmetic::div_mod::lemma_mod_add_multiples_vanish(d, pow2_64() as int);
        }
    }
}

/// Whether a note is in range.
pub fn check_range(note: &Note) -> (r: bool)
    ensures
        r == note.fits(),
{
    let d: U256 = note.d.to_uint();
    let v: U256 = note.v.to_uint();
    let st: U256 = note.st.to_uint();
    proof {
        lemma_limbs_bound(d);
        lemma_limbs_bound(v);
        lemma_limbs_bound(st);
        assert(d.l1 < 0x10000 <==> d.l1 as nat * pow2_64() < pow2_80()) by (nonlinear_arith);
        assert(st.l1 < 0x10000 <==> st.l1 as nat * pow2_64() < pow2_80()) by (nonlinear_arith);
    }
    d.l3 == 0 && d.l2 == 0 && d.l1 < 0x10000 && v.l3 == 0 && v.l2 == 0 && v.l1 == 0 && st.l3 == 0
        && st.l2 == 0 && st.l1 < 0x10000
}

/// The decryption key that the relation derives from the extended spending
/// key; none where it does not accept the key.
pub fn c_derive_key_dk(xsk: Num, params: &PoolBN256) -> (r: Option<Fs>)
    ensures
        c_derive_key_dk_spec(xsk@) == match r {
            Some(dk) => Some(dk@),
            None => None,
        },
{
    let inputs: [Num; 1] = [xsk];
    assert(nums_view(inputs@) =~= seq![xsk@]);
    let t_dk: Num = poseidon_with_salt(inputs.as_slice(), SEED_DECRYPTION_KEY, &params.hash());
    let dk: Fs = Fs::from_uint_reduced(&t_dk.to_uint());
    // The key must not be the order less one.
    let limit: U256 = fs_modulus_uint();
    let top = U256 { l0: limit.l0 - 1, l1: limit.l1, l2: limit.l2, l3: limit.l3 };
    if !dk.to_uint().lt(&top) {
        return None;
    }
    let by_hash: EdwardsPoint = EdwardsPoint::base_mul_uint(&t_dk.to_uint());
    let by_key: EdwardsPoint = EdwardsPoint::base_mul(&dk);
    if by_hash.x().same(&by_key.x()) {
        Some(dk)
    } else {
        None
    }
}

/// The `x` of the diversified key of a diversifier, as the relation
/// derives it; none where the diversifier hashes to zero.
pub fn c_derive_key_pk_d(d: Num, dk: Fs, params: &PoolBN256) -> (r: Option<Num>)
    ensures
        match pk_d_spec(d@, dk@) {
            Some(key) => r matches Some(x) && x@ == key.0,
            None => r is None,
        },
{
    match derive_key_pk_d(d, dk, params) {
        Some(key) => Some(key.x()),
        None => None,
    }
}

/// The amount of a delta, as the relation reads it: the delta must fit 64
/// bits, and its highest bit is its sign.
pub fn c_parse_delta(delta: Num) -> (r: Option<i128>)
    ensures
        r is Some <==> delta@ < pow2_64(),
        r matches Some(a) ==> a == delta_amount(delta@),
{
    match delta.to_uint().to_u64() {
        Some(low) => {
            if low < 0x8000_0000_0000_0000 {
                Some(low as i128)
            } else {
                Some(low as i128 - 0x1_0000_0000_0000_0000)
            }
        },
        None => None,
    }
}

/// The product of the differences of all pairs of a list.
pub fn c_unique_product(xs: &Vec<Num>) -> (r: Num)
    ensures
        r@ == unique_product(nums_view(xs@)),
{
    let n: usize = xs.len();
    let ghost vals = nums_view(xs@);
    let mut acc: Num = Num::one();
    let mut i: usize = 0;
    while i < n
        invariant
            i <= n,
            n == xs@.len(),
            vals == nums_view(xs@),
            acc@ == unique_acc(vals, i as nat, 0),
        decreases n - i,
    {
        let mut j: usize = i + 1;
        while j < n
            invariant
                i < n,
                i + 1 <= j <= n,
                n == xs@.len(),
                vals == nums_view(xs@),
                acc@ == unique_acc(vals, i as nat, j as nat),
            decreases n - j,
        {
            let diff: Num = xs[i].sub(&xs[j]);
            assert(vals[i as int] == xs@[i as int]@ && vals[j as int] == xs@[j as int]@);
            acc = acc.mul(&diff);
            j += 1;
        }
        i += 1;
    }
    acc
}

/// The sum of the values of notes that are in range.
fn sum_values(notes: &Vec<Note>) -> (r: i128)
    requires
        notes@.len() <= 0xffff,
        forall|k: int| 0 <= k < notes@.len() ==> (#[trigger] notes@[k]).fits(),
    ensures
        r == values_sum(notes@, notes@.len()),
        0 <= r <= notes@.len() * 0xffff_ffff_ffff_ffff,
{
    let mut total: i128 = 0;
    let mut k: usize = 0;
    while k < notes.len()
        invariant
            k <= notes@.len(),
            notes@.len() <= 0xffff,
            forall|i: int| 0 <= i < notes@.len() ==> (#[trigger] notes@[i]).fits(),
            total == values_sum(notes@, k as nat),
            0 <= total <= k * 0xffff_ffff_ffff_ffff,
        decreases notes@.len() - k,
    {
        assert(notes@[k as int].fits());
        let v: Option<u64> = notes[k].v.to_uint().to_u64();
        total = total + v.unwrap() as i128;
        k += 1;
    }
    total
}

/// Whether a public signal and a secret witness have the shape of a
/// transfer and satisfy the transfer relation.
#[verifier::rlimit(60)]
pub fn c_transfer(p: &TransferPub, s: &TransferSec, params: &PoolBN256) -> (r: bool)
    ensures
        r == (p.wf() && s.wf() && transfer_relation(*p, *s)),
{
    if p.nullifier.len() != IN || p.out_hash.len() != OUT || s.tx.input.len() != IN
        || s.tx.output.len() != OUT || s.in_proof.len() != IN {
        return false;
    }
    let mut c: usize = 0;
    while c < IN
        invariant
            c <= IN,
            s.in_proof@.len() == IN,
            forall|i: int|
                0 <= i < c ==> (#[trigger] s.in_proof@[i]).sibling@.len() == H
                    && s.in_proof@[i].path@.len() == H,
        decreases IN - c,
    {
        if s.in_proof[c].sibling.len() != H || s.in_proof[c].path.len() != H {
            return false;
        }
        c += 1;
    }
    // The ranges of the notes.
    let mut a: usize = 0;
    while a < IN
        invariant
            a <= IN,
            s.tx.input@.len() == IN,
            forall|i: int| 0 <= i < a ==> (#[trigger] s.tx.input@[i]).fits(),
        decreases IN - a,
    {
        if !check_range(&s.tx.input[a]) {
            return false;
        }
        a += 1;
    }
    let mut b: usize = 0;
    while b < OUT
        invariant
            b <= OUT,
            s.tx.output@.len() == OUT,
            forall|j: int| 0 <= j < b ==> (#[trigger] s.tx.output@[j]).fits(),
        decreases OUT - b,
    {
        if !check_range(&s.tx.output[b]) {
            return false;
        }
        b += 1;
    }
    // The decryption key.
    let dk: Fs = match c_derive_key_dk(s.eddsa_a, params) {
        Some(dk) => dk,
        None => { return false; },
    };
    // Ownership, nullifiers and membership of the inputs.
    let mut in_hash: Vec<Num> = Vec::new();
    let mut i: usize = 0;
    while i < IN
        invariant
            i <= IN,
            p.wf(),
            s.wf(),
            dk@ == dk_spec(s.eddsa_a@),
            in_hash@.len() == i,
            forall|k: int| 0 <= k < i ==> (#[trigger] in_hash@[k])@ == note_hash_spec(s.tx.input@[k]),
            forall|k: int| 0 <= k < i ==> is_owned(#[trigger] s.tx.input@[k], dk_spec(s.eddsa_a@)),
            forall|k: int|
                0 <= k < i ==> (#[trigger] p.nullifier@[k])@ == nullifier_spec(
                    note_hash_spec(s.tx.input@[k]),
                    s.eddsa_a@,
                ),
            forall|k: int|
                0 <= k < i ==> is_member(#[trigger] s.tx.input@[k], s.in_proof@[k], p.root@),
        decreases IN - i,
    {
        let note: Note = s.tx.input[i];
        match c_derive_key_pk_d(note.d, dk, params) {
            Some(x) => {
                if !x.same(&note.pk_d) {
                    return false;
                }
            },
            None => { return false; },
        }
        let h: Num = note_hash(note, params);
        if !p.nullifier[i].same(&nullfifier(h, s.eddsa_a, params)) {
            return false;
        }
        if !note.v.is_zero() {
            let cur_root: Num = poseidon_merkle_proof_root(h, &s.in_proof[i], params);
            if !cur_root.same(&p.root) {
                return false;
            }
        }
        in_hash.push(h);
        i += 1;
    }
    if c_unique_product(&p.nullifier).is_zero() {
        return false;
    }
    if c_unique_product(&p.out_hash).is_zero() {
        return false;
    }
    // The commitments of the outputs.
    let mut j: usize = 0;
    while j < OUT
        invariant
            j <= OUT,
            p.wf(),
            s.wf(),
            forall|k: int|
                0 <= k < j ==> (#[trigger] p.out_hash@[k])@ == note_hash_spec(s.tx.output@[k]),
        decreases OUT - j,
    {
        if !p.out_hash[j].same(&note_hash(s.tx.output[j], params)) {
            return false;
        }
        j += 1;
    }
    // The memo.
    if p.memo.add(&Num::one()).is_zero() {
        return false;
    }
    // The signature.
    assert(nums_view(in_hash@) =~= note_hashes(s.tx.input@));
    let m: Num = tx_hash(in_hash.as_slice(), p.out_hash.as_slice(), params);
    let sig: Fs = match Fs::new(s.eddsa_s.to_uint()) {
        Some(sig) => sig,
        None => { return false; },
    };
    if !tx_verify(sig, s.eddsa_r, s.eddsa_a, m, params) {
        return false;
    }
    // The balance.
    let delta_amount: i128 = match c_parse_delta(p.delta) {
        Some(a) => a,
        None => { return false; },
    };
    delta_amount + sum_values(&s.tx.input) == sum_values(&s.tx.output)
}

} // verus!
