//! Keys, hashes, the balance delta and the encryption of notes.

use crate::ecc::{
    edwards_decompress_spec, edwards_from_scalar_spec, edwards_g_mul_spec, edwards_mul_spec,
    eddsa_sign_spec, eddsa_verify_spec, sign, verify, EdwardsPoint,
};
use crate::field::{fr_modulus, fs_inverse_spec, fs_modulus, Fs, Num};
use crate::hash::{
    keccak256, keccak256_spec, nums_view, poseidon_spec, poseidon_with_salt, PoseidonParams,
    SEED_DECRYPTION_KEY, SEED_DIVERSIFIER, SEED_NOTE_HASH, SEED_NULLIFIER, SEED_TX_HASH,
};
use crate::note::{Note, NOTE_SIZE};
use crate::uint::{
    lemma_le_bytes_roundtrip, lemma_uint_of_small, lemma_uint_of_view, pow2_128, pow2_192,
    pow2_64, uint_of, U256,
};
use vstd::arithmetic::div_mod::{lemma_mod_multiples_vanish, lemma_small_mod};
use vstd::prelude::*;
use vstd::slice::slice_subrange;

verus! {

/// Number of notes that a transaction spends.
pub const IN: usize = 6;

/// Number of notes that a transaction creates.
pub const OUT: usize = 2;

/// Height of the Merkle tree.
pub const H: usize = 32;

/// The parameters of the pool: the Poseidon permutation of each use.
#[derive(Clone, Copy, Debug)]
pub struct PoolBN256 {
    hash: PoseidonParams,
    compress: PoseidonParams,
    note: PoseidonParams,
    tx: PoseidonParams,
    eddsa: PoseidonParams,
}

impl PoolBN256 {
    #[verifier::type_invariant]
    closed spec fn inv(self) -> bool {
        &&& self.hash == (PoseidonParams { t: 2, f: 8, p: 53 })
        &&& self.compress == (PoseidonParams { t: 3, f: 8, p: 53 })
        &&& self.note == (PoseidonParams { t: 5, f: 8, p: 54 })
        &&& self.tx == (PoseidonParams { t: 9, f: 8, p: 54 })
        &&& self.eddsa == (PoseidonParams { t: 4, f: 8, p: 53 })
    }

    /// The permutation that hashes one element.
    pub closed spec fn hash_params(self) -> PoseidonParams {
        self.hash
    }

    /// The permutation that compresses two elements.
    pub closed spec fn compress_params(self) -> PoseidonParams {
        self.compress
    }

    /// The permutation that hashes a note.
    pub closed spec fn note_params(self) -> PoseidonParams {
        self.note
    }

    /// The permutation that hashes the notes of a transaction.
    pub closed spec fn tx_params(self) -> PoseidonParams {
        self.tx
    }

    /// The permutation of the signature scheme.
    pub closed spec fn eddsa_params(self) -> PoseidonParams {
        self.eddsa
    }

    /// Whether the permutations are those of a pool with six inputs and two
    /// outputs: the widths 2, 3, 5, 9 and 4 for hashing one element,
    /// compressing two, hashing a note, hashing the notes of a transaction
    /// and signing; 8 full rounds each; 53 partial rounds, and 54 for notes
    /// and for transactions.
    pub open spec fn is_standard(self) -> bool {
        &&& self.hash_params() == (PoseidonParams { t: 2, f: 8, p: 53 })
        &&& self.compress_params() == (PoseidonParams { t: 3, f: 8, p: 53 })
        &&& self.note_params() == (PoseidonParams { t: 5, f: 8, p: 54 })
        &&& self.tx_params() == (PoseidonParams { t: (IN + OUT + 1) as usize, f: 8, p: 54 })
        &&& self.eddsa_params() == (PoseidonParams { t: 4, f: 8, p: 53 })
    }

    /// The parameters for six inputs, two outputs and a tree of height 32.
    pub fn new() -> (r: PoolBN256)
        ensures
            r.is_standard(),
    {
        PoolBN256 {
            hash: PoseidonParams { t: 2, f: 8, p: 53 },
            compress: PoseidonParams { t: 3, f: 8, p: 53 },
            note: PoseidonParams { t: 5, f: 8, p: 54 },
            tx: PoseidonParams { t: IN + OUT + 1, f: 8, p: 54 },
            eddsa: PoseidonParams { t: 4, f: 8, p: 53 },
        }
    }

    /// The permutation that hashes one element.
    pub fn hash(&self) -> (r: PoseidonParams)
        ensures
            r == self.hash_params(),
            r == (PoseidonParams { t: 2, f: 8, p: 53 }),
    {
        proof {
            use_type_invariant(self);
        }
        self.hash
    }

    /// The permutation that compresses two elements.
    pub fn compress(&self) -> (r: PoseidonParams)
        ensures
            r == self.compress_params(),
            r == (PoseidonParams { t: 3, f: 8, p: 53 }),
    {
        proof {
            use_type_invariant(self);
        }
        self.compress
    }

    /// The permutation that hashes a note.
    pub fn note(&self) -> (r: PoseidonParams)
        ensures
            r == self.note_params(),
            r == (PoseidonParams { t: 5, f: 8, p: 54 }),
    {
        proof {
            use_type_invariant(self);
        }
        self.note
    }

    /// The permutation that hashes the notes of a transaction.
    pub fn tx(&self) -> (r: PoseidonParams)
        ensures
            r == self.tx_params(),
            r == (PoseidonParams { t: 9, f: 8, p: 54 }),
    {
        proof {
            use_type_invariant(self);
        }
        self.tx
    }

    /// The permutation of the signature scheme.
    pub fn eddsa(&self) -> (r: PoseidonParams)
        ensures
            r == self.eddsa_params(),
            r == (PoseidonParams { t: 4, f: 8, p: 53 }),
    {
        proof {
            use_type_invariant(self);
        }
        self.eddsa
    }
}

/// The commitments of notes.
pub open spec fn note_hashes(notes: Seq<Note>) -> Seq<nat> {
    Seq::new(notes.len(), |k: int| note_hash_spec(notes[k]))
}

/// The nullifier of a note: the hash of its commitment and the extended
/// spending key.
pub open spec fn nullifier_spec(note_hash: nat, xsk: nat) -> nat {
    poseidon_spec(3, 8, 53, SEED_NULLIFIER@, seq![note_hash, xsk])
}

/// The commitment of a note: the hash of its four elements.
pub open spec fn note_hash_spec(note: Note) -> nat {
    poseidon_spec(5, 8, 54, SEED_NOTE_HASH@, seq![note.d@, note.pk_d@, note.v@, note.st@])
}

/// The hash of a transaction: that of the commitments of its inputs, then
/// of its outputs.
pub open spec fn tx_hash_spec(in_note_hash: Seq<nat>, out_note_hash: Seq<nat>) -> nat {
    poseidon_spec(9, 8, 54, SEED_TX_HASH@, in_note_hash + out_note_hash)
}

/// The decryption key of an extended spending key: its hash, reduced into `Fs`.
pub open spec fn dk_spec(xsk: nat) -> nat {
    poseidon_spec(2, 8, 53, SEED_DECRYPTION_KEY@, seq![xsk]) % fs_modulus()
}

/// The point that a diversifier is mapped to, multiplied by a key; there is
/// none where the hash of the diversifier is zero.
pub open spec fn pk_d_spec(d: nat, dk: nat) -> Option<(nat, nat)> {
    let d_hash = poseidon_spec(2, 8, 53, SEED_DIVERSIFIER@, seq![d]);
    if d_hash == 0 {
        None
    } else {
        Some(edwards_mul_spec(edwards_from_scalar_spec(d_hash), dk))
    }
}

/// The `x` of the diversified key, and zero where there is no such key.
pub open spec fn pk_d_x_spec(d: nat, dk: nat) -> nat {
    match pk_d_spec(d, dk) {
        Some(p) => p.0,
        None => 0,
    }
}

/// The nullifier of a note.
pub fn nullfifier(note_hash: Num, xsk: Num, params: &PoolBN256) -> (r: Num)
    ensures
        r@ == nullifier_spec(note_hash@, xsk@),
{
    let inputs: [Num; 2] = [note_hash, xsk];
    assert(nums_view(inputs@) =~= seq![note_hash@, xsk@]);
    poseidon_with_salt(inputs.as_slice(), SEED_NULLIFIER, &params.compress())
}

/// The commitment of a note.
pub fn note_hash(note: Note, params: &PoolBN256) -> (r: Num)
    ensures
        r@ == note_hash_spec(note),
{
    let inputs: [Num; 4] = [note.d, note.pk_d, note.v, note.st];
    assert(nums_view(inputs@) =~= seq![note.d@, note.pk_d@, note.v@, note.st@]);
    poseidon_with_salt(inputs.as_slice(), SEED_NOTE_HASH, &params.note())
}

/// The hash of a transaction, of between one and eight commitments in all.
pub fn tx_hash(in_note_hash: &[Num], out_note_hash: &[Num], params: &PoolBN256) -> (r: Num)
    requires
        0 < in_note_hash@.len() + out_note_hash@.len() <= IN + OUT,
    ensures
        r@ == tx_hash_spec(nums_view(in_note_hash@), nums_view(out_note_hash@)),
{
    let mut notes: Vec<Num> = Vec::new();
    let mut i: usize = 0;
    while i < in_note_hash.len()
        invariant
            i <= in_note_hash@.len(),
            notes@ == in_note_hash@.subrange(0, i as int),
        decreases in_note_hash@.len() - i,
    {
        notes.push(in_note_hash[i]);
        assert(notes@ =~= in_note_hash@.subrange(0, i + 1));
        i += 1;
    }
    assert(in_note_hash@.subrange(0, in_note_hash@.len() as int) =~= in_note_hash@);
    let mut j: usize = 0;
    while j < out_note_hash.len()
        invariant
            j <= out_note_hash@.len(),
            notes@ == in_note_hash@ + out_note_hash@.subrange(0, j as int),
        decreases out_note_hash@.len() - j,
    {
        notes.push(out_note_hash[j]);
        assert(notes@ =~= in_note_hash@ + out_note_hash@.subrange(0, j + 1));
        j += 1;
    }
    assert(out_note_hash@.subrange(0, out_note_hash@.len() as int) =~= out_note_hash@);
    assert(nums_view(notes@) =~= nums_view(in_note_hash@) + nums_view(out_note_hash@));
    poseidon_with_salt(notes.as_slice(), SEED_TX_HASH, &params.tx())
}

/// The signature of the hash of a transaction under a spending key: the
/// scalar `s`, then the `x` of the point `R`. The scheme hashes with the
/// permutation of width 4 with 8 full and 53 partial rounds.
pub open spec fn tx_sign_spec(sk: nat, tx_hash: nat) -> (nat, nat) {
    eddsa_sign_spec(4, 8, 53, sk, tx_hash)
}

/// Whether `s` and `r` sign the hash of a transaction for the extended
/// spending key `xsk`.
pub open spec fn tx_verify_spec(s: nat, r: nat, xsk: nat, tx_hash: nat) -> bool {
    eddsa_verify_spec(4, 8, 53, s, r, xsk, tx_hash)
}

/// Signs the hash of a transaction with the spending key.
pub fn tx_sign(sk: Fs, tx_hash: Num, params: &PoolBN256) -> (r: (Fs, Num))
    ensures
        (r.0@, r.1@) == tx_sign_spec(sk@, tx_hash@),
{
    sign(&sk, &tx_hash, &params.eddsa())
}

/// Whether `s` and `r` sign the hash of a transaction for the extended
/// spending key `xsk`.
pub fn tx_verify(s: Fs, r: Num, xsk: Num, tx_hash: Num, params: &PoolBN256) -> (ok: bool)
    ensures
        ok == tx_verify_spec(s@, r@, xsk@, tx_hash@),
{
    verify(&s, &r, &xsk, &tx_hash, &params.eddsa())
}

/// The public point of a spending key; its `x` is the extended spending key.
pub fn derive_key_xsk(sk: Fs, params: &PoolBN256) -> (r: EdwardsPoint)
    ensures
        r@ == edwards_g_mul_spec(sk@),
{
    EdwardsPoint::base_mul(&sk)
}

/// The decryption key of an extended spending key.
pub fn derive_key_dk(xsk: Num, params: &PoolBN256) -> (r: Fs)
    ensures
        r@ == dk_spec(xsk@),
{
    let inputs: [Num; 1] = [xsk];
    assert(nums_view(inputs@) =~= seq![xsk@]);
    let t_dk: Num = poseidon_with_salt(inputs.as_slice(), SEED_DECRYPTION_KEY, &params.hash());
    Fs::from_uint_reduced(&t_dk.to_uint())
}

/// The diversified key of a diversifier and a decryption key: the point
/// whose `x` goes into an address. `None` where the diversifier hashes to
/// zero.
pub fn derive_key_pk_d(d: Num, dk: Fs, params: &PoolBN256) -> (r: Option<EdwardsPoint>)
    ensures
        pk_d_spec(d@, dk@) == match r {
            Some(p) => Some(p@),
            None => None,
        },
{
    let inputs: [Num; 1] = [d];
    assert(nums_view(inputs@) =~= seq![d@]);
    let d_hash: Num = poseidon_with_salt(inputs.as_slice(), SEED_DIVERSIFIER, &params.hash());
    match EdwardsPoint::from_scalar(&d_hash) {
        Some(g_d) => Some(g_d.mul(&dk)),
        None => None,
    }
}

/// 2^63.
pub open spec fn pow2_63() -> nat {
    0x8000_0000_0000_0000nat
}

/// The signed amount that the low 64 bits of a delta stand for.
pub open spec fn delta_amount(delta: nat) -> int {
    if delta < pow2_63() {
        delta as int
    } else {
        delta - pow2_64()
    }
}

/// The amount of a delta, as a field element. Only the low 64 bits of the
/// delta count: the amount is what they hold where their sign bit is
/// clear, and that less 2^64 where it is set.
pub fn parse_delta(delta: Num) -> (r: Num)
    ensures
        r@ == delta_amount(delta@ % pow2_64()) % (fr_modulus() as int),
{
    let u: U256 = delta.to_uint();
    let low: u64 = u.l0;
    proof {
        let high = u.l1 as nat + u.l2 as nat * pow2_64() + u.l3 as nat * pow2_128();
        assert(u@ == low as nat + high * pow2_64()) by (nonlinear_arith)
            requires
                u@ == u.l0 as nat + u.l1 as nat * pow2_64() + u.l2 as nat * pow2_128() + u.l3 as nat
                    * pow2_192(),
                high == u.l1 as nat + u.l2 as nat * pow2_64() + u.l3 as nat * pow2_128(),
                low == u.l0,
                pow2_128() == pow2_64() * pow2_64(),
                pow2_192() == pow2_128() * pow2_64(),
        ;
        lemma_mod_multiples_vanish(high as int, low as int, pow2_64() as int);
        lemma_small_mod(low as nat, pow2_64());
        assert(delta@ % pow2_64() == low);
    }
    let amount: Num = Num::from_u64(low);
    if low < 0x8000_0000_0000_0000 {
        proof {
            lemma_small_mod(low as nat, fr_modulus());
        }
        amount
    } else {
        let limit: Option<Num> = Num::new(U256 { l0: 0, l1: 1, l2: 0, l3: 0 });
        amount.sub(&limit.unwrap())
    }
}

/// The delta of a signed amount: its 64 bits in two's complement.
pub fn prepare_delta(delta: i64) -> (r: Num)
    ensures
        r@ < pow2_64(),
        delta_amount(r@) == delta,
{
    if delta >= 0 {
        Num::from_u64(delta as u64)
    } else {
        Num::from_u64(((delta as i128) + 0x1_0000_0000_0000_0000) as u64)
    }
}

/// Bytes of an encrypted note: two keys, the digest of the note, and the
/// note under its mask.
pub const MESSAGE_SIZE: usize = 156;

/// The 32 bytes of the little-endian form of a field element.
pub open spec fn num_bytes(x: nat) -> Seq<u8> {
    uint_of(x).le_bytes()
}

/// The 32 bytes of the little-endian form of a field element.
pub fn num_to_bytes(x: &Num) -> (r: Vec<u8>)
    ensures
        r@ == num_bytes(x@),
        r@ == x.uint().le_bytes(),
        r@.len() == 32,
{
    proof {
        lemma_uint_of_view(x.uint());
        Num::lemma_uint_view(*x);
    }
    x.to_uint().to_le_bytes()
}

/// What every block of the mask is the digest of: the shared secret, then
/// the digest of the note.
pub fn dh_prefix(dh_x: Num, h: &[u8]) -> (r: Vec<u8>)
    ensures
        r@ == num_bytes(dh_x@) + h@,
{
    let mut res: Vec<u8> = num_to_bytes(&dh_x);
    let ghost head = res@;
    let mut i: usize = 0;
    while i < h.len()
        invariant
            i <= h@.len(),
            res@ == head + h@.subrange(0, i as int),
        decreases h@.len() - i,
    {
        res.push(h[i]);
        assert(res@ =~= head + h@.subrange(0, i + 1));
        i += 1;
    }
    assert(h@.subrange(0, h@.len() as int) =~= h@);
    res
}

/// The byte of the mask at a position: the mask is the digests of the
/// prefix followed by 0, by 1, and so on, one after the other.
pub open spec fn mask_byte(prefix: Seq<u8>, i: int) -> u8 {
    keccak256_spec(prefix.push(((i / 32) % 256) as u8))[i % 32]
}

/// The data, each byte combined with the byte of the mask at its position.
pub open spec fn xor_crypt_spec(prefix: Seq<u8>, data: Seq<u8>) -> Seq<u8> {
    Seq::new(data.len(), |i: int| data[i] ^ mask_byte(prefix, i))
}

/// Masking twice gives the data again.
pub proof fn lemma_xor_crypt_involution(prefix: Seq<u8>, data: Seq<u8>)
    ensures
        xor_crypt_spec(prefix, xor_crypt_spec(prefix, data)) == data,
{
    let once = xor_crypt_spec(prefix, data);
    let twice = xor_crypt_spec(prefix, once);
    assert forall|i: int| 0 <= i < data.len() implies twice[i] == data[i] by {
        let a = data[i];
        let m = mask_byte(prefix, i);
        assert((a ^ m) ^ m == a) by (bit_vector);
    }
    assert(twice =~= data);
}

/// Combines data with the mask that a prefix gives.
pub fn xor_crypt(prefix: &[u8], data: &[u8]) -> (r: Vec<u8>)
    ensures
        r@ == xor_crypt_spec(prefix@, data@),
{
    let mut block_input: Vec<u8> = Vec::new();
    let mut c: usize = 0;
    while c < prefix.len()
        invariant
            c <= prefix@.len(),
            block_input@ == prefix@.subrange(0, c as int),
        decreases prefix@.len() - c,
    {
        block_input.push(prefix[c]);
        assert(block_input@ =~= prefix@.subrange(0, c + 1));
        c += 1;
    }
    assert(prefix@.subrange(0, prefix@.len() as int) =~= prefix@);
    let mut out: Vec<u8> = Vec::new();
    let mut i: usize = 0;
    while i < data.len()
        invariant
            i <= data@.len(),
            i % 32 == 0 || i == data@.len(),
            block_input@ == prefix@,
            out@ == xor_crypt_spec(prefix@, data@).subrange(0, i as int),
        decreases data@.len() - i,
    {
        let block: usize = i / 32;
        block_input.push((block % 256) as u8);
        let mask: Vec<u8> = keccak256(block_input.as_slice());
        block_input.pop();
        assert(block_input@ =~= prefix@);
        let ghost start = i;
        let mut j: usize = 0;
        while j < 32 && i < data.len()
            invariant
                j <= 32,
                i == start + j,
                start % 32 == 0,
                i <= data@.len(),
                mask@.len() == 32,
                mask@ == keccak256_spec(prefix@.push(((start / 32) % 256) as u8)),
                out@ == xor_crypt_spec(prefix@, data@).subrange(0, i as int),
            decreases 32 - j,
        {
            out.push(data[i] ^ mask[j]);
            assert(out@ =~= xor_crypt_spec(prefix@, data@).subrange(0, i + 1)) by {
                assert(i as int / 32 == start as int / 32 && i as int % 32 == j);
            }
            i += 1;
            j += 1;
        }
    }
    assert(xor_crypt_spec(prefix@, data@).subrange(0, data@.len() as int) =~= xor_crypt_spec(
        prefix@,
        data@,
    ));
    out
}

/// The note that a payload holds for a shared secret: the payload is the
/// digest of the note, then the note under the mask of the secret and the
/// digest. There is none where the digest does not match, or what is under
/// the mask is not a note of 60 bytes.
pub open spec fn open_payload_spec(dh_x: nat, note_data: Seq<u8>) -> Option<Note>
    recommends
        note_data.len() >= 32,
{
    let h = note_data.subrange(0, 32);
    let note_vec = xor_crypt_spec(
        num_bytes(dh_x) + h,
        note_data.subrange(32, note_data.len() as int),
    );
    if keccak256_spec(note_vec) != h || note_vec.len() != NOTE_SIZE {
        None
    } else {
        match Note::decode_spec(note_vec) {
            Ok(note) => Some(note),
            Err(_) => None,
        }
    }
}

/// The payload that holds a note for a shared secret.
pub open spec fn seal_payload_spec(dh_x: nat, note_vec: Seq<u8>) -> Seq<u8> {
    let h = keccak256_spec(note_vec);
    h + xor_crypt_spec(num_bytes(dh_x) + h, note_vec)
}

/// Whoever has the shared secret reads the note: opening the payload that
/// holds a note, with the secret it was sealed with, gives the note. (Every
/// Keccak-256 digest has 32 bytes.)
pub proof fn lemma_open_sealed(dh_x: nat, note: Note)
    requires
        note.d.wf(),
        note.pk_d.wf(),
        note.v.wf(),
        note.st.wf(),
        note.fits(),
        keccak256_spec(note.wire_spec()->Ok_0).len() == 32,
    ensures
        note.wire_spec() is Ok,
        open_payload_spec(dh_x, seal_payload_spec(dh_x, note.wire_spec()->Ok_0)) == Some(note),
{
    note.lemma_wire_exists();
    note.lemma_decode_encode();
    let wire = note.wire_spec()->Ok_0;
    let h = keccak256_spec(wire);
    let payload = seal_payload_spec(dh_x, wire);
    let prefix = num_bytes(dh_x) + h;
    assert(payload.subrange(0, 32) =~= h);
    assert(payload.subrange(32, payload.len() as int) =~= xor_crypt_spec(prefix, wire));
    lemma_xor_crypt_involution(prefix, wire);
}

/// The message that carries a note to its receiver and back to its sender:
/// the key for the receiver, the key for the sender, and the payload. There
/// is none where the transmission key of the note is not the `x` of a point
/// of the subgroup, the note has no wire form, the diversifier hashes to
/// zero, or the sender's key is zero.
pub open spec fn note_encrypt_spec(esk: nat, dk: nat, note: Note) -> Option<Seq<u8>> {
    match (
        edwards_decompress_spec(note.pk_d@),
        note.wire_spec(),
        pk_d_spec(note.d@, esk),
        fs_inverse_spec(dk),
    ) {
        (Some(pk_d), Ok(note_vec), Some(epk), Some(dk_inv)) => {
            let dh = edwards_mul_spec(pk_d, esk);
            let epk2 = edwards_mul_spec(dh, dk_inv);
            Some(num_bytes(epk.0) + num_bytes(epk2.0) + seal_payload_spec(dh.0, note_vec))
        },
        _ => None,
    }
}

/// The bytes of a result, where there are any.
pub open spec fn bytes_option(r: Option<Vec<u8>>) -> Option<Seq<u8>> {
    match r {
        Some(v) => Some(v@),
        None => None,
    }
}

/// Encrypts a note for the owner of its address, with an ephemeral key, and
/// for the sender, whose decryption key is `dk`.
pub fn note_encrypt(esk: Fs, dk: Fs, note: Note, params: &PoolBN256) -> (r: Option<Vec<u8>>)
    ensures
        bytes_option(r) == note_encrypt_spec(esk@, dk@, note),
        r is Some ==> r->0@.len() == MESSAGE_SIZE,
{
    let pk_d: EdwardsPoint = match EdwardsPoint::subgroup_decompress(&note.pk_d) {
        Some(p) => p,
        None => { return None; },
    };
    let dh: EdwardsPoint = pk_d.mul(&esk);
    let note_vec: Vec<u8> = match note.serialize() {
        Ok(v) => v,
        Err(_) => { return None; },
    };
    let note_hash: Vec<u8> = keccak256(note_vec.as_slice());
    let prefix: Vec<u8> = dh_prefix(dh.x(), note_hash.as_slice());
    let mut note_vec_enc: Vec<u8> = xor_crypt(prefix.as_slice(), note_vec.as_slice());
    let epk: EdwardsPoint = match derive_key_pk_d(note.d, esk, params) {
        Some(p) => p,
        None => { return None; },
    };
    let dk_inv: Fs = match dk.inverse() {
        Some(i) => i,
        None => { return None; },
    };
    let epk2: EdwardsPoint = dh.mul(&dk_inv);
    let mut res: Vec<u8> = num_to_bytes(&epk.x());
    let mut second: Vec<u8> = num_to_bytes(&epk2.x());
    let mut digest: Vec<u8> = note_hash;
    res.append(&mut second);
    res.append(&mut digest);
    res.append(&mut note_vec_enc);
    Some(res)
}

/// The note that a payload holds for whoever has the key `dk` for the
/// ephemeral key `epk`.
pub open spec fn note_decrypt_spec(dk: nat, epk: nat, note_data: Seq<u8>) -> Option<Note>
    recommends
        note_data.len() >= 32,
{
    match edwards_decompress_spec(epk) {
        Some(p) => open_payload_spec(edwards_mul_spec(p, dk).0, note_data),
        None => None,
    }
}

/// Reads the note of a payload with a key and an ephemeral key.
pub fn note_decrypt(dk: Fs, epk_x: Num, note_data: &[u8], params: &PoolBN256) -> (r: Option<Note>)
    requires
        note_data@.len() >= 32,
    ensures
        r == note_decrypt_spec(dk@, epk_x@, note_data@),
{
    let epk: EdwardsPoint = match EdwardsPoint::subgroup_decompress(&epk_x) {
        Some(p) => p,
        None => { return None; },
    };
    let dh: EdwardsPoint = epk.mul(&dk);
    let digest: &[u8] = slice_subrange(note_data, 0, 32);
    let prefix: Vec<u8> = dh_prefix(dh.x(), digest);
    let note_vec: Vec<u8> = xor_crypt(
        prefix.as_slice(),
        slice_subrange(note_data, 32, note_data.len()),
    );
    let note_hash: Vec<u8> = keccak256(note_vec.as_slice());
    let mut i: usize = 0;
    while i < 32
        invariant
            i <= 32,
            note_data@.len() >= 32,
            note_hash@.len() == 32,
            note_hash@ == keccak256_spec(note_vec@),
            digest@ == note_data@.subrange(0, 32),
            edwards_decompress_spec(epk_x@) == Some(epk@),
            dh@ == edwards_mul_spec(epk@, dk@),
            note_vec@ == xor_crypt_spec(
                num_bytes(dh@.0) + digest@,
                note_data@.subrange(32, note_data@.len() as int),
            ),
            forall|k: int| 0 <= k < i ==> digest@[k] == note_hash@[k],
        decreases 32 - i,
    {
        if digest[i] != note_hash[i] {
            return None;
        }
        i += 1;
    }
    assert(note_hash@ =~= digest@);
    if note_vec.len() != NOTE_SIZE {
        return None;
    }
    match Note::deserialize(note_vec.as_slice()) {
        Ok(note) => Some(note),
        Err(_) => None,
    }
}

/// The field element that 32 bytes of a message stand for, if they stand
/// for one.
pub open spec fn key_at(msg_data: Seq<u8>, at: int) -> Option<nat> {
    let v = U256::from_le_bytes_spec(msg_data.subrange(at, at + 32));
    if v@ < fr_modulus() {
        Some(v@)
    } else {
        None
    }
}

/// The note that a message holds for its receiver, whose decryption key is `dk`.
pub open spec fn note_decrypt_in_spec(dk: nat, msg_data: Seq<u8>) -> Option<Note> {
    if msg_data.len() != MESSAGE_SIZE {
        None
    } else {
        match key_at(msg_data, 0) {
            Some(epk) => note_decrypt_spec(dk, epk, msg_data.subrange(64, MESSAGE_SIZE as int)),
            None => None,
        }
    }
}

/// The note that a message holds for its sender, whose decryption key is `dk`.
pub open spec fn note_decrypt_out_spec(dk: nat, msg_data: Seq<u8>) -> Option<Note> {
    if msg_data.len() != MESSAGE_SIZE {
        None
    } else {
        match key_at(msg_data, 32) {
            Some(epk) => note_decrypt_spec(dk, epk, msg_data.subrange(64, MESSAGE_SIZE as int)),
            None => None,
        }
    }
}

fn read_key(msg_data: &[u8], at: usize) -> (r: Option<Num>)
    requires
        at + 32 <= msg_data@.len(),
    ensures
        key_at(msg_data@, at as int) == match r {
            Some(k) => Some(k@),
            None => None,
        },
{
    let len: usize = msg_data.len();
    let word: Option<U256> = U256::from_le_bytes(slice_subrange(msg_data, at, at + 32));
    Num::new(word.unwrap())
}

/// Reads a note as its receiver.
pub fn note_decrypt_in(dk: Fs, msg_data: &[u8], params: &PoolBN256) -> (r: Option<Note>)
    ensures
        r == note_decrypt_in_spec(dk@, msg_data@),
{
    if msg_data.len() != MESSAGE_SIZE {
        None
    } else {
        match read_key(msg_data, 0) {
            Some(epk) => note_decrypt(dk, epk, slice_subrange(msg_data, 64, MESSAGE_SIZE), params),
            None => None,
        }
    }
}

/// Reads a note as its sender.
pub fn note_decrypt_out(dk: Fs, msg_data: &[u8], params: &PoolBN256) -> (r: Option<Note>)
    ensures
        r == note_decrypt_out_spec(dk@, msg_data@),
{
    if msg_data.len() != MESSAGE_SIZE {
        None
    } else {
        match read_key(msg_data, 32) {
            Some(epk) => note_decrypt(dk, epk, slice_subrange(msg_data, 64, MESSAGE_SIZE), params),
            None => None,
        }
    }
}

/// The receiver and the sender read the note of a message, where their
/// keys give the secret that the message was made with: where the point
/// with the `x` of the first key, multiplied by the key of the receiver,
/// and the point with the `x` of the second key, multiplied by the key of
/// the sender, have the `x` of the shared secret. (Every coordinate is
/// below the order of the field, and every Keccak-256 digest has 32 bytes.)
pub proof fn lemma_decrypt_encrypt(esk: nat, sender_dk: nat, receiver_dk: nat, note: Note)
    requires
        note.d.wf(),
        note.pk_d.wf(),
        note.v.wf(),
        note.st.wf(),
        note_encrypt_spec(esk, sender_dk, note) is Some,
        keccak256_spec(note.wire_spec()->Ok_0).len() == 32,
        ({
            let dh = edwards_mul_spec(edwards_decompress_spec(note.pk_d@)->0, esk);
            let epk = pk_d_spec(note.d@, esk)->0;
            let epk2 = edwards_mul_spec(dh, fs_inverse_spec(sender_dk)->0);
            &&& epk.0 < fr_modulus()
            &&& epk2.0 < fr_modulus()
            &&& edwards_decompress_spec(epk.0) is Some
            &&& edwards_mul_spec(edwards_decompress_spec(epk.0)->0, receiver_dk).0 == dh.0
            &&& edwards_decompress_spec(epk2.0) is Some
            &&& edwards_mul_spec(edwards_decompress_spec(epk2.0)->0, sender_dk).0 == dh.0
        }),
    ensures
        note_decrypt_in_spec(receiver_dk, note_encrypt_spec(esk, sender_dk, note)->0) == Some(note),
        note_decrypt_out_spec(sender_dk, note_encrypt_spec(esk, sender_dk, note)->0) == Some(note),
{
    let msg = note_encrypt_spec(esk, sender_dk, note)->0;
    let dh = edwards_mul_spec(edwards_decompress_spec(note.pk_d@)->0, esk);
    let epk = pk_d_spec(note.d@, esk)->0;
    let epk2 = edwards_mul_spec(dh, fs_inverse_spec(sender_dk)->0);
    let wire = note.wire_spec()->Ok_0;
    let payload = seal_payload_spec(dh.0, wire);
    note.lemma_wire_exists();
    lemma_open_sealed(dh.0, note);
    lemma_uint_of_small(epk.0);
    lemma_uint_of_small(epk2.0);
    lemma_le_bytes_roundtrip(uint_of(epk.0), msg);
    lemma_le_bytes_roundtrip(uint_of(epk2.0), msg);
    assert(msg == num_bytes(epk.0) + num_bytes(epk2.0) + payload);
    assert(msg.len() == MESSAGE_SIZE);
    assert(msg.subrange(0, 32) =~= num_bytes(epk.0));
    assert(msg.subrange(32, 64) =~= num_bytes(epk2.0));
    assert(msg.subrange(64, MESSAGE_SIZE as int) =~= payload);
}

} // verus!
