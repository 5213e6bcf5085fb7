//! The two hash functions of the pool: Keccak-256 on bytes and the Poseidon
//! permutation on field elements, with the parameter sets and salts that
//! separate the uses of the latter.

use crate::field::{fr_modulus, Num};
use crate::uint::U256;
use fawkes_crypto::engines::bn256::Fr;
use fawkes_crypto::engines::U256 as Limbs;
use fawkes_crypto::ff_uint::{Num as FieldNum, NumRepr};
use sha3::Digest;
use vstd::prelude::*;

verus! {

/// Salt of the hash that maps a diversifier to a curve point.
pub const SEED_DIVERSIFIER: &'static str = "diversifier";

/// Salt of the hash that derives the decryption key.
pub const SEED_DECRYPTION_KEY: &'static str = "decryption_key";

/// Salt of the note commitment.
pub const SEED_NOTE_HASH: &'static str = "note_hash";

/// Salt of the transaction hash.
pub const SEED_TX_HASH: &'static str = "tx_hash";

/// Salt of the nullifier.
pub const SEED_NULLIFIER: &'static str = "nullifier";

/// Salt of the inner nodes of the Merkle tree and of the signature: none.
pub const SEED_NONE: &'static str = "";

/// The Keccak-256 digest of a byte string.
pub uninterp spec fn keccak256_spec(data: Seq<u8>) -> Seq<u8>;

/// `Keccak256::digest` of sha3: the 32 bytes of the Keccak-256 digest.
#[verifier::external_body]
pub(crate) fn keccak256(data: &[u8]) -> (r: Vec<u8>)
    ensures
        r@ == keccak256_spec(data@),
        r@.len() == 32,
{
    sha3::Keccak256::digest(data).to_vec()
}

/// The field element that binds a message: its digest, read as a
/// little-endian integer and reduced into `Fr`.
pub open spec fn memo_spec(message: Seq<u8>) -> nat {
    U256::from_le_bytes_spec(keccak256_spec(message))@ % fr_modulus()
}

/// The field element that binds a message.
pub fn memo_hash(message: &[u8]) -> (r: Num)
    ensures
        r@ == memo_spec(message@),
{
    let digest: Vec<u8> = keccak256(message);
    let word: Option<U256> = U256::from_le_bytes(digest.as_slice());
    Num::from_uint_reduced(&word.unwrap())
}

/// Width, full rounds and partial rounds of one Poseidon permutation.
#[derive(Clone, Copy, Debug, PartialEq, Eq, Structural)]
pub struct PoseidonParams {
    pub t: usize,
    pub f: usize,
    pub p: usize,
}

/// The representatives of a sequence of field elements.
pub open spec fn nums_view(s: Seq<Num>) -> Seq<nat> {
    s.map_values(|n: Num| n@)
}

/// The first word of the state after the Poseidon permutation of width `t`
/// with `f` full and `p` partial rounds, its constants drawn for `salt`, on
/// the inputs followed by zeros.
pub uninterp spec fn poseidon_spec(t: nat, f: nat, p: nat, salt: Seq<char>, inputs: Seq<nat>) -> nat;

/// The permutations that the pool uses, by width, rounds and salt.
pub open spec fn is_pool_permutation(t: nat, f: nat, p: nat, salt: Seq<char>) -> bool {
    ||| (t == 2 && f == 8 && p == 53 && salt == SEED_DIVERSIFIER@)
    ||| (t == 2 && f == 8 && p == 53 && salt == SEED_DECRYPTION_KEY@)
    ||| (t == 3 && f == 8 && p == 53 && salt == SEED_NONE@)
    ||| (t == 3 && f == 8 && p == 53 && salt == SEED_NULLIFIER@)
    ||| (t == 5 && f == 8 && p == 54 && salt == SEED_NOTE_HASH@)
    ||| (t == 9 && f == 8 && p == 54 && salt == SEED_TX_HASH@)
}

/// `PoseidonParams::new_with_salt` and `poseidon` of fawkes-crypto: the hash
/// of between one and `t - 1` field elements under the constants that the
/// width, the rounds and the salt determine.
#[verifier::external_body]
pub(crate) fn poseidon_with_salt(inputs: &[Num], salt: &str, params: &PoseidonParams) -> (r: Num)
    requires
        is_pool_permutation(params.t as nat, params.f as nat, params.p as nat, salt@),
        0 < inputs@.len() < params.t,
    ensures
        r@ == poseidon_spec(
            params.t as nat,
            params.f as nat,
            params.p as nat,
            salt@,
            nums_view(inputs@),
        ),
{
    let v: Vec<FieldNum<Fr>> = inputs.iter().map(
        |x| FieldNum::from_uint_unchecked(NumRepr(Limbs::new([x.v.l0, x.v.l1, x.v.l2, x.v.l3]))),
    ).collect();
    let c = fawkes_crypto::native::poseidon::PoseidonParams::<Fr>::new_with_salt(
        params.t, params.f, params.p, salt);
    let w = fawkes_crypto::native::poseidon::poseidon(&v, &c).to_uint().0.0;
    Num { v: U256 { l0: w[0], l1: w[1], l2: w[2], l3: w[3] } }
}

} // verus!
