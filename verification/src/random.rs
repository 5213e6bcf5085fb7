//! Random values for salts, diversifiers and ephemeral keys, drawn from a
//! generator of rand.

use crate::field::{fr_modulus, fs_modulus, Fs, Num};
use crate::note::Note;
use crate::uint::{
    lemma_pow2_add, lemma_pow2_values, limbs_view, pow2, pow2_128, pow2_192, pow2_64, U256,
};
use fawkes_crypto::engines::bn256::{Fr, Fs as JubJubFs};
use fawkes_crypto::ff_uint::Num as FieldNum;
use rand::rngs::StdRng;
use rand::Rng;
use vstd::prelude::*;

verus! {

/// The standard generator of rand, as it is.
#[verifier::external_type_specification]
#[verifier::external_body]
pub struct ExStdRng(StdRng);

/// `Rng::gen` of rand: 64 random bits.
#[verifier::external_body]
fn rng_u64(rng: &mut StdRng) -> (r: u64) {
    rng.gen()
}

/// `Rng::gen` of rand for an element of `Fs`, as ff-uint draws one: the
/// limbs of a representative below the order.
#[verifier::external_body]
fn rng_fs(rng: &mut StdRng) -> (r: [u64; 4])
    ensures
        limbs_view(r) < fs_modulus(),
{
    rng.gen::<FieldNum<JubJubFs>>().to_uint().0.0
}

/// `Rng::gen` of rand for an element of `Fr`, as ff-uint draws one: the
/// limbs of a representative below the order.
#[verifier::external_body]
fn rng_fr(rng: &mut StdRng) -> (r: [u64; 4])
    ensures
        limbs_view(r) < fr_modulus(),
{
    rng.gen::<FieldNum<Fr>>().to_uint().0.0
}

/// A random element of `Fs`: whatever is drawn, its representative is
/// below the order of the field.
pub fn random_fs(rng: &mut StdRng) -> (r: Fs)
    ensures
        r@ < fs_modulus(),
{
    Fs::from_limbs(&rng_fs(rng))
}

/// A random element of `Fr`: whatever is drawn, its representative is
/// below the order of the field.
pub fn random_fr(rng: &mut StdRng) -> (r: Num)
    ensures
        r@ < fr_modulus(),
{
    Num::from_limbs(&rng_fr(rng))
}

/// A random integer of at most `bits` bits, for at most 64 bits.
fn rand_bits(rng: &mut StdRng, bits: usize) -> (r: u64)
    requires
        bits <= 64,
    ensures
        r < pow2(bits as nat),
{
    if bits == 0 {
        return 0;
    }
    let mut r: u64 = rng_u64(rng);
    let mut k: usize = 64;
    proof {
        lemma_pow2_values();
    }
    while k > bits
        invariant
            bits <= k <= 64,
            r < pow2(k as nat),
        decreases k,
    {
        r = r / 2;
        k -= 1;
    }
    r
}

/// How many of `bits` bits fall into the limb `i`.
pub open spec fn limb_bits(bits: nat, i: nat) -> nat {
    if bits <= 64 * i {
        0
    } else if bits - 64 * i >= 64 {
        64
    } else {
        (bits - 64 * i) as nat
    }
}

fn limb_width(bits: usize, i: usize) -> (r: usize)
    requires
        bits <= 256,
        i < 4,
    ensures
        r == limb_bits(bits as nat, i as nat),
        r <= 64,
{
    if bits <= 64 * i {
        0
    } else if bits - 64 * i >= 64 {
        64
    } else {
        bits - 64 * i
    }
}

/// A random integer of at most `bits` bits.
pub fn rand_biguint(rng: &mut StdRng, bits: usize) -> (r: U256)
    requires
        0 < bits <= 256,
    ensures
        r@ < pow2(bits as nat),
{
    let l0: u64 = rand_bits(rng, limb_width(bits, 0));
    let l1: u64 = rand_bits(rng, limb_width(bits, 1));
    let l2: u64 = rand_bits(rng, limb_width(bits, 2));
    let l3: u64 = rand_bits(rng, limb_width(bits, 3));
    let r = U256 { l0, l1, l2, l3 };
    proof {
        lemma_pow2_values();
        reveal_with_fuel(pow2, 2);
        let b = bits as nat;
        if b <= 64 {
            assert(l1 == 0 && l2 == 0 && l3 == 0);
        } else if b <= 128 {
            assert(l2 == 0 && l3 == 0);
            lemma_pow2_add(64, (b - 64) as nat);
            assert(l0 as nat + l1 as nat * pow2_64() < pow2_64() * pow2((b - 64) as nat))
                by (nonlinear_arith)
                requires
                    l0 < pow2_64(),
                    l1 < pow2((b - 64) as nat),
            ;
        } else if b <= 192 {
            assert(l3 == 0);
            lemma_pow2_add(128, (b - 128) as nat);
            assert(l0 as nat + l1 as nat * pow2_64() + l2 as nat * pow2_128() < pow2_128() * pow2(
                (b - 128) as nat,
            )) by (nonlinear_arith)
                requires
                    l0 as nat + l1 as nat * pow2_64() < pow2_128(),
                    l2 < pow2((b - 128) as nat),
            ;
        } else {
            lemma_pow2_add(192, (b - 192) as nat);
            assert(l0 as nat + l1 as nat * pow2_64() + l2 as nat * pow2_128() + l3 as nat
                * pow2_192() < pow2_192() * pow2((b - 192) as nat)) by (nonlinear_arith)
                requires
                    l0 as nat + l1 as nat * pow2_64() + l2 as nat * pow2_128() < pow2_192(),
                    l3 < pow2((b - 192) as nat),
            ;
        }
    }
    r
}

impl Note {
    /// A random note: a diversifier and a salt of 80 bits, a value of 32
    /// bits, and any field element as the transmission key.
    pub fn rand(rng: &mut StdRng) -> (r: Note)
        ensures
            r.fits(),
            r.d@ < pow2(80),
            r.v@ < pow2(32),
            r.st@ < pow2(80),
    {
        proof {
            lemma_pow2_values();
        }
        let d: Option<Num> = Num::new(rand_biguint(rng, 80));
        let pk_d: Num = Num::from_uint_reduced(&rand_biguint(rng, 256));
        let v: Option<Num> = Num::new(rand_biguint(rng, 32));
        let st: Option<Num> = Num::new(rand_biguint(rng, 80));
        Note { d: d.unwrap(), pk_d, v: v.unwrap(), st: st.unwrap() }
    }
}

} // verus!
