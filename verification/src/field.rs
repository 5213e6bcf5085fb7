//! The two prime fields of the pool: `Fr`, the scalar field of BN254, in which
//! notes, hashes and public signals live, and `Fs`, the scalar field of the
//! embedded Edwards curve, in which keys and signatures live.

use crate::uint::{lemma_uint_of_view, limbs_view, pow2_64, uint_of, U256};
use fawkes_crypto::engines::bn256::{Fr, Fs as JubJubFs};
use fawkes_crypto::engines::U256 as Limbs;
use fawkes_crypto::ff_uint::{Num as FieldNum, NumRepr};
use vstd::arithmetic::div_mod::{lemma_mul_mod_noop_general, lemma_small_mod};
use vstd::prelude::*;

verus! {

/// Order of `Fr`.
pub open spec fn fr_modulus() -> nat {
    0x30644e72e131a029b85045b68181585d2833e84879b9709143e1f593f0000001nat
}

/// Order of `Fs`.
pub open spec fn fs_modulus() -> nat {
    0x60c89ce5c263405370a08b6d0302b0bab3eedb83920ee0a677297dc392126f1nat
}

/// Order of `Fq`, the base field of BN254.
pub open spec fn fq_modulus() -> nat {
    0x30644e72e131a029b85045b68181585d97816a916871ca8d3c208c16d87cfd47nat
}

/// The order of `Fr`.
pub fn fr_modulus_uint() -> (r: U256)
    ensures
        r@ == fr_modulus(),
{
    U256 {
        l0: 0x43e1f593f0000001,
        l1: 0x2833e84879b97091,
        l2: 0xb85045b68181585d,
        l3: 0x30644e72e131a029,
    }
}

/// The order of `Fs`.
pub fn fs_modulus_uint() -> (r: U256)
    ensures
        r@ == fs_modulus(),
{
    U256 {
        l0: 0x677297dc392126f1,
        l1: 0xab3eedb83920ee0a,
        l2: 0x370a08b6d0302b0b,
        l3: 0x060c89ce5c263405,
    }
}

/// An element of `Fr`, held as its least non-negative representative.
#[derive(Clone, Copy, Debug, PartialEq, Eq)]
pub struct Num {
    pub(crate) v: U256,
}

impl View for Num {
    type V = nat;

    closed spec fn view(&self) -> nat {
        self.v@
    }
}

impl Num {
    /// The representative, as a 256-bit integer.
    pub closed spec fn uint(self) -> U256 {
        self.v
    }

    /// The element with the given representative.
    pub closed spec fn of_uint(v: U256) -> Num {
        Num { v }
    }

    /// An element is the one that its representative gives.
    pub proof fn lemma_of_uint_uint(self)
        ensures
            Num::of_uint(self.uint()) == self,
    {
    }

    /// The element with a given representative has that representative.
    pub proof fn lemma_of_uint_view(v: U256)
        ensures
            Num::of_uint(v).uint() == v,
            Num::of_uint(v)@ == v@,
    {
    }

    /// The element with the given representative, cut to 256 bits.
    pub open spec fn of_nat(x: nat) -> Num {
        Num::of_uint(uint_of(x))
    }

    /// An element is the one that its representative gives.
    pub proof fn lemma_of_nat(self)
        ensures
            Num::of_nat(self@) == self,
            self.uint() == uint_of(self@),
    {
        lemma_uint_of_view(self.v);
    }

    /// The element that a number below 2^64 gives has that number as its
    /// representative.
    pub proof fn lemma_of_nat_small(x: nat)
        requires
            x < pow2_64(),
        ensures
            Num::of_nat(x)@ == x,
    {
    }

    /// Whether the representative is below the order of the field. Every
    /// value that executable code holds is.
    #[verifier::type_invariant]
    pub open spec fn wf(self) -> bool {
        self@ < fr_modulus()
    }

    /// The representative has the value of the element.
    pub broadcast proof fn lemma_uint_view(self)
        ensures
            #[trigger] self.uint()@ == self@,
    {
    }

    /// Two elements with one representative are one element.
    pub proof fn lemma_view_injective(self, other: Num)
        ensures
            (self@ == other@) <==> (self == other),
    {
        crate::uint::lemma_view_injective(self.v, other.v);
    }

    /// The element with the given representative; `None` where it is not
    /// below the order of the field.
    pub fn new(v: U256) -> (r: Option<Num>)
        ensures
            r is Some <==> v@ < fr_modulus(),
            r is Some ==> r->0.uint() == v && r->0@ == v@ && r->0 == Num::of_uint(v),
    {
        let m: U256 = fr_modulus_uint();
        if v.lt(&m) {
            Some(Num { v })
        } else {
            None
        }
    }

    /// The element whose representative the limbs stand for.
    pub(crate) fn from_limbs(w: &[u64; 4]) -> (r: Num)
        requires
            limbs_view(*w) < fr_modulus(),
        ensures
            r@ == limbs_view(*w),
    {
        Num { v: U256::from_limbs(w) }
    }

    /// The limbs of the representative.
    pub(crate) fn to_limbs(&self) -> (r: [u64; 4])
        ensures
            limbs_view(r) == self@,
            limbs_view(r) < fr_modulus(),
    {
        proof {
            use_type_invariant(self);
        }
        self.v.to_limbs()
    }

    /// Zero.
    pub fn zero() -> (r: Num)
        ensures
            r@ == 0,
    {
        Num { v: U256::zero() }
    }

    /// One.
    pub fn one() -> (r: Num)
        ensures
            r@ == 1,
    {
        Num { v: U256::one() }
    }

    /// The element of a 64-bit integer.
    pub fn from_u64(x: u64) -> (r: Num)
        ensures
            r@ == x,
    {
        Num { v: U256::from_u64(x) }
    }

    /// The representative.
    pub fn to_uint(&self) -> (r: U256)
        ensures
            r == self.uint(),
            r@ == self@,
            r@ < fr_modulus(),
    {
        proof {
            use_type_invariant(self);
        }
        self.v
    }

    /// Whether the element is zero.
    pub fn is_zero(&self) -> (r: bool)
        ensures
            r == (self@ == 0),
    {
        self.v.is_zero()
    }

    /// Equality of elements.
    pub fn same(&self, other: &Num) -> (r: bool)
        ensures
            r == (self@ == other@),
    {
        self.v.same(&other.v)
    }

    /// The element that the low 256 bits of a hash, or any other integer,
    /// reduce to.
    pub fn from_uint_reduced(v: &U256) -> (r: Num)
        ensures
            r@ == v@ % fr_modulus(),
    {
        fr_reduce(v)
    }

    /// The sum of two elements.
    pub fn add(&self, other: &Num) -> (r: Num)
        ensures
            r@ == (self@ + other@) % fr_modulus(),
    {
        fr_add(self, other)
    }

    /// The difference of two elements.
    pub fn sub(&self, other: &Num) -> (r: Num)
        ensures
            r@ == (self@ as int - other@ as int) % (fr_modulus() as int),
    {
        fr_sub(self, other)
    }

    /// The product of two elements.
    pub fn mul(&self, other: &Num) -> (r: Num)
        ensures
            r@ == (self@ * other@) % fr_modulus(),
    {
        fr_mul(self, other)
    }
}

/// Whether `b` is the inverse of `a` for multiplication in `Fs`.
pub open spec fn is_fs_inverse(a: nat, b: nat) -> bool {
    b < fs_modulus() && (b * a) % fs_modulus() == 1
}

/// The inverse for multiplication in `Fs` of an element other than zero.
pub open spec fn fs_inverse_spec(a: nat) -> Option<nat> {
    if a == 0 {
        None
    } else {
        Some(choose|b: nat| is_fs_inverse(a, b))
    }
}

/// An element of `Fs` has at most one inverse.
pub proof fn lemma_fs_inverse_unique(a: nat, b: nat, c: nat)
    requires
        is_fs_inverse(a, b),
        is_fs_inverse(a, c),
    ensures
        b == c,
{
    let p = fs_modulus() as int;
    let ba = (b * a) as int;
    let ca = (c * a) as int;
    assert(b * ca == ba * c) by (nonlinear_arith)
        requires
            ba == b * a,
            ca == c * a,
    ;
    lemma_mul_mod_noop_general(b as int, ca, p);
    lemma_mul_mod_noop_general(ba, c as int, p);
    assert(b * (ca % p) == b) by (nonlinear_arith)
        requires
            ca % p == 1,
    ;
    assert((ba % p) * c == c) by (nonlinear_arith)
        requires
            ba % p == 1,
    ;
    lemma_small_mod(b, fs_modulus());
    lemma_small_mod(c, fs_modulus());
}

/// An element of `Fs`, held as its least non-negative representative.
#[derive(Clone, Copy, Debug, PartialEq, Eq)]
pub struct Fs {
    pub(crate) v: U256,
}

impl View for Fs {
    type V = nat;

    closed spec fn view(&self) -> nat {
        self.v@
    }
}

impl Fs {
    #[verifier::type_invariant]
    closed spec fn inv(self) -> bool {
        self.v@ < fs_modulus()
    }

    /// The representative, as a 256-bit integer.
    pub closed spec fn uint(self) -> U256 {
        self.v
    }

    /// The representative has the value of the element.
    pub broadcast proof fn lemma_uint_view(self)
        ensures
            #[trigger] self.uint()@ == self@,
    {
    }

    /// The element with the given representative; `None` where it is not
    /// below the order of the field.
    pub fn new(v: U256) -> (r: Option<Fs>)
        ensures
            r is Some <==> v@ < fs_modulus(),
            r is Some ==> r->0.uint() == v && r->0@ == v@,
    {
        let m: U256 = fs_modulus_uint();
        if v.lt(&m) {
            Some(Fs { v })
        } else {
            None
        }
    }

    /// The element whose representative the limbs stand for.
    pub(crate) fn from_limbs(w: &[u64; 4]) -> (r: Fs)
        requires
            limbs_view(*w) < fs_modulus(),
        ensures
            r@ == limbs_view(*w),
    {
        Fs { v: U256::from_limbs(w) }
    }

    /// The limbs of the representative.
    pub(crate) fn to_limbs(&self) -> (r: [u64; 4])
        ensures
            limbs_view(r) == self@,
            limbs_view(r) < fs_modulus(),
    {
        proof {
            use_type_invariant(self);
        }
        self.v.to_limbs()
    }

    /// The representative.
    pub fn to_uint(&self) -> (r: U256)
        ensures
            r == self.uint(),
            r@ == self@,
            r@ < fs_modulus(),
    {
        proof {
            use_type_invariant(self);
        }
        self.v
    }

    /// Whether the element is zero.
    pub fn is_zero(&self) -> (r: bool)
        ensures
            r == (self@ == 0),
    {
        self.v.is_zero()
    }

    /// The element that an integer reduces to.
    pub fn from_uint_reduced(v: &U256) -> (r: Fs)
        ensures
            r@ == v@ % fs_modulus(),
    {
        fs_reduce(v)
    }

    /// The inverse for multiplication; zero has none.
    pub fn inverse(&self) -> (r: Option<Fs>)
        ensures
            fs_inverse_spec(self@) == match r {
                Some(i) => Some(i@),
                None => None,
            },
            r is Some <==> self@ != 0,
            r matches Some(i) ==> is_fs_inverse(self@, i@),
    {
        let r = fs_checked_inv(self);
        proof {
            if let Some(i) = r {
                use_type_invariant(&i);
                let chosen = choose|b: nat| is_fs_inverse(self@, b);
                assert(is_fs_inverse(self@, i@));
                lemma_fs_inverse_unique(self@, chosen, i@);
            }
        }
        r
    }
}

/// `Num::from_uint_reduced` of ff-uint on `Fr`: the remainder of the integer
/// by the order of the field.
#[verifier::external_body]
fn fr_reduce(v: &U256) -> (r: Num)
    ensures
        r@ == v@ % fr_modulus(),
{
    let n = FieldNum::<Fr>::from_uint_reduced(NumRepr(Limbs::new([v.l0, v.l1, v.l2, v.l3])));
    let w = n.to_uint().0.0;
    Num { v: U256 { l0: w[0], l1: w[1], l2: w[2], l3: w[3] } }
}

/// `Num::from_uint_reduced` of ff-uint on `Fs`: the remainder of the integer
/// by the order of the field.
#[verifier::external_body]
fn fs_reduce(v: &U256) -> (r: Fs)
    ensures
        r@ == v@ % fs_modulus(),
{
    let n = FieldNum::<JubJubFs>::from_uint_reduced(NumRepr(Limbs::new([v.l0, v.l1, v.l2, v.l3])));
    let w = n.to_uint().0.0;
    Fs { v: U256 { l0: w[0], l1: w[1], l2: w[2], l3: w[3] } }
}

/// Addition of ff-uint's `Num` on `Fr`: the sum modulo the order.
#[verifier::external_body]
fn fr_add(a: &Num, b: &Num) -> (r: Num)
    ensures
        r@ == (a@ + b@) % fr_modulus(),
{
    let x = FieldNum::<Fr>::from_uint_unchecked(NumRepr(Limbs::new([a.v.l0, a.v.l1, a.v.l2, a.v.l3])));
    let y = FieldNum::<Fr>::from_uint_unchecked(NumRepr(Limbs::new([b.v.l0, b.v.l1, b.v.l2, b.v.l3])));
    let w = (x + y).to_uint().0.0;
    Num { v: U256 { l0: w[0], l1: w[1], l2: w[2], l3: w[3] } }
}

/// Subtraction of ff-uint's `Num` on `Fr`: the difference modulo the order.
#[verifier::external_body]
fn fr_sub(a: &Num, b: &Num) -> (r: Num)
    ensures
        r@ == (a@ as int - b@ as int) % (fr_modulus() as int),
{
    let x = FieldNum::<Fr>::from_uint_unchecked(NumRepr(Limbs::new([a.v.l0, a.v.l1, a.v.l2, a.v.l3])));
    let y = FieldNum::<Fr>::from_uint_unchecked(NumRepr(Limbs::new([b.v.l0, b.v.l1, b.v.l2, b.v.l3])));
    let w = (x - y).to_uint().0.0;
    Num { v: U256 { l0: w[0], l1: w[1], l2: w[2], l3: w[3] } }
}

/// Multiplication of ff-uint's `Num` on `Fr`: the product modulo the order.
#[verifier::external_body]
fn fr_mul(a: &Num, b: &Num) -> (r: Num)
    ensures
        r@ == (a@ * b@) % fr_modulus(),
{
    let x = FieldNum::<Fr>::from_uint_unchecked(NumRepr(Limbs::new([a.v.l0, a.v.l1, a.v.l2, a.v.l3])));
    let y = FieldNum::<Fr>::from_uint_unchecked(NumRepr(Limbs::new([b.v.l0, b.v.l1, b.v.l2, b.v.l3])));
    let w = (x * y).to_uint().0.0;
    Num { v: U256 { l0: w[0], l1: w[1], l2: w[2], l3: w[3] } }
}

/// `Num::checked_inv` of ff-uint on `Fs`: the inverse for multiplication, and
/// `None` for zero.
#[verifier::external_body]
fn fs_checked_inv(a: &Fs) -> (r: Option<Fs>)
    ensures
        r is Some <==> a@ != 0,
        r is Some ==> (r->0@ * a@) % fs_modulus() == 1,
{
    let x = FieldNum::<JubJubFs>::from_uint_unchecked(NumRepr(Limbs::new([a.v.l0, a.v.l1, a.v.l2, a.v.l3])));
    let w = x.checked_inv()?.to_uint().0.0;
    Some(Fs { v: U256 { l0: w[0], l1: w[1], l2: w[2], l3: w[3] } })
}

} // verus!
