//! The Edwards curve that is embedded in `Fr`, and the signature scheme on
//! it. The curve arithmetic and the signatures are those of fawkes-crypto;
//! this module gives their results names.

use crate::field::{fr_modulus, fs_modulus, Fs, Num};
use crate::hash::PoseidonParams;
use crate::uint::{limbs_view, U256};
use fawkes_crypto::engines::bn256::{Fr, Fs as JubJubFs, JubJubBN256};
use fawkes_crypto::engines::U256 as Limbs;
use fawkes_crypto::ff_uint::{Num as FieldNum, NumRepr};
use fawkes_crypto::native::ecc::{EdwardsPoint as Affine, JubJubParams};
use fawkes_crypto::native::eddsaposeidon::{eddsaposeidon_sign, eddsaposeidon_verify};
use fawkes_crypto::native::poseidon::PoseidonParams as Constants;
use vstd::prelude::*;

verus! {

/// The coefficient `d` of the curve `y^2 - x^2 = 1 + d x^2 y^2`.
pub open spec fn edwards_d() -> nat {
    0x1aee90f15f2189693df072d799fd11fc039b2959ebb7c867d075ca8cf4d7eb8enat
}

/// Whether two reduced coordinates satisfy the equation of the curve.
pub open spec fn on_curve(p: (nat, nat)) -> bool {
    let x2 = p.0 * p.0;
    let y2 = p.1 * p.1;
    &&& p.0 < fr_modulus()
    &&& p.1 < fr_modulus()
    &&& (y2 - x2 - 1 - edwards_d() * x2 * y2) % (fr_modulus() as int) == 0
}

/// The base point of the curve.
pub open spec fn edwards_g() -> (nat, nat) {
    (
        0x2a82a7ff88466d64450d8e3087f67a3e06321b9576fb41715e63bcacf0483283nat,
        0x0c5e89ba360222bd9a0098608f4e2a81b46b649f36e548756e9d4e2ac941045enat,
    )
}

/// The product of a point and a scalar.
pub uninterp spec fn edwards_mul_spec(p: (nat, nat), k: nat) -> (nat, nat);

/// The product of a point and any 256-bit integer.
pub uninterp spec fn edwards_mul_uint_spec(p: (nat, nat), k: nat) -> (nat, nat);

/// The product of the base point and a scalar below the order of `Fs`.
pub open spec fn edwards_g_mul_spec(k: nat) -> (nat, nat) {
    edwards_mul_spec(edwards_g(), k)
}

/// The product of the base point and any 256-bit integer.
pub open spec fn edwards_g_mul_uint_spec(k: nat) -> (nat, nat) {
    edwards_mul_uint_spec(edwards_g(), k)
}

/// The point of the prime-order subgroup with the given `x`, if there is one.
pub uninterp spec fn edwards_decompress_spec(x: nat) -> Option<(nat, nat)>;

/// The point of the prime-order subgroup that a field element other than
/// zero is mapped to.
pub uninterp spec fn edwards_from_scalar_spec(t: nat) -> (nat, nat);

/// The signature of a message under a key, where the scheme hashes with
/// the Poseidon permutation of width `t` with `f` full and `p` partial
/// rounds: the scalar `s`, then the `x` of the point `R`.
pub uninterp spec fn eddsa_sign_spec(t: nat, f: nat, p: nat, sk: nat, m: nat) -> (nat, nat);

/// Whether `s` and `r` sign the message `m` for the key whose public point
/// has the `x`-coordinate `a`, where the scheme hashes with the Poseidon
/// permutation of width `t` with `f` full and `p` partial rounds.
pub uninterp spec fn eddsa_verify_spec(t: nat, f: nat, p: nat, s: nat, r: nat, a: nat, m: nat) -> bool;

/// The permutation that the signatures of the pool hash with.
pub open spec fn is_signature_permutation(c: PoseidonParams) -> bool {
    c.t == 4 && c.f == 8 && c.p == 53
}

/// The base point satisfies the equation of the curve.
pub proof fn lemma_generator_on_curve()
    ensures
        on_curve(edwards_g()),
{
    let x = edwards_g().0 as int;
    let y = edwards_g().1 as int;
    let d = edwards_d() as int;
    let m = fr_modulus() as int;
    let x2 = 0x70f21cee67ce648a8103be0215e4113d4d825538d02bd0e76b9e78f8e781b0b4be9dbb8af4e6b7354a2a88d11a67bab5329f2bd138a7053120dbb1a13a76f09int;
    let y2 = 0x98ffd2e3e8b214195b77bdecf2e8b54f35bb0235c8a097baacf1a66292ac7eeca1d1407764de6dd7f3f3c9e6c1f6194dc16d13bd5bb1366981e036d3cf1284int;
    let x2y2 = 0x43809f6388312644032710d424f0fe79b8c15590a465cc873c0f98ff94530c816207b0ce34649557475f8a236466b3c2e0da3392048e67941246ca4f2f1cd977f4072767aba5964ef042ee38c63bcb0f734194e61d616fde9e83e31269a36d6d66faf16f8e701de6f41a1ebf63fd11af7a39ded6e2ded59877fa11b6ae2a4int;
    let dx2y2 = 0x719f7fc493137d96819a9eabd2a2acdb8c4a57f28db65433e74638be7975c5581311c63d0fadd272a1a9696762c512cad9b534057f451d0f4b4a03e83ed408c3247a187d388cc9cf31ae947a2434a7a0291fac0af3858b4a13113df79aa7255952d60dda41d87131e3f41ff24918451b516892d72b229500d2384b6773103561835938f968b721fbe36278ef76b9a4858ca4d6f64d00f3fef000fb1242f8int;
    let q = 0x259153c24abd68b4151b04302a37843f4cb13542599036c783d9b3056ac2df71ebb55450e23f7726861a02bdb2a350d8931a6ede173d04cdaacfa3be7b16338df4e44b75b3f2e15844d3b238ced82f12bec3cfe184d9c0a7a0011b676bf46a88bc36e211f8bb553f317d4ebd2fd3afe49c265d1f388499c33aa041aea9f7eint;
    assert(x * x == x2) by (nonlinear_arith)
        requires
            x == 0x2a82a7ff88466d64450d8e3087f67a3e06321b9576fb41715e63bcacf0483283int,
            x2 == 0x70f21cee67ce648a8103be0215e4113d4d825538d02bd0e76b9e78f8e781b0b4be9dbb8af4e6b7354a2a88d11a67bab5329f2bd138a7053120dbb1a13a76f09int,
    ;
    assert(y * y == y2) by (nonlinear_arith)
        requires
            y == 0xc5e89ba360222bd9a0098608f4e2a81b46b649f36e548756e9d4e2ac941045eint,
            y2 == 0x98ffd2e3e8b214195b77bdecf2e8b54f35bb0235c8a097baacf1a66292ac7eeca1d1407764de6dd7f3f3c9e6c1f6194dc16d13bd5bb1366981e036d3cf1284int,
    ;
    assert(x2 * y2 == x2y2) by (nonlinear_arith)
        requires
            x2 == 0x70f21cee67ce648a8103be0215e4113d4d825538d02bd0e76b9e78f8e781b0b4be9dbb8af4e6b7354a2a88d11a67bab5329f2bd138a7053120dbb1a13a76f09int,
            y2 == 0x98ffd2e3e8b214195b77bdecf2e8b54f35bb0235c8a097baacf1a66292ac7eeca1d1407764de6dd7f3f3c9e6c1f6194dc16d13bd5bb1366981e036d3cf1284int,
            x2y2 == 0x43809f6388312644032710d424f0fe79b8c15590a465cc873c0f98ff94530c816207b0ce34649557475f8a236466b3c2e0da3392048e67941246ca4f2f1cd977f4072767aba5964ef042ee38c63bcb0f734194e61d616fde9e83e31269a36d6d66faf16f8e701de6f41a1ebf63fd11af7a39ded6e2ded59877fa11b6ae2a4int,
    ;
    assert(d * x2y2 == dx2y2) by (nonlinear_arith)
        requires
            d == 0x1aee90f15f2189693df072d799fd11fc039b2959ebb7c867d075ca8cf4d7eb8eint,
            x2y2 == 0x43809f6388312644032710d424f0fe79b8c15590a465cc873c0f98ff94530c816207b0ce34649557475f8a236466b3c2e0da3392048e67941246ca4f2f1cd977f4072767aba5964ef042ee38c63bcb0f734194e61d616fde9e83e31269a36d6d66faf16f8e701de6f41a1ebf63fd11af7a39ded6e2ded59877fa11b6ae2a4int,
            dx2y2 == 0x719f7fc493137d96819a9eabd2a2acdb8c4a57f28db65433e74638be7975c5581311c63d0fadd272a1a9696762c512cad9b534057f451d0f4b4a03e83ed408c3247a187d388cc9cf31ae947a2434a7a0291fac0af3858b4a13113df79aa7255952d60dda41d87131e3f41ff24918451b516892d72b229500d2384b6773103561835938f968b721fbe36278ef76b9a4858ca4d6f64d00f3fef000fb1242f8int,
    ;
    assert(q * m == dx2y2 + x2 + 1 - y2) by (nonlinear_arith)
        requires
            q == 0x259153c24abd68b4151b04302a37843f4cb13542599036c783d9b3056ac2df71ebb55450e23f7726861a02bdb2a350d8931a6ede173d04cdaacfa3be7b16338df4e44b75b3f2e15844d3b238ced82f12bec3cfe184d9c0a7a0011b676bf46a88bc36e211f8bb553f317d4ebd2fd3afe49c265d1f388499c33aa041aea9f7eint,
            m == 0x30644e72e131a029b85045b68181585d2833e84879b9709143e1f593f0000001int,
            dx2y2 == 0x719f7fc493137d96819a9eabd2a2acdb8c4a57f28db65433e74638be7975c5581311c63d0fadd272a1a9696762c512cad9b534057f451d0f4b4a03e83ed408c3247a187d388cc9cf31ae947a2434a7a0291fac0af3858b4a13113df79aa7255952d60dda41d87131e3f41ff24918451b516892d72b229500d2384b6773103561835938f968b721fbe36278ef76b9a4858ca4d6f64d00f3fef000fb1242f8int,
            x2 == 0x70f21cee67ce648a8103be0215e4113d4d825538d02bd0e76b9e78f8e781b0b4be9dbb8af4e6b7354a2a88d11a67bab5329f2bd138a7053120dbb1a13a76f09int,
            y2 == 0x98ffd2e3e8b214195b77bdecf2e8b54f35bb0235c8a097baacf1a66292ac7eeca1d1407764de6dd7f3f3c9e6c1f6194dc16d13bd5bb1366981e036d3cf1284int,
    ;
    assert(d * x2 * y2 == d * (x2 * y2)) by (nonlinear_arith);
    assert(y2 - x2 - 1 - d * x2 * y2 == (-q) * m) by (nonlinear_arith)
        requires
            q * m == dx2y2 + x2 + 1 - y2,
            d * x2 * y2 == dx2y2,
    ;
    vstd::arithmetic::div_mod::lemma_mod_multiples_basic(-q, m);
}

/// The coordinates that two quadruples of limbs stand for.
pub open spec fn limbs_point_view(p: [[u64; 4]; 2]) -> (nat, nat) {
    (limbs_view(p[0]), limbs_view(p[1]))
}

/// `JubJubParams::edwards_g` of fawkes-crypto on `JubJubBN256::new`: the
/// base point of the curve.
#[verifier::external_body]
fn jubjub_g() -> (r: [[u64; 4]; 2])
    ensures
        limbs_point_view(r) == edwards_g(),
{
    let j = JubJubBN256::new();
    let g = j.edwards_g();
    [g.x.to_uint().0.0, g.y.to_uint().0.0]
}

/// `EdwardsPointEx::mul` of fawkes-crypto, with the 256 bits of an integer
/// as the scalar: the product of a point of the curve and the integer is a
/// point of the curve.
#[verifier::external_body]
fn jubjub_mul_uint(p: &[[u64; 4]; 2], k: &[u64; 4]) -> (r: [[u64; 4]; 2])
    requires
        on_curve(limbs_point_view(*p)),
    ensures
        limbs_point_view(r) == edwards_mul_uint_spec(limbs_point_view(*p), limbs_view(*k)),
        on_curve(limbs_point_view(r)),
{
    let x = FieldNum::<Fr>::from_uint_unchecked(NumRepr(Limbs::new(p[0])));
    let y = FieldNum::<Fr>::from_uint_unchecked(NumRepr(Limbs::new(p[1])));
    let e = Affine { x, y }.into_extended();
    let q = e.mul(NumRepr(Limbs::new(*k)), &JubJubBN256::new()).into_affine();
    [q.x.to_uint().0.0, q.y.to_uint().0.0]
}

/// `EdwardsPoint::mul` of fawkes-crypto: the product of a point of the curve
/// and a scalar is a point of the curve.
#[verifier::external_body]
fn jubjub_mul(p: &[[u64; 4]; 2], k: &[u64; 4]) -> (r: [[u64; 4]; 2])
    requires
        on_curve(limbs_point_view(*p)),
        limbs_view(*k) < fs_modulus(),
    ensures
        limbs_point_view(r) == edwards_mul_spec(limbs_point_view(*p), limbs_view(*k)),
        on_curve(limbs_point_view(r)),
{
    let x = FieldNum::<Fr>::from_uint_unchecked(NumRepr(Limbs::new(p[0])));
    let y = FieldNum::<Fr>::from_uint_unchecked(NumRepr(Limbs::new(p[1])));
    let s = FieldNum::<JubJubFs>::from_uint_unchecked(NumRepr(Limbs::new(*k)));
    let q = Affine { x, y }.mul(s, &JubJubBN256::new());
    [q.x.to_uint().0.0, q.y.to_uint().0.0]
}

/// The coordinates of a point that the curve library gave, if it gave one.
pub open spec fn limbs_option_view(r: Option<[[u64; 4]; 2]>) -> Option<(nat, nat)> {
    match r {
        Some(p) => Some(limbs_point_view(p)),
        None => None,
    }
}

/// `EdwardsPoint::subgroup_decompress` of fawkes-crypto: a point of the curve
/// with the given `x`, or nothing.
#[verifier::external_body]
fn jubjub_decompress(x: &[u64; 4]) -> (r: Option<[[u64; 4]; 2]>)
    requires
        limbs_view(*x) < fr_modulus(),
    ensures
        limbs_option_view(r) == edwards_decompress_spec(limbs_view(*x)),
        r is Some ==> on_curve(limbs_point_view(r->0)) && limbs_view(r->0[0]) == limbs_view(*x),
{
    let t = FieldNum::<Fr>::from_uint_unchecked(NumRepr(Limbs::new(*x)));
    let q = Affine::subgroup_decompress(t, &JubJubBN256::new())?;
    Some([q.x.to_uint().0.0, q.y.to_uint().0.0])
}

/// `EdwardsPoint::from_scalar` of fawkes-crypto: the point of the curve that
/// a field element other than zero is mapped to.
#[verifier::external_body]
fn jubjub_from_scalar(t: &[u64; 4]) -> (r: [[u64; 4]; 2])
    requires
        0 < limbs_view(*t) < fr_modulus(),
    ensures
        limbs_point_view(r) == edwards_from_scalar_spec(limbs_view(*t)),
        on_curve(limbs_point_view(r)),
{
    let s = FieldNum::<Fr>::from_uint_unchecked(NumRepr(Limbs::new(*t)));
    let q = Affine::from_scalar(s, &JubJubBN256::new());
    [q.x.to_uint().0.0, q.y.to_uint().0.0]
}

/// `eddsaposeidon_sign` of fawkes-crypto, under the Poseidon constants of
/// the given width and rounds: a scalar of `Fs` and an element of `Fr`.
#[verifier::external_body]
fn eddsa_sign(sk: &[u64; 4], m: &[u64; 4], c: &PoseidonParams) -> (r: ([u64; 4], [u64; 4]))
    requires
        is_signature_permutation(*c),
        limbs_view(*sk) < fs_modulus(),
        limbs_view(*m) < fr_modulus(),
    ensures
        (limbs_view(r.0), limbs_view(r.1)) == eddsa_sign_spec(
            c.t as nat,
            c.f as nat,
            c.p as nat,
            limbs_view(*sk),
            limbs_view(*m),
        ),
        limbs_view(r.0) < fs_modulus(),
        limbs_view(r.1) < fr_modulus(),
{
    let k = FieldNum::<JubJubFs>::from_uint_unchecked(NumRepr(Limbs::new(*sk)));
    let t = FieldNum::<Fr>::from_uint_unchecked(NumRepr(Limbs::new(*m)));
    let h = Constants::<Fr>::new(c.t, c.f, c.p);
    let (s, r) = eddsaposeidon_sign(k, t, &h, &JubJubBN256::new());
    (s.to_uint().0.0, r.to_uint().0.0)
}

/// `eddsaposeidon_verify` of fawkes-crypto, under the Poseidon constants of
/// the given width and rounds.
#[verifier::external_body]
fn eddsa_verify(s: &[u64; 4], r: &[u64; 4], a: &[u64; 4], m: &[u64; 4], c: &PoseidonParams) -> (ok:
    bool)
    requires
        is_signature_permutation(*c),
        limbs_view(*s) < fs_modulus(),
        limbs_view(*r) < fr_modulus(),
        limbs_view(*a) < fr_modulus(),
        limbs_view(*m) < fr_modulus(),
    ensures
        ok == eddsa_verify_spec(
            c.t as nat,
            c.f as nat,
            c.p as nat,
            limbs_view(*s),
            limbs_view(*r),
            limbs_view(*a),
            limbs_view(*m),
        ),
{
    let k = FieldNum::<JubJubFs>::from_uint_unchecked(NumRepr(Limbs::new(*s)));
    let v: Vec<FieldNum<Fr>> = [r, a, m].iter().map(
        |w| FieldNum::from_uint_unchecked(NumRepr(Limbs::new(**w)))).collect();
    let h = Constants::<Fr>::new(c.t, c.f, c.p);
    eddsaposeidon_verify(k, v[0], v[1], v[2], &h, &JubJubBN256::new())
}

/// A point of the curve, by its affine coordinates.
#[derive(Clone, Copy, Debug, PartialEq, Eq)]
pub struct EdwardsPoint {
    x: Num,
    y: Num,
}

impl View for EdwardsPoint {
    type V = (nat, nat);

    closed spec fn view(&self) -> (nat, nat) {
        (self.x@, self.y@)
    }
}

impl EdwardsPoint {
    #[verifier::type_invariant]
    closed spec fn inv(self) -> bool {
        on_curve((self.x@, self.y@))
    }

    fn from_limbs(p: &[[u64; 4]; 2]) -> (r: EdwardsPoint)
        requires
            on_curve(limbs_point_view(*p)),
        ensures
            r@ == limbs_point_view(*p),
    {
        EdwardsPoint { x: Num::from_limbs(&p[0]), y: Num::from_limbs(&p[1]) }
    }

    fn to_limbs(&self) -> (r: [[u64; 4]; 2])
        ensures
            limbs_point_view(r) == self@,
            on_curve(limbs_point_view(r)),
    {
        proof {
            use_type_invariant(self);
        }
        [self.x.to_limbs(), self.y.to_limbs()]
    }

    /// The `x`-coordinate.
    pub fn x(&self) -> (r: Num)
        ensures
            r@ == self@.0,
    {
        self.x
    }

    /// The `y`-coordinate.
    pub fn y(&self) -> (r: Num)
        ensures
            r@ == self@.1,
    {
        self.y
    }

    /// The base point of the curve.
    pub fn generator() -> (r: EdwardsPoint)
        ensures
            r@ == edwards_g(),
    {
        let g: [[u64; 4]; 2] = jubjub_g();
        assert(on_curve(edwards_g())) by {
            lemma_generator_on_curve();
        }
        EdwardsPoint::from_limbs(&g)
    }

    /// The product of the base point and a scalar.
    pub fn base_mul(k: &Fs) -> (r: EdwardsPoint)
        ensures
            r@ == edwards_g_mul_spec(k@),
    {
        EdwardsPoint::generator().mul(k)
    }

    /// The product of the point and a 256-bit integer.
    pub fn mul_uint(&self, k: &U256) -> (r: EdwardsPoint)
        ensures
            r@ == edwards_mul_uint_spec(self@, k@),
    {
        EdwardsPoint::from_limbs(&jubjub_mul_uint(&self.to_limbs(), &k.to_limbs()))
    }

    /// The product of the base point and a 256-bit integer.
    pub fn base_mul_uint(k: &U256) -> (r: EdwardsPoint)
        ensures
            r@ == edwards_g_mul_uint_spec(k@),
    {
        EdwardsPoint::generator().mul_uint(k)
    }

    /// The product of the point and a scalar.
    pub fn mul(&self, k: &Fs) -> (r: EdwardsPoint)
        ensures
            r@ == edwards_mul_spec(self@, k@),
    {
        EdwardsPoint::from_limbs(&jubjub_mul(&self.to_limbs(), &k.to_limbs()))
    }

    /// The point of the prime-order subgroup with the given `x`, if there
    /// is one.
    pub fn subgroup_decompress(x: &Num) -> (r: Option<EdwardsPoint>)
        ensures
            edwards_decompress_spec(x@) == match r {
                Some(p) => Some(p@),
                None => None,
            },
            r is Some ==> r->0@.0 == x@,
    {
        match jubjub_decompress(&x.to_limbs()) {
            Some(p) => Some(EdwardsPoint::from_limbs(&p)),
            None => None,
        }
    }

    /// The point that a field element is mapped to; zero is mapped to none.
    pub fn from_scalar(t: &Num) -> (r: Option<EdwardsPoint>)
        ensures
            r is Some <==> t@ != 0,
            r is Some ==> r->0@ == edwards_from_scalar_spec(t@),
    {
        if t.is_zero() {
            None
        } else {
            Some(EdwardsPoint::from_limbs(&jubjub_from_scalar(&t.to_limbs())))
        }
    }
}

/// Signs a message with a key, hashing with the given permutation.
pub(crate) fn sign(sk: &Fs, m: &Num, c: &PoseidonParams) -> (r: (Fs, Num))
    requires
        is_signature_permutation(*c),
    ensures
        (r.0@, r.1@) == eddsa_sign_spec(c.t as nat, c.f as nat, c.p as nat, sk@, m@),
{
    let (s, r) = eddsa_sign(&sk.to_limbs(), &m.to_limbs(), c);
    (Fs::from_limbs(&s), Num::from_limbs(&r))
}

/// Whether `s` and `r` sign the message `m` for the key whose public point
/// has the `x`-coordinate `a`, hashing with the given permutation.
pub(crate) fn verify(s: &Fs, r: &Num, a: &Num, m: &Num, c: &PoseidonParams) -> (ok: bool)
    requires
        is_signature_permutation(*c),
    ensures
        ok == eddsa_verify_spec(c.t as nat, c.f as nat, c.p as nat, s@, r@, a@, m@),
{
    eddsa_verify(&s.to_limbs(), &r.to_limbs(), &a.to_limbs(), &m.to_limbs(), c)
}

} // verus!
