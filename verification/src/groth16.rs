//! Groth16 verification on BN254: the verifying key, the proof, the three
//! curve primitives, and the check that combines them.
//!
//! A point is held by its affine coordinates. The point at infinity has no
//! coordinates, so an operation that meets it yields `None`.

use crate::field::{fq_modulus, fr_modulus};
use crate::uint::{pow2_128, U256};
use vstd::prelude::*;
use zeropool_bn::arith::U256 as Halves;
use zeropool_bn::{pairing_batch, AffineG1, AffineG2, Fq, Fq2, Fr, Group, Gt, G1 as Jacobian1, G2 as Jacobian2};

verus! {

/// A point of the first group: `x`, then `y`.
pub type G1 = [U256; 2];

/// A point of the second group: the two coefficients of `x`, then those of `y`.
pub type G2 = [U256; 4];

/// A Groth16 verifying key.
#[derive(Clone, Debug)]
pub struct VK {
    pub alpha: G1,
    pub beta: G2,
    pub gamma: G2,
    pub delta: G2,
    pub ic: Vec<G1>,
}

/// A Groth16 proof.
#[derive(Clone, Copy, Debug)]
pub struct Proof {
    pub a: G1,
    pub b: G2,
    pub c: G1,
}

/// The coordinates of a point of the first group.
pub open spec fn g1_view(p: G1) -> (nat, nat) {
    (p[0]@, p[1]@)
}

/// The coordinates of a point of the second group.
pub open spec fn g2_view(p: G2) -> (nat, nat, nat, nat) {
    (p[0]@, p[1]@, p[2]@, p[3]@)
}

/// Whether two coordinates are reduced and satisfy `y^2 = x^3 + 3`.
pub open spec fn g1_valid(p: (nat, nat)) -> bool {
    &&& p.0 < fq_modulus()
    &&& p.1 < fq_modulus()
    &&& (p.1 * p.1) % fq_modulus() == (p.0 * p.0 * p.0 + 3) % fq_modulus()
}

/// The inverse of a point: the same `x` and the inverse of `y`.
pub open spec fn g1_neg_spec(p: (nat, nat)) -> Option<(nat, nat)> {
    if g1_valid(p) {
        Some((p.0, ((fq_modulus() - p.1) % (fq_modulus() as int)) as nat))
    } else {
        None
    }
}

/// The sum of the points, each multiplied by its scalar: a point and a
/// scalar are `x`, `y` and the scalar. `None` where a point is not on the
/// curve, a scalar is not reduced, or the sum is the point at infinity.
pub uninterp spec fn g1_multiexp_spec(items: Seq<(nat, nat, nat)>) -> Option<(nat, nat)>;

/// Whether the product of the pairings of the pairs is one. `None` where a
/// point is not on its curve or not in its group.
pub uninterp spec fn pairing_check_spec(pairs: Seq<((nat, nat), (nat, nat, nat, nat))>) -> Option<
    bool,
>;

/// A 256-bit integer as two 128-bit halves, the lower first: the form in
/// which the curve library takes and gives coordinates.
pub type Wide = [u128; 2];

/// The integer that two halves stand for.
pub open spec fn wide_view(w: Wide) -> nat {
    w[0] as nat + w[1] as nat * pow2_128()
}

/// The coordinates of a point that the curve library gave.
pub open spec fn wide_point_view(r: Option<[Wide; 2]>) -> Option<(nat, nat)> {
    match r {
        Some(q) => Some((wide_view(q[0]), wide_view(q[1]))),
        None => None,
    }
}

fn to_wide(a: &U256) -> (r: Wide)
    ensures
        wide_view(r) == a@,
{
    let lo: u128 = (a.l1 as u128) * 0x1_0000_0000_0000_0000 + (a.l0 as u128);
    let hi: u128 = (a.l3 as u128) * 0x1_0000_0000_0000_0000 + (a.l2 as u128);
    [lo, hi]
}

fn from_wide(w: &Wide) -> (r: U256)
    ensures
        r@ == wide_view(*w),
{
    let l0: u64 = (w[0] % 0x1_0000_0000_0000_0000) as u64;
    let l1: u64 = (w[0] / 0x1_0000_0000_0000_0000) as u64;
    let l2: u64 = (w[1] % 0x1_0000_0000_0000_0000) as u64;
    let l3: u64 = (w[1] / 0x1_0000_0000_0000_0000) as u64;
    U256 { l0, l1, l2, l3 }
}

/// `AffineG1::new`, negation of `G1` and `AffineG1::from_jacobian` of
/// zeropool-bn: the inverse of a point that is on the curve.
#[verifier::external_body]
fn bn_g1_neg(p: &[Wide; 2]) -> (r: Option<[Wide; 2]>)
    ensures
        wide_point_view(r) == g1_neg_spec((wide_view(p[0]), wide_view(p[1]))),
{
    let x = Fq::from_u256(Halves(p[0])).ok()?;
    let y = Fq::from_u256(Halves(p[1])).ok()?;
    let q = AffineG1::from_jacobian(-Jacobian1::from(AffineG1::new(x, y).ok()?))?;
    Some([q.x().into_u256().0, q.y().into_u256().0])
}

/// The coordinates and scalars of a multi-exponentiation, as integers.
pub open spec fn wide_items_view(items: Seq<[Wide; 3]>) -> Seq<(nat, nat, nat)> {
    items.map_values(|e: [Wide; 3]| (wide_view(e[0]), wide_view(e[1]), wide_view(e[2])))
}

/// `G1::multiexp` of zeropool-bn, on points made with `AffineG1::new` and
/// scalars made with `Fr::new`; each item is `x`, `y` and the scalar.
#[verifier::external_body]
fn bn_g1_multiexp(items: &Vec<[Wide; 3]>) -> (r: Option<[Wide; 2]>)
    ensures
        wide_point_view(r) == g1_multiexp_spec(wide_items_view(items@)),
{
    let mut v = Vec::new();
    for e in items.iter() {
        let x = Fq::from_u256(Halves(e[0])).ok()?;
        let y = Fq::from_u256(Halves(e[1])).ok()?;
        v.push((Jacobian1::from(AffineG1::new(x, y).ok()?), Fr::new(Halves(e[2]))?));
    }
    let q = AffineG1::from_jacobian(Jacobian1::multiexp(&v))?;
    Some([q.x().into_u256().0, q.y().into_u256().0])
}

/// The coordinates of the pairs of a pairing check, as integers.
pub open spec fn wide_pairs_view(pairs: Seq<[Wide; 6]>) -> Seq<((nat, nat), (nat, nat, nat, nat))> {
    pairs.map_values(
        |e: [Wide; 6]|
            (
                (wide_view(e[0]), wide_view(e[1])),
                (wide_view(e[2]), wide_view(e[3]), wide_view(e[4]), wide_view(e[5])),
            ),
    )
}

/// `pairing_batch` of zeropool-bn, compared with `Gt::one`, on points made
/// with `AffineG1::new` and `AffineG2::new`; each pair is the two
/// coordinates of the first point, then the four of the second.
#[verifier::external_body]
fn bn_pairing_check(pairs: &Vec<[Wide; 6]>) -> (r: Option<bool>)
    ensures
        r == pairing_check_spec(wide_pairs_view(pairs@)),
{
    let mut v = Vec::new();
    for e in pairs.iter() {
        let c: Vec<Fq> = e.iter().map(|w| Fq::from_u256(Halves(*w)).ok()).collect::<Option<_>>()?;
        let p = AffineG1::new(c[0], c[1]).ok()?;
        let q = AffineG2::new(Fq2::new(c[2], c[3]), Fq2::new(c[4], c[5])).ok()?;
        v.push((Jacobian1::from(p), Jacobian2::from(q)));
    }
    Some(pairing_batch(&v) == Gt::one())
}

/// The inverse of a point of the first group; `None` where the point is not
/// on the curve.
pub fn alt_bn128_g1_neg(p: G1) -> (r: Option<G1>)
    ensures
        g1_neg_spec(g1_view(p)) == match r {
            Some(q) => Some(g1_view(q)),
            None => None,
        },
{
    let w: [Wide; 2] = [to_wide(&p[0]), to_wide(&p[1])];
    match bn_g1_neg(&w) {
        Some(q) => Some([from_wide(&q[0]), from_wide(&q[1])]),
        None => None,
    }
}

/// The points and scalars of a multi-exponentiation, as integers.
pub open spec fn multiexp_items_view(v: Seq<(G1, U256)>) -> Seq<(nat, nat, nat)> {
    v.map_values(|e: (G1, U256)| (e.0[0]@, e.0[1]@, e.1@))
}

/// The sum of the points, each multiplied by its scalar.
pub fn alt_bn128_g1_multiexp(v: &[(G1, U256)]) -> (r: Option<G1>)
    ensures
        g1_multiexp_spec(multiexp_items_view(v@)) == match r {
            Some(q) => Some(g1_view(q)),
            None => None,
        },
{
    let mut items: Vec<[Wide; 3]> = Vec::new();
    let mut i: usize = 0;
    while i < v.len()
        invariant
            i <= v@.len(),
            items@.len() == i,
            forall|k: int|
                0 <= k < i ==> wide_view((#[trigger] items@[k])[0]) == v@[k].0[0]@ && wide_view(
                    items@[k][1],
                ) == v@[k].0[1]@ && wide_view(items@[k][2]) == v@[k].1@,
        decreases v@.len() - i,
    {
        let e: &(G1, U256) = &v[i];
        items.push([to_wide(&e.0[0]), to_wide(&e.0[1]), to_wide(&e.1)]);
        i += 1;
    }
    assert(wide_items_view(items@) =~= multiexp_items_view(v@));
    match bn_g1_multiexp(&items) {
        Some(q) => Some([from_wide(&q[0]), from_wide(&q[1])]),
        None => None,
    }
}

/// The points of a sum with the scalars that stand for their signs: one
/// for a point that is added, and the order of the group less one, which
/// is minus one, for a point that is subtracted.
pub open spec fn sum_items(v: Seq<(bool, G1)>) -> Seq<(nat, nat, nat)> {
    v.map_values(
        |e: (bool, G1)|
            (
                e.1[0]@,
                e.1[1]@,
                if e.0 {
                    (fr_modulus() - 1) as nat
                } else {
                    1nat
                },
            ),
    )
}

/// The sum of the points, each subtracted where its flag is set and added
/// where it is not.
pub fn alt_bn128_g1_sum(v: &[(bool, G1)]) -> (r: Option<G1>)
    ensures
        g1_multiexp_spec(sum_items(v@)) == match r {
            Some(q) => Some(g1_view(q)),
            None => None,
        },
{
    let minus_one: U256 = U256 {
        l0: 0x43e1f593f0000000,
        l1: 0x2833e84879b97091,
        l2: 0xb85045b68181585d,
        l3: 0x30644e72e131a029,
    };
    let mut items: Vec<(G1, U256)> = Vec::new();
    let mut i: usize = 0;
    while i < v.len()
        invariant
            i <= v@.len(),
            minus_one@ == fr_modulus() - 1,
            items@.len() == i,
            forall|k: int|
                0 <= k < i ==> (#[trigger] items@[k]).0 == v@[k].1 && items@[k].1@ == if v@[k].0 {
                    (fr_modulus() - 1) as nat
                } else {
                    1nat
                },
        decreases v@.len() - i,
    {
        let scalar: U256 = if v[i].0 { minus_one } else { U256::one() };
        items.push((v[i].1, scalar));
        i += 1;
    }
    assert(multiexp_items_view(items@) =~= sum_items(v@));
    alt_bn128_g1_multiexp(items.as_slice())
}

/// The coordinates of the pairs of a pairing check, as integers.
pub open spec fn pairs_view(v: Seq<(G1, G2)>) -> Seq<((nat, nat), (nat, nat, nat, nat))> {
    v.map_values(|e: (G1, G2)| (g1_view(e.0), g2_view(e.1)))
}

/// Whether the product of the pairings of the pairs is one; `None` where a
/// point is not on its curve or not in its group.
pub fn alt_bn128_pairing_check(v: &[(G1, G2)]) -> (r: Option<bool>)
    ensures
        r == pairing_check_spec(pairs_view(v@)),
{
    let mut pairs: Vec<[Wide; 6]> = Vec::new();
    let mut i: usize = 0;
    while i < v.len()
        invariant
            i <= v@.len(),
            pairs@.len() == i,
            forall|k: int|
                0 <= k < i ==> {
                    &&& wide_view((#[trigger] pairs@[k])[0]) == v@[k].0[0]@
                    &&& wide_view(pairs@[k][1]) == v@[k].0[1]@
                    &&& wide_view(pairs@[k][2]) == v@[k].1[0]@
                    &&& wide_view(pairs@[k][3]) == v@[k].1[1]@
                    &&& wide_view(pairs@[k][4]) == v@[k].1[2]@
                    &&& wide_view(pairs@[k][5]) == v@[k].1[3]@
                },
        decreases v@.len() - i,
    {
        let e: &(G1, G2) = &v[i];
        pairs.push(
            [
                to_wide(&e.0[0]),
                to_wide(&e.0[1]),
                to_wide(&e.1[0]),
                to_wide(&e.1[1]),
                to_wide(&e.1[2]),
                to_wide(&e.1[3]),
            ],
        );
        i += 1;
    }
    assert(wide_pairs_view(pairs@) =~= pairs_view(v@));
    bn_pairing_check(&pairs)
}

/// The points of the key and the scalars that go with them: one, then the
/// public inputs.
pub open spec fn groth16_acc_expr(ic: Seq<G1>, input: Seq<U256>) -> Seq<(G1, U256)>
    recommends
        ic.len() == input.len() + 1,
{
    Seq::new(
        ic.len(),
        |i: int|
            (
                ic[i],
                if i == 0 {
                    U256 { l0: 1, l1: 0, l2: 0, l3: 0 }
                } else {
                    input[i - 1]
                },
            ),
    )
}

/// The four pairs of the check: the inverse of `a` with `b`, `alpha` with
/// `beta`, the accumulated inputs with `gamma`, and `c` with `delta`.
pub open spec fn groth16_pairing_expr(vk: VK, proof: Proof, neg_a: (nat, nat), acc: (nat, nat)) -> Seq<
    ((nat, nat), (nat, nat, nat, nat)),
> {
    seq![
        (neg_a, g2_view(proof.b)),
        (g1_view(vk.alpha), g2_view(vk.beta)),
        (acc, g2_view(vk.gamma)),
        (g1_view(proof.c), g2_view(vk.delta)),
    ]
}

/// Whether a proof is accepted under a key for the given public inputs: the
/// key has one point more than there are inputs, every point is on its
/// curve, and the product of the four pairings is one.
pub open spec fn groth16_spec(vk: VK, proof: Proof, input: Seq<U256>) -> bool {
    &&& vk.ic@.len() == input.len() + 1
    &&& match (
        g1_neg_spec(g1_view(proof.a)),
        g1_multiexp_spec(multiexp_items_view(groth16_acc_expr(vk.ic@, input))),
    ) {
        (Some(neg_a), Some(acc)) => pairing_check_spec(
            groth16_pairing_expr(vk, proof, neg_a, acc),
        ) == Some(true),
        _ => false,
    }
}

/// Verifies a Groth16 proof against a key and public inputs. The key has
/// one point more than there are inputs: a key of another length is no key
/// for these inputs, and the caller tells that apart before it asks.
pub fn alt_bn128_groth16verify(vk: &VK, proof: &Proof, input: &[U256]) -> (r: bool)
    requires
        vk.ic@.len() == input@.len() + 1,
    ensures
        r == groth16_spec(*vk, *proof, input@),
{
    let neg_a: G1 = match alt_bn128_g1_neg(proof.a) {
        Some(p) => p,
        None => { return false; },
    };
    let mut acc_expr: Vec<(G1, U256)> = Vec::new();
    acc_expr.push((vk.ic[0], U256::one()));
    let mut i: usize = 0;
    while i < input.len()
        invariant
            i <= input@.len(),
            vk.ic@.len() == input@.len() + 1,
            acc_expr@.len() == i + 1,
            forall|k: int|
                0 <= k < i + 1 ==> #[trigger] acc_expr@[k] == groth16_acc_expr(vk.ic@, input@)[k],
        decreases input@.len() - i,
    {
        acc_expr.push((vk.ic[i + 1], input[i]));
        i += 1;
    }
    assert(acc_expr@ =~= groth16_acc_expr(vk.ic@, input@));
    let acc: G1 = match alt_bn128_g1_multiexp(acc_expr.as_slice()) {
        Some(p) => p,
        None => { return false; },
    };
    let pairing_expr: Vec<(G1, G2)> = vec![
        (neg_a, proof.b),
        (vk.alpha, vk.beta),
        (acc, vk.gamma),
        (proof.c, vk.delta),
    ];
    assert(pairs_view(pairing_expr@) =~= groth16_pairing_expr(
        *vk,
        *proof,
        g1_view(neg_a),
        g1_view(acc),
    ));
    match alt_bn128_pairing_check(pairing_expr.as_slice()) {
        Some(ok) => ok,
        None => false,
    }
}

} // verus!
