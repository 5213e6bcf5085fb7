//! 256-bit unsigned integers held as four 64-bit limbs, least significant
//! first, together with their 32-byte little-endian wire form.

use vstd::bytes::{
    lemma_auto_spec_u64_to_from_le_bytes, spec_u64_from_le_bytes, spec_u64_to_le_bytes,
    u64_from_le_bytes, u64_to_le_bytes,
};
use vstd::prelude::*;
use vstd::slice::slice_subrange;

verus! {

/// Number of bytes in the wire form of a 256-bit integer.
pub const NUM_SIZE: usize = 32;

/// 2^64.
pub open spec fn pow2_64() -> nat {
    0x1_0000_0000_0000_0000nat
}

/// 2^80.
pub open spec fn pow2_80() -> nat {
    0x1_0000_0000_0000_0000_0000nat
}

/// 2^128.
pub open spec fn pow2_128() -> nat {
    0x1_0000_0000_0000_0000_0000_0000_0000_0000nat
}

/// 2^192.
pub open spec fn pow2_192() -> nat {
    0x1_0000_0000_0000_0000_0000_0000_0000_0000_0000_0000_0000_0000nat
}

/// A 256-bit unsigned integer.
#[derive(Clone, Copy, Debug, PartialEq, Eq, Structural)]
pub struct U256 {
    pub l0: u64,
    pub l1: u64,
    pub l2: u64,
    pub l3: u64,
}

impl View for U256 {
    type V = nat;

    open spec fn view(&self) -> nat {
        self.l0 as nat + self.l1 as nat * pow2_64() + self.l2 as nat * pow2_128() + self.l3 as nat
            * pow2_192()
    }
}

/// The 256-bit integer with the given value, cut to 256 bits.
pub open spec fn uint_of(x: nat) -> U256 {
    U256 {
        l0: (x % pow2_64()) as u64,
        l1: ((x / pow2_64()) % pow2_64()) as u64,
        l2: ((x / pow2_128()) % pow2_64()) as u64,
        l3: ((x / pow2_192()) % pow2_64()) as u64,
    }
}

/// The 256-bit integer with the value of a 256-bit integer is that integer.
pub proof fn lemma_uint_of_view(a: U256)
    ensures
        uint_of(a@) == a,
{
    let x = a@;
    let lo = a.l0 as nat + a.l1 as nat * pow2_64();
    assert(x == a.l0 as nat + pow2_64() * (a.l1 as nat + a.l2 as nat * pow2_64() + a.l3 as nat
        * pow2_128())) by (nonlinear_arith)
        requires
            x == a.l0 as nat + a.l1 as nat * pow2_64() + a.l2 as nat * pow2_128() + a.l3 as nat
                * pow2_192(),
    ;
    assert(x == lo + pow2_128() * (a.l2 as nat + a.l3 as nat * pow2_64())) by (nonlinear_arith)
        requires
            x == a.l0 as nat + a.l1 as nat * pow2_64() + a.l2 as nat * pow2_128() + a.l3 as nat
                * pow2_192(),
            lo == a.l0 as nat + a.l1 as nat * pow2_64(),
    ;
    assert(lo < pow2_128()) by (nonlinear_arith)
        requires
            lo == a.l0 as nat + a.l1 as nat * pow2_64(),
            a.l0 < pow2_64(),
            a.l1 < pow2_64(),
    ;
    let low192 = lo + a.l2 as nat * pow2_128();
    assert(low192 < pow2_192()) by (nonlinear_arith)
        requires
            low192 == lo + a.l2 as nat * pow2_128(),
            lo < pow2_128(),
            a.l2 < pow2_64(),
    ;
    assert(x == low192 + pow2_192() * a.l3 as nat) by (nonlinear_arith)
        requires
            x == a.l0 as nat + a.l1 as nat * pow2_64() + a.l2 as nat * pow2_128() + a.l3 as nat
                * pow2_192(),
            lo == a.l0 as nat + a.l1 as nat * pow2_64(),
            low192 == lo + a.l2 as nat * pow2_128(),
    ;
    vstd::arithmetic::div_mod::lemma_fundamental_div_mod_converse(
        x as int,
        pow2_64() as int,
        (a.l1 as nat + a.l2 as nat * pow2_64() + a.l3 as nat * pow2_128()) as int,
        a.l0 as int,
    );
    vstd::arithmetic::div_mod::lemma_fundamental_div_mod_converse(
        x as int,
        pow2_128() as int,
        (a.l2 as nat + a.l3 as nat * pow2_64()) as int,
        lo as int,
    );
    vstd::arithmetic::div_mod::lemma_fundamental_div_mod_converse(
        x as int,
        pow2_192() as int,
        a.l3 as int,
        low192 as int,
    );
    vstd::arithmetic::div_mod::lemma_fundamental_div_mod_converse(
        (a.l1 as nat + a.l2 as nat * pow2_64() + a.l3 as nat * pow2_128()) as int,
        pow2_64() as int,
        (a.l2 as nat + a.l3 as nat * pow2_64()) as int,
        a.l1 as int,
    );
    vstd::arithmetic::div_mod::lemma_fundamental_div_mod_converse(
        (a.l2 as nat + a.l3 as nat * pow2_64()) as int,
        pow2_64() as int,
        a.l3 as int,
        a.l2 as int,
    );
}

/// 2^256.
pub open spec fn pow2_256() -> nat {
    0x1_0000_0000_0000_0000_0000_0000_0000_0000_0000_0000_0000_0000_0000_0000_0000_0000nat
}

/// The 256-bit integer with a value below 2^256 has that value.
pub proof fn lemma_uint_of_small(x: nat)
    requires
        x < pow2_256(),
    ensures
        uint_of(x)@ == x,
{
    let q1 = x / pow2_64();
    let q2 = x / pow2_128();
    let q3 = x / pow2_192();
    assert(q1 / pow2_64() == q2 && q2 / pow2_64() == q3) by {
        vstd::arithmetic::div_mod::lemma_div_denominator(
            x as int,
            pow2_64() as int,
            pow2_64() as int,
        );
        vstd::arithmetic::div_mod::lemma_div_denominator(
            x as int,
            pow2_128() as int,
            pow2_64() as int,
        );
    }
    assert(q3 < pow2_64());
    assert(x == q1 * pow2_64() + x % pow2_64());
    assert(q1 == q2 * pow2_64() + q1 % pow2_64());
    assert(q2 == q3 * pow2_64() + q2 % pow2_64());
    assert(x == x % pow2_64() + (q1 % pow2_64()) * pow2_64() + (q2 % pow2_64()) * pow2_128() + q3
        * pow2_192()) by (nonlinear_arith)
        requires
            x == q1 * pow2_64() + x % pow2_64(),
            q1 == q2 * pow2_64() + q1 % pow2_64(),
            q2 == q3 * pow2_64() + q2 % pow2_64(),
    ;
}

/// The integer is determined by its limbs and the limbs by the integer.
pub proof fn lemma_view_injective(a: U256, b: U256)
    ensures
        (a@ == b@) <==> (a == b),
{
    if a@ == b@ {
        assert(a.l3 == b.l3) by (nonlinear_arith)
            requires
                a.l0 as nat + a.l1 as nat * pow2_64() + a.l2 as nat * pow2_128() + a.l3 as nat
                    * pow2_192() == b.l0 as nat + b.l1 as nat * pow2_64() + b.l2 as nat * pow2_128()
                    + b.l3 as nat * pow2_192(),
                a.l0 < pow2_64(),
                a.l1 < pow2_64(),
                a.l2 < pow2_64(),
                b.l0 < pow2_64(),
                b.l1 < pow2_64(),
                b.l2 < pow2_64(),
        ;
        assert(a.l2 == b.l2);
        assert(a.l1 == b.l1);
        assert(a.l0 == b.l0);
    }
}

/// The integer that four limbs stand for, the least significant first.
pub open spec fn limbs_view(w: [u64; 4]) -> nat {
    w[0] as nat + w[1] as nat * pow2_64() + w[2] as nat * pow2_128() + w[3] as nat * pow2_192()
}

impl U256 {
    /// The four limbs, the least significant first.
    pub fn to_limbs(&self) -> (r: [u64; 4])
        ensures
            limbs_view(r) == self@,
    {
        [self.l0, self.l1, self.l2, self.l3]
    }

    /// The integer that four limbs stand for.
    pub fn from_limbs(w: &[u64; 4]) -> (r: U256)
        ensures
            r@ == limbs_view(*w),
    {
        U256 { l0: w[0], l1: w[1], l2: w[2], l3: w[3] }
    }

    /// The 32 bytes of the little-endian wire form.
    pub open spec fn le_bytes(self) -> Seq<u8> {
        spec_u64_to_le_bytes(self.l0) + spec_u64_to_le_bytes(self.l1) + spec_u64_to_le_bytes(
            self.l2,
        ) + spec_u64_to_le_bytes(self.l3)
    }

    /// The integer that 32 little-endian bytes stand for.
    pub open spec fn from_le_bytes_spec(s: Seq<u8>) -> U256
        recommends
            s.len() == 32,
    {
        U256 {
            l0: spec_u64_from_le_bytes(s.subrange(0, 8)),
            l1: spec_u64_from_le_bytes(s.subrange(8, 16)),
            l2: spec_u64_from_le_bytes(s.subrange(16, 24)),
            l3: spec_u64_from_le_bytes(s.subrange(24, 32)),
        }
    }

    /// Zero.
    pub fn zero() -> (r: U256)
        ensures
            r@ == 0,
            r == (U256 { l0: 0, l1: 0, l2: 0, l3: 0 }),
    {
        U256 { l0: 0, l1: 0, l2: 0, l3: 0 }
    }

    /// One.
    pub fn one() -> (r: U256)
        ensures
            r@ == 1,
    {
        U256 { l0: 1, l1: 0, l2: 0, l3: 0 }
    }

    /// The integer of a 64-bit integer.
    pub fn from_u64(x: u64) -> (r: U256)
        ensures
            r@ == x,
            r == (U256 { l0: x, l1: 0, l2: 0, l3: 0 }),
    {
        U256 { l0: x, l1: 0, l2: 0, l3: 0 }
    }

    /// The integer as a `u64`, where it fits in one.
    pub fn to_u64(&self) -> (r: Option<u64>)
        ensures
            r is Some <==> self@ < pow2_64(),
            r is Some ==> r->0 == self@,
    {
        if self.l1 == 0 && self.l2 == 0 && self.l3 == 0 {
            Some(self.l0)
        } else {
            proof {
                lemma_limbs_bound(*self);
            }
            None
        }
    }

    /// Whether the integer is zero.
    pub fn is_zero(&self) -> (r: bool)
        ensures
            r == (self@ == 0),
    {
        proof {
            lemma_limbs_bound(*self);
        }
        self.l0 == 0 && self.l1 == 0 && self.l2 == 0 && self.l3 == 0
    }

    /// Equality of the integers.
    pub fn same(&self, other: &U256) -> (r: bool)
        ensures
            r == (self@ == other@),
            r == (*self == *other),
    {
        proof {
            lemma_view_injective(*self, *other);
        }
        self.l0 == other.l0 && self.l1 == other.l1 && self.l2 == other.l2 && self.l3 == other.l3
    }

    /// Strict order of the integers.
    pub fn lt(&self, other: &U256) -> (r: bool)
        ensures
            r == (self@ < other@),
    {
        proof {
            lemma_order(*self, *other);
        }
        if self.l3 != other.l3 {
            self.l3 < other.l3
        } else if self.l2 != other.l2 {
            self.l2 < other.l2
        } else if self.l1 != other.l1 {
            self.l1 < other.l1
        } else {
            self.l0 < other.l0
        }
    }

    /// The little-endian wire form.
    pub fn to_le_bytes(&self) -> (r: Vec<u8>)
        ensures
            r@ == self.le_bytes(),
            r@.len() == 32,
    {
        let mut out: Vec<u8> = u64_to_le_bytes(self.l0);
        let mut b1: Vec<u8> = u64_to_le_bytes(self.l1);
        let mut b2: Vec<u8> = u64_to_le_bytes(self.l2);
        let mut b3: Vec<u8> = u64_to_le_bytes(self.l3);
        out.append(&mut b1);
        out.append(&mut b2);
        out.append(&mut b3);
        out
    }

    /// Reads the little-endian wire form; `None` unless there are exactly 32 bytes.
    pub fn from_le_bytes(s: &[u8]) -> (r: Option<U256>)
        ensures
            r is Some <==> s@.len() == 32,
            r is Some ==> r->0 == U256::from_le_bytes_spec(s@),
    {
        if s.len() != 32 {
            return None;
        }
        let l0: u64 = u64_from_le_bytes(slice_subrange(s, 0, 8));
        let l1: u64 = u64_from_le_bytes(slice_subrange(s, 8, 16));
        let l2: u64 = u64_from_le_bytes(slice_subrange(s, 16, 24));
        let l3: u64 = u64_from_le_bytes(slice_subrange(s, 24, 32));
        Some(U256 { l0, l1, l2, l3 })
    }
}

/// Bounds that the limbs put on the integer.
pub proof fn lemma_limbs_bound(a: U256)
    ensures
        a@ < pow2_64() <==> (a.l1 == 0 && a.l2 == 0 && a.l3 == 0),
        a@ < pow2_128() <==> (a.l2 == 0 && a.l3 == 0),
        a@ < pow2_192() <==> a.l3 == 0,
        a@ == 0 <==> (a.l0 == 0 && a.l1 == 0 && a.l2 == 0 && a.l3 == 0),
        a@ >= a.l0,
        a@ >= a.l1 as nat * pow2_64(),
        a@ >= a.l2 as nat * pow2_128(),
        a@ >= a.l3 as nat * pow2_192(),
{
    assert(a.l1 as nat * pow2_64() >= 0 && (a.l1 > 0 ==> a.l1 as nat * pow2_64() >= pow2_64()))
        by (nonlinear_arith);
    assert(a.l2 as nat * pow2_128() >= 0 && (a.l2 > 0 ==> a.l2 as nat * pow2_128() >= pow2_128()))
        by (nonlinear_arith);
    assert(a.l3 as nat * pow2_192() >= 0 && (a.l3 > 0 ==> a.l3 as nat * pow2_192() >= pow2_192()))
        by (nonlinear_arith);
    assert(a.l1 as nat * pow2_64() <= (pow2_64() - 1) * pow2_64()) by (nonlinear_arith)
        requires
            a.l1 < pow2_64(),
    ;
    assert(a.l2 as nat * pow2_128() <= (pow2_64() - 1) * pow2_128()) by (nonlinear_arith)
        requires
            a.l2 < pow2_64(),
    ;
}

/// The order of two integers is the order of their highest differing limbs.
pub proof fn lemma_order(a: U256, b: U256)
    ensures
        a@ < b@ <==> (a.l3 < b.l3 || (a.l3 == b.l3 && (a.l2 < b.l2 || (a.l2 == b.l2 && (a.l1
            < b.l1 || (a.l1 == b.l1 && a.l0 < b.l0)))))),
{
    // Each limb contributes less than the weight of the next one.
    assert(a.l0 as nat + a.l1 as nat * pow2_64() < pow2_128() && b.l0 as nat + b.l1 as nat
        * pow2_64() < pow2_128()) by (nonlinear_arith)
        requires
            a.l0 < pow2_64(),
            a.l1 < pow2_64(),
            b.l0 < pow2_64(),
            b.l1 < pow2_64(),
    ;
    assert(a.l0 as nat + a.l1 as nat * pow2_64() + a.l2 as nat * pow2_128() < pow2_192() && b.l0
        as nat + b.l1 as nat * pow2_64() + b.l2 as nat * pow2_128() < pow2_192())
        by (nonlinear_arith)
        requires
            a.l0 as nat + a.l1 as nat * pow2_64() < pow2_128(),
            b.l0 as nat + b.l1 as nat * pow2_64() < pow2_128(),
            a.l2 < pow2_64(),
            b.l2 < pow2_64(),
    ;
    if a.l3 < b.l3 {
        assert(a.l3 as nat * pow2_192() + pow2_192() <= b.l3 as nat * pow2_192())
            by (nonlinear_arith)
            requires
                a.l3 < b.l3,
        ;
    } else if b.l3 < a.l3 {
        assert(b.l3 as nat * pow2_192() + pow2_192() <= a.l3 as nat * pow2_192())
            by (nonlinear_arith)
            requires
                b.l3 < a.l3,
        ;
    } else if a.l2 < b.l2 {
        assert(a.l2 as nat * pow2_128() + pow2_128() <= b.l2 as nat * pow2_128())
            by (nonlinear_arith)
            requires
                a.l2 < b.l2,
        ;
    } else if b.l2 < a.l2 {
        assert(b.l2 as nat * pow2_128() + pow2_128() <= a.l2 as nat * pow2_128())
            by (nonlinear_arith)
            requires
                b.l2 < a.l2,
        ;
    } else if a.l1 < b.l1 {
        assert(a.l1 as nat * pow2_64() + pow2_64() <= b.l1 as nat * pow2_64())
            by (nonlinear_arith)
            requires
                a.l1 < b.l1,
        ;
    } else if b.l1 < a.l1 {
        assert(b.l1 as nat * pow2_64() + pow2_64() <= a.l1 as nat * pow2_64())
            by (nonlinear_arith)
            requires
                b.l1 < a.l1,
        ;
    }
}

/// Writing the wire form and reading it back gives the integer again, and
/// the other way round.
pub proof fn lemma_le_bytes_roundtrip(a: U256, s: Seq<u8>)
    ensures
        a.le_bytes().len() == 32,
        U256::from_le_bytes_spec(a.le_bytes()) == a,
        s.len() == 32 ==> U256::from_le_bytes_spec(s).le_bytes() == s,
{
    lemma_auto_spec_u64_to_from_le_bytes();
    let b = a.le_bytes();
    assert(b.subrange(0, 8) =~= spec_u64_to_le_bytes(a.l0));
    assert(b.subrange(8, 16) =~= spec_u64_to_le_bytes(a.l1));
    assert(b.subrange(16, 24) =~= spec_u64_to_le_bytes(a.l2));
    assert(b.subrange(24, 32) =~= spec_u64_to_le_bytes(a.l3));
    if s.len() == 32 {
        assert(U256::from_le_bytes_spec(s).le_bytes() =~= s.subrange(0, 8) + s.subrange(8, 16)
            + s.subrange(16, 24) + s.subrange(24, 32));
        assert(s.subrange(0, 8) + s.subrange(8, 16) + s.subrange(16, 24) + s.subrange(24, 32)
            =~= s);
    }
}

/// Two to the power of `bits`.
pub open spec fn pow2(bits: nat) -> nat
    decreases bits,
{
    if bits == 0 {
        1
    } else {
        2 * pow2((bits - 1) as nat)
    }
}

/// The power of a sum is the product of the powers.
pub proof fn lemma_pow2_add(a: nat, b: nat)
    ensures
        pow2(a + b) == pow2(a) * pow2(b),
    decreases b,
{
    if b == 0 {
        assert(pow2(a) * 1 == pow2(a));
    } else {
        lemma_pow2_add(a, (b - 1) as nat);
        assert(pow2(a + b) == 2 * pow2((a + b - 1) as nat));
        assert(2 * (pow2(a) * pow2((b - 1) as nat)) == pow2(a) * (2 * pow2((b - 1) as nat)))
            by (nonlinear_arith);
    }
}

/// Some powers of two.
pub proof fn lemma_pow2_values()
    ensures
        pow2(10) == 1024,
        pow2(32) == 0x1_0000_0000nat,
        pow2(63) == 0x8000_0000_0000_0000nat,
        pow2(64) == pow2_64(),
        pow2(80) == pow2_80(),
        pow2(128) == pow2_128(),
        pow2(192) == pow2_192(),
{
    reveal_with_fuel(pow2, 11);
    assert(pow2(10) == 1024);
    assert(pow2(16) == 0x1_0000nat) by {
        lemma_pow2_add(10, 6);
    }
    assert(pow2(32) == 0x1_0000_0000nat) by {
        lemma_pow2_add(16, 16);
    }
    assert(pow2(64) == pow2_64()) by {
        lemma_pow2_add(32, 32);
    }
    assert(pow2(63) == 0x8000_0000_0000_0000nat);
    assert(pow2(80) == pow2_80()) by {
        lemma_pow2_add(64, 16);
    }
    assert(pow2(128) == pow2_128()) by {
        lemma_pow2_add(64, 64);
    }
    assert(pow2(192) == pow2_192()) by {
        lemma_pow2_add(128, 64);
    }
}

} // verus!
