//! Field elements and 256-bit integers as the VM stores them.
//!
//! A `Felt` is a residue modulo the VM's prime, held as four 64-bit limbs in
//! little-endian order. A `Uint256` is a logical 256-bit unsigned integer held
//! as two field elements (low and high 128-bit halves). Both are immutable
//! value types; the codec writes them into memory cells and the arithmetic
//! hints compare them and take their bit length.

use vstd::prelude::*;

verus! {

/// The VM's prime: 2^251 + 17 * 2^192 + 1.
pub open spec fn felt_prime() -> nat {
    0x800000000000011000000000000000000000000000000000000000000000001nat
}

/// A field element: a residue modulo `felt_prime()`, as four little-endian
/// 64-bit limbs. `l0` is the least significant limb.
#[derive(Clone, Copy, Debug, PartialEq, Eq, Structural)]
pub struct Felt {
    pub l0: u64,
    pub l1: u64,
    pub l2: u64,
    pub l3: u64,
}

impl Felt {
    /// The numeric value of the four limbs.
    pub open spec fn value(self) -> nat {
        ((self.l3 as nat * 0x10000000000000000nat + self.l2 as nat) * 0x10000000000000000nat + self.l1 as nat)
            * 0x10000000000000000nat + self.l0 as nat
    }

    /// A field element is well formed when its value is a canonical residue.
    pub open spec fn wf(self) -> bool {
        self.value() < felt_prime()
    }

    /// The zero element.
    pub fn zero() -> (r: Felt)
        ensures
            r.value() == 0,
            r.wf(),
    {
        Felt { l0: 0, l1: 0, l2: 0, l3: 0 }
    }

    /// The one element.
    pub fn one() -> (r: Felt)
        ensures
            r.value() == 1,
            r.wf(),
    {
        Felt { l0: 1, l1: 0, l2: 0, l3: 0 }
    }

    /// The field element with a given small value.
    pub fn from_u64(x: u64) -> (r: Felt)
        ensures
            r == (Felt { l0: x, l1: 0, l2: 0, l3: 0 }),
            r.value() == x,
            r.wf(),
    {
        Felt { l0: x, l1: 0, l2: 0, l3: 0 }
    }

    /// The field element with the given limbs, when they form a canonical
    /// residue; `None` when the limbs reach or exceed the prime.
    pub fn from_limbs(l0: u64, l1: u64, l2: u64, l3: u64) -> (r: Option<Felt>)
        ensures
            match r {
                Some(f) => {
                    &&& f == (Felt { l0, l1, l2, l3 })
                    &&& f.wf()
                },
                None => (Felt { l0, l1, l2, l3 }).value() >= felt_prime(),
            },
    {
        let f = Felt { l0, l1, l2, l3 };
        let below = if l3 != 0x800000000000011 {
            l3 < 0x800000000000011
        } else {
            l2 == 0 && l1 == 0 && l0 == 0
        };
        proof {
            lemma_felt_prime_limbs(f);
        }
        if below {
            Some(f)
        } else {
            None
        }
    }

    /// Whether this element's value is at most the other's.
    pub fn le(&self, other: &Felt) -> (r: bool)
        ensures
            r == (self.value() <= other.value()),
    {
        proof {
            lemma_limb_order(*self, *other);
            lemma_limb_order(*other, *self);
        }
        if self.l3 != other.l3 {
            self.l3 < other.l3
        } else if self.l2 != other.l2 {
            self.l2 < other.l2
        } else if self.l1 != other.l1 {
            self.l1 < other.l1
        } else {
            self.l0 <= other.l0
        }
    }

    /// Whether this element's value is strictly greater than the other's.
    pub fn gt(&self, other: &Felt) -> (r: bool)
        ensures
            r == (self.value() > other.value()),
    {
        !self.le(other)
    }

    /// The bit length of this element's value.
    pub fn bits(&self) -> (r: u64)
        ensures
            r == bit_len(self.value()),
    {
        proof {
            lemma_pow2_big();
        }
        if self.l3 != 0 {
            proof {
                let rest = (self.l2 as nat * 0x10000000000000000nat + self.l1 as nat) * 0x10000000000000000nat
                    + self.l0 as nat;
                assert(self.value() == self.l3 as nat * (0x1000000000000000000000000000000000000000000000000nat) + rest);
                assert(rest < 0x1000000000000000000000000000000000000000000000000nat);
                lemma_split_bit_len(self.l3 as nat, 192, rest);
            }
            192 + bits_u64(self.l3)
        } else if self.l2 != 0 {
            proof {
                let rest = self.l1 as nat * 0x10000000000000000nat + self.l0 as nat;
                assert(self.value() == self.l2 as nat * 0x100000000000000000000000000000000nat + rest);
                assert(rest < 0x100000000000000000000000000000000nat);
                lemma_split_bit_len(self.l2 as nat, 128, rest);
            }
            128 + bits_u64(self.l2)
        } else if self.l1 != 0 {
            proof {
                assert(self.value() == self.l1 as nat * 0x10000000000000000nat + self.l0 as nat);
                lemma_split_bit_len(self.l1 as nat, 64, self.l0 as nat);
            }
            64 + bits_u64(self.l1)
        } else {
            proof {
                assert(self.value() == self.l0 as nat);
            }
            bits_u64(self.l0)
        }
    }
}

/// A 256-bit unsigned integer as two field elements: the low and the high
/// 128-bit half, in that order.
#[derive(Clone, Copy, Debug, PartialEq, Eq, Structural)]
pub struct Uint256 {
    pub low: Felt,
    pub high: Felt,
}

impl Uint256 {
    /// The numeric value of the two halves.
    pub open spec fn value(self) -> nat {
        self.high.value() * 0x100000000000000000000000000000000nat + self.low.value()
    }

    /// Both halves fit in 128 bits.
    pub open spec fn wf(self) -> bool {
        &&& self.low.value() < 0x100000000000000000000000000000000nat
        &&& self.high.value() < 0x100000000000000000000000000000000nat
    }

    /// The 256-bit integer with the given low and high 128-bit halves.
    pub fn from_u128_pair(low: u128, high: u128) -> (r: Uint256)
        ensures
            r.value() == high as nat * 0x100000000000000000000000000000000nat + low as nat,
            r.wf(),
            r.low.value() == low,
            r.high.value() == high,
    {
        let lo = Felt {
            l0: (low % 0x10000000000000000) as u64,
            l1: (low / 0x10000000000000000) as u64,
            l2: 0,
            l3: 0,
        };
        let hi = Felt {
            l0: (high % 0x10000000000000000) as u64,
            l1: (high / 0x10000000000000000) as u64,
            l2: 0,
            l3: 0,
        };
        Uint256 { low: lo, high: hi }
    }
}

/// Bit length of a natural number: 0 has bit length 0, and for n > 0 the bit
/// length is one more than that of n / 2.
pub open spec fn bit_len(n: nat) -> nat
    decreases n,
{
    if n == 0 {
        0
    } else {
        1 + bit_len(n / 2)
    }
}

/// Bit length of a 64-bit word.
pub fn bits_u64(x: u64) -> (r: u64)
    ensures
        r == bit_len(x as nat),
        r <= 64,
{
    proof {
        lemma_bit_len_le_64(x as nat);
    }
    let mut v: u64 = x;
    let mut n: u64 = 0;
    while v > 0
        invariant
            bit_len(x as nat) == n + bit_len(v as nat),
            bit_len(x as nat) <= 64,
        decreases v,
    {
        v = v / 2;
        n = n + 1;
    }
    n
}

/// The powers of two at the limb boundaries.
proof fn lemma_pow2_big()
    ensures
        vstd::arithmetic::power2::pow2(64) == 0x10000000000000000nat,
        vstd::arithmetic::power2::pow2(128) == 0x100000000000000000000000000000000nat,
        vstd::arithmetic::power2::pow2(192) == 0x1000000000000000000000000000000000000000000000000nat,
{
    vstd::arithmetic::power2::lemma2_to64_rest();
    vstd::arithmetic::power2::lemma_pow2_adds(64, 64);
    vstd::arithmetic::power2::lemma_pow2_adds(128, 64);
}

/// The bit length of a value below 2^64 is at most 64.
proof fn lemma_bit_len_le_64(n: nat)
    requires
        n < 0x10000000000000000,
    ensures
        bit_len(n) <= 64,
{
    vstd::arithmetic::power2::lemma2_to64_rest();
    lemma_bit_len_bound(n, 64);
}

/// A value below 2^k has bit length at most k.
proof fn lemma_bit_len_bound(n: nat, k: nat)
    requires
        n < vstd::arithmetic::power2::pow2(k),
    ensures
        bit_len(n) <= k,
    decreases k,
{
    if n == 0 {
    } else {
        vstd::arithmetic::power2::lemma2_to64();
        vstd::arithmetic::power2::lemma_pow2_unfold(k);
        lemma_bit_len_bound(n / 2, (k - 1) as nat);
    }
}

/// Splitting off k low bits: for n > 0 and rest below 2^k, the bit length of
/// n * 2^k + rest is k more than the bit length of n.
proof fn lemma_split_bit_len(n: nat, k: nat, rest: nat)
    requires
        n > 0,
        rest < vstd::arithmetic::power2::pow2(k),
    ensures
        bit_len(n * vstd::arithmetic::power2::pow2(k) + rest) == k + bit_len(n),
    decreases k,
{
    vstd::arithmetic::power2::lemma2_to64();
    if k == 0 {
        assert(vstd::arithmetic::power2::pow2(0) == 1);
        assert(rest == 0);
        assert(n * 1 == n);
    } else {
        vstd::arithmetic::power2::lemma_pow2_unfold(k);
        let p1 = vstd::arithmetic::power2::pow2((k - 1) as nat);
        vstd::arithmetic::power2::lemma_pow2_pos((k - 1) as nat);
        assert(vstd::arithmetic::power2::pow2(k) == 2 * p1);
        let m = n * vstd::arithmetic::power2::pow2(k) + rest;
        assert(m == 2 * (n * p1 + rest / 2) + rest % 2) by (nonlinear_arith)
            requires
                m == n * (2 * p1) + rest,
                rest == 2 * (rest / 2) + rest % 2,
        ;
        assert(m > 0) by (nonlinear_arith)
            requires
                n > 0,
                p1 > 0,
                m == 2 * (n * p1 + rest / 2) + rest % 2,
        ;
        assert(m / 2 == n * p1 + rest / 2) by (nonlinear_arith)
            requires
                m == 2 * (n * p1 + rest / 2) + rest % 2,
                rest % 2 < 2,
        ;
        assert(rest / 2 < p1);
        lemma_split_bit_len(n, (k - 1) as nat, rest / 2);
        assert(bit_len(m) == 1 + bit_len(m / 2));
    }
}

/// Place value: a smaller high part outweighs any low part below the base.
proof fn lemma_place(hi_a: nat, lo_a: nat, hi_b: nat, lo_b: nat, base: nat)
    requires
        hi_a < hi_b,
        lo_a < base,
    ensures
        hi_a * base + lo_a < hi_b * base + lo_b,
{
    assert(hi_a * base + lo_a < hi_b * base + lo_b) by (nonlinear_arith)
        requires
            hi_a < hi_b,
            lo_a < base,
    ;
}

/// Limb-wise ordering agrees with numeric ordering: comparing the limbs from
/// most to least significant decides which value is smaller.
proof fn lemma_limb_order(a: Felt, b: Felt)
    ensures
        a.l3 < b.l3 ==> a.value() < b.value(),
        a.l3 == b.l3 && a.l2 < b.l2 ==> a.value() < b.value(),
        a.l3 == b.l3 && a.l2 == b.l2 && a.l1 < b.l1 ==> a.value() < b.value(),
        a.l3 == b.l3 && a.l2 == b.l2 && a.l1 == b.l1 && a.l0 <= b.l0 ==> a.value() <= b.value(),
{
    let t1a = a.l3 as nat * 0x10000000000000000nat + a.l2 as nat;
    let t2a = t1a * 0x10000000000000000nat + a.l1 as nat;
    let t1b = b.l3 as nat * 0x10000000000000000nat + b.l2 as nat;
    let t2b = t1b * 0x10000000000000000nat + b.l1 as nat;
    if a.l3 < b.l3 {
        lemma_place(a.l3 as nat, a.l2 as nat, b.l3 as nat, b.l2 as nat, 0x10000000000000000nat);
        lemma_place(t1a, a.l1 as nat, t1b, b.l1 as nat, 0x10000000000000000nat);
        lemma_place(t2a, a.l0 as nat, t2b, b.l0 as nat, 0x10000000000000000nat);
    } else if a.l3 == b.l3 && a.l2 < b.l2 {
        lemma_place(t1a, a.l1 as nat, t1b, b.l1 as nat, 0x10000000000000000nat);
        lemma_place(t2a, a.l0 as nat, t2b, b.l0 as nat, 0x10000000000000000nat);
    } else if a.l3 == b.l3 && a.l2 == b.l2 && a.l1 < b.l1 {
        lemma_place(t2a, a.l0 as nat, t2b, b.l0 as nat, 0x10000000000000000nat);
    }
}

/// A field element with any limb above the first set has a value of at least
/// 2^64.
pub proof fn lemma_limb_floor(f: Felt)
    requires
        f.l1 != 0 || f.l2 != 0 || f.l3 != 0,
    ensures
        f.value() >= 0x10000000000000000nat,
{
    let t1 = f.l3 as nat * 0x10000000000000000nat + f.l2 as nat;
    let t2 = t1 * 0x10000000000000000nat + f.l1 as nat;
    assert(t2 >= 1);
    assert(t2 * 0x10000000000000000nat >= 0x10000000000000000nat) by (nonlinear_arith)
        requires
            t2 >= 1,
    ;
}

/// The prime's limb decomposition: the limb test in `from_limbs` decides
/// whether the value is below the prime.
proof fn lemma_felt_prime_limbs(f: Felt)
    ensures
        f.value() < felt_prime() <==> (f.l3 < 0x800000000000011 || (f.l3 == 0x800000000000011
            && f.l2 == 0 && f.l1 == 0 && f.l0 == 0)),
{
    let p = Felt { l0: 1, l1: 0, l2: 0, l3: 0x800000000000011 };
    assert(p.value() == felt_prime());
    lemma_limb_order(f, p);
    lemma_limb_order(p, f);
}

} // verus!
