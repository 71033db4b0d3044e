//! Field elements.
//!
//! Every value the circuit commits to is an element of a prime field; the
//! engine represents one as a reduced residue below a fixed 64-bit prime
//! modulus. Quantized integers are embedded with negative values mapped to
//! the upper half of the field.

use vstd::prelude::*;
use vstd::arithmetic::mul::lemma_mul_upper_bound;

verus! {

/// The prime modulus of the scalar field the circuit works over
/// (the 64-bit prime 2^64 - 2^32 + 1).
pub const MODULUS: u64 = 0xffff_ffff_0000_0001;

/// One field element, kept reduced: `v` is always below [`MODULUS`].
#[derive(Clone, Copy, Debug, PartialEq, Eq, Hash, Structural)]
pub struct Felt {
    pub v: u64,
}

impl View for Felt {
    type V = int;

    open spec fn view(&self) -> int {
        self.v as int
    }
}

/// Sum of two residues, reduced.
pub open spec fn add_mod(a: int, b: int) -> int {
    (a + b) % (MODULUS as int)
}

/// Additive inverse of a reduced residue.
pub open spec fn neg_mod(a: int) -> int
    recommends
        0 <= a < MODULUS,
{
    if a == 0 {
        0
    } else {
        MODULUS - a
    }
}

/// Difference of two reduced residues.
pub open spec fn sub_mod(a: int, b: int) -> int
    recommends
        0 <= b < MODULUS,
{
    (a + neg_mod(b)) % (MODULUS as int)
}

/// Product of two residues, reduced.
pub open spec fn mul_mod(a: int, b: int) -> int {
    (a * b) % (MODULUS as int)
}

/// The residue of any integer, used to state what embedding returns.
pub open spec fn to_field(n: int) -> int {
    n % (MODULUS as int)
}

/// The field embedding of a signed integer of magnitude below the
/// modulus: a negative value lands in the upper half of the field.
pub open spec fn embed_signed(n: int) -> int
    recommends
        -(MODULUS as int) < n < MODULUS,
{
    if n >= 0 {
        n
    } else {
        n + MODULUS
    }
}

/// A residue subtracted from itself vanishes.
pub proof fn lemma_sub_mod_self(x: int)
    requires
        0 <= x < MODULUS,
    ensures
        sub_mod(x, x) == 0,
{
    let m = MODULUS as int;
    vstd::arithmetic::div_mod::lemma_small_mod(0nat, MODULUS as nat);
    vstd::arithmetic::div_mod::lemma_mod_self_0(m);
    if x == 0 {
        assert(sub_mod(x, x) == 0int % m);
    } else {
        assert(sub_mod(x, x) == m % m);
    }
}

impl Felt {
    /// A reduced field element.
    pub open spec fn wf(self) -> bool {
        self.v < MODULUS
    }

    /// The additive identity.
    pub fn zero() -> (r: Felt)
        ensures
            r.wf(),
            r@ == 0,
    {
        Felt { v: 0 }
    }

    /// The multiplicative identity.
    pub fn one() -> (r: Felt)
        ensures
            r.wf(),
            r@ == 1,
    {
        Felt { v: 1 }
    }

    /// Embeds an unsigned machine integer, reducing it.
    pub fn from_u64(x: u64) -> (r: Felt)
        ensures
            r.wf(),
            r@ == to_field(x as int),
    {
        Felt { v: x % MODULUS }
    }

    /// Embeds a signed quantized integer: a negative value lands in the
    /// upper half of the field, as the additive inverse of its magnitude.
    pub fn from_i64(x: i64) -> (r: Felt)
        ensures
            r.wf(),
            r@ == embed_signed(x as int),
    {
        if x >= 0 {
            Felt { v: x as u64 }
        } else {
            let mag: u64 = (-(x as i128)) as u64;
            Felt { v: MODULUS - mag }
        }
    }

    /// Field addition.
    pub fn add(self, rhs: Felt) -> (r: Felt)
        requires
            self.wf(),
            rhs.wf(),
        ensures
            r.wf(),
            r@ == add_mod(self@, rhs@),
    {
        let s: u128 = self.v as u128 + rhs.v as u128;
        let m: u128 = s % (MODULUS as u128);
        Felt { v: m as u64 }
    }

    /// Field negation.
    pub fn neg(self) -> (r: Felt)
        requires
            self.wf(),
        ensures
            r.wf(),
            r@ == neg_mod(self@),
    {
        if self.v == 0 {
            Felt { v: 0 }
        } else {
            Felt { v: MODULUS - self.v }
        }
    }

    /// Field subtraction.
    pub fn sub(self, rhs: Felt) -> (r: Felt)
        requires
            self.wf(),
            rhs.wf(),
        ensures
            r.wf(),
            r@ == sub_mod(self@, rhs@),
    {
        self.add(rhs.neg())
    }

    /// Field multiplication.
    pub fn mul(self, rhs: Felt) -> (r: Felt)
        requires
            self.wf(),
            rhs.wf(),
        ensures
            r.wf(),
            r@ == mul_mod(self@, rhs@),
    {
        let a: u128 = self.v as u128;
        let b: u128 = rhs.v as u128;
        proof {
            lemma_mul_upper_bound(a as int, u64::MAX as int, b as int, u64::MAX as int);
        }
        let p: u128 = a * b;
        let m: u128 = p % (MODULUS as u128);
        Felt { v: m as u64 }
    }
}

} // verus!
