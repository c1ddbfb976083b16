//! Account identities and 256-bit unsigned amounts.
//!
//! An amount is held as four 64-bit words, least significant first, which is
//! the layout of `odra::types::U256`. The arithmetic itself is done by that
//! type; the functions at the end of this file hand the words over and state
//! what comes back.

use vstd::prelude::*;

verus! {

/// The identity of an account or of a contract.
#[derive(Clone, Copy, PartialEq, Eq, Structural, Debug, Hash)]
pub struct Address {
    pub id: u64,
}

impl Address {
    /// The identity with the given number.
    pub fn new(id: u64) -> (r: Address)
        ensures
            r.id == id,
    {
        Address { id }
    }
}

/// An unsigned integer of 256 bits.
#[derive(Clone, Copy, PartialEq, Eq, Structural, Debug, Hash)]
pub struct U256 {
    w0: u64,
    w1: u64,
    w2: u64,
    w3: u64,
}

/// The amount of a token.
pub type Balance = U256;

/// 2^64.
pub open spec fn pow2_64() -> nat {
    0x1_0000_0000_0000_0000nat
}

/// 2^128.
pub open spec fn pow2_128() -> nat {
    0x1_0000_0000_0000_0000_0000_0000_0000_0000nat
}

/// 2^192.
pub open spec fn pow2_192() -> nat {
    0x1_0000_0000_0000_0000_0000_0000_0000_0000_0000_0000_0000_0000nat
}

/// The largest value that a `U256` holds, 2^256 - 1.
pub open spec fn u256_max() -> nat {
    0xffff_ffff_ffff_ffff_ffff_ffff_ffff_ffff_ffff_ffff_ffff_ffff_ffff_ffff_ffff_ffffnat
}

/// The number that four 64-bit words spell, least significant first.
pub open spec fn words_value(w0: u64, w1: u64, w2: u64, w3: u64) -> nat {
    (w0 + w1 * pow2_64() + w2 * pow2_128() + w3 * pow2_192()) as nat
}

impl View for U256 {
    type V = nat;

    /// The number that the four words spell.
    closed spec fn view(&self) -> nat {
        words_value(self.w0, self.w1, self.w2, self.w3)
    }
}

impl U256 {
    /// Every value lies in the range of the type.
    pub proof fn lemma_in_range(self)
        ensures
            self@ <= u256_max(),
    {
    }

    /// Two values that spell the same number are the same value.
    pub proof fn lemma_view_injective(self, other: U256)
        requires
            self@ == other@,
        ensures
            self == other,
    {
        let b: int = 0x1_0000_0000_0000_0000int;
        let k0: int = (other.w1 - self.w1) + (other.w2 - self.w2) * b + (other.w3 - self.w3) * b
            * b;
        assert(self.w0 - other.w0 == b * k0);
        assert(k0 == 0) by {
            if k0 >= 1 {
                assert(b * k0 >= b);
            } else if k0 <= -1 {
                assert(b * k0 <= -b);
            }
        }
        let k1: int = (other.w2 - self.w2) + (other.w3 - self.w3) * b;
        assert(self.w1 - other.w1 == b * k1);
        assert(k1 == 0) by {
            if k1 >= 1 {
                assert(b * k1 >= b);
            } else if k1 <= -1 {
                assert(b * k1 <= -b);
            }
        }
        let k2: int = other.w3 - self.w3;
        assert(self.w2 - other.w2 == b * k2);
    }

    /// The value that spells `n`, for `n` in the range of the type.
    pub closed spec fn from_nat(n: nat) -> U256 {
        let q1 = n / pow2_64();
        let q2 = q1 / pow2_64();
        let q3 = q2 / pow2_64();
        U256 {
            w0: (n % pow2_64()) as u64,
            w1: (q1 % pow2_64()) as u64,
            w2: (q2 % pow2_64()) as u64,
            w3: (q3 % pow2_64()) as u64,
        }
    }

    /// `from_nat` gives the value that spells the number.
    pub proof fn lemma_from_nat(n: nat)
        requires
            n <= u256_max(),
        ensures
            Self::from_nat(n)@ == n,
    {
        let b: nat = 0x1_0000_0000_0000_0000nat;
        let q1 = n / b;
        let q2 = q1 / b;
        let q3 = q2 / b;
        assert(n == b * q1 + n % b);
        assert(q1 == b * q2 + q1 % b);
        assert(q2 == b * q3 + q2 % b);
        assert(q3 < b);
        assert(q3 % b == q3);
        assert(b * q1 == b * (b * q2) + b * (q1 % b)) by (nonlinear_arith)
            requires
                q1 == b * q2 + q1 % b,
        ;
        assert(b * (b * q2) == b * (b * (b * q3)) + b * (b * (q2 % b))) by (nonlinear_arith)
            requires
                q2 == b * q3 + q2 % b,
        ;
        assert(b * (b * (q2 % b)) == (q2 % b) * pow2_128()) by (nonlinear_arith)
            requires
                b == 0x1_0000_0000_0000_0000nat,
                pow2_128() == 0x1_0000_0000_0000_0000_0000_0000_0000_0000nat,
        ;
        assert(b * (b * (b * q3)) == q3 * pow2_192()) by (nonlinear_arith)
            requires
                b == 0x1_0000_0000_0000_0000nat,
                pow2_192() == 0x1_0000_0000_0000_0000_0000_0000_0000_0000_0000_0000_0000_0000nat,
        ;
        assert(b * (q1 % b) == (q1 % b) * pow2_64()) by (nonlinear_arith)
            requires
                b == pow2_64(),
        ;
    }

    /// Every value is the one that `from_nat` gives for its number.
    pub proof fn lemma_from_nat_of_view(self)
        ensures
            Self::from_nat(self@) == self,
    {
        self.lemma_in_range();
        Self::lemma_from_nat(self@);
        Self::from_nat(self@).lemma_view_injective(self);
    }

    /// The value that four 64-bit words spell, least significant first.
    pub fn from_words(w0: u64, w1: u64, w2: u64, w3: u64) -> (r: U256)
        ensures
            r@ == words_value(w0, w1, w2, w3),
    {
        U256 { w0, w1, w2, w3 }
    }

    /// The four 64-bit words of the value, least significant first.
    pub fn to_words(&self) -> (r: (u64, u64, u64, u64))
        ensures
            self@ == words_value(r.0, r.1, r.2, r.3),
    {
        (self.w0, self.w1, self.w2, self.w3)
    }

    /// Zero.
    pub fn zero() -> (r: U256)
        ensures
            r@ == 0,
    {
        U256 { w0: 0, w1: 0, w2: 0, w3: 0 }
    }

    /// The value of a `u128`.
    pub fn from_u128(value: u128) -> (r: U256)
        ensures
            r@ == value,
    {
        let lo: u64 = (value & 0xffff_ffff_ffff_ffff) as u64;
        let hi: u64 = (value >> 64) as u64;
        assert(value == (value & 0xffff_ffff_ffff_ffff) + (value >> 64) * 0x1_0000_0000_0000_0000)
            by (bit_vector);
        assert((value & 0xffff_ffff_ffff_ffff) <= 0xffff_ffff_ffff_ffff) by (bit_vector);
        assert((value >> 64) <= 0xffff_ffff_ffff_ffff) by (bit_vector);
        U256 { w0: lo, w1: hi, w2: 0, w3: 0 }
    }

    /// The largest value, 2^256 - 1.
    pub fn max_value() -> (r: U256)
        ensures
            r@ == u256_max(),
    {
        U256 {
            w0: 0xffff_ffff_ffff_ffff,
            w1: 0xffff_ffff_ffff_ffff,
            w2: 0xffff_ffff_ffff_ffff,
            w3: 0xffff_ffff_ffff_ffff,
        }
    }

    /// Whether the sum of the two values fits in 256 bits.
    pub fn sum_fits(&self, other: &U256) -> (r: bool)
        ensures
            r == (self@ + other@ <= u256_max()),
    {
        proof {
            self.lemma_in_range();
        }
        !u256_lt(u256_sub(U256::max_value(), *self), *other)
    }

    /// Whether the product of the two values fits in 256 bits.
    pub fn product_fits(&self, other: &U256) -> (r: bool)
        ensures
            r == (self@ * other@ <= u256_max()),
    {
        if self.is_zero() {
            assert(self@ * other@ == 0) by (nonlinear_arith)
                requires
                    self@ == 0,
            ;
            true
        } else {
            let most = u256_div(U256::max_value(), *self);
            assert((other@ <= u256_max() / self@) == (self@ * other@ <= u256_max()))
                by (nonlinear_arith)
                requires
                    self@ > 0,
            ;
            !u256_lt(most, *other)
        }
    }

    /// Whether the value is zero.
    pub fn is_zero(&self) -> (r: bool)
        ensures
            r == (self@ == 0),
    {
        self.w0 == 0 && self.w1 == 0 && self.w2 == 0 && self.w3 == 0
    }

    /// Whether two values are the same number.
    pub fn same(&self, other: &U256) -> (r: bool)
        ensures
            r == (self@ == other@),
    {
        proof {
            if self@ == other@ {
                self.lemma_view_injective(*other);
            }
        }
        self.w0 == other.w0 && self.w1 == other.w1 && self.w2 == other.w2 && self.w3 == other.w3
    }
}

/// The sum of two amounts, by the `+` of `odra::types::U256`, which computes
/// the sum of the two numbers and panics when it does not fit in 256 bits.
#[verifier::external_body]
pub(crate) fn u256_add(a: U256, b: U256) -> (r: U256)
    requires
        a@ + b@ <= u256_max(),
    ensures
        r@ == a@ + b@,
{
    let x = odra::types::U256([a.w0, a.w1, a.w2, a.w3]);
    let y = odra::types::U256([b.w0, b.w1, b.w2, b.w3]);
    let z = x + y;
    U256 { w0: z.0[0], w1: z.0[1], w2: z.0[2], w3: z.0[3] }
}

/// The difference of two amounts, by the `-` of `odra::types::U256`, which
/// computes the difference of the two numbers and panics when the second is
/// the larger.
#[verifier::external_body]
pub(crate) fn u256_sub(a: U256, b: U256) -> (r: U256)
    requires
        b@ <= a@,
    ensures
        r@ == a@ - b@,
{
    let x = odra::types::U256([a.w0, a.w1, a.w2, a.w3]);
    let y = odra::types::U256([b.w0, b.w1, b.w2, b.w3]);
    let z = x - y;
    U256 { w0: z.0[0], w1: z.0[1], w2: z.0[2], w3: z.0[3] }
}

/// The product of two amounts, by the `*` of `odra::types::U256`, which
/// computes the product of the two numbers and panics when it does not fit in
/// 256 bits.
#[verifier::external_body]
pub(crate) fn u256_mul(a: U256, b: U256) -> (r: U256)
    requires
        a@ * b@ <= u256_max(),
    ensures
        r@ == a@ * b@,
{
    let x = odra::types::U256([a.w0, a.w1, a.w2, a.w3]);
    let y = odra::types::U256([b.w0, b.w1, b.w2, b.w3]);
    let z = x * y;
    U256 { w0: z.0[0], w1: z.0[1], w2: z.0[2], w3: z.0[3] }
}

/// The quotient of two amounts, by the `/` of `odra::types::U256`, which
/// computes the quotient rounded down and panics when the divisor is zero.
#[verifier::external_body]
pub(crate) fn u256_div(a: U256, b: U256) -> (r: U256)
    requires
        b@ != 0,
    ensures
        r@ == a@ / b@,
{
    let x = odra::types::U256([a.w0, a.w1, a.w2, a.w3]);
    let y = odra::types::U256([b.w0, b.w1, b.w2, b.w3]);
    let z = x / y;
    U256 { w0: z.0[0], w1: z.0[1], w2: z.0[2], w3: z.0[3] }
}

/// Whether the first amount is the smaller, by the `<` of
/// `odra::types::U256`, which orders values as the numbers they spell.
#[verifier::external_body]
pub(crate) fn u256_lt(a: U256, b: U256) -> (r: bool)
    ensures
        r == (a@ < b@),
{
    let x = odra::types::U256([a.w0, a.w1, a.w2, a.w3]);
    let y = odra::types::U256([b.w0, b.w1, b.w2, b.w3]);
    x < y
}

} // verus!
