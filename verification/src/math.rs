//! Integer square root and minimum on 256-bit amounts.

use vstd::prelude::*;
use crate::types::{U256, u256_max, u256_add, u256_div, u256_lt};

verus! {

/// Whether `r` is the square root of `y`, rounded down.
pub open spec fn is_integer_sqrt(y: nat, r: nat) -> bool {
    r * r <= y < (r + 1) * (r + 1)
}

/// The square root of `y`, rounded down.
pub open spec fn integer_sqrt(y: nat) -> nat {
    choose|r: nat| is_integer_sqrt(y, r)
}

/// The smaller of two numbers.
pub open spec fn min_nat(x: nat, y: nat) -> nat {
    if x < y {
        x
    } else {
        y
    }
}

/// At most one number is the rounded-down square root of `y`.
pub proof fn lemma_integer_sqrt_unique(y: nat, r: nat, s: nat)
    requires
        is_integer_sqrt(y, r),
        is_integer_sqrt(y, s),
    ensures
        r == s,
{
    if r < s {
        assert((r + 1) * (r + 1) <= s * s) by (nonlinear_arith)
            requires
                r + 1 <= s,
        ;
    } else if s < r {
        assert((s + 1) * (s + 1) <= r * r) by (nonlinear_arith)
            requires
                s + 1 <= r,
        ;
    }
}

/// A number that squares to at most `y` and whose successor squares to more
/// is the rounded-down square root of `y`.
pub proof fn lemma_integer_sqrt_is(y: nat, r: nat)
    requires
        is_integer_sqrt(y, r),
    ensures
        integer_sqrt(y) == r,
{
    lemma_integer_sqrt_unique(y, r, integer_sqrt(y));
}

/// The square root of a square is its base.
pub proof fn lemma_integer_sqrt_of_square(r: nat)
    ensures
        integer_sqrt(r * r) == r,
{
    assert(r * r < (r + 1) * (r + 1)) by (nonlinear_arith);
    lemma_integer_sqrt_is(r * r, r);
}

/// One step of Newton's method from an estimate that is not too small gives
/// an estimate that is not too small.
proof fn lemma_newton_step_stays_above(y: nat, x: nat)
    requires
        x >= 1,
    ensures
        y < ((y / x + x) / 2 + 1) * ((y / x + x) / 2 + 1),
{
    let q = y / x;
    let z = (q + x) / 2;
    assert(y < (q + 1) * x) by (nonlinear_arith)
        requires
            x >= 1,
            q == y / x,
    ;
    assert(2 * (z + 1) >= q + 1 + x);
    assert(4 * ((q + 1) * x) <= (2 * (z + 1)) * (2 * (z + 1))) by (nonlinear_arith)
        requires
            2 * (z + 1) >= q + 1 + x,
    ;
    assert((2 * (z + 1)) * (2 * (z + 1)) == 4 * ((z + 1) * (z + 1))) by (nonlinear_arith);
}

/// From an estimate whose square exceeds `y`, one step of Newton's method
/// goes down.
proof fn lemma_newton_step_descends(y: nat, x: nat)
    requires
        x >= 1,
        y < x * x,
    ensures
        y / x + x <= 2 * x - 1,
        (y / x + x) / 2 < x,
{
    assert(y / x < x) by (nonlinear_arith)
        requires
            x >= 1,
            y < x * x,
    ;
}

/// The quotient of `y` by an estimate that is not too small exceeds the
/// estimate by at most two.
proof fn lemma_newton_quotient_bound(y: nat, x: nat)
    requires
        x >= 1,
        y < (x + 1) * (x + 1),
    ensures
        y / x <= x + 2,
{
    assert(y / x <= x + 2) by (nonlinear_arith)
        requires
            x >= 1,
            y < (x + 1) * (x + 1),
    ;
}

/// The seed of the iteration, `y / 2 + 1`, is not too small.
proof fn lemma_newton_seed(y: nat)
    ensures
        y < (y / 2 + 1 + 1) * (y / 2 + 1 + 1),
{
    let h = y / 2;
    assert(y <= 2 * h + 1);
    assert((h + 2) * (h + 2) > 2 * h + 1) by (nonlinear_arith);
}

/// The sum that one step of Newton's method forms fits in 256 bits.
proof fn lemma_newton_sum_fits(y: nat, x: nat)
    requires
        y <= u256_max(),
        x >= 1,
        x <= y / 2 + 1,
        y < (x + 1) * (x + 1),
    ensures
        y / x + x <= u256_max(),
{
    if y < x * x {
        lemma_newton_step_descends(y, x);
    } else {
        lemma_newton_quotient_bound(y, x);
        assert(x < 0x1_0000_0000_0000_0000_0000_0000_0000_0000nat) by (nonlinear_arith)
            requires
                x * x <= y,
                y <= u256_max(),
                u256_max()
                    == 0xffff_ffff_ffff_ffff_ffff_ffff_ffff_ffff_ffff_ffff_ffff_ffff_ffff_ffff_ffff_ffffnat,
        ;
    }
}

/// The square root of `y`, rounded down, by Newton's method from the seed
/// `y / 2 + 1`; zero for zero.
pub fn _sqrt(y: U256) -> (r: U256)
    ensures
        is_integer_sqrt(y@, r@),
        r@ == integer_sqrt(y@),
{
    if y.is_zero() {
        let r = U256::zero();
        proof {
            assert(is_integer_sqrt(0, 0)) by (nonlinear_arith);
            lemma_integer_sqrt_is(y@, r@);
        }
        return r;
    }
    let one = U256::from_u128(1);
    let two = U256::from_u128(2);
    proof {
        y.lemma_in_range();
        lemma_newton_seed(y@);
    }
    let mut x = u256_add(u256_div(y, two), one);
    proof {
        lemma_newton_sum_fits(y@, x@);
    }
    let mut z = u256_div(u256_add(u256_div(y, x), x), two);
    while u256_lt(z, x)
        invariant
            1 <= y@ <= u256_max(),
            two@ == 2,
            x@ >= 1,
            x@ <= y@ / 2 + 1,
            y@ < (x@ + 1) * (x@ + 1),
            z@ == (y@ / x@ + x@) / 2,
        decreases x@,
    {
        proof {
            lemma_newton_step_stays_above(y@, x@);
        }
        x = z;
        proof {
            assert(x@ >= 1) by {
                if x@ == 0 {
                    assert((x@ + 1) * (x@ + 1) == 1) by (nonlinear_arith)
                        requires
                            x@ == 0,
                    ;
                }
            }
            lemma_newton_sum_fits(y@, x@);
        }
        z = u256_div(u256_add(u256_div(y, x), x), two);
    }
    proof {
        if y@ < x@ * x@ {
            lemma_newton_step_descends(y@, x@);
        }
        lemma_integer_sqrt_is(y@, x@);
    }
    x
}

/// The smaller of two amounts.
pub fn _min(x: U256, y: U256) -> (r: U256)
    ensures
        r@ == min_nat(x@, y@),
        r == x || r == y,
{
    if u256_lt(x, y) {
        x
    } else {
        y
    }
}

} // verus!
