//! Ceiling division, the arithmetic behind chunk and frame counts.

use vstd::prelude::*;
use vstd::arithmetic::div_mod::*;

verus! {

broadcast use
    vstd::arithmetic::div_mod::lemma_mod_bound,
    vstd::arithmetic::div_mod::lemma_div_pos_is_pos;

/// Ceiling of `a / b`.
pub open spec fn spec_ceil_div(a: int, b: int) -> int {
    (a + b - 1) / b
}

/// The ceiling of a division equals the whole quotient, plus one when
/// anything remains.
pub proof fn lemma_ceil_div_parts(a: int, b: int)
    requires
        0 <= a,
        0 < b,
    ensures
        spec_ceil_div(a, b) == a / b + if a % b == 0 {
            0int
        } else {
            1int
        },
{
    lemma_fundamental_div_mod(a, b);
    let q = a / b;
    let m = a % b;
    if m == 0 {
        assert(a + b - 1 == b * q + (b - 1));
        lemma_div_multiples_vanish_fancy(q, b - 1, b);
    } else {
        assert(b * (q + 1) == b * q + b) by (nonlinear_arith);
        assert(a + b - 1 == b * (q + 1) + (m - 1));
        lemma_div_multiples_vanish_fancy(q + 1, m - 1, b);
    }
}

/// A ceiling quotient never exceeds the dividend, and a nonempty
/// dividend needs at least one part.
pub proof fn lemma_ceil_div_bounds(a: int, b: int)
    requires
        0 <= a,
        0 < b,
    ensures
        0 <= spec_ceil_div(a, b) <= a,
        a >= 1 ==> spec_ceil_div(a, b) >= 1,
{
    lemma_ceil_div_parts(a, b);
    if a >= 1 {
        lemma_div_is_ordered(b, a + b - 1, b);
        lemma_div_by_self(b);
    }
    if a % b == 0 {
        lemma_div_nonincreasing(a, b);
    } else {
        assert(b >= 2) by {
            if b == 1 {
                lemma_fundamental_div_mod(a, 1);
            }
        }
        if a >= 2 {
            lemma_div_is_ordered_by_denominator(a, 2, b);
            lemma_fundamental_div_mod(a, 2);
        } else {
            lemma_fundamental_div_mod(a, b);
        }
    }
}

/// Exec ceiling division, computed as quotient plus carry so the
/// numerator cannot overflow.
pub fn ceil_div_usize(a: usize, b: usize) -> (r: usize)
    requires
        b >= 1,
    ensures
        r as int == spec_ceil_div(a as int, b as int),
        r <= a,
        a >= 1 ==> r >= 1,
{
    proof {
        lemma_ceil_div_parts(a as int, b as int);
        lemma_ceil_div_bounds(a as int, b as int);
    }
    let q = a / b;
    let m = a % b;
    if m != 0 {
        q + 1
    } else {
        q
    }
}

} // verus!
