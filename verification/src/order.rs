//! Betweenness tests on integer coordinates.

use vstd::prelude::*;

verus! {

/// `b` lies strictly between `a` and `c`, whichever of the two is smaller.
pub open spec fn strictly_between(a: int, b: int, c: int) -> bool {
    (a < b && b < c) || (c < b && b < a)
}

/// The four numbers never rise after falling nor fall after rising: they are
/// non-increasing or non-decreasing over their whole length.
pub open spec fn weakly_monotone(a: int, b: int, c: int, d: int) -> bool {
    (a >= b && b >= c && c >= d) || (a <= b && b <= c && c <= d)
}

/// Strict betweenness is the sign test `(a - b) * (b - c) > 0`; it fails as
/// soon as two of the three numbers are equal.
pub proof fn lemma_strictly_between_product(a: int, b: int, c: int)
    ensures
        strictly_between(a, b, c) <==> (a - b) * (b - c) > 0,
        a == b || b == c || a == c ==> !strictly_between(a, b, c),
{
    let s = a - b;
    let t = b - c;
    assert((s * t > 0) <==> ((s > 0 && t > 0) || (s < 0 && t < 0))) by (nonlinear_arith);
}

/// Strict betweenness does not depend on the order of the two ends.
pub proof fn lemma_strictly_between_symmetric(a: int, b: int, c: int)
    ensures
        strictly_between(a, b, c) == strictly_between(c, b, a),
{
}

/// Reading the four numbers backwards keeps them weakly monotone.
pub proof fn lemma_weakly_monotone_reversed(a: int, b: int, c: int, d: int)
    ensures
        weakly_monotone(a, b, c, d) == weakly_monotone(d, c, b, a),
{
}

/// Whether `b` lies strictly between `a` and `c`.
pub fn is_ordered(a: i64, b: i64, c: i64) -> (r: bool)
    ensures
        r == strictly_between(a as int, b as int, c as int),
        r == ((a - b) * (b - c) > 0),
{
    proof {
        lemma_strictly_between_product(a as int, b as int, c as int);
    }
    (a < b && b < c) || (c < b && b < a)
}

/// Whether `a, b, c, d` is non-increasing or non-decreasing, ties allowed.
pub fn is_weak_ordered_4(a: i64, b: i64, c: i64, d: i64) -> (r: bool)
    ensures
        r == weakly_monotone(a as int, b as int, c as int, d as int),
{
    if a >= b && b >= c && c >= d {
        return true;
    }
    if a <= b && b <= c && c <= d {
        return true;
    }
    false
}

} // verus!
