//! Integer helpers shared by the rate and gauge computations.
use vstd::prelude::*;

verus! {

/// The value `v` forced into the range of `i64`.
pub open spec fn sat_i64(v: int) -> int {
    if v > i64::MAX {
        i64::MAX as int
    } else if v < i64::MIN {
        i64::MIN as int
    } else {
        v
    }
}

/// Rounds `a / b` down, for any sign of `a` and a positive `b`.
pub fn floor_div(a: i128, b: i128) -> (r: i128)
    requires
        b > 0,
    ensures
        r == a as int / b as int,
{
    if a >= 0 {
        a / b
    } else {
        let na: i128 = -(a + 1);
        let q: i128 = na / b;
        proof {
            lemma_neg_floor(a as int, b as int);
        }
        -q - 1
    }
}

proof fn lemma_neg_floor(a: int, b: int)
    requires
        a < 0,
        b > 0,
    ensures
        a / b == -((-(a + 1)) / b) - 1,
{
    let na = -(a + 1);
    let q = na / b;
    let r = na % b;
    vstd::arithmetic::div_mod::lemma_fundamental_div_mod(na, b);
    assert(0 <= r < b);
    // a = -(na) - 1 = -(b*q + r) - 1 = b*(-q-1) + (b - 1 - r)
    assert(a == b * (-q - 1) + (b - 1 - r)) by (nonlinear_arith)
        requires
            na == b * q + r,
            na == -(a + 1),
    ;
    vstd::arithmetic::div_mod::lemma_fundamental_div_mod_converse(a, b, -q - 1, b - 1 - r);
}

/// Rounding down by `c` and then by `d` is rounding down by `c * d`.
pub proof fn lemma_floor_div_twice(x: int, c: int, d: int)
    requires
        c > 0,
        d > 0,
    ensures
        c * d > 0,
        (x / c) / d == x / (c * d),
{
    let q1 = x / c;
    let r1 = x % c;
    let q2 = q1 / d;
    let r2 = q1 % d;
    vstd::arithmetic::div_mod::lemma_fundamental_div_mod(x, c);
    vstd::arithmetic::div_mod::lemma_fundamental_div_mod(q1, d);
    assert(c * d > 0) by (nonlinear_arith)
        requires
            c > 0,
            d > 0,
    ;
    assert(x == (c * d) * q2 + (c * r2 + r1) && 0 <= c * r2 + r1 < c * d) by (nonlinear_arith)
        requires
            x == c * q1 + r1,
            q1 == d * q2 + r2,
            0 <= r1 < c,
            0 <= r2 < d,
    ;
    vstd::arithmetic::div_mod::lemma_fundamental_div_mod_converse(x, c * d, q2, c * r2 + r1);
}

/// Dividing by a positive `d` keeps a value within `m` of zero.
pub proof fn lemma_div_bounded(x: int, m: int, d: int)
    requires
        -m <= x <= m,
        d > 0,
    ensures
        -m <= x / d <= m,
{
    vstd::arithmetic::div_mod::lemma_fundamental_div_mod(x, d);
    let q = x / d;
    let r = x % d;
    assert(-m <= q <= m) by (nonlinear_arith)
        requires
            x == d * q + r,
            0 <= r < d,
            -m <= x <= m,
    ;
}

/// The value `v` forced into the range of `i64`.
pub fn saturate_i64(v: i128) -> (r: i64)
    ensures
        r == sat_i64(v as int),
{
    if v > i64::MAX as i128 {
        i64::MAX
    } else if v < i64::MIN as i128 {
        i64::MIN
    } else {
        v as i64
    }
}

} // verus!
