//! The order of the real numbers `a + b·√2`.
//!
//! `ZRoot2::is_positive` decides the sign from integers alone. The laws here
//! show that it is an order of the ring Z[√2]: of a number and its negative
//! exactly one is positive, and sums and products of positive numbers are
//! positive. Z[√2] has two such orders, one for each sign of √2, and
//! `is_positive` is the one in which √2 is positive: the order of the reals.

use crate::ring::{lemma_norm_positive, lemma_root2_irrational, ZOmega, ZRoot2};
use vstd::arithmetic::mul::{group_mul_is_distributive, lemma_mul_is_associative};
use vstd::prelude::*;

verus! {

/// Squares of numbers that are not negative are ordered as the numbers are.
proof fn lemma_square_order(x: int, y: int)
    by (nonlinear_arith)
    requires
        0 <= x,
        0 <= y,
    ensures
        x <= y ==> x * x <= y * y,
        x * x < y * y ==> x < y,
        x * x <= y * y ==> x <= y,
{
}

/// `(p + r)² = p² + 2·p·r + r²`, and `(p·r)² = p²·r²`.
proof fn lemma_binomial(p: int, r: int)
    by (nonlinear_arith)
    ensures
        (p + r) * (p + r) == p * p + 2 * (p * r) + r * r,
        (p * r) * (p * r) == (p * p) * (r * r),
{
}

/// A product of two bounds from below, all numbers not negative.
proof fn lemma_product_of_bounds(low1: int, high1: int, low2: int, high2: int)
    by (nonlinear_arith)
    requires
        0 <= low1 <= high1,
        0 <= low2 <= high2,
    ensures
        low1 * low2 <= high1 * high2,
{
}

/// The numbers `p − q·√2 > 0` with `p, q ≥ 0` are closed under addition:
/// `p² > 2q²` and `r² ≥ 2s²` give `(p + r)² > 2(q + s)²`.
proof fn lemma_cone_sum(p: int, q: int, r: int, s: int)
    requires
        0 <= p,
        0 <= q,
        0 <= r,
        0 <= s,
        p * p > 2 * (q * q),
        r * r >= 2 * (s * s),
    ensures
        (p + r) * (p + r) > 2 * ((q + s) * (q + s)),
{
    lemma_binomial(p, r);
    lemma_binomial(q, s);
    lemma_binomial(2 * q, s);
    lemma_square_order(q, q);
    lemma_square_order(s, s);
    assert(0 <= q * q && 0 <= s * s) by (nonlinear_arith);
    // (p·r)² = p²·r² ≥ 2q²·2s² = (2·q·s)², so p·r ≥ 2·q·s.
    lemma_product_of_bounds(2 * (q * q), p * p, 2 * (s * s), r * r);
    assert((2 * (q * q)) * (2 * (s * s)) == (2 * (q * s)) * (2 * (q * s))) by (nonlinear_arith);
    assert(0 <= p * r && 0 <= 2 * (q * s)) by (nonlinear_arith)
        requires
            0 <= p,
            0 <= q,
            0 <= r,
            0 <= s,
    ;
    lemma_square_order(2 * (q * s), p * r);
}

/// The numbers `q·√2 − p > 0` with `p, q ≥ 0` are closed under addition:
/// `2q² > p²` and `2s² ≥ r²` give `2(q + s)² > (p + r)²`.
proof fn lemma_cocone_sum(p: int, q: int, r: int, s: int)
    requires
        0 <= p,
        0 <= q,
        0 <= r,
        0 <= s,
        2 * (q * q) > p * p,
        2 * (s * s) >= r * r,
    ensures
        2 * ((q + s) * (q + s)) > (p + r) * (p + r),
{
    lemma_binomial(p, r);
    lemma_binomial(q, s);
    assert(0 <= p * p && 0 <= r * r) by (nonlinear_arith);
    // (p·r)² = p²·r² ≤ 2q²·2s² = (2·q·s)², so p·r ≤ 2·q·s.
    lemma_product_of_bounds(p * p, 2 * (q * q), r * r, 2 * (s * s));
    assert((2 * (q * q)) * (2 * (s * s)) == (2 * (q * s)) * (2 * (q * s))) by (nonlinear_arith);
    assert(0 <= p * r && 0 <= 2 * (q * s)) by (nonlinear_arith)
        requires
            0 <= p,
            0 <= q,
            0 <= r,
            0 <= s,
    ;
    lemma_square_order(p * r, 2 * (q * s));
}

/// Of a number and its negative, exactly one is positive, unless the number is zero.
pub proof fn lemma_positive_or_negative(x: ZRoot2)
    ensures
        !(x.is_positive() && x.negated().is_positive()),
        !ZRoot2::zero().is_positive(),
        x != ZRoot2::zero() ==> x.is_positive() || x.negated().is_positive(),
{
    let (a, b) = (x.rational, x.irrational);
    assert((-a) * (-a) == a * a && (-b) * (-b) == b * b) by (nonlinear_arith);
    if a * a == 2 * (b * b) {
        lemma_root2_irrational(a, b);
    }
}

/// The sum of two positive numbers is positive.
pub proof fn lemma_positive_sum(x: ZRoot2, y: ZRoot2)
    requires
        x.is_positive(),
        y.is_positive(),
    ensures
        x.plus(y).is_positive(),
{
    let (a, b) = (x.rational, x.irrational);
    let (c, d) = (y.rational, y.irrational);
    assert((-a) * (-a) == a * a && (-b) * (-b) == b * b && (-c) * (-c) == c * c && (-d) * (-d)
        == d * d) by (nonlinear_arith);
    if a >= 0 && b >= 0 {
        lemma_sum_with_both_parts(a, b, c, d);
    } else if c >= 0 && d >= 0 {
        lemma_sum_with_both_parts(c, d, a, b);
    } else if a > 0 && c > 0 {
        // Both are p − q·√2.
        lemma_cone_sum(a, -b, c, -d);
        assert((-b + -d) * (-b + -d) == (b + d) * (b + d)) by (nonlinear_arith);
    } else if a < 0 && c < 0 {
        // Both are q·√2 − p.
        lemma_cocone_sum(-a, b, -c, d);
        assert((-a + -c) * (-a + -c) == (a + c) * (a + c)) by (nonlinear_arith);
    } else if a > 0 {
        lemma_sum_of_mixed(a, -b, -c, d);
    } else {
        lemma_sum_of_mixed(c, -d, -a, b);
    }
}

/// `(a + b·√2) + (c + d·√2) > 0` where `a, b ≥ 0` and the second is positive.
proof fn lemma_sum_with_both_parts(a: int, b: int, c: int, d: int)
    requires
        0 <= a,
        0 <= b,
        (ZRoot2 { rational: c, irrational: d }).is_positive(),
    ensures
        (ZRoot2 { rational: a + c, irrational: b + d }).is_positive(),
{
    if c > 0 && d < 0 && b + d < 0 {
        // a + c ≥ c and |b + d| ≤ |d|.
        lemma_square_order(c, a + c);
        lemma_square_order(-(b + d), -d);
        assert((-(b + d)) * (-(b + d)) == (b + d) * (b + d) && (-d) * (-d) == d * d)
            by (nonlinear_arith);
    }
    if c < 0 && d > 0 && a + c < 0 {
        // b + d ≥ d and |a + c| ≤ |c|.
        lemma_square_order(d, b + d);
        lemma_square_order(-(a + c), -c);
        assert((-(a + c)) * (-(a + c)) == (a + c) * (a + c) && (-c) * (-c) == c * c)
            by (nonlinear_arith);
    }
}

/// `(p − q·√2) + (s·√2 − r) > 0` where `p, q, r, s > 0` and both are positive.
proof fn lemma_sum_of_mixed(p: int, q: int, r: int, s: int)
    requires
        0 < p,
        0 < q,
        0 < r,
        0 < s,
        p * p > 2 * (q * q),
        2 * (s * s) > r * r,
    ensures
        (ZRoot2 { rational: p - r, irrational: s - q }).is_positive(),
{
    if p - r > 0 && s - q < 0 {
        // Else (p − r)² ≤ 2(q − s)² and r² < 2s² would give p² < 2q².
        if (p - r) * (p - r) <= 2 * ((q - s) * (q - s)) {
            lemma_cocone_sum(r, s, p - r, q - s);
        }
        assert((s - q) * (s - q) == (q - s) * (q - s)) by (nonlinear_arith);
    } else if p - r < 0 && s - q > 0 {
        // Else (r − p)² ≥ 2(s − q)² and p² > 2q² would give r² > 2s².
        if (r - p) * (r - p) >= 2 * ((s - q) * (s - q)) {
            lemma_cone_sum(p, q, r - p, s - q);
        }
        assert((p - r) * (p - r) == (r - p) * (r - p)) by (nonlinear_arith);
    } else if p - r <= 0 && s - q <= 0 {
        // r ≥ p and q ≥ s would give r² ≥ p² > 2q² ≥ 2s².
        lemma_square_order(p, r);
        lemma_square_order(s, q);
    }
}

/// The product of two positive numbers is positive.
pub proof fn lemma_positive_product(x: ZRoot2, y: ZRoot2)
    requires
        x.is_positive(),
        y.is_positive(),
    ensures
        x.times(y).is_positive(),
{
    let (a, b) = (x.rational, x.irrational);
    let (c, d) = (y.rational, y.irrational);
    let rational = a * c + 2 * (b * d);
    let irrational = a * d + b * c;
    // The norm a² − 2b² is multiplicative, and tells which part decides the sign.
    lemma_field_norm_multiplicative(a, b, c, d);
    if a * a == 2 * (b * b) {
        lemma_root2_irrational(a, b);
    }
    if c * c == 2 * (d * d) {
        lemma_root2_irrational(c, d);
    }
    lemma_binomial(a, c);
    lemma_binomial(b, d);
    lemma_binomial(a, d);
    lemma_binomial(b, c);
    assert(0 <= a * a && 0 <= b * b && 0 <= c * c && 0 <= d * d) by (nonlinear_arith);
    if a * a > 2 * (b * b) && c * c > 2 * (d * d) {
        // a > √2·|b| and c > √2·|d|: a·c > 2·|b·d|.
        assert((a * a - 2 * (b * b)) * (c * c - 2 * (d * d)) > 0) by (nonlinear_arith)
            requires
                a * a - 2 * (b * b) > 0,
                c * c - 2 * (d * d) > 0,
        ;
        lemma_strict_product_of_bounds(2 * (b * b), a * a, 2 * (d * d), c * c);
        assert((2 * (b * b)) * (2 * (d * d)) == (2 * (b * d)) * (2 * (b * d)))
            by (nonlinear_arith);
        assert(a * c > 0) by (nonlinear_arith)
            requires
                a > 0,
                c > 0,
        ;
        lemma_sign_of_sum(a * c, 2 * (b * d));
    } else if a * a > 2 * (b * b) {
        // a > √2·|b| and √2·d > |c|: a·d > |b·c|.
        assert((a * a - 2 * (b * b)) * (c * c - 2 * (d * d)) < 0) by (nonlinear_arith)
            requires
                a * a - 2 * (b * b) > 0,
                c * c - 2 * (d * d) < 0,
        ;
        lemma_strict_product_of_bounds(2 * (b * b), a * a, c * c, 2 * (d * d));
        assert((a * a) * (2 * (d * d)) == 2 * ((a * d) * (a * d)) && (2 * (b * b)) * (c * c) == 2
            * ((b * c) * (b * c))) by (nonlinear_arith);
        assert(a * d > 0) by (nonlinear_arith)
            requires
                a > 0,
                d > 0,
        ;
        lemma_sign_of_sum(a * d, b * c);
    } else if c * c > 2 * (d * d) {
        assert((a * a - 2 * (b * b)) * (c * c - 2 * (d * d)) < 0) by (nonlinear_arith)
            requires
                a * a - 2 * (b * b) < 0,
                c * c - 2 * (d * d) > 0,
        ;
        lemma_strict_product_of_bounds(a * a, 2 * (b * b), 2 * (d * d), c * c);
        assert((2 * (b * b)) * (c * c) == 2 * ((b * c) * (b * c)) && (a * a) * (2 * (d * d)) == 2
            * ((a * d) * (a * d))) by (nonlinear_arith);
        assert(b * c > 0) by (nonlinear_arith)
            requires
                b > 0,
                c > 0,
        ;
        lemma_sign_of_sum(b * c, a * d);
    } else {
        // √2·b > |a| and √2·d > |c|: 2·b·d > |a·c|.
        assert((a * a - 2 * (b * b)) * (c * c - 2 * (d * d)) > 0) by (nonlinear_arith)
            requires
                a * a - 2 * (b * b) < 0,
                c * c - 2 * (d * d) < 0,
        ;
        lemma_strict_product_of_bounds(a * a, 2 * (b * b), c * c, 2 * (d * d));
        assert((2 * (b * b)) * (2 * (d * d)) == (2 * (b * d)) * (2 * (b * d)))
            by (nonlinear_arith);
        assert(b * d > 0) by (nonlinear_arith)
            requires
                b > 0,
                d > 0,
        ;
        lemma_sign_of_sum(2 * (b * d), a * c);
    }
}

/// The norm `a² − 2b²` of `a + b·√2` is multiplicative.
proof fn lemma_field_norm_multiplicative(a: int, b: int, c: int, d: int)
    ensures
        (a * c + 2 * (b * d)) * (a * c + 2 * (b * d)) - 2 * ((a * d + b * c) * (a * d + b * c))
            == (a * a - 2 * (b * b)) * (c * c - 2 * (d * d)),
{
    broadcast use group_mul_is_distributive, lemma_mul_is_associative;

}

/// A product of two bounds from below, the larger numbers positive.
proof fn lemma_strict_product_of_bounds(low1: int, high1: int, low2: int, high2: int)
    by (nonlinear_arith)
    requires
        0 <= low1 < high1,
        0 <= low2 < high2,
    ensures
        low1 * low2 < high1 * high2,
{
}

/// A positive number plus one of smaller square is positive.
proof fn lemma_sign_of_sum(large: int, small: int)
    by (nonlinear_arith)
    requires
        large > 0,
        small * small < large * large,
    ensures
        large + small > 0,
{
}

/// A positive number stays positive where an integer that is not negative is
/// added to it.
pub proof fn lemma_positive_plus_integer(x: ZRoot2, n: int)
    requires
        x.is_positive(),
        0 <= n,
    ensures
        x.plus(ZRoot2::integer(n)).is_positive(),
{
    if n > 0 {
        lemma_positive_sum(x, ZRoot2::integer(n));
    }
}

/// `P² − 2Q²` is a sum of two squares where `P + Q·√2` is a squared modulus.
proof fn lemma_norm_of_norm(a: int, b: int, c: int, d: int)
    ensures
        (a * a + b * b + c * c + d * d) * (a * a + b * b + c * c + d * d) - 2 * ((a * b + b * c + c
            * d - d * a) * (a * b + b * c + c * d - d * a)) == (a * a - c * c + 2 * (b * d)) * (a
            * a - c * c + 2 * (b * d)) + (b * b - d * d - 2 * (a * c)) * (b * b - d * d - 2 * (a
            * c)),
{
    broadcast use group_mul_is_distributive, lemma_mul_is_associative;

}

/// A squared modulus `|z|²` is positive as a real number, but for `z = 0`.
pub proof fn lemma_norm_is_positive(z: ZOmega)
    ensures
        z != ZOmega::zero() ==> z.norm().is_positive(),
        !z.norm().negated().is_positive(),
{
    let (p, q) = (z.norm().rational, z.norm().irrational);
    lemma_norm_positive(z);
    lemma_norm_of_norm(z.c0, z.c1, z.c2, z.c3);
    assert(0 <= (z.c0 * z.c0 - z.c2 * z.c2 + 2 * (z.c1 * z.c3)) * (z.c0 * z.c0 - z.c2 * z.c2 + 2
        * (z.c1 * z.c3))) by (nonlinear_arith);
    assert(0 <= (z.c1 * z.c1 - z.c3 * z.c3 - 2 * (z.c0 * z.c2)) * (z.c1 * z.c1 - z.c3 * z.c3 - 2
        * (z.c0 * z.c2))) by (nonlinear_arith);
    assert((-p) * (-p) == p * p && (-q) * (-q) == q * q) by (nonlinear_arith);
    if p * p == 2 * (q * q) {
        lemma_root2_irrational(p, q);
    }
}

} // verus!
