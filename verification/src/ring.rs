//! The mathematical model: the rings Z[√2] and Z[ω], ω = e^{iπ/4}.

use vstd::arithmetic::mul::{group_mul_is_distributive, lemma_mul_is_associative};
use vstd::prelude::*;

verus! {

/// The real number `rational + irrational·√2`.
pub struct ZRoot2 {
    pub rational: int,
    pub irrational: int,
}

/// The complex number `c0 + c1·ω + c2·ω² + c3·ω³`, where ω = e^{iπ/4}, so that
/// ω² = i, ω⁴ = −1 and √2 = ω − ω³.
pub struct ZOmega {
    pub c0: int,
    pub c1: int,
    pub c2: int,
    pub c3: int,
}

impl ZRoot2 {
    pub open spec fn zero() -> ZRoot2 {
        ZRoot2 { rational: 0, irrational: 0 }
    }

    pub open spec fn integer(n: int) -> ZRoot2 {
        ZRoot2 { rational: n, irrational: 0 }
    }

    pub open spec fn plus(self, other: ZRoot2) -> ZRoot2 {
        ZRoot2 {
            rational: self.rational + other.rational,
            irrational: self.irrational + other.irrational,
        }
    }

    pub open spec fn minus(self, other: ZRoot2) -> ZRoot2 {
        ZRoot2 {
            rational: self.rational - other.rational,
            irrational: self.irrational - other.irrational,
        }
    }

    pub open spec fn negated(self) -> ZRoot2 {
        ZRoot2 { rational: -self.rational, irrational: -self.irrational }
    }

    pub open spec fn times(self, other: ZRoot2) -> ZRoot2 {
        ZRoot2 {
            rational: self.rational * other.rational + 2 * (self.irrational * other.irrational),
            irrational: self.rational * other.irrational + self.irrational * other.rational,
        }
    }

    pub open spec fn scaled(self, n: int) -> ZRoot2 {
        ZRoot2 { rational: n * self.rational, irrational: n * self.irrational }
    }

    /// Whether the real number is strictly greater than zero. With `a` the
    /// rational and `b` the irrational part, `a + b·√2 > 0` is decided by the
    /// signs of `a` and `b` and, where they differ, by comparing `a²` with `2b²`.
    /// That this is the order of the reals is shown in the module `order`.
    pub open spec fn is_positive(self) -> bool {
        let a = self.rational;
        let b = self.irrational;
        ||| (a > 0 && b >= 0)
        ||| (a >= 0 && b > 0)
        ||| (a > 0 && b < 0 && a * a > 2 * (b * b))
        ||| (a < 0 && b > 0 && 2 * (b * b) > a * a)
    }
}

impl ZOmega {
    pub open spec fn zero() -> ZOmega {
        ZOmega { c0: 0, c1: 0, c2: 0, c3: 0 }
    }

    pub open spec fn one() -> ZOmega {
        ZOmega { c0: 1, c1: 0, c2: 0, c3: 0 }
    }

    /// ω = e^{iπ/4}.
    pub open spec fn omega() -> ZOmega {
        ZOmega { c0: 0, c1: 1, c2: 0, c3: 0 }
    }

    /// i = ω².
    pub open spec fn i() -> ZOmega {
        ZOmega { c0: 0, c1: 0, c2: 1, c3: 0 }
    }

    pub open spec fn plus(self, other: ZOmega) -> ZOmega {
        ZOmega {
            c0: self.c0 + other.c0,
            c1: self.c1 + other.c1,
            c2: self.c2 + other.c2,
            c3: self.c3 + other.c3,
        }
    }

    pub open spec fn minus(self, other: ZOmega) -> ZOmega {
        ZOmega {
            c0: self.c0 - other.c0,
            c1: self.c1 - other.c1,
            c2: self.c2 - other.c2,
            c3: self.c3 - other.c3,
        }
    }

    pub open spec fn negated(self) -> ZOmega {
        ZOmega { c0: -self.c0, c1: -self.c1, c2: -self.c2, c3: -self.c3 }
    }

    /// The product in Z[ω], reduced by ω⁴ = −1.
    pub open spec fn times(self, other: ZOmega) -> ZOmega {
        ZOmega {
            c0: self.c0 * other.c0 - self.c1 * other.c3 - self.c2 * other.c2 - self.c3 * other.c1,
            c1: self.c0 * other.c1 + self.c1 * other.c0 - self.c2 * other.c3 - self.c3 * other.c2,
            c2: self.c0 * other.c2 + self.c1 * other.c1 + self.c2 * other.c0 - self.c3 * other.c3,
            c3: self.c0 * other.c3 + self.c1 * other.c2 + self.c2 * other.c1 + self.c3 * other.c0,
        }
    }

    /// The complex conjugate: ω ↦ ω⁻¹ = −ω³.
    pub open spec fn conjugate(self) -> ZOmega {
        ZOmega { c0: self.c0, c1: -self.c3, c2: -self.c2, c3: -self.c1 }
    }

    /// The product with ω: a rotation by an eighth of a turn.
    pub open spec fn times_omega(self) -> ZOmega {
        ZOmega { c0: -self.c3, c1: self.c0, c2: self.c1, c3: self.c2 }
    }

    /// The product with i = ω²: a rotation by a quarter of a turn.
    pub open spec fn times_i(self) -> ZOmega {
        ZOmega { c0: -self.c2, c1: -self.c3, c2: self.c0, c3: self.c1 }
    }

    /// The product with √2 = ω − ω³.
    pub open spec fn times_root2(self) -> ZOmega {
        ZOmega {
            c0: self.c1 - self.c3,
            c1: self.c0 + self.c2,
            c2: self.c1 + self.c3,
            c3: self.c2 - self.c0,
        }
    }

    /// Whether every coefficient lies within `bound` of zero.
    pub open spec fn within(self, bound: int) -> bool {
        &&& -bound <= self.c0 <= bound
        &&& -bound <= self.c1 <= bound
        &&& -bound <= self.c2 <= bound
        &&& -bound <= self.c3 <= bound
    }

    /// Whether the number is `√2·y` for some `y` in Z[ω].
    pub open spec fn divisible_by_root2(self) -> bool {
        (self.c0 - self.c2) % 2 == 0 && (self.c1 - self.c3) % 2 == 0
    }

    /// The quotient by √2, for a number that √2 divides.
    pub open spec fn divided_by_root2(self) -> ZOmega {
        ZOmega {
            c0: (self.c1 - self.c3) / 2,
            c1: (self.c0 + self.c2) / 2,
            c2: (self.c1 + self.c3) / 2,
            c3: (self.c2 - self.c0) / 2,
        }
    }

    /// `z + z̄`, twice the real part of `z`.
    pub open spec fn twice_real_part(self) -> ZRoot2 {
        ZRoot2 { rational: 2 * self.c0, irrational: self.c1 - self.c3 }
    }

    /// The squared modulus `|z|²`, a real number in Z[√2].
    pub open spec fn norm(self) -> ZRoot2 {
        ZRoot2 {
            rational: self.c0 * self.c0 + self.c1 * self.c1 + self.c2 * self.c2 + self.c3
                * self.c3,
            irrational: self.c0 * self.c1 + self.c1 * self.c2 + self.c2 * self.c3 - self.c3
                * self.c0,
        }
    }
}

/// A product of two integers within `bound` of zero lies within `bound²` of zero.
pub proof fn lemma_product_within(a: int, b: int, bound: int)
    by (nonlinear_arith)
    requires
        -bound <= a <= bound,
        -bound <= b <= bound,
    ensures
        -(bound * bound) <= a * b <= bound * bound,
{
}

/// The squared modulus of a number with coefficients within `bound` of zero is
/// at most `4·bound²`.
pub proof fn lemma_norm_within(z: ZOmega, bound: int)
    requires
        z.within(bound),
    ensures
        0 <= z.norm().rational <= 4 * (bound * bound),
        -4 * (bound * bound) <= z.norm().irrational <= 4 * (bound * bound),
{
    lemma_product_within(z.c0, z.c0, bound);
    lemma_product_within(z.c1, z.c1, bound);
    lemma_product_within(z.c2, z.c2, bound);
    lemma_product_within(z.c3, z.c3, bound);
    lemma_product_within(z.c0, z.c1, bound);
    lemma_product_within(z.c1, z.c2, bound);
    lemma_product_within(z.c2, z.c3, bound);
    lemma_product_within(z.c3, z.c0, bound);
    assert(0 <= z.c0 * z.c0 && 0 <= z.c1 * z.c1 && 0 <= z.c2 * z.c2 && 0 <= z.c3 * z.c3)
        by (nonlinear_arith);
}

/// `(a + b)·(c + d) = a·c + a·d + b·c + b·d`.
pub proof fn lemma_product_of_sums(a: int, b: int, c: int, d: int)
    by (nonlinear_arith)
    ensures
        (a + b) * (c + d) == a * c + a * d + b * c + b * d,
{
}

/// The sign of a product of integers.
pub proof fn lemma_signs(a: int, b: int)
    by (nonlinear_arith)
    ensures
        (-a) * b == -(a * b),
        a * (-b) == -(a * b),
        (-a) * (-b) == a * b,
{
}

/// The sign rules for the products of the coefficients of `x` with one integer.
proof fn lemma_signs_row(x: ZOmega, b: int)
    ensures
        (-x.c0) * b == -(x.c0 * b) && x.c0 * (-b) == -(x.c0 * b) && (-x.c0) * (-b) == x.c0 * b,
        (-x.c1) * b == -(x.c1 * b) && x.c1 * (-b) == -(x.c1 * b) && (-x.c1) * (-b) == x.c1 * b,
        (-x.c2) * b == -(x.c2 * b) && x.c2 * (-b) == -(x.c2 * b) && (-x.c2) * (-b) == x.c2 * b,
        (-x.c3) * b == -(x.c3 * b) && x.c3 * (-b) == -(x.c3 * b) && (-x.c3) * (-b) == x.c3 * b,
{
    lemma_signs(x.c0, b);
    lemma_signs(x.c1, b);
    lemma_signs(x.c2, b);
    lemma_signs(x.c3, b);
}

/// Multiplication in Z[ω] is commutative.
pub proof fn lemma_times_commutative(x: ZOmega, y: ZOmega)
    ensures
        x.times(y) == y.times(x),
{
}

/// Multiplication in Z[ω] is associative.
#[verifier::rlimit(20)]
pub proof fn lemma_times_associative(x: ZOmega, y: ZOmega, z: ZOmega)
    ensures
        x.times(y).times(z) == x.times(y.times(z)),
{
    broadcast use group_mul_is_distributive, lemma_mul_is_associative;

}

/// Multiplication in Z[ω] distributes over addition.
#[verifier::rlimit(20)]
pub proof fn lemma_times_distributive(x: ZOmega, y: ZOmega, z: ZOmega)
    ensures
        x.times(y.plus(z)) == x.times(y).plus(x.times(z)),
        x.times(y.minus(z)) == x.times(y).minus(x.times(z)),
{
    broadcast use group_mul_is_distributive;

}

/// Conjugation is multiplicative.
#[verifier::rlimit(20)]
pub proof fn lemma_conjugate_times(x: ZOmega, y: ZOmega)
    ensures
        x.times(y).conjugate() == x.conjugate().times(y.conjugate()),
{
    lemma_signs_row(x, y.c0);
    lemma_signs_row(x, y.c1);
    lemma_signs_row(x, y.c2);
    lemma_signs_row(x, y.c3);
}

/// `|x·y|² = |x|²·|y|²`.
#[verifier::rlimit(20)]
pub proof fn lemma_norm_multiplicative(x: ZOmega, y: ZOmega)
    ensures
        x.times(y).norm() == x.norm().times(y.norm()),
{
    broadcast use group_mul_is_distributive, lemma_mul_is_associative;

}

/// Dividing by √2 undoes multiplying by √2, and the other way round where √2 divides.
pub proof fn lemma_root2_division(x: ZOmega)
    ensures
        x.times_root2().divisible_by_root2(),
        x.times_root2().divided_by_root2() == x,
        x.divisible_by_root2() ==> x.divided_by_root2().times_root2() == x,
{
}

/// `|√2·x|² = 2·|x|²`.
#[verifier::rlimit(20)]
pub proof fn lemma_norm_times_root2(x: ZOmega)
    ensures
        x.times_root2().norm() == x.norm().scaled(2),
{
    broadcast use group_mul_is_distributive;

}

/// `(a·b)·(c·d) = (a·c)·(b·d)`.
pub proof fn lemma_times_interchange(a: ZOmega, b: ZOmega, c: ZOmega, d: ZOmega)
    ensures
        a.times(b).times(c.times(d)) == a.times(c).times(b.times(d)),
{
    lemma_times_associative(a, b, c.times(d));
    lemma_times_associative(b, c, d);
    lemma_times_commutative(b, c);
    lemma_times_associative(c, b, d);
    lemma_times_associative(a, c, b.times(d));
}

/// `|x + y|² = |x|² + |y|² + 2·Re(x̄·y)`.
#[verifier::rlimit(20)]
pub proof fn lemma_norm_of_sum(x: ZOmega, y: ZOmega)
    ensures
        x.plus(y).norm() == x.norm().plus(y.norm()).plus(
            x.conjugate().times(y).twice_real_part(),
        ),
{
    broadcast use group_mul_is_distributive;

    lemma_signs_row(x, y.c0);
    lemma_signs_row(x, y.c1);
    lemma_signs_row(x, y.c2);
    lemma_signs_row(x, y.c3);
    lemma_product_of_sums(x.c0, y.c0, x.c1, y.c1);
    lemma_product_of_sums(x.c1, y.c1, x.c2, y.c2);
    lemma_product_of_sums(x.c2, y.c2, x.c3, y.c3);
    lemma_product_of_sums(x.c3, y.c3, x.c0, y.c0);
}

/// An integer whose square is at most `root²` lies within `root` of zero.
pub proof fn lemma_square_bound(c: int, root: int)
    by (nonlinear_arith)
    requires
        0 <= root,
        c * c <= root * root,
    ensures
        -root <= c <= root,
{
}

/// Each coefficient of a number lies within the root of a bound on its squared modulus.
pub proof fn lemma_norm_bounds_coefficients(z: ZOmega, root: int)
    requires
        0 <= root,
        z.norm().rational <= root * root,
    ensures
        z.within(root),
{
    lemma_square_nonnegative(z.c0);
    lemma_square_nonnegative(z.c1);
    lemma_square_nonnegative(z.c2);
    lemma_square_nonnegative(z.c3);
    lemma_square_bound(z.c0, root);
    lemma_square_bound(z.c1, root);
    lemma_square_bound(z.c2, root);
    lemma_square_bound(z.c3, root);
}

/// The coefficients of a product of two numbers within `bound` of zero lie
/// within `4·bound²` of zero.
pub proof fn lemma_times_within(x: ZOmega, y: ZOmega, bound: int)
    requires
        x.within(bound),
        y.within(bound),
    ensures
        x.times(y).within(4 * (bound * bound)),
{
    lemma_product_row_within(x, y.c0, bound);
    lemma_product_row_within(x, y.c1, bound);
    lemma_product_row_within(x, y.c2, bound);
    lemma_product_row_within(x, y.c3, bound);
}

proof fn lemma_product_row_within(x: ZOmega, b: int, bound: int)
    requires
        x.within(bound),
        -bound <= b <= bound,
    ensures
        -(bound * bound) <= x.c0 * b <= bound * bound,
        -(bound * bound) <= x.c1 * b <= bound * bound,
        -(bound * bound) <= x.c2 * b <= bound * bound,
        -(bound * bound) <= x.c3 * b <= bound * bound,
{
    lemma_product_within(x.c0, b, bound);
    lemma_product_within(x.c1, b, bound);
    lemma_product_within(x.c2, b, bound);
    lemma_product_within(x.c3, b, bound);
}

/// Multiplication in Z[√2] distributes over addition.
#[verifier::rlimit(20)]
pub proof fn lemma_root2_times_distributive(x: ZRoot2, y: ZRoot2, z: ZRoot2)
    ensures
        x.plus(y).times(z) == x.times(z).plus(y.times(z)),
{
    broadcast use group_mul_is_distributive;

}

/// The product with an integer, seen as a number of Z[√2], is the scaling by it.
pub proof fn lemma_root2_times_integer(n: int, z: ZRoot2)
    ensures
        ZRoot2::integer(n).times(z) == z.scaled(n),
{
    assert(0 * z.irrational == 0);
    assert(0 * z.rational == 0);
}

/// Scaling by an integer distributes over addition in Z[√2].
pub proof fn lemma_root2_scaled_sum(x: ZRoot2, y: ZRoot2, n: int)
    ensures
        x.plus(y).scaled(n) == x.scaled(n).plus(y.scaled(n)),
{
    assert(n * (x.rational + y.rational) == n * x.rational + n * y.rational)
        by (nonlinear_arith);
    assert(n * (x.irrational + y.irrational) == n * x.irrational + n * y.irrational)
        by (nonlinear_arith);
}

/// The products with the units 1, −1, i, −i and ω, and with 0.
pub proof fn lemma_times_unit(x: ZOmega)
    ensures
        ZOmega::zero().times(x) == ZOmega::zero(),
        ZOmega::one().times(x) == x,
        ZOmega::one().negated().times(x) == x.negated(),
        ZOmega::i().times(x) == x.times_i(),
        ZOmega::i().negated().times(x) == x.times_i().negated(),
        ZOmega::omega().times(x) == x.times_omega(),
{
    lemma_signs(1, x.c0);
    lemma_signs(1, x.c1);
    lemma_signs(1, x.c2);
    lemma_signs(1, x.c3);
    lemma_signs(0, x.c0);
    lemma_signs(0, x.c1);
    lemma_signs(0, x.c2);
    lemma_signs(0, x.c3);
}

/// The sign of a factor is the sign of the product.
pub proof fn lemma_negated_factor(x: ZOmega, y: ZOmega)
    ensures
        x.negated().times(y) == x.times(y).negated(),
        x.times(y.negated()) == x.times(y).negated(),
{
    lemma_signs_row(x, y.c0);
    lemma_signs_row(x, y.c1);
    lemma_signs_row(x, y.c2);
    lemma_signs_row(x, y.c3);
}

/// A unit times a number is divisible by √2 exactly if the number is.
pub proof fn lemma_unit_keeps_divisibility(x: ZOmega)
    ensures
        x.negated().divisible_by_root2() == x.divisible_by_root2(),
        x.times_i().divisible_by_root2() == x.divisible_by_root2(),
        x.times_i().negated().divisible_by_root2() == x.divisible_by_root2(),
        x.times_omega().divisible_by_root2() == x.divisible_by_root2(),
{
}

/// An integer with an even square is even.
proof fn lemma_even_square(p: int)
    requires
        (p * p) % 2 == 0,
    ensures
        p % 2 == 0,
{
    if p % 2 != 0 {
        let r = p / 2;
        assert(p * p == 2 * (2 * (r * r) + 2 * r) + 1) by (nonlinear_arith)
            requires
                p == 2 * r + 1,
        ;
    }
}

/// √2 is irrational: `p² = 2·q²` holds of no integers but `p = q = 0`.
pub proof fn lemma_root2_irrational(p: int, q: int)
    requires
        p * p == 2 * (q * q),
    ensures
        p == 0 && q == 0,
    decreases (if p < 0 { -p } else { p }),
{
    if p != 0 {
        lemma_even_square(p);
        let r = p / 2;
        assert(q * q == 2 * (r * r)) by (nonlinear_arith)
            requires
                p == 2 * r,
                p * p == 2 * (q * q),
        ;
        lemma_even_square(q);
        let t = q / 2;
        assert(r * r == 2 * (t * t)) by (nonlinear_arith)
            requires
                q == 2 * t,
                q * q == 2 * (r * r),
        ;
        lemma_root2_irrational(r, t);
    } else {
        assert(q == 0) by (nonlinear_arith)
            requires
                q * q == 0,
        ;
    }
}

/// A squared modulus is zero for the number zero alone, and its rational part
/// is positive for every other number.
pub proof fn lemma_norm_positive(x: ZOmega)
    ensures
        0 <= x.norm().rational,
        x.norm().rational == 0 <==> x == ZOmega::zero(),
        x.norm() == ZRoot2::zero() <==> x == ZOmega::zero(),
{
    assert(0 <= x.c0 * x.c0 && 0 <= x.c1 * x.c1 && 0 <= x.c2 * x.c2 && 0 <= x.c3 * x.c3)
        by (nonlinear_arith);
    assert(x.c0 * x.c0 == 0 ==> x.c0 == 0) by (nonlinear_arith);
    assert(x.c1 * x.c1 == 0 ==> x.c1 == 0) by (nonlinear_arith);
    assert(x.c2 * x.c2 == 0 ==> x.c2 == 0) by (nonlinear_arith);
    assert(x.c3 * x.c3 == 0 ==> x.c3 == 0) by (nonlinear_arith);
}

/// Z[√2] has no zero divisors.
pub proof fn lemma_root2_no_zero_divisors(x: ZRoot2, y: ZRoot2)
    requires
        x.times(y) == ZRoot2::zero(),
    ensures
        x == ZRoot2::zero() || y == ZRoot2::zero(),
{
    let (p, q) = (x.rational, x.irrational);
    let (r, s) = (y.rational, y.irrational);
    if x != ZRoot2::zero() {
        assert((p * p - 2 * (q * q)) * r == 0) by (nonlinear_arith)
            requires
                p * r + 2 * (q * s) == 0,
                p * s + q * r == 0,
        ;
        assert((p * p - 2 * (q * q)) * s == 0) by (nonlinear_arith)
            requires
                p * r + 2 * (q * s) == 0,
                p * s + q * r == 0,
        ;
        if p * p == 2 * (q * q) {
            lemma_root2_irrational(p, q);
        }
        assert(r == 0) by (nonlinear_arith)
            requires
                (p * p - 2 * (q * q)) * r == 0,
                p * p - 2 * (q * q) != 0,
        ;
        assert(s == 0) by (nonlinear_arith)
            requires
                (p * p - 2 * (q * q)) * s == 0,
                p * p - 2 * (q * q) != 0,
        ;
    }
}

/// Z[ω] has no zero divisors: a product is zero only if a factor is.
pub proof fn lemma_no_zero_divisors(x: ZOmega, y: ZOmega)
    requires
        x.times(y) == ZOmega::zero(),
    ensures
        x == ZOmega::zero() || y == ZOmega::zero(),
{
    lemma_norm_multiplicative(x, y);
    lemma_norm_positive(x.times(y));
    lemma_root2_no_zero_divisors(x.norm(), y.norm());
    lemma_norm_positive(x);
    lemma_norm_positive(y);
}

/// The irrational part of a squared modulus is at most its rational part, in
/// absolute value: `|z|² = P + Q·√2` has `P ± Q ≥ 0`, as `2·(P ± Q)` is a sum of
/// four squares.
pub proof fn lemma_norm_irrational_bounded(z: ZOmega)
    ensures
        -z.norm().rational <= z.norm().irrational <= z.norm().rational,
{
    let (a, b, c, d) = (z.c0, z.c1, z.c2, z.c3);
    lemma_product_of_sums(a, -b, a, -b);
    lemma_product_of_sums(b, -c, b, -c);
    lemma_product_of_sums(c, -d, c, -d);
    lemma_product_of_sums(d, a, d, a);
    lemma_product_of_sums(a, b, a, b);
    lemma_product_of_sums(b, c, b, c);
    lemma_product_of_sums(c, d, c, d);
    lemma_product_of_sums(d, -a, d, -a);
    lemma_signs_row(z, a);
    lemma_signs_row(z, b);
    lemma_signs_row(z, c);
    lemma_signs_row(z, d);
    lemma_square_nonnegative(a - b);
    lemma_square_nonnegative(b - c);
    lemma_square_nonnegative(c - d);
    lemma_square_nonnegative(d + a);
    lemma_square_nonnegative(a + b);
    lemma_square_nonnegative(b + c);
    lemma_square_nonnegative(c + d);
    lemma_square_nonnegative(d - a);
}

/// A square is not negative.
pub proof fn lemma_square_nonnegative(c: int)
    by (nonlinear_arith)
    ensures
        0 <= c * c,
{
}

/// Multiplying by √2 commutes with multiplying by another number and with
/// adding, and can be cancelled.
#[verifier::rlimit(20)]
pub proof fn lemma_times_root2_linear(x: ZOmega, y: ZOmega)
    ensures
        x.times_root2().times(y) == x.times(y).times_root2(),
        x.times(y.times_root2()) == x.times(y).times_root2(),
        x.plus(y).times_root2() == x.times_root2().plus(y.times_root2()),
        x.times_root2() == y.times_root2() ==> x == y,
{
    broadcast use group_mul_is_distributive;

}

/// `(a + b)·(c + d) = a·c + a·d + b·c + b·d` in Z[ω].
pub proof fn lemma_times_of_sums(a: ZOmega, b: ZOmega, c: ZOmega, d: ZOmega)
    ensures
        a.plus(b).times(c.plus(d)) == a.times(c).plus(a.times(d)).plus(b.times(c)).plus(
            b.times(d),
        ),
{
    lemma_times_distributive(a.plus(b), c, d);
    lemma_times_commutative(a.plus(b), c);
    lemma_times_commutative(a.plus(b), d);
    lemma_times_distributive(c, a, b);
    lemma_times_distributive(d, a, b);
    lemma_times_commutative(c, a);
    lemma_times_commutative(c, b);
    lemma_times_commutative(d, a);
    lemma_times_commutative(d, b);
}

/// Multiplication in Z[√2] is commutative.
pub proof fn lemma_root2_times_commutative(x: ZRoot2, y: ZRoot2)
    ensures
        x.times(y) == y.times(x),
{
}

} // verus!
