//! Numbers of Z[ω] and Z[√2] with machine-word coefficients.

use crate::linalg::{matrix_vector_product, ENTRY_LIMIT};
use crate::ring::{lemma_product_within, lemma_signs, ZOmega, ZRoot2};
use vstd::prelude::*;

verus! {

/// The complex number `c0 + c1·ω + c2·ω² + c3·ω³`, where ω = e^{iπ/4}.
#[derive(Clone, Copy, Debug, PartialEq, Eq, Structural)]
pub struct Cyclotomic {
    pub c0: i64,
    pub c1: i64,
    pub c2: i64,
    pub c3: i64,
}

/// The real number `rational + irrational·√2`.
#[derive(Clone, Copy, Debug, PartialEq, Eq, Structural)]
pub struct Root2 {
    pub rational: i64,
    pub irrational: i64,
}

impl View for Root2 {
    type V = ZRoot2;

    open spec fn view(&self) -> ZRoot2 {
        ZRoot2 { rational: self.rational as int, irrational: self.irrational as int }
    }
}

impl View for Cyclotomic {
    type V = ZOmega;

    open spec fn view(&self) -> ZOmega {
        ZOmega { c0: self.c0 as int, c1: self.c1 as int, c2: self.c2 as int, c3: self.c3 as int }
    }
}

impl Cyclotomic {
    pub fn new(c0: i64, c1: i64, c2: i64, c3: i64) -> (z: Cyclotomic)
        ensures
            z@ == (ZOmega { c0: c0 as int, c1: c1 as int, c2: c2 as int, c3: c3 as int }),
    {
        Cyclotomic { c0, c1, c2, c3 }
    }

    pub fn zero() -> (z: Cyclotomic)
        ensures
            z@ == ZOmega::zero(),
    {
        Cyclotomic { c0: 0, c1: 0, c2: 0, c3: 0 }
    }

    pub fn one() -> (z: Cyclotomic)
        ensures
            z@ == ZOmega::one(),
    {
        Cyclotomic { c0: 1, c1: 0, c2: 0, c3: 0 }
    }

    pub fn is_zero(&self) -> (zero: bool)
        ensures
            zero == (self@ == ZOmega::zero()),
    {
        self.c0 == 0 && self.c1 == 0 && self.c2 == 0 && self.c3 == 0
    }

    /// Whether every coefficient lies within `bound` of zero.
    pub fn is_within(&self, bound: i64) -> (within: bool)
        requires
            0 <= bound,
        ensures
            within == self@.within(bound as int),
    {
        -bound <= self.c0 && self.c0 <= bound && -bound <= self.c1 && self.c1 <= bound && -bound
            <= self.c2 && self.c2 <= bound && -bound <= self.c3 && self.c3 <= bound
    }

    pub fn plus(&self, other: &Cyclotomic) -> (sum: Cyclotomic)
        requires
            self@.plus(other@).within(i64::MAX as int),
        ensures
            sum@ == self@.plus(other@),
    {
        Cyclotomic {
            c0: self.c0 + other.c0,
            c1: self.c1 + other.c1,
            c2: self.c2 + other.c2,
            c3: self.c3 + other.c3,
        }
    }

    pub fn minus(&self, other: &Cyclotomic) -> (difference: Cyclotomic)
        requires
            self@.minus(other@).within(i64::MAX as int),
        ensures
            difference@ == self@.minus(other@),
    {
        Cyclotomic {
            c0: self.c0 - other.c0,
            c1: self.c1 - other.c1,
            c2: self.c2 - other.c2,
            c3: self.c3 - other.c3,
        }
    }

    pub fn negated(&self) -> (negative: Cyclotomic)
        requires
            self@.within(i64::MAX as int),
        ensures
            negative@ == self@.negated(),
    {
        Cyclotomic { c0: -self.c0, c1: -self.c1, c2: -self.c2, c3: -self.c3 }
    }

    pub fn conjugate(&self) -> (conjugate: Cyclotomic)
        requires
            self@.within(i64::MAX as int),
        ensures
            conjugate@ == self@.conjugate(),
    {
        Cyclotomic { c0: self.c0, c1: -self.c3, c2: -self.c2, c3: -self.c1 }
    }

    /// The product, computed as the matrix of "multiply by `self`" applied to the
    /// coordinates of `other`. Column `j` of that matrix holds the coordinates of
    /// `self·ωʲ`.
    pub fn times(&self, other: &Cyclotomic) -> (product: Cyclotomic)
        requires
            self@.within(ENTRY_LIMIT as int),
            other@.within(ENTRY_LIMIT as int),
        ensures
            product@ == self@.times(other@),
    {
        let columns: [[i64; 4]; 4] = [
            [self.c0, self.c1, self.c2, self.c3],
            [-self.c3, self.c0, self.c1, self.c2],
            [-self.c2, -self.c3, self.c0, self.c1],
            [-self.c1, -self.c2, -self.c3, self.c0],
        ];
        let v: [i64; 4] = [other.c0, other.c1, other.c2, other.c3];
        let out = matrix_vector_product(&columns, &v);
        proof {
            lemma_signs(self.c3 as int, other.c1 as int);
            lemma_signs(self.c2 as int, other.c2 as int);
            lemma_signs(self.c1 as int, other.c3 as int);
            lemma_signs(self.c3 as int, other.c2 as int);
            lemma_signs(self.c2 as int, other.c3 as int);
            lemma_signs(self.c3 as int, other.c3 as int);
        }
        Cyclotomic { c0: out[0], c1: out[1], c2: out[2], c3: out[3] }
    }

    /// The squared modulus `|z|²`.
    pub fn norm(&self) -> (norm: Root2)
        requires
            self@.within(ENTRY_LIMIT as int),
        ensures
            norm@ == self@.norm(),
    {
        proof {
            let bound = ENTRY_LIMIT as int;
            lemma_product_within(self.c0 as int, self.c0 as int, bound);
            lemma_product_within(self.c1 as int, self.c1 as int, bound);
            lemma_product_within(self.c2 as int, self.c2 as int, bound);
            lemma_product_within(self.c3 as int, self.c3 as int, bound);
            lemma_product_within(self.c0 as int, self.c1 as int, bound);
            lemma_product_within(self.c1 as int, self.c2 as int, bound);
            lemma_product_within(self.c2 as int, self.c3 as int, bound);
            lemma_product_within(self.c3 as int, self.c0 as int, bound);
        }
        Root2 {
            rational: self.c0 * self.c0 + self.c1 * self.c1 + self.c2 * self.c2 + self.c3
                * self.c3,
            irrational: self.c0 * self.c1 + self.c1 * self.c2 + self.c2 * self.c3 - self.c3
                * self.c0,
        }
    }

    pub fn is_divisible_by_root2(&self) -> (divisible: bool)
        requires
            self@.within(ENTRY_LIMIT as int),
        ensures
            divisible == self@.divisible_by_root2(),
    {
        (self.c0 - self.c2) % 2 == 0 && (self.c1 - self.c3) % 2 == 0
    }

    pub fn divided_by_root2(&self) -> (quotient: Cyclotomic)
        requires
            self@.within(ENTRY_LIMIT as int),
            self@.divisible_by_root2(),
        ensures
            quotient@ == self@.divided_by_root2(),
            quotient@.times_root2() == self@,
    {
        Cyclotomic {
            c0: (self.c1 - self.c3) / 2,
            c1: (self.c0 + self.c2) / 2,
            c2: (self.c1 + self.c3) / 2,
            c3: (self.c2 - self.c0) / 2,
        }
    }
}

impl Root2 {
    pub fn plus(&self, other: &Root2) -> (sum: Root2)
        requires
            i64::MIN <= self.rational + other.rational <= i64::MAX,
            i64::MIN <= self.irrational + other.irrational <= i64::MAX,
        ensures
            sum@ == self@.plus(other@),
    {
        Root2 {
            rational: self.rational + other.rational,
            irrational: self.irrational + other.irrational,
        }
    }
}

} // verus!
