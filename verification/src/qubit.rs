//! A single qubit: a normalized pair of amplitudes.

use crate::cyclotomic::{Cyclotomic, Root2};
use crate::error::NotNormalizedError;
use crate::power::{lemma_pow2_monotone, power_of_two};
use crate::ring::{
    lemma_norm_bounds_coefficients, lemma_norm_positive, lemma_norm_times_root2,
    lemma_norm_within, lemma_root2_division, ZOmega, ZRoot2,
};
use vstd::arithmetic::power2::{lemma2_to64, lemma_pow2_unfold, pow2};
use vstd::prelude::*;

verus! {

/// The largest exponent of √2 in the denominator of a qubit's amplitudes.
pub const MAX_EXPONENT: u32 = 30;

/// The largest absolute value of a coefficient of a qubit's amplitudes: 2¹⁵.
pub const AMPLITUDE_LIMIT: i64 = 32768;

/// The state `(alpha, beta) / √2^exponent` of one qubit.
pub struct QubitState {
    pub alpha: ZOmega,
    pub beta: ZOmega,
    pub exponent: nat,
}

impl QubitState {
    /// The state `(alpha, beta) / √2^exponent`.
    pub open spec fn of(alpha: ZOmega, beta: ZOmega, exponent: nat) -> QubitState {
        QubitState { alpha, beta, exponent }
    }

    /// `|0⟩ = (1, 0)`.
    pub open spec fn ground() -> QubitState {
        QubitState { alpha: ZOmega::one(), beta: ZOmega::zero(), exponent: 0 }
    }

    /// `|1⟩ = (0, 1)`.
    pub open spec fn excited() -> QubitState {
        QubitState { alpha: ZOmega::zero(), beta: ZOmega::one(), exponent: 0 }
    }

    /// `|+⟩ = (1, 1)/√2`.
    pub open spec fn plus() -> QubitState {
        QubitState { alpha: ZOmega::one(), beta: ZOmega::one(), exponent: 1 }
    }

    /// `|−⟩ = (1, −1)/√2`.
    pub open spec fn minus() -> QubitState {
        QubitState { alpha: ZOmega::one(), beta: ZOmega::one().negated(), exponent: 1 }
    }

    /// The basis state `|1⟩` for `true`, `|0⟩` for `false`.
    pub open spec fn basis(bit: bool) -> QubitState {
        if bit {
            QubitState::excited()
        } else {
            QubitState::ground()
        }
    }

    /// `2^exponent` times the squared length `|α|² + |β|²` of the state.
    pub open spec fn squared_length(self) -> ZRoot2 {
        self.alpha.norm().plus(self.beta.norm())
    }

    /// `|α|² + |β|² = 1`, exactly.
    pub open spec fn is_normalized(self) -> bool {
        self.squared_length() == ZRoot2::integer(pow2(self.exponent) as int)
    }

    /// Whether the exponent is the least that can represent the state: no
    /// factor √2 is common to both numerators and the denominator.
    pub open spec fn is_reduced(self) -> bool {
        self.exponent == 0 || !(self.alpha.divisible_by_root2() && self.beta.divisible_by_root2())
    }

    /// What every qubit is: normalized, reduced, and within the exponent's range.
    pub open spec fn wf(self) -> bool {
        &&& self.is_normalized()
        &&& self.is_reduced()
        &&& self.exponent <= MAX_EXPONENT
    }

    /// The same state with a factor √2 cancelled.
    pub open spec fn lowered(self) -> QubitState {
        QubitState {
            alpha: self.alpha.divided_by_root2(),
            beta: self.beta.divided_by_root2(),
            exponent: (self.exponent - 1) as nat,
        }
    }

    /// The same state with every common factor √2 cancelled.
    pub open spec fn reduced(self) -> QubitState
        decreases self.exponent,
    {
        if self.exponent > 0 && self.alpha.divisible_by_root2() && self.beta.divisible_by_root2() {
            self.lowered().reduced()
        } else {
            self
        }
    }

    /// `2^exponent` times the probability `|β|²` of measuring 1.
    pub open spec fn weight_of_one(self) -> ZRoot2 {
        self.beta.norm()
    }

    /// `2^exponent` times the probability `|α|²` of measuring 0.
    pub open spec fn weight_of_zero(self) -> ZRoot2 {
        self.alpha.norm()
    }

    /// Whether both outcomes of a measurement have nonzero probability.
    pub open spec fn in_superposition(self) -> bool {
        self.alpha != ZOmega::zero() && self.beta != ZOmega::zero()
    }

    /// Equality up to global phase. Two normalized states differ by a scalar
    /// factor exactly if `α·β′ = β·α′`, and that factor then has modulus one.
    pub open spec fn equivalent(self, other: QubitState) -> bool {
        self.alpha.times(other.beta) == self.beta.times(other.alpha)
    }
}

/// The coefficients of a normalized state are bounded through its exponent.
pub proof fn lemma_normalized_within(s: QubitState)
    requires
        s.is_normalized(),
        s.exponent <= MAX_EXPONENT,
    ensures
        s.alpha.within(AMPLITUDE_LIMIT as int),
        s.beta.within(AMPLITUDE_LIMIT as int),
{
    lemma_pow2_monotone(s.exponent, 30);
    lemma2_to64();
    assert(pow2(30) == 32768 * 32768);
    lemma_norm_positive(s.alpha);
    lemma_norm_positive(s.beta);
    lemma_norm_bounds_coefficients(s.alpha, 32768);
    lemma_norm_bounds_coefficients(s.beta, 32768);
}

/// Cancelling a common factor √2 keeps a state normalized.
pub proof fn lemma_lowered_normalized(s: QubitState)
    requires
        s.is_normalized(),
        s.exponent > 0,
        s.alpha.divisible_by_root2(),
        s.beta.divisible_by_root2(),
    ensures
        s.lowered().is_normalized(),
{
    lemma_root2_division(s.alpha);
    lemma_root2_division(s.beta);
    lemma_norm_times_root2(s.lowered().alpha);
    lemma_norm_times_root2(s.lowered().beta);
    lemma_pow2_unfold(s.exponent);
}

/// Cancelling the common factors √2 keeps a state normalized, and leaves none.
pub proof fn lemma_reduced_normalized(s: QubitState)
    requires
        s.is_normalized(),
    ensures
        s.reduced().is_normalized(),
        s.reduced().is_reduced(),
        s.reduced().exponent <= s.exponent,
    decreases s.exponent,
{
    if s.exponent > 0 && s.alpha.divisible_by_root2() && s.beta.divisible_by_root2() {
        lemma_lowered_normalized(s);
        lemma_reduced_normalized(s.lowered());
    }
}

/// A reduced state is its own reduction.
pub proof fn lemma_reduced_fixed(s: QubitState)
    requires
        s.is_reduced(),
    ensures
        s.reduced() == s,
{
}

/// One qubit. Its state is normalized at every point at which it can be observed.
///
/// `==` on qubits is equality up to global phase: two qubits are equal if their
/// amplitude pairs differ by a scalar factor of modulus one, since no
/// measurement tells such states apart. It does not compare the components.
#[derive(Clone, Copy, Debug)]
pub struct Qubit {
    alpha: Cyclotomic,
    beta: Cyclotomic,
    exponent: u32,
}

/// A probability `numerator / 2^exponent`.
#[derive(Clone, Copy, Debug, PartialEq, Eq, Structural)]
pub struct Probability {
    pub numerator: Root2,
    pub exponent: u32,
}

impl View for Qubit {
    type V = QubitState;

    closed spec fn view(&self) -> QubitState {
        QubitState { alpha: self.alpha@, beta: self.beta@, exponent: self.exponent as nat }
    }
}

impl PartialEq for Qubit {
    fn eq(&self, other: &Qubit) -> (equal: bool) {
        self.equivalent(other)
    }
}

impl vstd::std_specs::cmp::PartialEqSpecImpl for Qubit {
    open spec fn obeys_eq_spec() -> bool {
        true
    }

    open spec fn eq_spec(&self, other: &Qubit) -> bool {
        self@.equivalent(other@)
    }
}

impl Qubit {
    #[verifier::type_invariant]
    pub closed spec fn well_formed(self) -> bool {
        self@.wf()
    }

    /// The qubit with the given numerators and exponent, reduced.
    pub(crate) fn from_parts(alpha: Cyclotomic, beta: Cyclotomic, exponent: u32) -> (q: Qubit)
        requires
            QubitState::of(alpha@, beta@, exponent as nat).is_normalized(),
            exponent <= MAX_EXPONENT,
        ensures
            q@ == QubitState::of(alpha@, beta@, exponent as nat).reduced(),
            q@.wf(),
    {
        let ghost start = QubitState::of(alpha@, beta@, exponent as nat);
        let mut alpha = alpha;
        let mut beta = beta;
        let mut exponent = exponent;
        proof {
            lemma_normalized_within(start);
        }
        while exponent > 0 && alpha.is_divisible_by_root2() && beta.is_divisible_by_root2()
            invariant
                QubitState::of(alpha@, beta@, exponent as nat).is_normalized(),
                QubitState::of(alpha@, beta@, exponent as nat).reduced() == start.reduced(),
                exponent <= MAX_EXPONENT,
                alpha@.within(AMPLITUDE_LIMIT as int),
                beta@.within(AMPLITUDE_LIMIT as int),
            decreases exponent,
        {
            proof {
                let current = QubitState::of(alpha@, beta@, exponent as nat);
                lemma_lowered_normalized(current);
                lemma_normalized_within(current.lowered());
            }
            alpha = alpha.divided_by_root2();
            beta = beta.divided_by_root2();
            exponent = exponent - 1;
        }
        proof {
            lemma_reduced_normalized(start);
        }
        Qubit { alpha, beta, exponent }
    }

    /// `|0⟩`.
    pub fn ground() -> (q: Qubit)
        ensures
            q@ == QubitState::ground(),
            q@.wf(),
    {
        proof {
            lemma2_to64();
        }
        Qubit { alpha: Cyclotomic::one(), beta: Cyclotomic::zero(), exponent: 0 }
    }

    /// `|1⟩`.
    pub fn excited() -> (q: Qubit)
        ensures
            q@ == QubitState::excited(),
            q@.wf(),
    {
        proof {
            lemma2_to64();
        }
        Qubit { alpha: Cyclotomic::zero(), beta: Cyclotomic::one(), exponent: 0 }
    }

    /// `|+⟩ = (|0⟩ + |1⟩)/√2`.
    pub fn plus() -> (q: Qubit)
        ensures
            q@ == QubitState::plus(),
            q@.wf(),
    {
        proof {
            lemma2_to64();
        }
        Qubit { alpha: Cyclotomic::one(), beta: Cyclotomic::one(), exponent: 1 }
    }

    /// `|−⟩ = (|0⟩ − |1⟩)/√2`.
    pub fn minus() -> (q: Qubit)
        ensures
            q@ == QubitState::minus(),
            q@.wf(),
    {
        proof {
            lemma2_to64();
        }
        Qubit { alpha: Cyclotomic::one(), beta: Cyclotomic::new(-1, 0, 0, 0), exponent: 1 }
    }

    /// The qubit `(alpha, beta) / √2^exponent`, if that state is normalized.
    pub fn from_amplitudes(alpha: Cyclotomic, beta: Cyclotomic, exponent: u32) -> (made: Result<
        Qubit,
        NotNormalizedError,
    >)
        requires
            exponent <= MAX_EXPONENT,
        ensures
            made is Ok <==> QubitState::of(alpha@, beta@, exponent as nat).is_normalized(),
            made matches Ok(q) ==> q@.wf() && q@ == QubitState::of(
                alpha@,
                beta@,
                exponent as nat,
            ).reduced(),
    {
        let ghost offered = QubitState::of(alpha@, beta@, exponent as nat);
        if !alpha.is_within(AMPLITUDE_LIMIT) || !beta.is_within(AMPLITUDE_LIMIT) {
            proof {
                if offered.is_normalized() {
                    lemma_normalized_within(offered);
                }
            }
            return Err(NotNormalizedError);
        }
        proof {
            lemma_norm_within(alpha@, AMPLITUDE_LIMIT as int);
            lemma_norm_within(beta@, AMPLITUDE_LIMIT as int);
        }
        let total = alpha.norm().plus(&beta.norm());
        if total.rational != power_of_two(exponent) || total.irrational != 0 {
            return Err(NotNormalizedError);
        }
        Ok(Qubit::from_parts(alpha, beta, exponent))
    }

    /// The numerator of the amplitude of `|0⟩`.
    pub fn alpha(&self) -> (alpha: Cyclotomic)
        ensures
            alpha@ == self@.alpha,
            self@.wf(),
    {
        proof {
            use_type_invariant(self);
        }
        self.alpha
    }

    /// The numerator of the amplitude of `|1⟩`.
    pub fn beta(&self) -> (beta: Cyclotomic)
        ensures
            beta@ == self@.beta,
            self@.wf(),
    {
        proof {
            use_type_invariant(self);
        }
        self.beta
    }

    /// The exponent of √2 in the denominator of both amplitudes.
    pub fn exponent(&self) -> (exponent: u32)
        ensures
            exponent == self@.exponent,
            exponent <= MAX_EXPONENT,
            self@.wf(),
    {
        proof {
            use_type_invariant(self);
        }
        self.exponent
    }

    /// The probability `|β|²` of measuring 1.
    pub fn probability_of_one(&self) -> (p: Probability)
        ensures
            p.numerator@ == self@.weight_of_one(),
            p.exponent == self@.exponent,
    {
        proof {
            use_type_invariant(self);
            lemma_normalized_within(self@);
        }
        Probability { numerator: self.beta.norm(), exponent: self.exponent }
    }

    /// The probability `|α|²` of measuring 0.
    pub fn probability_of_zero(&self) -> (p: Probability)
        ensures
            p.numerator@ == self@.weight_of_zero(),
            p.exponent == self@.exponent,
    {
        proof {
            use_type_invariant(self);
            lemma_normalized_within(self@);
        }
        Probability { numerator: self.alpha.norm(), exponent: self.exponent }
    }

    /// Whether both outcomes of a measurement have a probability other than zero.
    pub fn is_in_superposition(&self) -> (both: bool)
        ensures
            both == self@.in_superposition(),
    {
        !self.alpha.is_zero() && !self.beta.is_zero()
    }

    /// Whether the two qubits are in the same state up to global phase.
    pub fn equivalent(&self, other: &Qubit) -> (same: bool)
        ensures
            same == self@.equivalent(other@),
    {
        proof {
            use_type_invariant(self);
            use_type_invariant(other);
            lemma_normalized_within(self@);
            lemma_normalized_within(other@);
        }
        self.alpha.times(&other.beta) == self.beta.times(&other.alpha)
    }

    /// Whether the two qubits have the same amplitudes, global phase included.
    pub fn has_amplitudes_of(&self, other: &Qubit) -> (same: bool)
        ensures
            same == (self@ == other@),
    {
        self.alpha == other.alpha && self.beta == other.beta && self.exponent == other.exponent
    }

    /// Puts the qubit into `|1⟩`.
    pub fn activate(&mut self)
        ensures
            final(self)@ == QubitState::excited(),
    {
        *self = Qubit::excited();
    }

    /// Puts the qubit into `|0⟩`.
    pub fn deactivate(&mut self)
        ensures
            final(self)@ == QubitState::ground(),
    {
        *self = Qubit::ground();
    }
}

/// `|0⟩`.
pub fn ket0() -> (q: Qubit)
    ensures
        q@ == QubitState::ground(),
{
    Qubit::ground()
}

/// `|1⟩`.
pub fn ket1() -> (q: Qubit)
    ensures
        q@ == QubitState::excited(),
{
    Qubit::excited()
}

/// `|+⟩`.
pub fn ket_plus() -> (q: Qubit)
    ensures
        q@ == QubitState::plus(),
{
    Qubit::plus()
}

/// `|−⟩`.
pub fn ket_minus() -> (q: Qubit)
    ensures
        q@ == QubitState::minus(),
{
    Qubit::minus()
}

} // verus!
