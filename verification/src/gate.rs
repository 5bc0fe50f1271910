//! Single-qubit gates: 2×2 unitary matrices over Z[ω, 1/√2].

use crate::cyclotomic::Cyclotomic;
use crate::error::NonUnitaryGateError;
use crate::power::power_of_two;
use crate::qubit::{
    lemma_normalized_within, lemma_reduced_fixed, Qubit, QubitState, AMPLITUDE_LIMIT,
    MAX_EXPONENT,
};
use crate::ring::{
    lemma_conjugate_times, lemma_norm_multiplicative, lemma_norm_of_sum, lemma_norm_within,
    lemma_root2_scaled_sum, lemma_root2_times_distributive, lemma_root2_times_integer,
    lemma_times_commutative, lemma_times_distributive, lemma_times_interchange, lemma_times_unit,
    lemma_times_within, lemma_unit_keeps_divisibility, ZOmega, ZRoot2,
};
use vstd::arithmetic::power2::{lemma2_to64, lemma_pow2_adds, pow2};
use vstd::prelude::*;

verus! {

/// The matrix `[[m00, m01], [m10, m11]] / √2^exponent`.
pub struct GateMatrix {
    pub m00: ZOmega,
    pub m01: ZOmega,
    pub m10: ZOmega,
    pub m11: ZOmega,
    pub exponent: nat,
}

impl GateMatrix {
    /// The matrix `[[m00, m01], [m10, m11]] / √2^exponent`.
    pub open spec fn of(
        m00: ZOmega,
        m01: ZOmega,
        m10: ZOmega,
        m11: ZOmega,
        exponent: nat,
    ) -> GateMatrix {
        GateMatrix { m00, m01, m10, m11, exponent }
    }

    /// X = [[0, 1], [1, 0]].
    pub open spec fn pauli_x() -> GateMatrix {
        GateMatrix {
            m00: ZOmega::zero(),
            m01: ZOmega::one(),
            m10: ZOmega::one(),
            m11: ZOmega::zero(),
            exponent: 0,
        }
    }

    /// Y = [[0, −i], [i, 0]].
    pub open spec fn pauli_y() -> GateMatrix {
        GateMatrix {
            m00: ZOmega::zero(),
            m01: ZOmega::i().negated(),
            m10: ZOmega::i(),
            m11: ZOmega::zero(),
            exponent: 0,
        }
    }

    /// Z = [[1, 0], [0, −1]].
    pub open spec fn pauli_z() -> GateMatrix {
        GateMatrix {
            m00: ZOmega::one(),
            m01: ZOmega::zero(),
            m10: ZOmega::zero(),
            m11: ZOmega::one().negated(),
            exponent: 0,
        }
    }

    /// H = [[1, 1], [1, −1]] / √2.
    pub open spec fn hadamard() -> GateMatrix {
        GateMatrix {
            m00: ZOmega::one(),
            m01: ZOmega::one(),
            m10: ZOmega::one(),
            m11: ZOmega::one().negated(),
            exponent: 1,
        }
    }

    /// S = [[1, 0], [0, i]].
    pub open spec fn phase() -> GateMatrix {
        GateMatrix {
            m00: ZOmega::one(),
            m01: ZOmega::zero(),
            m10: ZOmega::zero(),
            m11: ZOmega::i(),
            exponent: 0,
        }
    }

    /// T = [[1, 0], [0, ω]], ω = e^{iπ/4}.
    pub open spec fn eighth_turn() -> GateMatrix {
        GateMatrix {
            m00: ZOmega::one(),
            m01: ZOmega::zero(),
            m10: ZOmega::zero(),
            m11: ZOmega::omega(),
            exponent: 0,
        }
    }

    /// `M†·M = I`: the columns have length one and are orthogonal.
    pub open spec fn columns_orthonormal(self) -> bool {
        &&& self.m00.norm().plus(self.m10.norm()) == ZRoot2::integer(pow2(self.exponent) as int)
        &&& self.m01.norm().plus(self.m11.norm()) == ZRoot2::integer(pow2(self.exponent) as int)
        &&& self.m00.conjugate().times(self.m01).plus(self.m10.conjugate().times(self.m11))
            == ZOmega::zero()
    }

    /// `M·M† = I`: the rows have length one and are orthogonal.
    pub open spec fn rows_orthonormal(self) -> bool {
        &&& self.m00.norm().plus(self.m01.norm()) == ZRoot2::integer(pow2(self.exponent) as int)
        &&& self.m10.norm().plus(self.m11.norm()) == ZRoot2::integer(pow2(self.exponent) as int)
        &&& self.m00.times(self.m10.conjugate()).plus(self.m01.times(self.m11.conjugate()))
            == ZOmega::zero()
    }

    /// `M·M† = I = M†·M`.
    pub open spec fn is_unitary(self) -> bool {
        self.rows_orthonormal() && self.columns_orthonormal()
    }

    /// What every gate is: unitary, and within the exponent's range.
    pub open spec fn wf(self) -> bool {
        self.is_unitary() && self.exponent <= MAX_EXPONENT
    }

    /// The matrix applied to the state, `M·(α, β)ᵗ`, before any factor √2 is cancelled.
    pub open spec fn apply(self, s: QubitState) -> QubitState {
        QubitState {
            alpha: self.m00.times(s.alpha).plus(self.m01.times(s.beta)),
            beta: self.m10.times(s.alpha).plus(self.m11.times(s.beta)),
            exponent: self.exponent + s.exponent,
        }
    }
}

/// `|m·a + n·b|² = |m|²·|a|² + |n|²·|b|² + 2·Re((m̄·n)·(ā·b))`.
proof fn lemma_norm_of_row(m: ZOmega, n: ZOmega, a: ZOmega, b: ZOmega)
    ensures
        m.times(a).plus(n.times(b)).norm() == m.norm().times(a.norm()).plus(
            n.norm().times(b.norm()),
        ).plus(m.conjugate().times(n).times(a.conjugate().times(b)).twice_real_part()),
{
    lemma_norm_of_sum(m.times(a), n.times(b));
    lemma_norm_multiplicative(m, a);
    lemma_norm_multiplicative(n, b);
    lemma_conjugate_times(m, a);
    lemma_times_interchange(m.conjugate(), a.conjugate(), n, b);
}

/// A matrix with orthonormal columns keeps the length of every vector.
pub proof fn lemma_unitary_preserves_length(g: GateMatrix, s: QubitState)
    requires
        g.columns_orthonormal(),
    ensures
        g.apply(s).squared_length() == s.squared_length().scaled(pow2(g.exponent) as int),
        s.is_normalized() ==> g.apply(s).is_normalized(),
{
    let w = s.alpha.conjugate().times(s.beta);
    let p = g.m00.conjugate().times(g.m01);
    let q = g.m10.conjugate().times(g.m11);
    lemma_norm_of_row(g.m00, g.m01, s.alpha, s.beta);
    lemma_norm_of_row(g.m10, g.m11, s.alpha, s.beta);
    // The cross terms cancel, as the columns are orthogonal.
    lemma_times_commutative(p, w);
    lemma_times_commutative(q, w);
    lemma_times_distributive(w, p, q);
    lemma_times_commutative(w, ZOmega::zero());
    assert(p.times(w).plus(q.times(w)) == ZOmega::zero());
    // The squares add up, as the columns have length one.
    lemma_root2_times_distributive(g.m00.norm(), g.m10.norm(), s.alpha.norm());
    lemma_root2_times_distributive(g.m01.norm(), g.m11.norm(), s.beta.norm());
    lemma_root2_times_integer(pow2(g.exponent) as int, s.alpha.norm());
    lemma_root2_times_integer(pow2(g.exponent) as int, s.beta.norm());
    lemma_root2_scaled_sum(s.alpha.norm(), s.beta.norm(), pow2(g.exponent) as int);
    if s.is_normalized() {
        lemma_pow2_adds(g.exponent, s.exponent);
        assert(ZRoot2::integer(pow2(s.exponent) as int).scaled(pow2(g.exponent) as int)
            == ZRoot2::integer(pow2(g.exponent + s.exponent) as int)) by {
            assert(pow2(g.exponent) * 0 == 0);
        }
    }
}

/// The entries of a unitary matrix are bounded through its exponent.
pub proof fn lemma_unitary_within(g: GateMatrix)
    requires
        g.columns_orthonormal(),
        g.exponent <= MAX_EXPONENT,
    ensures
        g.m00.within(AMPLITUDE_LIMIT as int),
        g.m01.within(AMPLITUDE_LIMIT as int),
        g.m10.within(AMPLITUDE_LIMIT as int),
        g.m11.within(AMPLITUDE_LIMIT as int),
{
    lemma_normalized_within(QubitState::of(g.m00, g.m10, g.exponent));
    lemma_normalized_within(QubitState::of(g.m01, g.m11, g.exponent));
}

/// The norms and products of the entries of the six named gates.
proof fn lemma_unit_entries()
    ensures
        ZOmega::zero().norm() == ZRoot2::zero(),
        ZOmega::one().norm() == ZRoot2::integer(1),
        ZOmega::one().negated().norm() == ZRoot2::integer(1),
        ZOmega::i().norm() == ZRoot2::integer(1),
        ZOmega::i().negated().norm() == ZRoot2::integer(1),
        ZOmega::omega().norm() == ZRoot2::integer(1),
        ZOmega::one().conjugate() == ZOmega::one(),
        ZOmega::one().negated().conjugate() == ZOmega::one().negated(),
        ZOmega::zero().conjugate() == ZOmega::zero(),
        ZOmega::i().conjugate() == ZOmega::i().negated(),
        ZOmega::i().negated().conjugate() == ZOmega::i(),
        forall|x: ZOmega| #[trigger] ZOmega::zero().times(x) == ZOmega::zero(),
        forall|x: ZOmega| #[trigger] x.times(ZOmega::zero()) == ZOmega::zero(),
        forall|x: ZOmega| #[trigger] ZOmega::one().times(x) == x,
        forall|x: ZOmega| #[trigger] ZOmega::one().negated().times(x) == x.negated(),
{
    assert forall|x: ZOmega| #[trigger] ZOmega::zero().times(x) == ZOmega::zero() by {
        lemma_times_unit(x);
    }
    assert forall|x: ZOmega| #[trigger] x.times(ZOmega::zero()) == ZOmega::zero() by {
        lemma_times_unit(x);
        lemma_times_commutative(x, ZOmega::zero());
    }
    assert forall|x: ZOmega| #[trigger] ZOmega::one().times(x) == x by {
        lemma_times_unit(x);
    }
    assert forall|x: ZOmega| #[trigger] ZOmega::one().negated().times(x) == x.negated() by {
        lemma_times_unit(x);
    }
}

/// The six named gates are unitary.
pub proof fn lemma_named_gates_unitary()
    ensures
        GateMatrix::pauli_x().wf(),
        GateMatrix::pauli_y().wf(),
        GateMatrix::pauli_z().wf(),
        GateMatrix::hadamard().wf(),
        GateMatrix::phase().wf(),
        GateMatrix::eighth_turn().wf(),
{
    lemma2_to64();
    lemma_unit_entries();
}

/// A gate on one qubit.
#[derive(Clone, Copy, Debug, PartialEq, Eq, Structural)]
pub struct Gate {
    m00: Cyclotomic,
    m01: Cyclotomic,
    m10: Cyclotomic,
    m11: Cyclotomic,
    exponent: u32,
}

impl View for Gate {
    type V = GateMatrix;

    closed spec fn view(&self) -> GateMatrix {
        GateMatrix {
            m00: self.m00@,
            m01: self.m01@,
            m10: self.m10@,
            m11: self.m11@,
            exponent: self.exponent as nat,
        }
    }
}

impl Gate {
    #[verifier::type_invariant]
    pub closed spec fn well_formed(self) -> bool {
        self@.wf()
    }

    /// A gate with the matrix `[[m00, m01], [m10, m11]] / √2^exponent`, if that
    /// matrix is unitary.
    pub fn from_matrix(
        m00: Cyclotomic,
        m01: Cyclotomic,
        m10: Cyclotomic,
        m11: Cyclotomic,
        exponent: u32,
    ) -> (made: Result<Gate, NonUnitaryGateError>)
        requires
            exponent <= MAX_EXPONENT,
        ensures
            made is Ok <==> GateMatrix::of(m00@, m01@, m10@, m11@, exponent as nat).is_unitary(),
            made matches Ok(g) ==> g@.wf() && g@ == GateMatrix::of(
                m00@,
                m01@,
                m10@,
                m11@,
                exponent as nat,
            ),
    {
        let ghost offered = GateMatrix::of(m00@, m01@, m10@, m11@, exponent as nat);
        if !m00.is_within(AMPLITUDE_LIMIT) || !m01.is_within(AMPLITUDE_LIMIT) || !m10.is_within(
            AMPLITUDE_LIMIT,
        ) || !m11.is_within(AMPLITUDE_LIMIT) {
            proof {
                if offered.is_unitary() {
                    lemma_unitary_within(offered);
                }
            }
            return Err(NonUnitaryGateError);
        }
        let one = power_of_two(exponent);
        proof {
            let bound = AMPLITUDE_LIMIT as int;
            lemma_norm_within(m00@, bound);
            lemma_norm_within(m01@, bound);
            lemma_norm_within(m10@, bound);
            lemma_norm_within(m11@, bound);
            lemma_times_within(m00@.conjugate(), m01@, bound);
            lemma_times_within(m10@.conjugate(), m11@, bound);
            lemma_times_within(m00@, m10@.conjugate(), bound);
            lemma_times_within(m01@, m11@.conjugate(), bound);
        }
        let first_column = m00.norm().plus(&m10.norm());
        let second_column = m01.norm().plus(&m11.norm());
        let columns = m00.conjugate().times(&m01).plus(&m10.conjugate().times(&m11));
        let first_row = m00.norm().plus(&m01.norm());
        let second_row = m10.norm().plus(&m11.norm());
        let rows = m00.times(&m10.conjugate()).plus(&m01.times(&m11.conjugate()));
        if first_column.rational == one && first_column.irrational == 0 && second_column.rational
            == one && second_column.irrational == 0 && columns.is_zero() && first_row.rational
            == one && first_row.irrational == 0 && second_row.rational == one
            && second_row.irrational == 0 && rows.is_zero() {
            Ok(Gate { m00, m01, m10, m11, exponent })
        } else {
            Err(NonUnitaryGateError)
        }
    }

    /// The bit flip X.
    pub fn pauli_x() -> (g: Gate)
        ensures
            g@ == GateMatrix::pauli_x(),
            g@.wf(),
    {
        proof {
            lemma_named_gates_unitary();
        }
        Gate {
            m00: Cyclotomic::zero(),
            m01: Cyclotomic::one(),
            m10: Cyclotomic::one(),
            m11: Cyclotomic::zero(),
            exponent: 0,
        }
    }

    /// The combined bit and phase flip Y.
    pub fn pauli_y() -> (g: Gate)
        ensures
            g@ == GateMatrix::pauli_y(),
            g@.wf(),
    {
        proof {
            lemma_named_gates_unitary();
        }
        Gate {
            m00: Cyclotomic::zero(),
            m01: Cyclotomic::new(0, 0, -1, 0),
            m10: Cyclotomic::new(0, 0, 1, 0),
            m11: Cyclotomic::zero(),
            exponent: 0,
        }
    }

    /// The phase flip Z.
    pub fn pauli_z() -> (g: Gate)
        ensures
            g@ == GateMatrix::pauli_z(),
            g@.wf(),
    {
        proof {
            lemma_named_gates_unitary();
        }
        Gate {
            m00: Cyclotomic::one(),
            m01: Cyclotomic::zero(),
            m10: Cyclotomic::zero(),
            m11: Cyclotomic::new(-1, 0, 0, 0),
            exponent: 0,
        }
    }

    /// The Hadamard gate H.
    pub fn hadamard() -> (g: Gate)
        ensures
            g@ == GateMatrix::hadamard(),
            g@.wf(),
    {
        proof {
            lemma_named_gates_unitary();
        }
        Gate {
            m00: Cyclotomic::one(),
            m01: Cyclotomic::one(),
            m10: Cyclotomic::one(),
            m11: Cyclotomic::new(-1, 0, 0, 0),
            exponent: 1,
        }
    }

    /// The quarter-turn phase gate S.
    pub fn phase() -> (g: Gate)
        ensures
            g@ == GateMatrix::phase(),
            g@.wf(),
    {
        proof {
            lemma_named_gates_unitary();
        }
        Gate {
            m00: Cyclotomic::one(),
            m01: Cyclotomic::zero(),
            m10: Cyclotomic::zero(),
            m11: Cyclotomic::new(0, 0, 1, 0),
            exponent: 0,
        }
    }

    /// The eighth-turn phase gate T.
    pub fn eighth_turn() -> (g: Gate)
        ensures
            g@ == GateMatrix::eighth_turn(),
            g@.wf(),
    {
        proof {
            lemma_named_gates_unitary();
        }
        Gate {
            m00: Cyclotomic::one(),
            m01: Cyclotomic::zero(),
            m10: Cyclotomic::zero(),
            m11: Cyclotomic::new(0, 1, 0, 0),
            exponent: 0,
        }
    }

    /// Applies this gate to the qubit: `M·(α, β)ᵗ`, in reduced form.
    pub fn apply(&self, qubit: &Qubit) -> (out: Qubit)
        requires
            self@.exponent + qubit@.exponent <= MAX_EXPONENT,
        ensures
            out@ == self@.apply(qubit@).reduced(),
            out@.wf(),
    {
        let a = qubit.alpha();
        let b = qubit.beta();
        let k = qubit.exponent();
        proof {
            use_type_invariant(self);
            let bound = AMPLITUDE_LIMIT as int;
            lemma_normalized_within(qubit@);
            lemma_unitary_within(self@);
            lemma_times_within(self@.m00, a@, bound);
            lemma_times_within(self@.m01, b@, bound);
            lemma_times_within(self@.m10, a@, bound);
            lemma_times_within(self@.m11, b@, bound);
            lemma_unitary_preserves_length(self@, qubit@);
        }
        let alpha = self.m00.times(&a).plus(&self.m01.times(&b));
        let beta = self.m10.times(&a).plus(&self.m11.times(&b));
        Qubit::from_parts(alpha, beta, self.exponent + k)
    }

    /// Applies this gate to the qubit where the result is within the exponent's
    /// range, and says where it is not.
    pub fn try_apply(&self, qubit: &Qubit) -> (out: Option<Qubit>)
        ensures
            out is Some <==> self@.exponent + qubit@.exponent <= MAX_EXPONENT,
            out matches Some(q) ==> q@ == self@.apply(qubit@).reduced() && q@.wf(),
    {
        if self.exponent() + qubit.exponent() <= MAX_EXPONENT {
            Some(self.apply(qubit))
        } else {
            None
        }
    }

    /// The exponent of √2 in the denominator of the matrix.
    pub fn exponent(&self) -> (exponent: u32)
        ensures
            exponent == self@.exponent,
            exponent <= MAX_EXPONENT,
            self@.wf(),
    {
        proof {
            use_type_invariant(self);
        }
        self.exponent
    }
}

/// The bit flip: swaps the two amplitudes.
pub struct X {}

/// The combined bit and phase flip: `(α, β) ↦ (−i·β, i·α)`.
pub struct Y {}

/// The phase flip: negates the amplitude of `|1⟩`.
pub struct Z {}

/// The Hadamard gate: `(α, β) ↦ (α + β, α − β)/√2`.
pub struct H {}

/// The quarter-turn phase gate: multiplies the amplitude of `|1⟩` by i.
pub struct S {}

/// The eighth-turn phase gate: multiplies the amplitude of `|1⟩` by ω = e^{iπ/4}.
pub struct T {}

impl X {
    pub fn apply(&self, qubit: Qubit) -> (out: Qubit)
        ensures
            out@ == GateMatrix::pauli_x().apply(qubit@).reduced(),
            out@ == QubitState::of(qubit@.beta, qubit@.alpha, qubit@.exponent),
            out@.wf(),
    {
        let _ = qubit.exponent();
        proof {
            lemma_times_unit(qubit@.alpha);
            lemma_times_unit(qubit@.beta);
            lemma_unit_keeps_divisibility(qubit@.alpha);
            lemma_unit_keeps_divisibility(qubit@.beta);
            lemma_reduced_fixed(GateMatrix::pauli_x().apply(qubit@));
        }
        Gate::pauli_x().apply(&qubit)
    }
}

impl Y {
    pub fn apply(&self, qubit: Qubit) -> (out: Qubit)
        ensures
            out@ == GateMatrix::pauli_y().apply(qubit@).reduced(),
            out@ == QubitState::of(
                qubit@.beta.times_i().negated(),
                qubit@.alpha.times_i(),
                qubit@.exponent,
            ),
            out@.wf(),
    {
        let _ = qubit.exponent();
        proof {
            lemma_times_unit(qubit@.alpha);
            lemma_times_unit(qubit@.beta);
            lemma_unit_keeps_divisibility(qubit@.alpha);
            lemma_unit_keeps_divisibility(qubit@.beta);
            lemma_reduced_fixed(GateMatrix::pauli_y().apply(qubit@));
        }
        Gate::pauli_y().apply(&qubit)
    }
}

impl Z {
    pub fn apply(&self, qubit: Qubit) -> (out: Qubit)
        ensures
            out@ == GateMatrix::pauli_z().apply(qubit@).reduced(),
            out@ == QubitState::of(qubit@.alpha, qubit@.beta.negated(), qubit@.exponent),
            out@.wf(),
    {
        let _ = qubit.exponent();
        proof {
            lemma_times_unit(qubit@.alpha);
            lemma_times_unit(qubit@.beta);
            lemma_unit_keeps_divisibility(qubit@.alpha);
            lemma_unit_keeps_divisibility(qubit@.beta);
            lemma_reduced_fixed(GateMatrix::pauli_z().apply(qubit@));
        }
        Gate::pauli_z().apply(&qubit)
    }
}

impl H {
    pub fn apply(&self, qubit: Qubit) -> (out: Qubit)
        requires
            qubit@.exponent < MAX_EXPONENT,
        ensures
            out@ == GateMatrix::hadamard().apply(qubit@).reduced(),
            out@ == QubitState::of(
                qubit@.alpha.plus(qubit@.beta),
                qubit@.alpha.minus(qubit@.beta),
                qubit@.exponent + 1,
            ).reduced(),
            out@.wf(),
    {
        proof {
            lemma_times_unit(qubit@.alpha);
            lemma_times_unit(qubit@.beta);
        }
        Gate::hadamard().apply(&qubit)
    }
}

impl S {
    pub fn apply(&self, qubit: Qubit) -> (out: Qubit)
        ensures
            out@ == GateMatrix::phase().apply(qubit@).reduced(),
            out@ == QubitState::of(qubit@.alpha, qubit@.beta.times_i(), qubit@.exponent),
            out@.wf(),
    {
        let _ = qubit.exponent();
        proof {
            lemma_times_unit(qubit@.alpha);
            lemma_times_unit(qubit@.beta);
            lemma_unit_keeps_divisibility(qubit@.alpha);
            lemma_unit_keeps_divisibility(qubit@.beta);
            lemma_reduced_fixed(GateMatrix::phase().apply(qubit@));
        }
        Gate::phase().apply(&qubit)
    }
}

impl T {
    pub fn apply(&self, qubit: Qubit) -> (out: Qubit)
        ensures
            out@ == GateMatrix::eighth_turn().apply(qubit@).reduced(),
            out@ == QubitState::of(qubit@.alpha, qubit@.beta.times_omega(), qubit@.exponent),
            out@.wf(),
    {
        let _ = qubit.exponent();
        proof {
            lemma_times_unit(qubit@.alpha);
            lemma_times_unit(qubit@.beta);
            lemma_unit_keeps_divisibility(qubit@.alpha);
            lemma_unit_keeps_divisibility(qubit@.beta);
            lemma_reduced_fixed(GateMatrix::eighth_turn().apply(qubit@));
        }
        Gate::eighth_turn().apply(&qubit)
    }
}

} // verus!
