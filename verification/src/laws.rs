//! What holds of every state, gate and measurement.

use crate::gate::{lemma_unitary_preserves_length, GateMatrix};
use crate::joint::{lemma_tensor_normalized, JointVector};
use crate::measure::{
    lemma_joint_outcome_has_weight, lemma_outcome_has_weight, point_below, sample_point,
    SAMPLE_BITS,
};
use crate::order::{lemma_norm_is_positive, lemma_positive_plus_integer};
use crate::qubit::{lemma_reduced_normalized, QubitState};
use crate::ring::{
    lemma_no_zero_divisors, lemma_norm_multiplicative, lemma_root2_division,
    lemma_root2_times_commutative, lemma_root2_times_distributive, lemma_root2_times_integer,
    lemma_times_associative, lemma_times_commutative, lemma_times_distributive,
    lemma_times_interchange, lemma_times_of_sums, lemma_times_root2_linear, lemma_times_unit,
    ZOmega, ZRoot2,
};
use vstd::arithmetic::power2::{lemma2_to64, lemma_pow2_adds, lemma_pow2_pos, pow2};
use vstd::prelude::*;

verus! {

/// The state after the gates of `circuit`, applied in turn from the first on,
/// each result in reduced form.
pub open spec fn run(circuit: Seq<GateMatrix>, s: QubitState) -> QubitState
    decreases circuit.len(),
{
    if circuit.len() == 0 {
        s
    } else {
        circuit.last().apply(run(circuit.drop_last(), s)).reduced()
    }
}

/// Whatever unitary gates are applied to a normalized state, in whatever
/// order, the state that results has `|α|² + |β|² = 1` exactly.
pub proof fn lemma_circuit_keeps_normalized(circuit: Seq<GateMatrix>, s: QubitState)
    requires
        s.is_normalized(),
        forall|i: int| 0 <= i < circuit.len() ==> (#[trigger] circuit[i]).is_unitary(),
    ensures
        run(circuit, s).is_normalized(),
    decreases circuit.len(),
{
    if circuit.len() > 0 {
        let before = run(circuit.drop_last(), s);
        lemma_circuit_keeps_normalized(circuit.drop_last(), s);
        lemma_unitary_preserves_length(circuit.last(), before);
        lemma_reduced_normalized(circuit.last().apply(before));
    }
}

/// Cancelling the common factors √2 of a state does not change which states
/// it is equal to up to global phase.
pub proof fn lemma_reduced_keeps_equivalence(s: QubitState, t: QubitState)
    ensures
        s.reduced().equivalent(t) == s.equivalent(t),
    decreases s.exponent,
{
    if s.exponent > 0 && s.alpha.divisible_by_root2() && s.beta.divisible_by_root2() {
        let l = s.lowered();
        lemma_root2_division(s.alpha);
        lemma_root2_division(s.beta);
        lemma_times_root2_linear(l.alpha, t.beta);
        lemma_times_root2_linear(l.beta, t.alpha);
        lemma_times_root2_linear(l.alpha.times(t.beta), l.beta.times(t.alpha));
        lemma_reduced_keeps_equivalence(l, t);
    }
}

/// A gate applied to a state in reduced form gives, up to global phase, what it
/// gives applied to the state as it was.
pub proof fn lemma_apply_after_reducing(g: GateMatrix, s: QubitState, t: QubitState)
    ensures
        g.apply(s.reduced()).equivalent(t) == g.apply(s).equivalent(t),
    decreases s.exponent,
{
    if s.exponent > 0 && s.alpha.divisible_by_root2() && s.beta.divisible_by_root2() {
        let l = s.lowered();
        lemma_root2_division(s.alpha);
        lemma_root2_division(s.beta);
        lemma_times_root2_linear(g.m00, l.alpha);
        lemma_times_root2_linear(g.m01, l.beta);
        lemma_times_root2_linear(g.m10, l.alpha);
        lemma_times_root2_linear(g.m11, l.beta);
        lemma_times_root2_linear(g.m00.times(l.alpha), g.m01.times(l.beta));
        lemma_times_root2_linear(g.m10.times(l.alpha), g.m11.times(l.beta));
        let low = g.apply(l);
        lemma_times_root2_linear(low.alpha, t.beta);
        lemma_times_root2_linear(low.beta, t.alpha);
        lemma_times_root2_linear(low.alpha.times(t.beta), low.beta.times(t.alpha));
        lemma_apply_after_reducing(g, l, t);
    }
}

/// Applying X twice returns the state: the amplitudes themselves where the
/// state is in reduced form, and the state up to global phase in any case.
pub proof fn lemma_x_twice(s: QubitState)
    ensures
        GateMatrix::pauli_x().apply(GateMatrix::pauli_x().apply(s)) == s,
        s.is_reduced() ==> GateMatrix::pauli_x().apply(
            GateMatrix::pauli_x().apply(s).reduced(),
        ).reduced() == s,
        GateMatrix::pauli_x().apply(
            GateMatrix::pauli_x().apply(s).reduced(),
        ).reduced().equivalent(s),
{
    let x = GateMatrix::pauli_x();
    let once = x.apply(s);
    lemma_times_unit(s.alpha);
    lemma_times_unit(s.beta);
    lemma_times_unit(once.alpha);
    lemma_times_unit(once.beta);
    lemma_equivalence_symmetric(s, s);
    lemma_apply_after_reducing(x, once, s);
    lemma_reduced_keeps_equivalence(x.apply(once.reduced()), s);
}

/// Applying H twice returns the state up to global phase.
pub proof fn lemma_h_twice(s: QubitState)
    ensures
        GateMatrix::hadamard().apply(
            GateMatrix::hadamard().apply(s).reduced(),
        ).reduced().equivalent(s),
{
    let h = GateMatrix::hadamard();
    let once = h.apply(s);
    let twice = h.apply(once);
    lemma_times_unit(s.alpha);
    lemma_times_unit(s.beta);
    lemma_times_unit(once.alpha);
    lemma_times_unit(once.beta);
    // H·H = 2·I: the state comes back doubled.
    assert(twice.alpha == s.alpha.plus(s.alpha));
    assert(twice.beta == s.beta.plus(s.beta));
    lemma_times_commutative(s.alpha.plus(s.alpha), s.beta);
    lemma_times_distributive(s.beta, s.alpha, s.alpha);
    lemma_times_commutative(s.beta.plus(s.beta), s.alpha);
    lemma_times_distributive(s.alpha, s.beta, s.beta);
    lemma_times_commutative(s.alpha, s.beta);
    assert(twice.equivalent(s));
    lemma_apply_after_reducing(h, once, s);
    lemma_reduced_keeps_equivalence(h.apply(once.reduced()), s);
}

/// A qubit that has collapsed to a basis state gives the same bit at every
/// later measurement, whatever is drawn.
pub proof fn lemma_measurement_repeats(bit: bool, draw: u64)
    ensures
        QubitState::basis(bit).outcome(draw) == bit,
{
    lemma2_to64();
    lemma_outcome_has_weight(QubitState::basis(bit), draw);
}

/// Where only `|00⟩` and `|11⟩` have an amplitude other than zero, a measurement
/// of both qubits gives the same bit twice, whatever is drawn.
pub proof fn lemma_outcomes_agree(v: JointVector, draw: u64)
    requires
        v.is_normalized(),
        v.exponent <= SAMPLE_BITS,
        v.a01 == ZOmega::zero(),
        v.a10 == ZOmega::zero(),
    ensures
        v.outcome(draw).0 == v.outcome(draw).1,
{
    lemma_joint_outcome_has_weight(v, draw);
}

/// Where only `|01⟩` and `|10⟩` have an amplitude other than zero, a measurement
/// of both qubits gives two different bits, whatever is drawn.
pub proof fn lemma_outcomes_differ(v: JointVector, draw: u64)
    requires
        v.is_normalized(),
        v.exponent <= SAMPLE_BITS,
        v.a00 == ZOmega::zero(),
        v.a11 == ZOmega::zero(),
    ensures
        v.outcome(draw).0 != v.outcome(draw).1,
{
    lemma_joint_outcome_has_weight(v, draw);
}

/// A joint state that has collapsed gives the same pair of bits at every later
/// measurement, whatever is drawn.
pub proof fn lemma_joint_measurement_repeats(control: bool, target: bool, draw: u64)
    ensures
        JointVector::basis(control, target).outcome(draw) == (control, target),
{
    let v = JointVector::basis(control, target);
    lemma2_to64();
    lemma_tensor_normalized(QubitState::basis(control), QubitState::basis(target));
    lemma_times_unit(ZOmega::zero());
    lemma_times_unit(ZOmega::one());
    lemma_joint_outcome_has_weight(v, draw);
}

/// A normalized state has an amplitude other than zero.
pub proof fn lemma_normalized_not_zero(s: QubitState)
    requires
        s.is_normalized(),
    ensures
        s.alpha != ZOmega::zero() || s.beta != ZOmega::zero(),
{
    lemma_pow2_pos(s.exponent);
}

/// Equality up to global phase is reflexive and symmetric.
pub proof fn lemma_equivalence_symmetric(s: QubitState, t: QubitState)
    ensures
        s.equivalent(s),
        s.equivalent(t) == t.equivalent(s),
{
    lemma_times_commutative(s.alpha, s.beta);
    lemma_times_commutative(s.alpha, t.beta);
    lemma_times_commutative(s.beta, t.alpha);
}

/// Equality up to global phase is transitive.
pub proof fn lemma_equivalence_transitive(s: QubitState, t: QubitState, u: QubitState)
    requires
        t.is_normalized(),
        s.equivalent(t),
        t.equivalent(u),
    ensures
        s.equivalent(u),
{
    let left = s.alpha.times(u.beta);
    let right = s.beta.times(u.alpha);
    // t.alpha·(s.alpha·u.beta) = t.alpha·(s.beta·u.alpha)
    assert(t.alpha.times(left) == t.alpha.times(right)) by {
        lemma_times_commutative(t.alpha, left);
        lemma_times_associative(s.alpha, u.beta, t.alpha);
        lemma_times_commutative(u.beta, t.alpha);
        lemma_times_associative(s.alpha, t.beta, u.alpha);
        lemma_times_associative(s.beta, t.alpha, u.alpha);
        lemma_times_commutative(t.alpha, u.alpha);
        lemma_times_associative(s.beta, u.alpha, t.alpha);
        lemma_times_commutative(t.alpha, right);
    }
    // t.beta·(s.alpha·u.beta) = t.beta·(s.beta·u.alpha)
    assert(t.beta.times(left) == t.beta.times(right)) by {
        lemma_times_commutative(t.beta, left);
        lemma_times_associative(s.alpha, u.beta, t.beta);
        lemma_times_commutative(u.beta, t.beta);
        lemma_times_associative(s.alpha, t.beta, u.beta);
        lemma_times_associative(s.beta, t.alpha, u.beta);
        lemma_times_commutative(t.beta, right);
        lemma_times_associative(s.beta, u.alpha, t.beta);
        lemma_times_commutative(u.alpha, t.beta);
    }
    lemma_times_distributive(t.alpha, left, right);
    lemma_times_distributive(t.beta, left, right);
    lemma_normalized_not_zero(t);
    lemma_no_zero_divisors(t.alpha, left.minus(right));
    lemma_no_zero_divisors(t.beta, left.minus(right));
}

/// In two states that are equal up to global phase, an amplitude has the same
/// squared magnitude: `|α|²·2^k′ = |α′|²·2^k` and `|β|²·2^k′ = |β′|²·2^k`.
pub proof fn lemma_equivalent_weights(s: QubitState, t: QubitState)
    requires
        s.is_normalized(),
        t.is_normalized(),
        s.equivalent(t),
    ensures
        s.weight_of_zero().scaled(pow2(t.exponent) as int) == t.weight_of_zero().scaled(
            pow2(s.exponent) as int,
        ),
        s.weight_of_one().scaled(pow2(t.exponent) as int) == t.weight_of_one().scaled(
            pow2(s.exponent) as int,
        ),
{
    let (a, b) = (s.alpha.norm(), s.beta.norm());
    let (c, d) = (t.alpha.norm(), t.beta.norm());
    let one_s = pow2(s.exponent) as int;
    let one_t = pow2(t.exponent) as int;
    lemma_norm_multiplicative(s.alpha, t.beta);
    lemma_norm_multiplicative(s.beta, t.alpha);
    assert(a.times(d) == b.times(c));
    // a·2^k′ = a·(c + d) = a·c + b·c = (a + b)·c = 2^k·c
    lemma_root2_times_distributive(c, d, a);
    lemma_root2_times_commutative(c, a);
    lemma_root2_times_commutative(d, a);
    lemma_root2_times_distributive(a, b, c);
    lemma_root2_times_integer(one_t, a);
    lemma_root2_times_integer(one_s, c);
    // b·2^k′ = b·(c + d) = a·d + b·d = (a + b)·d = 2^k·d
    lemma_root2_times_distributive(c, d, b);
    lemma_root2_times_commutative(c, b);
    lemma_root2_times_commutative(d, b);
    lemma_root2_times_distributive(a, b, d);
    lemma_root2_times_integer(one_t, b);
    lemma_root2_times_integer(one_s, d);
}

/// Two normalized states that are equal up to global phase differ by a scalar
/// factor of modulus one: there are `c` and `d ≠ 0` in Z[ω] with `d·(α′, β′) =
/// c·(α, β)` on the numerators, and `|c|²·2^k = |d|²·2^k′`, so that the factor
/// `(c/d)·√2^(k − k′)` between the two states has modulus one.
pub proof fn lemma_equivalent_states_differ_by_phase(s: QubitState, t: QubitState) -> (factor: (
    ZOmega,
    ZOmega,
))
    requires
        s.is_normalized(),
        t.is_normalized(),
        s.equivalent(t),
    ensures
        factor.1 != ZOmega::zero(),
        factor.1.times(t.alpha) == factor.0.times(s.alpha),
        factor.1.times(t.beta) == factor.0.times(s.beta),
        factor.0.norm().scaled(pow2(s.exponent) as int) == factor.1.norm().scaled(
            pow2(t.exponent) as int,
        ),
{
    lemma_equivalent_weights(s, t);
    lemma_normalized_not_zero(s);
    lemma_times_commutative(s.alpha, t.alpha);
    lemma_times_commutative(s.beta, t.beta);
    lemma_times_commutative(s.beta, t.alpha);
    lemma_times_commutative(s.alpha, t.beta);
    if s.alpha != ZOmega::zero() {
        (t.alpha, s.alpha)
    } else {
        (t.beta, s.beta)
    }
}

/// Two states that differ by a scalar factor are equal up to global phase.
pub proof fn lemma_scalar_multiples_are_equivalent(
    s: QubitState,
    t: QubitState,
    c: ZOmega,
    d: ZOmega,
)
    requires
        d != ZOmega::zero(),
        d.times(t.alpha) == c.times(s.alpha),
        d.times(t.beta) == c.times(s.beta),
    ensures
        s.equivalent(t),
{
    let left = s.alpha.times(t.beta);
    let right = s.beta.times(t.alpha);
    // d·(α·β′) = α·(c·β) = β·(c·α) = d·(β·α′)
    assert(d.times(left) == d.times(right)) by {
        lemma_times_commutative(d, left);
        lemma_times_associative(s.alpha, t.beta, d);
        lemma_times_commutative(t.beta, d);
        lemma_times_commutative(c, s.beta);
        lemma_times_associative(s.alpha, s.beta, c);
        lemma_times_commutative(s.alpha, s.beta);
        lemma_times_associative(s.beta, s.alpha, c);
        lemma_times_commutative(c, s.alpha);
        lemma_times_commutative(t.alpha, d);
        lemma_times_associative(s.beta, t.alpha, d);
        lemma_times_commutative(d, right);
    }
    lemma_times_distributive(d, left, right);
    lemma_no_zero_divisors(d, left.minus(right));
}

/// No measurement tells two states apart that are equal up to global phase:
/// every draw gives the same outcome on both.
pub proof fn lemma_global_phase_is_not_observed(s: QubitState, t: QubitState, draw: u64)
    requires
        s.is_normalized(),
        t.is_normalized(),
        s.exponent <= SAMPLE_BITS,
        t.exponent <= SAMPLE_BITS,
        s.equivalent(t),
    ensures
        s.outcome(draw) == t.outcome(draw),
{
    lemma_equivalent_weights(s, t);
    let x = s.weight_of_zero();
    let y = t.weight_of_zero();
    let one_s = pow2(s.exponent) as int;
    let one_t = pow2(t.exponent) as int;
    let rest_s = pow2((SAMPLE_BITS - s.exponent) as nat) as int;
    let rest_t = pow2((SAMPLE_BITS - t.exponent) as nat) as int;
    lemma_pow2_adds(s.exponent, (SAMPLE_BITS - s.exponent) as nat);
    lemma_pow2_adds(t.exponent, (SAMPLE_BITS - t.exponent) as nat);
    lemma_pow2_pos(s.exponent);
    lemma_pow2_pos(t.exponent);
    lemma_same_fraction(x.rational, one_s, rest_s, y.rational, one_t, rest_t);
    lemma_same_fraction(x.irrational, one_s, rest_s, y.irrational, one_t, rest_t);
}

/// `x / p = y / q` and `p·p′ = q·q′` give `x·p′ = y·q′`.
proof fn lemma_same_fraction(x: int, p: int, p_rest: int, y: int, q: int, q_rest: int)
    by (nonlinear_arith)
    requires
        0 < p,
        0 < q,
        q * x == p * y,
        p * p_rest == q * q_rest,
    ensures
        p_rest * x == q_rest * y,
{
    assert((p * q) * (p_rest * x) == (p * p_rest) * (q * x));
    assert((p * q) * (q_rest * y) == (q * q_rest) * (p * y));
    assert((p * q) * (p_rest * x - q_rest * y) == 0);
    assert(p * q != 0);
}

/// Gates respect equality up to global phase: applied to two states that are
/// equal so, a gate gives two states that are equal so.
pub proof fn lemma_gates_respect_phase(g: GateMatrix, s: QubitState, t: QubitState)
    requires
        s.equivalent(t),
    ensures
        g.apply(s).equivalent(g.apply(t)),
        g.apply(s).reduced().equivalent(g.apply(t).reduced()),
{
    let (a, b) = (s.alpha, s.beta);
    let (c, d) = (t.alpha, t.beta);
    lemma_times_of_sums(g.m00.times(a), g.m01.times(b), g.m10.times(c), g.m11.times(d));
    lemma_times_of_sums(g.m10.times(a), g.m11.times(b), g.m00.times(c), g.m01.times(d));
    // The four products on each side, as products of a pair of entries with a
    // pair of amplitudes.
    lemma_times_interchange(g.m00, a, g.m10, c);
    lemma_times_interchange(g.m00, a, g.m11, d);
    lemma_times_interchange(g.m01, b, g.m10, c);
    lemma_times_interchange(g.m01, b, g.m11, d);
    lemma_times_interchange(g.m10, a, g.m00, c);
    lemma_times_interchange(g.m10, a, g.m01, d);
    lemma_times_interchange(g.m11, b, g.m00, c);
    lemma_times_interchange(g.m11, b, g.m01, d);
    lemma_times_commutative(g.m00, g.m10);
    lemma_times_commutative(g.m00, g.m11);
    lemma_times_commutative(g.m01, g.m10);
    lemma_times_commutative(g.m01, g.m11);
    lemma_times_commutative(a, c);
    lemma_times_commutative(b, d);
    lemma_times_commutative(b, c);
    lemma_times_commutative(a, d);
    assert(g.apply(s).equivalent(g.apply(t)));
    lemma_reduced_keeps_equivalence(g.apply(s), g.apply(t));
    lemma_equivalence_symmetric(g.apply(s).reduced(), g.apply(t));
    lemma_reduced_keeps_equivalence(g.apply(t), g.apply(s).reduced());
    lemma_equivalence_symmetric(g.apply(t).reduced(), g.apply(s).reduced());
}

/// A tensor product has determinant zero: no product state counts as entangled.
pub proof fn lemma_tensor_is_separable(control: QubitState, target: QubitState)
    ensures
        JointVector::tensor(control, target).is_separable(),
{
    lemma_times_interchange(control.alpha, target.alpha, control.beta, target.beta);
    lemma_times_interchange(control.alpha, target.beta, control.beta, target.alpha);
    lemma_times_commutative(target.alpha, target.beta);
}

/// CNOT is its own inverse, and keeps a state normalized.
pub proof fn lemma_cnot_twice(v: JointVector)
    ensures
        v.cnot().cnot() == v,
        v.is_normalized() ==> v.cnot().is_normalized(),
{
}

/// The draws that give the outcome 0 come first: where a draw gives 0, so does
/// every smaller draw. With the probability `|α|²` of 0 as the upper end of
/// their points, this is the Born rule.
pub proof fn lemma_smaller_draws_give_zero(s: QubitState, smaller: u64, larger: u64)
    requires
        smaller <= larger,
        !s.outcome(larger),
    ensures
        !s.outcome(smaller),
{
    let scale = pow2((SAMPLE_BITS - s.exponent) as nat) as int;
    lemma_positive_plus_integer(
        s.weight_of_zero().scaled(scale).minus(ZRoot2::integer(sample_point(larger))),
        sample_point(larger) - sample_point(smaller),
    );
}

/// The pairs of bits of a joint measurement come in the order `00, 01, 10, 11`
/// as the draw grows: a smaller draw never gives a later pair.
pub proof fn lemma_smaller_draws_give_earlier_pairs(v: JointVector, smaller: u64, larger: u64)
    requires
        smaller <= larger,
    ensures
        v.outcome(smaller).0 ==> v.outcome(larger).0,
        v.outcome(smaller).0 == v.outcome(larger).0 && v.outcome(smaller).1 ==> v.outcome(
            larger,
        ).1,
{
    let scale = pow2((SAMPLE_BITS - v.exponent) as nat) as int;
    let step = sample_point(larger) - sample_point(smaller);
    let point = ZRoot2::integer(sample_point(larger));
    if point_below(sample_point(larger), v.below_one(), v.exponent) {
        lemma_positive_plus_integer(v.below_one().scaled(scale).minus(point), step);
    }
    if point_below(sample_point(larger), v.below_two(), v.exponent) {
        lemma_positive_plus_integer(v.below_two().scaled(scale).minus(point), step);
    }
    if point_below(sample_point(larger), v.below_three(), v.exponent) {
        lemma_positive_plus_integer(v.below_three().scaled(scale).minus(point), step);
    }
}

/// The two probabilities of a normalized state are real numbers that are not
/// negative and sum to one.
pub proof fn lemma_probabilities_sum_to_one(s: QubitState)
    requires
        s.is_normalized(),
    ensures
        !s.weight_of_zero().negated().is_positive(),
        !s.weight_of_one().negated().is_positive(),
        s.weight_of_zero().plus(s.weight_of_one()) == ZRoot2::integer(pow2(s.exponent) as int),
{
    lemma_norm_is_positive(s.alpha);
    lemma_norm_is_positive(s.beta);
}

} // verus!
