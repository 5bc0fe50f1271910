use approx::AbsDiffEq;
use qubit_sim::cyclotomic::Cyclotomic;
use qubit_sim::error::NonUnitaryGateError;
use qubit_sim::gate::{Gate, H, S, T, X, Y, Z};
use qubit_sim::qubit::{ket0, ket1, ket_minus, ket_plus, Qubit, MAX_EXPONENT};

fn squared_length(q: &Qubit) -> f64 {
    let scale = 2f64.powi(q.exponent() as i32);
    let zero = q.probability_of_zero().numerator;
    let one = q.probability_of_one().numerator;
    let rational = (zero.rational + one.rational) as f64;
    let irrational = (zero.irrational + one.irrational) as f64;
    (rational + irrational * 2f64.sqrt()) / scale
}

#[test]
fn x_gate_should_activate_qubit_in_ground_state() {
    assert!(X {}.apply(ket0()) == ket1())
}

#[test]
fn x_gate_should_deactivate_qubit_in_exited_state() {
    assert!(X {}.apply(ket1()) == ket0())
}

#[test]
fn h_gate_should_turn_qubit_state_to_superposition() {
    assert!(H {}.apply(ket1()).is_in_superposition())
}

#[test]
fn h_gate_should_turn_ket0_to_ket_plus() {
    assert!(H {}.apply(ket0()) == ket_plus())
}

#[test]
fn h_gate_should_turn_ket1_to_ket_minus() {
    assert!(H {}.apply(ket1()) == ket_minus())
}

#[test]
fn x_flips_the_basis_states_exactly() {
    assert!(X {}.apply(Qubit::ground()).has_amplitudes_of(&Qubit::excited()));
    assert!(X {}.apply(Qubit::excited()).has_amplitudes_of(&Qubit::ground()));
}

#[test]
fn h_on_the_basis_states_gives_the_exact_amplitudes() {
    let plus = H {}.apply(Qubit::ground());
    assert_eq!(plus.alpha(), Cyclotomic::new(1, 0, 0, 0));
    assert_eq!(plus.beta(), Cyclotomic::new(1, 0, 0, 0));
    assert_eq!(plus.exponent(), 1);
    let minus = H {}.apply(Qubit::excited());
    assert_eq!(minus.alpha(), Cyclotomic::new(1, 0, 0, 0));
    assert_eq!(minus.beta(), Cyclotomic::new(-1, 0, 0, 0));
    assert_eq!(minus.exponent(), 1);
}

#[test]
fn basis_states_are_not_in_superposition() {
    assert!(!Qubit::ground().is_in_superposition());
    assert!(!Qubit::excited().is_in_superposition());
    assert!(Qubit::plus().is_in_superposition());
    assert!(Qubit::minus().is_in_superposition());
}

#[test]
fn x_twice_is_the_identity() {
    for q in [Qubit::ground(), Qubit::excited(), Qubit::plus(), Qubit::minus()] {
        let back = X {}.apply(X {}.apply(q));
        assert!(back == q);
        assert!(back.has_amplitudes_of(&q));
    }
}

#[test]
fn h_twice_is_the_identity() {
    for q in [Qubit::ground(), Qubit::excited(), Qubit::plus(), Qubit::minus()] {
        let back = H {}.apply(H {}.apply(q));
        assert!(back == q);
        assert!(back.has_amplitudes_of(&q));
    }
    let q = T {}.apply(H {}.apply(Qubit::ground()));
    let back = H {}.apply(H {}.apply(q));
    assert!(back == q);
    assert!(back.has_amplitudes_of(&q));
}

#[test]
fn h_twice_cancels_the_factor_two() {
    let back = H {}.apply(H {}.apply(Qubit::ground()));
    assert_eq!(back.alpha(), Cyclotomic::new(1, 0, 0, 0));
    assert_eq!(back.beta(), Cyclotomic::new(0, 0, 0, 0));
    assert_eq!(back.exponent(), 0);
}

#[test]
fn z_negates_the_second_amplitude() {
    let q = Z {}.apply(Qubit::plus());
    assert!(q.has_amplitudes_of(&Qubit::minus()));
    assert!(Z {}.apply(Qubit::ground()).has_amplitudes_of(&Qubit::ground()));
    let flipped = Z {}.apply(Qubit::excited());
    assert_eq!(flipped.beta(), Cyclotomic::new(-1, 0, 0, 0));
    assert!(flipped == Qubit::excited());
    assert!(!flipped.has_amplitudes_of(&Qubit::excited()));
}

#[test]
fn y_flips_bit_and_phase() {
    let up = Y {}.apply(Qubit::ground());
    assert_eq!(up.alpha(), Cyclotomic::new(0, 0, 0, 0));
    assert_eq!(up.beta(), Cyclotomic::new(0, 0, 1, 0));
    let down = Y {}.apply(Qubit::excited());
    assert_eq!(down.alpha(), Cyclotomic::new(0, 0, -1, 0));
    assert_eq!(down.beta(), Cyclotomic::new(0, 0, 0, 0));
    assert!(up == Qubit::excited());
    assert!(down == Qubit::ground());
}

#[test]
fn s_and_t_turn_the_phase_of_the_second_amplitude() {
    let s = S {}.apply(Qubit::plus());
    assert_eq!(s.alpha(), Cyclotomic::new(1, 0, 0, 0));
    assert_eq!(s.beta(), Cyclotomic::new(0, 0, 1, 0));
    let t = T {}.apply(Qubit::plus());
    assert_eq!(t.alpha(), Cyclotomic::new(1, 0, 0, 0));
    assert_eq!(t.beta(), Cyclotomic::new(0, 1, 0, 0));
    assert_eq!(t.exponent(), 1);
    assert!(T {}.apply(t).has_amplitudes_of(&s));
    assert!(S {}.apply(s).has_amplitudes_of(&Qubit::minus()));
    assert!(s != Qubit::plus());
    assert!(t != Qubit::plus());
}

#[test]
fn t_eight_times_is_the_identity() {
    let start = H {}.apply(Qubit::ground());
    let mut q = start;
    for _ in 0..8 {
        q = T {}.apply(q);
    }
    assert!(q.has_amplitudes_of(&start));
}

#[test]
fn hzh_is_x() {
    for q in [Qubit::ground(), Qubit::excited(), Qubit::plus(), Qubit::minus()] {
        let left = H {}.apply(Z {}.apply(H {}.apply(q)));
        assert!(left.has_amplitudes_of(&X {}.apply(q)));
    }
}

#[test]
fn hth_has_an_irrational_probability() {
    // H·T·H|0⟩ = ((1 + ω)|0⟩ + (1 − ω)|1⟩)/2.
    let q = H {}.apply(T {}.apply(H {}.apply(Qubit::ground())));
    assert_eq!(q.alpha(), Cyclotomic::new(1, 1, 0, 0));
    assert_eq!(q.beta(), Cyclotomic::new(1, -1, 0, 0));
    assert_eq!(q.exponent(), 2);
    let zero = q.probability_of_zero();
    assert_eq!((zero.numerator.rational, zero.numerator.irrational, zero.exponent), (2, 1, 2));
    let one = q.probability_of_one();
    assert_eq!((one.numerator.rational, one.numerator.irrational, one.exponent), (2, -1, 2));
}

#[test]
fn every_gate_sequence_keeps_the_state_normalized() {
    let mut q = Qubit::ground();
    let mut step = 0u32;
    while step < 40 && q.exponent() < MAX_EXPONENT {
        q = match step % 6 {
            0 => H {}.apply(q),
            1 => T {}.apply(q),
            2 => X {}.apply(q),
            3 => S {}.apply(q),
            4 => Y {}.apply(q),
            _ => Z {}.apply(q),
        };
        assert!(squared_length(&q).abs_diff_eq(&1.0, 1e-9));
        step += 1;
    }
    assert!(step > 12);
}

#[test]
fn h_creates_an_equal_superposition() {
    let p = H {}.apply(Qubit::ground()).probability_of_one();
    assert_eq!((p.numerator.rational, p.numerator.irrational, p.exponent), (1, 0, 1));
    let value = (p.numerator.rational as f64 + p.numerator.irrational as f64 * 2f64.sqrt())
        / 2f64.powi(p.exponent as i32);
    assert!(value.abs_diff_eq(&0.5, 1e-12));
}

#[test]
fn builtin_gates_apply_as_their_matrices() {
    let q = T {}.apply(H {}.apply(Qubit::ground()));
    assert!(Gate::pauli_x().apply(&q).has_amplitudes_of(&X {}.apply(q)));
    assert!(Gate::pauli_y().apply(&q).has_amplitudes_of(&Y {}.apply(q)));
    assert!(Gate::pauli_z().apply(&q).has_amplitudes_of(&Z {}.apply(q)));
    assert!(Gate::hadamard().apply(&q).has_amplitudes_of(&H {}.apply(q)));
    assert!(Gate::phase().apply(&q).has_amplitudes_of(&S {}.apply(q)));
    assert!(Gate::eighth_turn().apply(&q).has_amplitudes_of(&T {}.apply(q)));
    assert_eq!(Gate::hadamard().exponent(), 1);
    assert_eq!(Gate::pauli_x().exponent(), 0);
}

#[test]
fn a_unitary_matrix_makes_a_gate() {
    let one = Cyclotomic::new(1, 0, 0, 0);
    let zero = Cyclotomic::new(0, 0, 0, 0);
    let i = Cyclotomic::new(0, 0, 1, 0);
    // The square root of X up to a phase: [[1, i], [i, 1]]/√2.
    let gate = Gate::from_matrix(one, i, i, one, 1).unwrap();
    let once = gate.apply(&Qubit::ground());
    assert_eq!(once.alpha(), one);
    assert_eq!(once.beta(), i);
    assert_eq!(once.exponent(), 1);
    let twice = gate.apply(&once);
    assert!(twice == Qubit::excited());
    assert_eq!(twice.alpha(), zero);
    assert_eq!(twice.beta(), i);
    assert_eq!(twice.exponent(), 0);
    assert_eq!(Gate::from_matrix(zero, one, one, zero, 0), Ok(Gate::pauli_x()));
}

#[test]
fn a_matrix_that_is_not_unitary_is_refused() {
    let one = Cyclotomic::new(1, 0, 0, 0);
    let zero = Cyclotomic::new(0, 0, 0, 0);
    // Rows of length one that are not orthogonal.
    assert_eq!(Gate::from_matrix(one, one, one, one, 1), Err(NonUnitaryGateError));
    // Orthogonal rows of the wrong length.
    assert_eq!(Gate::from_matrix(one, zero, zero, one, 1), Err(NonUnitaryGateError));
    assert_eq!(Gate::from_matrix(one, one, one, Cyclotomic::new(-1, 0, 0, 0), 0), Err(NonUnitaryGateError));
    // A projection.
    assert_eq!(Gate::from_matrix(one, zero, zero, zero, 0), Err(NonUnitaryGateError));
    // Entries beyond every unitary matrix of this exponent.
    let large = Cyclotomic::new(i64::MAX, 0, 0, 0);
    assert_eq!(Gate::from_matrix(large, zero, zero, large, 30), Err(NonUnitaryGateError));
}

#[test]
fn a_gate_beyond_the_range_of_the_exponent_is_not_applied() {
    let one = Cyclotomic::new(1, 0, 0, 0);
    let deep = Gate::from_matrix(
        Cyclotomic::new(32768, 0, 0, 0),
        Cyclotomic::new(0, 0, 0, 0),
        Cyclotomic::new(0, 0, 0, 0),
        Cyclotomic::new(32768, 0, 0, 0),
        30,
    )
    .unwrap();
    assert_eq!(deep.exponent(), 30);
    // The identity in a form that is not reduced: it applies to exponent 0 only.
    let same = deep.try_apply(&Qubit::ground()).unwrap();
    assert!(same.has_amplitudes_of(&Qubit::ground()));
    assert!(deep.try_apply(&Qubit::plus()).is_none());
    let flipped = Gate::pauli_x().try_apply(&Qubit::plus()).unwrap();
    assert!(flipped.has_amplitudes_of(&Qubit::plus()));
    let swapped = Gate::from_matrix(Cyclotomic::new(0, 0, 0, 0), one, one, Cyclotomic::new(0, 0, 0, 0), 0)
        .unwrap()
        .try_apply(&Qubit::ground())
        .unwrap();
    assert!(swapped.has_amplitudes_of(&Qubit::excited()));
}

#[test]
fn the_exponent_grows_only_as_far_as_it_must() {
    // (T·H)ⁿ|0⟩ needs a growing denominator; H·H needs none.
    let mut q = Qubit::ground();
    let mut largest = 0;
    while q.exponent() < MAX_EXPONENT {
        q = T {}.apply(H {}.apply(q));
        assert!(q.exponent() <= largest + 1);
        largest = largest.max(q.exponent());
        assert!(squared_length(&q).abs_diff_eq(&1.0, 1e-9));
    }
    assert_eq!(largest, MAX_EXPONENT);
    assert!(Gate::hadamard().try_apply(&q).is_none());
    assert!(Gate::eighth_turn().try_apply(&q).is_some());
    let mut q = Qubit::plus();
    for _ in 0..1000 {
        q = H {}.apply(q);
        assert!(q.exponent() <= 1);
    }
    assert!(q.has_amplitudes_of(&Qubit::plus()));
}
