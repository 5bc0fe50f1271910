use qubit_sim::cyclotomic::Cyclotomic;
use qubit_sim::error::EntangledStateError;
use qubit_sim::gate::{H, T, X, Z};
use qubit_sim::joint::{tensor, CNOT};
use qubit_sim::qubit::Qubit;

fn whole(n: i64) -> Cyclotomic {
    Cyclotomic::new(n, 0, 0, 0)
}

#[test]
fn the_tensor_product_multiplies_the_amplitudes() {
    let joint = tensor(Qubit::plus(), Qubit::minus());
    assert_eq!(joint.amplitudes(), [whole(1), whole(-1), whole(1), whole(-1)]);
    assert_eq!(joint.exponent(), 2);
    let joint = tensor(Qubit::ground(), Qubit::excited());
    assert_eq!(joint.amplitudes(), [whole(0), whole(1), whole(0), whole(0)]);
    assert_eq!(joint.exponent(), 0);
    let turned = T {}.apply(Qubit::plus());
    let joint = tensor(turned, turned);
    let omega = Cyclotomic::new(0, 1, 0, 0);
    assert_eq!(joint.amplitudes(), [whole(1), omega, omega, Cyclotomic::new(0, 0, 1, 0)]);
}

#[test]
fn cnot_swaps_the_last_two_amplitudes() {
    let turned = T {}.apply(Qubit::plus());
    let joint = CNOT {}.apply(tensor(Qubit::excited(), turned));
    let omega = Cyclotomic::new(0, 1, 0, 0);
    assert_eq!(joint.amplitudes(), [whole(0), whole(0), omega, whole(1)]);
    assert_eq!(joint.exponent(), 1);
    let back = CNOT {}.apply(joint);
    assert_eq!(back.amplitudes(), [whole(0), whole(0), whole(1), omega]);
    let untouched = CNOT {}.apply(tensor(Qubit::ground(), turned));
    assert_eq!(untouched.amplitudes(), [whole(1), omega, whole(0), whole(0)]);
}

#[test]
fn a_bell_pair_cannot_be_separated() {
    let bell = CNOT {}.apply(tensor(H {}.apply(Qubit::ground()), Qubit::ground()));
    assert_eq!(bell.amplitudes(), [whole(1), whole(0), whole(0), whole(1)]);
    assert_eq!(bell.exponent(), 1);
    assert!(bell.is_entangled());
    assert_eq!(bell.separate().err(), Some(EntangledStateError));
    let other = CNOT {}.apply(tensor(Qubit::minus(), T {}.apply(Qubit::plus())));
    assert!(other.is_entangled());
    assert_eq!(other.separate().err(), Some(EntangledStateError));
}

#[test]
fn a_product_separates_into_its_factors() {
    let control = T {}.apply(Qubit::plus());
    let target = H {}.apply(T {}.apply(Qubit::plus()));
    let joint = tensor(control, target);
    assert!(!joint.is_entangled());
    let (first, second) = joint.separate().unwrap();
    assert!(first.has_amplitudes_of(&control));
    assert!(second.has_amplitudes_of(&target));
    assert_eq!(tensor(first, second).amplitudes(), joint.amplitudes());
}

#[test]
fn cnot_twice_separates_again() {
    let control = Qubit::plus();
    let target = T {}.apply(Qubit::plus());
    let once = CNOT {}.apply(tensor(control, target));
    assert!(once.separate().is_err());
    let twice = CNOT {}.apply(once);
    let (first, second) = twice.separate().unwrap();
    assert!(first.has_amplitudes_of(&control));
    assert!(second.has_amplitudes_of(&target));
}

#[test]
fn cnot_with_a_basis_control_separates() {
    let target = T {}.apply(Qubit::plus());
    let joint = CNOT {}.apply(tensor(Qubit::excited(), target));
    let (first, second) = joint.separate().unwrap();
    assert!(first.has_amplitudes_of(&Qubit::excited()));
    assert!(second.has_amplitudes_of(&X {}.apply(target)));
    assert_eq!(tensor(first, second).amplitudes(), joint.amplitudes());
    let joint = CNOT {}.apply(tensor(Qubit::ground(), target));
    let (first, second) = joint.separate().unwrap();
    assert!(first.has_amplitudes_of(&Qubit::ground()));
    assert!(second.has_amplitudes_of(&target));
    assert_eq!(tensor(first, second).amplitudes(), joint.amplitudes());
}

#[test]
fn cnot_on_a_target_that_x_only_rescales_separates() {
    let control = T {}.apply(Qubit::plus());
    // X|+⟩ = |+⟩: nothing happens.
    let joint = CNOT {}.apply(tensor(control, Qubit::plus()));
    let (first, second) = joint.separate().unwrap();
    assert!(first.has_amplitudes_of(&control));
    assert!(second.has_amplitudes_of(&Qubit::plus()));
    assert_eq!(tensor(first, second).amplitudes(), joint.amplitudes());
    // X|−⟩ = −|−⟩: the sign goes to the control.
    let joint = CNOT {}.apply(tensor(control, Qubit::minus()));
    let (first, second) = joint.separate().unwrap();
    assert!(first.has_amplitudes_of(&Z {}.apply(control)));
    assert!(second.has_amplitudes_of(&Qubit::minus()));
    assert_eq!(tensor(first, second).amplitudes(), joint.amplitudes());
}
