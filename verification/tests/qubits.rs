use qubit_sim::cyclotomic::Cyclotomic;
use qubit_sim::error::NotNormalizedError;
use qubit_sim::gate::{H, T, Z};
use qubit_sim::qubit::{ket0, ket1, ket_minus, ket_plus, Qubit, MAX_EXPONENT};

fn whole(n: i64) -> Cyclotomic {
    Cyclotomic::new(n, 0, 0, 0)
}

#[test]
fn the_named_states_have_their_amplitudes() {
    let ground = Qubit::ground();
    assert_eq!((ground.alpha(), ground.beta(), ground.exponent()), (whole(1), whole(0), 0));
    let excited = Qubit::excited();
    assert_eq!((excited.alpha(), excited.beta(), excited.exponent()), (whole(0), whole(1), 0));
    let plus = Qubit::plus();
    assert_eq!((plus.alpha(), plus.beta(), plus.exponent()), (whole(1), whole(1), 1));
    let minus = Qubit::minus();
    assert_eq!((minus.alpha(), minus.beta(), minus.exponent()), (whole(1), whole(-1), 1));
    assert!(ket0().has_amplitudes_of(&ground));
    assert!(ket1().has_amplitudes_of(&excited));
    assert!(ket_plus().has_amplitudes_of(&plus));
    assert!(ket_minus().has_amplitudes_of(&minus));
    assert!(Qubit::basis(false).has_amplitudes_of(&ground));
    assert!(Qubit::basis(true).has_amplitudes_of(&excited));
}

#[test]
fn normalized_amplitudes_make_a_qubit() {
    let q = Qubit::from_amplitudes(whole(1), whole(0), 0).unwrap();
    assert!(q.has_amplitudes_of(&Qubit::ground()));
    let q = Qubit::from_amplitudes(whole(1), whole(-1), 1).unwrap();
    assert!(q.has_amplitudes_of(&Qubit::minus()));
    // (1 + ω, 1 − ω)/2: squared magnitudes (2 + √2)/4 and (2 − √2)/4.
    let q = Qubit::from_amplitudes(Cyclotomic::new(1, 1, 0, 0), Cyclotomic::new(1, -1, 0, 0), 2)
        .unwrap();
    assert!(q.has_amplitudes_of(&H {}.apply(T {}.apply(H {}.apply(Qubit::ground())))));
    // (3 + 4i, 0)/5 has length one, but 5 is no power of √2.
    let q = Qubit::from_amplitudes(Cyclotomic::new(0, 0, 1, 0), whole(0), 0).unwrap();
    assert!(q == Qubit::ground());
    assert!(!q.has_amplitudes_of(&Qubit::ground()));
}

#[test]
fn amplitudes_are_stored_in_lowest_terms() {
    let q = Qubit::from_amplitudes(whole(2), whole(0), 2).unwrap();
    assert_eq!((q.alpha(), q.beta(), q.exponent()), (whole(1), whole(0), 0));
    let root2 = Cyclotomic::new(0, 1, 0, -1);
    let q = Qubit::from_amplitudes(root2, root2, 2).unwrap();
    assert_eq!((q.alpha(), q.beta(), q.exponent()), (whole(1), whole(1), 1));
    let q = Qubit::from_amplitudes(whole(0), whole(32768), 30).unwrap();
    assert_eq!((q.alpha(), q.beta(), q.exponent()), (whole(0), whole(1), 0));
    let q = Qubit::from_amplitudes(whole(0), Cyclotomic::new(0, -16384, 0, 16384), 29).unwrap();
    assert_eq!((q.alpha(), q.beta(), q.exponent()), (whole(0), whole(-1), 0));
}

#[test]
fn amplitudes_that_are_not_normalized_are_refused() {
    assert_eq!(Qubit::from_amplitudes(whole(1), whole(1), 0).err(), Some(NotNormalizedError));
    assert_eq!(Qubit::from_amplitudes(whole(0), whole(0), 0).err(), Some(NotNormalizedError));
    assert_eq!(Qubit::from_amplitudes(whole(1), whole(0), 1).err(), Some(NotNormalizedError));
    assert_eq!(Qubit::from_amplitudes(whole(1), whole(1), 2).err(), Some(NotNormalizedError));
    assert_eq!(Qubit::from_amplitudes(whole(2), whole(0), 0).err(), Some(NotNormalizedError));
    // The rational parts sum to 4, but a multiple of √2 is left over.
    assert_eq!(
        Qubit::from_amplitudes(Cyclotomic::new(1, 1, 0, 0), Cyclotomic::new(1, 1, 0, 0), 2).err(),
        Some(NotNormalizedError)
    );
    // Far out of range.
    assert_eq!(
        Qubit::from_amplitudes(whole(i64::MAX), whole(i64::MIN), MAX_EXPONENT).err(),
        Some(NotNormalizedError)
    );
    assert_eq!(Qubit::from_amplitudes(whole(32769), whole(0), 30).err(), Some(NotNormalizedError));
}

#[test]
fn probabilities_are_exact() {
    let p = Qubit::ground().probability_of_one();
    assert_eq!((p.numerator.rational, p.numerator.irrational, p.exponent), (0, 0, 0));
    let p = Qubit::excited().probability_of_one();
    assert_eq!((p.numerator.rational, p.numerator.irrational, p.exponent), (1, 0, 0));
    let p = Qubit::minus().probability_of_one();
    assert_eq!((p.numerator.rational, p.numerator.irrational, p.exponent), (1, 0, 1));
    let p = Qubit::minus().probability_of_zero();
    assert_eq!((p.numerator.rational, p.numerator.irrational, p.exponent), (1, 0, 1));
}

#[test]
fn equality_is_up_to_global_phase() {
    let i = Cyclotomic::new(0, 0, 1, 0);
    let omega = Cyclotomic::new(0, 1, 0, 0);
    let turned = Qubit::from_amplitudes(i, i, 1).unwrap();
    assert!(turned == Qubit::plus());
    assert!(Qubit::plus() == turned);
    assert!(turned.equivalent(&Qubit::plus()));
    assert!(!turned.has_amplitudes_of(&Qubit::plus()));
    let turned = Qubit::from_amplitudes(omega, omega.negated(), 1).unwrap();
    assert!(turned == Qubit::minus());
    assert!(turned != Qubit::plus());
    // A relative phase is no global phase.
    assert!(Qubit::plus() != Qubit::minus());
    assert!(Z {}.apply(Qubit::plus()) != Qubit::plus());
    assert!(Qubit::ground() != Qubit::excited());
    assert!(Qubit::ground() != Qubit::plus());
    assert!(!Qubit::excited().equivalent(&Qubit::minus()));
}

#[test]
fn activate_and_deactivate_set_a_basis_state() {
    let mut q = Qubit::plus();
    q.activate();
    assert!(q.has_amplitudes_of(&Qubit::excited()));
    q.deactivate();
    assert!(q.has_amplitudes_of(&Qubit::ground()));
    q.deactivate();
    assert!(q.has_amplitudes_of(&Qubit::ground()));
}
