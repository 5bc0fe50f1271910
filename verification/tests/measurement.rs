use qubit_sim::gate::{H, T, X};
use qubit_sim::joint::{tensor, CNOT};
use qubit_sim::qubit::{ket1, Qubit};
use qubit_sim::random::{RandomSource, ReplaySource, SeededSource, ThreadSource};

const HALF: u64 = 1 << 63;

/// The largest integer whose square is at most `n`.
fn integer_root(n: u128) -> u128 {
    let (mut low, mut high) = (0u128, 1u128 << 64);
    while low < high {
        let middle = (low + high + 1) / 2;
        if middle <= n / middle {
            low = middle;
        } else {
            high = middle - 1;
        }
    }
    low
}

#[test]
fn qubit_in_superposition_state_should_return_different_results() {
    let q = H {}.apply(ket1());
    let mut source = SeededSource::new(1);
    let mut ground_state_detected: bool = false;
    let mut active_state_detected: bool = false;
    for _ in 1..20 {
        let (bit, collapsed) = q.measure(&mut source);
        println!("Standard {},{}", collapsed.alpha().c0, collapsed.beta().c0);
        if collapsed.beta().c0 == 1 {
            assert!(bit);
            active_state_detected = true
        } else {
            assert!(!bit);
            ground_state_detected = true
        }
    }
    assert!(ground_state_detected);
    assert!(active_state_detected);
}

#[test]
fn the_draw_decides_the_outcome() {
    let plus = H {}.apply(Qubit::ground());
    // The outcome is 0 below one half, 1 from one half on.
    assert_eq!(plus.measure_with_draw(0).0, false);
    assert_eq!(plus.measure_with_draw(HALF - 1).0, false);
    assert_eq!(plus.measure_with_draw(HALF - 4).0, false);
    assert_eq!(plus.measure_with_draw(HALF).0, true);
    assert_eq!(plus.measure_with_draw(u64::MAX).0, true);
    let (bit, collapsed) = plus.measure_with_draw(12345);
    assert!(!bit);
    assert!(collapsed.has_amplitudes_of(&Qubit::ground()));
    let (bit, collapsed) = plus.measure_with_draw(u64::MAX - 12345);
    assert!(bit);
    assert!(collapsed.has_amplitudes_of(&Qubit::excited()));
}

#[test]
fn an_irrational_probability_is_compared_exactly() {
    // |α|² = (2 + √2)/4 for H·T·H|0⟩, and |β|² = (2 − √2)/4 for its flip.
    let q = H {}.apply(T {}.apply(H {}.apply(Qubit::ground())));
    let root = integer_root(1u128 << 121) as u64;
    assert_eq!(root, 1_630_477_228_166_597_776);
    let last_below = (1u64 << 61) + root;
    assert_eq!(q.measure_with_draw(4 * last_below).0, false);
    assert_eq!(q.measure_with_draw(4 * last_below + 3).0, false);
    assert_eq!(q.measure_with_draw(4 * (last_below + 1)).0, true);
    let flipped = X {}.apply(q);
    let last_below = (1u64 << 61) - root - 1;
    assert_eq!(flipped.measure_with_draw(4 * last_below).0, false);
    assert_eq!(flipped.measure_with_draw(4 * (last_below + 1)).0, true);
    assert_eq!(flipped.measure_with_draw(0).0, false);
    assert_eq!(flipped.measure_with_draw(u64::MAX).0, true);
}

#[test]
fn measuring_a_basis_state_changes_nothing() {
    let mut source = SeededSource::new(7);
    for draw in [0u64, 1, HALF - 1, HALF, HALF + 1, u64::MAX] {
        let (bit, collapsed) = Qubit::ground().measure_with_draw(draw);
        assert!(!bit);
        assert!(collapsed.has_amplitudes_of(&Qubit::ground()));
        let (bit, collapsed) = Qubit::excited().measure_with_draw(draw);
        assert!(bit);
        assert!(collapsed.has_amplitudes_of(&Qubit::excited()));
    }
    let (first, mut q) = H {}.apply(Qubit::ground()).measure(&mut source);
    for _ in 0..100 {
        let (bit, collapsed) = q.measure(&mut source);
        assert_eq!(bit, first);
        assert!(collapsed.has_amplitudes_of(&q));
        q = collapsed;
    }
}

#[test]
fn half_of_ten_thousand_measurements_give_one() {
    let q = H {}.apply(Qubit::ground());
    let mut source = SeededSource::new(20_240_229);
    let mut ones = 0u32;
    for _ in 0..10_000 {
        if q.measure(&mut source).0 {
            ones += 1;
        }
    }
    let frequency = ones as f64 / 10_000.0;
    assert!(0.45 <= frequency && frequency <= 0.55);
}

#[test]
fn the_frequency_follows_an_irrational_probability() {
    // |β|² = (2 − √2)/4 ≈ 0.1464.
    let q = H {}.apply(T {}.apply(H {}.apply(Qubit::ground())));
    let mut source = SeededSource::new(5);
    let mut ones = 0u32;
    for _ in 0..10_000 {
        if q.measure(&mut source).0 {
            ones += 1;
        }
    }
    let frequency = ones as f64 / 10_000.0;
    assert!((frequency - 0.1464).abs() <= 0.02);
}

#[test]
fn a_seed_repeats_its_draws_and_seeds_differ() {
    let mut first = SeededSource::new(99);
    let mut second = SeededSource::new(99);
    let mut other = SeededSource::new(100);
    let mut same = true;
    let mut differs = false;
    let mut previous = first.next_draw();
    assert_eq!(previous, second.next_draw());
    let mut moved = false;
    for _ in 0..32 {
        let a = first.next_draw();
        same = same && a == second.next_draw();
        differs = differs || a != other.next_draw();
        moved = moved || a != previous;
        previous = a;
    }
    assert!(same);
    assert!(differs);
    assert!(moved);
}

#[test]
fn the_thread_source_measures_too() {
    let q = H {}.apply(Qubit::ground());
    let mut source = ThreadSource {};
    let mut draws = Vec::new();
    for _ in 0..64 {
        let (bit, collapsed) = q.measure(&mut source);
        assert!(collapsed.has_amplitudes_of(&Qubit::basis(bit)));
        draws.push(source.next_draw());
    }
    draws.sort();
    draws.dedup();
    assert!(draws.len() > 1);
}

#[test]
fn entangled_qubits_are_measured_alike() {
    let bell = CNOT {}.apply(tensor(H {}.apply(Qubit::ground()), Qubit::ground()));
    let mut source = SeededSource::new(3);
    let (mut zeros, mut ones) = (0u32, 0u32);
    for _ in 0..1000 {
        let (control, target, collapsed) = bell.measure_joint(&mut source);
        assert_eq!(control, target);
        if control {
            ones += 1;
        } else {
            zeros += 1;
        }
        let (first, second) = collapsed.separate().unwrap();
        assert!(first.has_amplitudes_of(&Qubit::basis(control)));
        assert!(second.has_amplitudes_of(&Qubit::basis(target)));
        let again = collapsed.measure_joint(&mut source);
        assert_eq!((again.0, again.1), (control, target));
    }
    assert!(zeros > 400 && ones > 400);
    assert_eq!(bell.measure_joint_with_draw(0).0, false);
    assert_eq!(bell.measure_joint_with_draw(HALF - 1).1, false);
    assert_eq!(bell.measure_joint_with_draw(HALF).0, true);
    assert_eq!(bell.measure_joint_with_draw(u64::MAX).1, true);
}

#[test]
fn one_draw_picks_one_of_four_outcomes() {
    let both = tensor(H {}.apply(Qubit::ground()), H {}.apply(Qubit::ground()));
    let quarter = 1u64 << 62;
    let seen = |draw: u64| {
        let (control, target, _) = both.measure_joint_with_draw(draw);
        (control, target)
    };
    assert_eq!(seen(0), (false, false));
    assert_eq!(seen(quarter - 1), (false, false));
    assert_eq!(seen(quarter), (false, true));
    assert_eq!(seen(2 * quarter - 1), (false, true));
    assert_eq!(seen(2 * quarter), (true, false));
    assert_eq!(seen(3 * quarter - 1), (true, false));
    assert_eq!(seen(3 * quarter), (true, true));
    assert_eq!(seen(u64::MAX), (true, true));
    let flipped = tensor(X {}.apply(Qubit::ground()), H {}.apply(Qubit::ground()));
    let (control, target, collapsed) = flipped.measure_joint_with_draw(0);
    assert_eq!((control, target), (true, false));
    assert_eq!(collapsed.exponent(), 0);
    assert!(collapsed.amplitudes()[2].c0 == 1);
    assert!(collapsed.amplitudes()[0].is_zero());
    assert_eq!(flipped.measure_joint_with_draw(HALF).1, true);
}

#[test]
fn opposite_qubits_are_measured_unlike() {
    let pair = CNOT {}.apply(tensor(H {}.apply(Qubit::ground()), Qubit::excited()));
    let mut source = SeededSource::new(11);
    for _ in 0..200 {
        let (control, target, _) = pair.measure_joint(&mut source);
        assert_ne!(control, target);
    }
}

#[test]
fn a_replay_source_hands_out_its_list_in_turn() {
    let mut source = ReplaySource::new(vec![10, 20, 30]);
    assert_eq!(source.replay(), 10);
    assert_eq!(source.next_draw(), 20);
    assert_eq!(source.replay(), 30);
    assert_eq!(source.next_draw(), 10);
    assert_eq!(source.next_draw(), 20);
    let mut empty = ReplaySource::new(Vec::new());
    assert_eq!(empty.replay(), 0);
    assert_eq!(empty.next_draw(), 0);
    let mut single = ReplaySource::new(vec![u64::MAX]);
    assert_eq!(single.replay(), u64::MAX);
    assert_eq!(single.replay(), u64::MAX);
}

#[test]
fn measurement_from_a_replay_source_is_decided_by_the_list() {
    let plus = H {}.apply(Qubit::ground());
    let mut source = ReplaySource::new(vec![0, u64::MAX, HALF, HALF - 1]);
    let seen: Vec<bool> = (0..8).map(|_| plus.measure(&mut source).0).collect();
    assert_eq!(seen, vec![false, true, true, false, false, true, true, false]);
    let bell = CNOT {}.apply(tensor(plus, Qubit::ground()));
    let pairs: Vec<(bool, bool)> = (0..4)
        .map(|_| {
            let (control, target, _) = bell.measure_joint(&mut source);
            (control, target)
        })
        .collect();
    assert_eq!(pairs, vec![(false, false), (true, true), (true, true), (false, false)]);
}
