use qubit_sim::cyclotomic::{Cyclotomic, Root2};
use qubit_sim::power::power_of_two;

#[test]
fn omega_is_an_eighth_root_of_unity() {
    let omega = Cyclotomic::new(0, 1, 0, 0);
    let i = omega.times(&omega);
    assert_eq!(i, Cyclotomic::new(0, 0, 1, 0));
    let minus_one = i.times(&i);
    assert_eq!(minus_one, Cyclotomic::new(-1, 0, 0, 0));
    assert_eq!(minus_one.times(&minus_one), Cyclotomic::one());
    assert_eq!(omega.times(&Cyclotomic::new(0, 0, 0, 1)), Cyclotomic::new(-1, 0, 0, 0));
}

#[test]
fn products_follow_the_ring() {
    let x = Cyclotomic::new(1, 2, 3, 4);
    let y = Cyclotomic::new(5, 6, 7, 8);
    // (1 + 2ω + 3ω² + 4ω³)(5 + 6ω + 7ω² + 8ω³), with ω⁴ = −1.
    assert_eq!(x.times(&y), Cyclotomic::new(-56, -36, 2, 60));
    assert_eq!(y.times(&x), Cyclotomic::new(-56, -36, 2, 60));
    assert_eq!(x.times(&Cyclotomic::one()), x);
    assert_eq!(Cyclotomic::one().times(&y), y);
    assert_eq!(x.times(&Cyclotomic::zero()), Cyclotomic::zero());
}

#[test]
fn products_at_the_limit_of_the_entries() {
    let limit = 1_073_741_824i64;
    let x = Cyclotomic::new(limit, limit, limit, limit);
    let y = Cyclotomic::new(limit, -limit, limit, -limit);
    let square = limit * limit;
    assert_eq!(x.times(&y), Cyclotomic::new(2 * square, 0, 2 * square, 0));
}

#[test]
fn root_two_is_omega_minus_its_cube() {
    let root2 = Cyclotomic::new(0, 1, 0, -1);
    assert_eq!(root2.times(&root2), Cyclotomic::new(2, 0, 0, 0));
    assert!(root2.is_divisible_by_root2());
    assert_eq!(root2.divided_by_root2(), Cyclotomic::one());
    assert!(!Cyclotomic::one().is_divisible_by_root2());
    assert!(!Cyclotomic::new(1, 1, 0, 0).is_divisible_by_root2());
    assert!(Cyclotomic::new(2, 0, 0, 0).is_divisible_by_root2());
    assert_eq!(Cyclotomic::new(2, 0, 0, 0).divided_by_root2(), root2);
    assert!(Cyclotomic::new(-3, 5, 1, -1).is_divisible_by_root2());
    let quotient = Cyclotomic::new(-3, 5, 1, -1).divided_by_root2();
    assert_eq!(quotient, Cyclotomic::new(3, -1, 2, 2));
    assert_eq!(quotient.times(&root2), Cyclotomic::new(-3, 5, 1, -1));
}

#[test]
fn sums_differences_and_conjugates() {
    let x = Cyclotomic::new(1, 2, 3, 4);
    let y = Cyclotomic::new(5, -6, 7, -8);
    assert_eq!(x.plus(&y), Cyclotomic::new(6, -4, 10, -4));
    assert_eq!(x.minus(&y), Cyclotomic::new(-4, 8, -4, 12));
    assert_eq!(x.negated(), Cyclotomic::new(-1, -2, -3, -4));
    assert_eq!(x.conjugate(), Cyclotomic::new(1, -4, -3, -2));
    assert!(Cyclotomic::zero().is_zero());
    assert!(!x.is_zero());
    assert!(x.is_within(4));
    assert!(!x.is_within(3));
    assert!(!y.is_within(7));
}

#[test]
fn the_norm_is_the_product_with_the_conjugate() {
    let x = Cyclotomic::new(1, 1, 0, 0);
    assert_eq!(x.norm(), Root2 { rational: 2, irrational: 1 });
    assert_eq!(x.times(&x.conjugate()), Cyclotomic::new(2, 1, 0, -1));
    let y = Cyclotomic::new(1, 2, 3, 4);
    // 1 + 4 + 9 + 16 and 1·2 + 2·3 + 3·4 − 4·1.
    assert_eq!(y.norm(), Root2 { rational: 30, irrational: 16 });
    assert_eq!(y.times(&y.conjugate()), Cyclotomic::new(30, 16, 0, -16));
    assert_eq!(Cyclotomic::zero().norm(), Root2 { rational: 0, irrational: 0 });
    let sum = x.norm().plus(&y.norm());
    assert_eq!(sum, Root2 { rational: 32, irrational: 17 });
}

#[test]
fn powers_of_two() {
    assert_eq!(power_of_two(0), 1);
    assert_eq!(power_of_two(1), 2);
    assert_eq!(power_of_two(30), 1_073_741_824);
    assert_eq!(power_of_two(62), 4_611_686_018_427_387_904);
}
