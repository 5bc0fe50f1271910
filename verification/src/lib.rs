//! Exact simulation of one- and two-qubit quantum logic.
//!
//! Amplitudes are numbers of the ring Z[ω, 1/√2], ω = e^{iπ/4}: a numerator
//! `c0 + c1·ω + c2·ω² + c3·ω³` with integer coefficients over a power of √2.
//! The ring is closed under the gates X, Y, Z, H, S, T and CNOT, so a state is
//! normalized exactly, not within a tolerance, and a probability is a number
//! `(a + b·√2) / 2^k` that a draw is compared with exactly.
//!
//! - [`ring`] holds the mathematical model and its algebra, [`order`] its order,
//! - [`cyclotomic`] the same numbers with machine-word coefficients,
//! - [`qubit`], [`gate`] and [`joint`] the states and what acts on them,
//! - [`measure`] and [`random`] the measurement and its source of randomness,
//! - [`laws`] what holds of all of them.

pub mod cyclotomic;
pub mod error;
pub mod gate;
pub mod joint;
pub mod laws;
pub mod linalg;
pub mod measure;
pub mod order;
pub mod power;
pub mod qubit;
pub mod random;
pub mod ring;
