//! Measurement by the Born rule: one draw decides the outcome, and the state
//! collapses to the basis state that was seen.

use crate::cyclotomic::Root2;
use crate::joint::{tensor, JointState, JointVector};
use crate::power::{lemma_pow2_monotone, power_of_two};
use crate::qubit::{lemma_normalized_within, Qubit, QubitState, MAX_EXPONENT};
use crate::random::RandomSource;
use crate::ring::{
    lemma_norm_irrational_bounded, lemma_norm_positive, lemma_product_within, ZOmega, ZRoot2,
};
use vstd::arithmetic::power2::{lemma2_to64_rest, lemma_pow2_adds, pow2};
use vstd::prelude::*;

verus! {

/// The number of bits of a draw that a measurement reads.
pub const SAMPLE_BITS: u32 = 62;

/// The point of the unit interval that a draw stands for, counted in steps of
/// 2⁻⁶²: the upper 62 bits of the draw.
pub open spec fn sample_point(draw: u64) -> int {
    draw as int / 4
}

/// Whether the point `point / 2⁶²` lies below `weight / 2^exponent`, that is,
/// whether `weight · 2^(62 − exponent) − point` is positive.
pub open spec fn point_below(point: int, weight: ZRoot2, exponent: nat) -> bool {
    weight.scaled(pow2((SAMPLE_BITS - exponent) as nat) as int).minus(
        ZRoot2::integer(point),
    ).is_positive()
}

impl QubitState {
    /// The outcome of a measurement that is decided by `draw`: 0 where the
    /// draw's point lies below `|α|²`, else 1. Over uniformly distributed
    /// draws the outcome 1 has probability `|β|²`, up to 2⁻⁶².
    pub open spec fn outcome(self, draw: u64) -> bool {
        !point_below(sample_point(draw), self.weight_of_zero(), self.exponent)
    }
}

impl JointVector {
    /// `2^exponent` times the probability of an outcome `|0 0⟩`.
    pub open spec fn below_one(self) -> ZRoot2 {
        self.a00.norm()
    }

    /// `2^exponent` times the probability of an outcome `|0 0⟩` or `|0 1⟩`.
    pub open spec fn below_two(self) -> ZRoot2 {
        self.a00.norm().plus(self.a01.norm())
    }

    /// `2^exponent` times the probability of an outcome other than `|1 1⟩`.
    pub open spec fn below_three(self) -> ZRoot2 {
        self.a00.norm().plus(self.a01.norm()).plus(self.a10.norm())
    }

    /// The outcome `(control, target)` of a measurement of both qubits that is
    /// decided by `draw`: the first basis state, in the order
    /// `|00⟩, |01⟩, |10⟩, |11⟩`, at which the running sum of the probabilities
    /// passes the draw's point.
    pub open spec fn outcome(self, draw: u64) -> (bool, bool) {
        let point = sample_point(draw);
        if point_below(point, self.below_one(), self.exponent) {
            (false, false)
        } else if point_below(point, self.below_two(), self.exponent) {
            (false, true)
        } else if point_below(point, self.below_three(), self.exponent) {
            (true, false)
        } else {
            (true, true)
        }
    }

    /// The amplitude of the basis state `|control target⟩`.
    pub open spec fn amplitude(self, control: bool, target: bool) -> ZOmega {
        if control {
            if target {
                self.a11
            } else {
                self.a10
            }
        } else {
            if target {
                self.a01
            } else {
                self.a00
            }
        }
    }
}

/// A product of a number between 0 and `limit` with a number that is not negative.
proof fn lemma_scaled_within(value: int, limit: int, factor: int)
    by (nonlinear_arith)
    requires
        0 <= value <= limit,
        0 <= factor,
    ensures
        0 <= value * factor <= limit * factor,
{
}

/// Whether `a + b·√2` is positive.
fn is_positive(a: i128, b: i128) -> (positive: bool)
    requires
        -0x4000_0000_0000_0000 <= a <= 0x4000_0000_0000_0000,
        -0x4000_0000_0000_0000 <= b <= 0x4000_0000_0000_0000,
    ensures
        positive == (ZRoot2 { rational: a as int, irrational: b as int }).is_positive(),
{
    proof {
        lemma_product_within(a as int, a as int, 0x4000_0000_0000_0000);
        lemma_product_within(b as int, b as int, 0x4000_0000_0000_0000);
    }
    if a > 0 && b >= 0 {
        true
    } else if a >= 0 && b > 0 {
        true
    } else if a > 0 && b < 0 {
        a * a > 2 * (b * b)
    } else if a < 0 && b > 0 {
        2 * (b * b) > a * a
    } else {
        false
    }
}

/// Whether the point `point / 2⁶²` lies below `weight / 2^exponent`.
fn lies_below(point: u64, weight: &Root2, exponent: u32) -> (below: bool)
    requires
        point < 0x4000_0000_0000_0000,
        exponent <= 2 * MAX_EXPONENT,
        0 <= weight.rational <= pow2(exponent as nat),
        -weight.rational <= weight.irrational <= weight.rational,
    ensures
        below == point_below(point as int, weight@, exponent as nat),
{
    let scale = power_of_two(SAMPLE_BITS - exponent);
    proof {
        let one = pow2(exponent as nat) as int;
        lemma_pow2_adds(exponent as nat, (SAMPLE_BITS - exponent) as nat);
        lemma2_to64_rest();
        lemma_scaled_within(weight.rational as int, one, scale as int);
        lemma_scaled_within(weight.rational as int, weight.rational as int, scale as int);
        if weight.irrational >= 0 {
            lemma_scaled_within(weight.irrational as int, weight.rational as int, scale as int);
        } else {
            lemma_scaled_within(-weight.irrational as int, weight.rational as int, scale as int);
            assert((-weight.irrational) * scale == -(weight.irrational * scale))
                by (nonlinear_arith);
        }
        assert(scale * weight.rational == weight.rational * scale) by (nonlinear_arith);
        assert(scale * weight.irrational == weight.irrational * scale) by (nonlinear_arith);
    }
    let a: i128 = (weight.rational as i128) * (scale as i128) - (point as i128);
    let b: i128 = (weight.irrational as i128) * (scale as i128);
    is_positive(a, b)
}

/// The running sums of a normalized joint state's probabilities lie between 0 and 1.
proof fn lemma_running_sums(v: JointVector)
    requires
        v.is_normalized(),
    ensures
        0 <= v.below_one().rational <= pow2(v.exponent),
        -v.below_one().rational <= v.below_one().irrational <= v.below_one().rational,
        0 <= v.below_two().rational <= pow2(v.exponent),
        -v.below_two().rational <= v.below_two().irrational <= v.below_two().rational,
        0 <= v.below_three().rational <= pow2(v.exponent),
        -v.below_three().rational <= v.below_three().irrational <= v.below_three().rational,
{
    lemma_norm_positive(v.a00);
    lemma_norm_positive(v.a01);
    lemma_norm_positive(v.a10);
    lemma_norm_positive(v.a11);
    lemma_norm_irrational_bounded(v.a00);
    lemma_norm_irrational_bounded(v.a01);
    lemma_norm_irrational_bounded(v.a10);
    lemma_norm_irrational_bounded(v.a11);
}

impl Qubit {
    /// The basis state `|1⟩` for `true`, `|0⟩` for `false`.
    pub fn basis(bit: bool) -> (q: Qubit)
        ensures
            q@ == QubitState::basis(bit),
            q@.wf(),
    {
        if bit {
            Qubit::excited()
        } else {
            Qubit::ground()
        }
    }

    /// Measures the qubit, with the outcome decided by `draw`: the bit that was
    /// seen, and the basis state to which the qubit has collapsed.
    pub fn measure_with_draw(&self, draw: u64) -> (seen: (bool, Qubit))
        ensures
            seen.0 == self@.outcome(draw),
            seen.1@ == QubitState::basis(seen.0),
            seen.1@.wf(),
    {
        let alpha = self.alpha();
        let exponent = self.exponent();
        proof {
            lemma_normalized_within(self@);
            lemma_norm_positive(self@.alpha);
            lemma_norm_positive(self@.beta);
            lemma_norm_irrational_bounded(self@.alpha);
        }
        let weight = alpha.norm();
        let bit = !lies_below(draw / 4, &weight, exponent);
        (bit, Qubit::basis(bit))
    }

    /// Measures the qubit with one draw from `source`.
    ///
    /// Whatever is drawn, the outcome is one that the state gives a probability
    /// other than zero, and the qubit collapses to the matching basis state.
    pub fn measure<R: RandomSource>(&self, source: &mut R) -> (seen: (bool, Qubit))
        ensures
            exists|draw: u64| seen.0 == self@.outcome(draw),
            seen.1@ == QubitState::basis(seen.0),
            seen.1@.wf(),
            seen.0 ==> self@.beta != ZOmega::zero(),
            !seen.0 ==> self@.alpha != ZOmega::zero(),
    {
        let draw = source.next_draw();
        let _ = self.exponent();
        proof {
            lemma_outcome_has_weight(self@, draw);
        }
        self.measure_with_draw(draw)
    }
}

/// A measurement never gives an outcome of probability zero.
pub proof fn lemma_outcome_has_weight(s: QubitState, draw: u64)
    requires
        s.is_normalized(),
        s.exponent <= SAMPLE_BITS,
    ensures
        s.outcome(draw) ==> s.beta != ZOmega::zero(),
        !s.outcome(draw) ==> s.alpha != ZOmega::zero(),
{
    let scale = pow2((SAMPLE_BITS - s.exponent) as nat) as int;
    lemma_norm_positive(s.alpha);
    lemma_norm_positive(s.beta);
    lemma_pow2_adds(s.exponent, (SAMPLE_BITS - s.exponent) as nat);
    lemma2_to64_rest();
    assert(scale * 0 == 0);
    assert(scale * (pow2(s.exponent) as int) == 0x4000_0000_0000_0000) by (nonlinear_arith)
        requires
            pow2(s.exponent) * scale == 0x4000_0000_0000_0000,
    ;
}

impl JointState {
    /// Measures both qubits, with the outcome decided by the one `draw`: the bit
    /// seen of the control, the bit seen of the target, and the basis state to
    /// which the pair has collapsed.
    pub fn measure_joint_with_draw(&self, draw: u64) -> (seen: (bool, bool, JointState))
        ensures
            (seen.0, seen.1) == self@.outcome(draw),
            seen.2@ == JointVector::basis(seen.0, seen.1),
            seen.2@.is_normalized(),
    {
        let amplitudes = self.amplitudes();
        let exponent = self.exponent();
        proof {
            lemma_running_sums(self@);
            lemma_pow2_monotone(exponent as nat, 60);
            lemma2_to64_rest();
        }
        let point = draw / 4;
        let below_one = amplitudes[0].norm();
        let below_two = below_one.plus(&amplitudes[1].norm());
        let below_three = below_two.plus(&amplitudes[2].norm());
        let (control, target) = if lies_below(point, &below_one, exponent) {
            (false, false)
        } else if lies_below(point, &below_two, exponent) {
            (false, true)
        } else if lies_below(point, &below_three, exponent) {
            (true, false)
        } else {
            (true, true)
        };
        (control, target, tensor(Qubit::basis(control), Qubit::basis(target)))
    }

    /// Measures both qubits with one draw from `source`.
    ///
    /// Whatever is drawn, the pair of bits is one that the state gives a
    /// probability other than zero, and the state collapses to the matching
    /// basis state.
    pub fn measure_joint<R: RandomSource>(&self, source: &mut R) -> (seen: (
        bool,
        bool,
        JointState,
    ))
        ensures
            exists|draw: u64| (seen.0, seen.1) == self@.outcome(draw),
            seen.2@ == JointVector::basis(seen.0, seen.1),
            seen.2@.is_normalized(),
            self@.amplitude(seen.0, seen.1) != ZOmega::zero(),
    {
        let draw = source.next_draw();
        let _ = self.exponent();
        proof {
            lemma_joint_outcome_has_weight(self@, draw);
        }
        self.measure_joint_with_draw(draw)
    }
}

/// A measurement of both qubits never gives a pair of bits of probability zero.
pub proof fn lemma_joint_outcome_has_weight(v: JointVector, draw: u64)
    requires
        v.is_normalized(),
        v.exponent <= SAMPLE_BITS,
    ensures
        v.amplitude(v.outcome(draw).0, v.outcome(draw).1) != ZOmega::zero(),
{
    let scale = pow2((SAMPLE_BITS - v.exponent) as nat) as int;
    lemma_norm_positive(v.a00);
    lemma_norm_positive(v.a01);
    lemma_norm_positive(v.a10);
    lemma_norm_positive(v.a11);
    lemma_pow2_adds(v.exponent, (SAMPLE_BITS - v.exponent) as nat);
    lemma2_to64_rest();
    assert(scale * 0 == 0);
    assert(scale * (pow2(v.exponent) as int) == 0x4000_0000_0000_0000) by (nonlinear_arith)
        requires
            pow2(v.exponent) * scale == 0x4000_0000_0000_0000,
    ;
}

} // verus!
