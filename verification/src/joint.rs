//! Two qubits together: the joint state, the tensor product, CNOT, and the
//! factoring of a product state.

use crate::cyclotomic::Cyclotomic;
use crate::error::EntangledStateError;
use crate::gate::{X, Z};
use crate::power::lemma_pow2_monotone;
use crate::qubit::{lemma_normalized_within, Qubit, QubitState, MAX_EXPONENT};
use crate::ring::{
    lemma_no_zero_divisors, lemma_norm_bounds_coefficients, lemma_norm_multiplicative,
    lemma_norm_positive,
    lemma_root2_scaled_sum, lemma_root2_times_distributive, lemma_root2_times_integer,
    lemma_negated_factor, lemma_times_commutative, lemma_times_distributive,
    lemma_times_interchange, lemma_times_unit, ZOmega, ZRoot2,
};
use vstd::arithmetic::power2::{lemma2_to64_rest, lemma_pow2_adds, pow2};
use vstd::prelude::*;

verus! {

/// The state `(a00, a01, a10, a11) / √2^exponent` of two qubits, indexed by the
/// basis states `|00⟩, |01⟩, |10⟩, |11⟩`: control first, target second.
pub struct JointVector {
    pub a00: ZOmega,
    pub a01: ZOmega,
    pub a10: ZOmega,
    pub a11: ZOmega,
    pub exponent: nat,
}

impl JointVector {
    /// The outer product `(α·α′, α·β′, β·α′, β·β′)` of two single-qubit states.
    pub open spec fn tensor(control: QubitState, target: QubitState) -> JointVector {
        JointVector {
            a00: control.alpha.times(target.alpha),
            a01: control.alpha.times(target.beta),
            a10: control.beta.times(target.alpha),
            a11: control.beta.times(target.beta),
            exponent: control.exponent + target.exponent,
        }
    }

    /// The state after CNOT: the amplitudes of `|10⟩` and `|11⟩` change places.
    pub open spec fn cnot(self) -> JointVector {
        JointVector {
            a00: self.a00,
            a01: self.a01,
            a10: self.a11,
            a11: self.a10,
            exponent: self.exponent,
        }
    }

    /// `2^exponent` times the squared length of the state.
    pub open spec fn squared_length(self) -> ZRoot2 {
        self.a00.norm().plus(self.a01.norm()).plus(self.a10.norm()).plus(self.a11.norm())
    }

    /// The four squared magnitudes sum to one, exactly.
    pub open spec fn is_normalized(self) -> bool {
        self.squared_length() == ZRoot2::integer(pow2(self.exponent) as int)
    }

    /// Whether the determinant `a00·a11 − a01·a10` is zero: the condition under
    /// which the state is a tensor product of two single-qubit states.
    pub open spec fn is_separable(self) -> bool {
        self.a00.times(self.a11) == self.a01.times(self.a10)
    }

    /// The basis state `|control target⟩`.
    pub open spec fn basis(control: bool, target: bool) -> JointVector {
        JointVector::tensor(QubitState::basis(control), QubitState::basis(target))
    }
}

/// The tensor product of two normalized states is normalized.
pub proof fn lemma_tensor_normalized(control: QubitState, target: QubitState)
    requires
        control.is_normalized(),
        target.is_normalized(),
    ensures
        JointVector::tensor(control, target).is_normalized(),
{
    let one_c = pow2(control.exponent) as int;
    lemma_norm_multiplicative(control.alpha, target.alpha);
    lemma_norm_multiplicative(control.alpha, target.beta);
    lemma_norm_multiplicative(control.beta, target.alpha);
    lemma_norm_multiplicative(control.beta, target.beta);
    lemma_root2_times_distributive(control.alpha.norm(), control.beta.norm(), target.alpha.norm());
    lemma_root2_times_distributive(control.alpha.norm(), control.beta.norm(), target.beta.norm());
    lemma_root2_times_integer(one_c, target.alpha.norm());
    lemma_root2_times_integer(one_c, target.beta.norm());
    lemma_root2_scaled_sum(target.alpha.norm(), target.beta.norm(), one_c);
    lemma_pow2_adds(control.exponent, target.exponent);
    assert(ZRoot2::integer(pow2(target.exponent) as int).scaled(one_c) == ZRoot2::integer(
        pow2(control.exponent + target.exponent) as int,
    )) by {
        assert(one_c * 0 == 0);
    }
}

/// Where CNOT of a product state is again a product state: the control is a
/// basis state, or the target is `|+⟩` or `|−⟩` up to a scalar.
pub proof fn lemma_cnot_of_product_separable(control: QubitState, target: QubitState)
    requires
        JointVector::tensor(control, target).cnot().is_separable(),
    ensures
        control.alpha == ZOmega::zero() || control.beta == ZOmega::zero() || target.alpha
            == target.beta || target.alpha == target.beta.negated(),
{
    let (ac, bc, at, bt) = (control.alpha, control.beta, target.alpha, target.beta);
    let difference = at.minus(bt);
    let sum = at.plus(bt);
    // (ac·at)·(bc·at) = (ac·bt)·(bc·bt), so (ac·bc)·(at·at − bt·bt) = 0.
    lemma_times_interchange(ac, at, bc, at);
    lemma_times_interchange(ac, bt, bc, bt);
    lemma_times_distributive(ac.times(bc), at.times(at), bt.times(bt));
    // at·at − bt·bt = (at − bt)·(at + bt).
    lemma_times_distributive(difference, at, bt);
    lemma_times_commutative(difference, at);
    lemma_times_commutative(difference, bt);
    lemma_times_distributive(at, at, bt);
    lemma_times_distributive(bt, at, bt);
    lemma_times_commutative(at, bt);
    assert(difference.times(sum) == at.times(at).minus(bt.times(bt)));
    lemma_no_zero_divisors(ac.times(bc), difference.times(sum));
    if ac.times(bc) == ZOmega::zero() {
        lemma_no_zero_divisors(ac, bc);
    } else {
        lemma_no_zero_divisors(difference, sum);
    }
}

/// Two qubits in one state: four amplitudes over a common denominator.
///
/// Every joint state arises from a product of two qubits by CNOT, applied or
/// not. The two qubits are kept beside the amplitudes, and `separate` finds the
/// factors of a state with determinant zero from them.
#[derive(Clone, Copy, Debug)]
pub struct JointState {
    a00: Cyclotomic,
    a01: Cyclotomic,
    a10: Cyclotomic,
    a11: Cyclotomic,
    exponent: u32,
    control: Qubit,
    target: Qubit,
    flipped: bool,
}

impl View for JointState {
    type V = JointVector;

    closed spec fn view(&self) -> JointVector {
        JointVector {
            a00: self.a00@,
            a01: self.a01@,
            a10: self.a10@,
            a11: self.a11@,
            exponent: self.exponent as nat,
        }
    }
}

/// The largest absolute value of a coefficient of a joint state's amplitudes: 2³⁰.
pub const JOINT_AMPLITUDE_LIMIT: i64 = 1_073_741_824;

impl JointState {
    #[verifier::type_invariant]
    pub closed spec fn well_formed(self) -> bool {
        &&& self.control@.wf()
        &&& self.target@.wf()
        &&& self@ == if self.flipped {
            JointVector::tensor(self.control@, self.target@).cnot()
        } else {
            JointVector::tensor(self.control@, self.target@)
        }
    }

    /// The numerators of the four amplitudes, in the order `|00⟩, |01⟩, |10⟩, |11⟩`.
    pub fn amplitudes(&self) -> (amplitudes: [Cyclotomic; 4])
        ensures
            amplitudes[0]@ == self@.a00,
            amplitudes[1]@ == self@.a01,
            amplitudes[2]@ == self@.a10,
            amplitudes[3]@ == self@.a11,
            self@.is_normalized(),
            self@.exponent <= 2 * MAX_EXPONENT,
            self@.a00.within(JOINT_AMPLITUDE_LIMIT as int),
            self@.a01.within(JOINT_AMPLITUDE_LIMIT as int),
            self@.a10.within(JOINT_AMPLITUDE_LIMIT as int),
            self@.a11.within(JOINT_AMPLITUDE_LIMIT as int),
    {
        proof {
            use_type_invariant(self);
            lemma_tensor_normalized(self.control@, self.target@);
            lemma_tensor_within(self.control@, self.target@);
        }
        [self.a00, self.a01, self.a10, self.a11]
    }

    /// The exponent of √2 in the denominator of the four amplitudes.
    pub fn exponent(&self) -> (exponent: u32)
        ensures
            exponent == self@.exponent,
            exponent <= 2 * MAX_EXPONENT,
            self@.is_normalized(),
    {
        proof {
            use_type_invariant(self);
            lemma_tensor_normalized(self.control@, self.target@);
        }
        self.exponent
    }

    /// Whether the state is entangled: its determinant is not zero.
    pub fn is_entangled(&self) -> (entangled: bool)
        ensures
            entangled == !self@.is_separable(),
    {
        let amplitudes = self.amplitudes();
        let diagonal = amplitudes[0].times(&amplitudes[3]);
        let antidiagonal = amplitudes[1].times(&amplitudes[2]);
        diagonal != antidiagonal
    }

    /// The two qubits of which this state is the tensor product, where there are such.
    pub fn separate(&self) -> (factors: Result<(Qubit, Qubit), EntangledStateError>)
        ensures
            factors is Ok <==> self@.is_separable(),
            factors matches Ok(pair) ==> pair.0@.wf() && pair.1@.wf() && JointVector::tensor(
                pair.0@,
                pair.1@,
            ) == self@,
    {
        if self.is_entangled() {
            return Err(EntangledStateError);
        }
        proof {
            use_type_invariant(self);
        }
        let control = self.control;
        let target = self.target;
        let control_alpha = control.alpha();
        let control_beta = control.beta();
        let target_alpha = target.alpha();
        let target_beta = target.beta();
        proof {
            lemma_normalized_within(target@);
            lemma_times_unit(control@.beta);
            lemma_times_unit(target@.alpha);
            lemma_times_unit(target@.beta);
            lemma_times_commutative(ZOmega::zero(), target@.alpha);
            lemma_times_commutative(ZOmega::zero(), target@.beta);
            lemma_negated_factor(control@.beta, target@.alpha);
            lemma_negated_factor(control@.beta, target@.beta);
        }
        if !self.flipped {
            Ok((control, target))
        } else if control_alpha.is_zero() {
            Ok((control, X {}.apply(target)))
        } else if control_beta.is_zero() {
            Ok((control, target))
        } else if target_alpha == target_beta {
            Ok((control, target))
        } else if target_alpha == target_beta.negated() {
            Ok((Z {}.apply(control), target))
        } else {
            // No state comes here: a CNOT of a product with determinant zero is one
            // of the four cases above.
            proof {
                lemma_cnot_of_product_separable(control@, target@);
            }
            Ok((control, target))
        }
    }
}

/// The coefficients of a tensor product of two qubits' states are bounded.
pub proof fn lemma_tensor_within(control: QubitState, target: QubitState)
    requires
        control.wf(),
        target.wf(),
    ensures
        JointVector::tensor(control, target).a00.within(JOINT_AMPLITUDE_LIMIT as int),
        JointVector::tensor(control, target).a01.within(JOINT_AMPLITUDE_LIMIT as int),
        JointVector::tensor(control, target).a10.within(JOINT_AMPLITUDE_LIMIT as int),
        JointVector::tensor(control, target).a11.within(JOINT_AMPLITUDE_LIMIT as int),
{
    let v = JointVector::tensor(control, target);
    lemma_tensor_normalized(control, target);
    lemma_pow2_monotone(v.exponent, 60);
    lemma2_to64_rest();
    assert(pow2(60) == 1_073_741_824 * 1_073_741_824);
    lemma_norm_positive(v.a00);
    lemma_norm_positive(v.a01);
    lemma_norm_positive(v.a10);
    lemma_norm_positive(v.a11);
    lemma_norm_bounds_coefficients(v.a00, 1_073_741_824);
    lemma_norm_bounds_coefficients(v.a01, 1_073_741_824);
    lemma_norm_bounds_coefficients(v.a10, 1_073_741_824);
    lemma_norm_bounds_coefficients(v.a11, 1_073_741_824);
}

/// The joint state of two independent qubits.
pub fn tensor(control: Qubit, target: Qubit) -> (joint: JointState)
    ensures
        joint@ == JointVector::tensor(control@, target@),
        joint@.is_normalized(),
{
    let (ac, bc, kc) = (control.alpha(), control.beta(), control.exponent());
    let (at, bt, kt) = (target.alpha(), target.beta(), target.exponent());
    proof {
        lemma_normalized_within(control@);
        lemma_normalized_within(target@);
        lemma_tensor_normalized(control@, target@);
    }
    JointState {
        a00: ac.times(&at),
        a01: ac.times(&bt),
        a10: bc.times(&at),
        a11: bc.times(&bt),
        exponent: kc + kt,
        control,
        target,
        flipped: false,
    }
}

/// The controlled NOT: flips the target where the control is `|1⟩`.
pub struct CNOT {}

impl CNOT {
    pub fn apply(&self, joint: JointState) -> (out: JointState)
        ensures
            out@ == joint@.cnot(),
            out@.is_normalized(),
    {
        proof {
            use_type_invariant(&joint);
            lemma_tensor_normalized(joint.control@, joint.target@);
        }
        JointState {
            a00: joint.a00,
            a01: joint.a01,
            a10: joint.a11,
            a11: joint.a10,
            exponent: joint.exponent,
            control: joint.control,
            target: joint.target,
            flipped: !joint.flipped,
        }
    }
}

} // verus!
