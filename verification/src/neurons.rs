use vstd::prelude::*;
use crate::arithmetic::{
    Arithmetic, Operation, ONE, ZERO, at_least_zero, eval, exp, is_at_least_zero, negate, negated,
    over, plus, realises, times, total,
};
use crate::error::NetError;

verus! {

/// What a neuron holds: its weights, the bias first; for each weight the step
/// last taken on it; and what it last put out, with the derivative of its
/// activation there.
pub struct NeuronState {
    pub weights: Seq<u64>,
    pub momentum: Seq<u64>,
    pub output: u64,
    pub derivative: u64,
}

/// The two activation functions.
pub enum Activation {
    /// The identity at zero and above, a line of slope [`LeakyRelu::A`] below.
    LeakyRelu,
    /// The logistic function. Its derivative is taken to be one everywhere.
    Sigmoid,
}

/// A weight vector fits a number of inputs when it has one weight for each,
/// after the bias.
pub open spec fn fits(weights: Seq<u64>, inputs_number: nat) -> bool {
    weights.len() == inputs_number + 1
}

/// A neuron is shaped for a number of inputs when its weights fit them and
/// each weight has its momentum.
pub open spec fn shaped(s: NeuronState, inputs_number: nat) -> bool {
    fits(s.weights, inputs_number) && s.momentum.len() == s.weights.len()
}

/// The bias plus the first `n` inputs, each times its weight, added from the
/// left.
pub open spec fn weighted_sum(m: Arithmetic, weights: Seq<u64>, inputs: Seq<u64>, n: nat) -> u64
    decreases n,
{
    if n == 0 {
        weights[0]
    } else {
        plus(
            m,
            weighted_sum(m, weights, inputs, (n - 1) as nat),
            times(m, weights[n as int], inputs[n - 1]),
        )
    }
}

/// What a neuron puts out for a weighted sum.
pub open spec fn activate(m: Arithmetic, activation: Activation, sum: u64) -> u64 {
    match activation {
        Activation::LeakyRelu => if at_least_zero(sum) {
            sum
        } else {
            times(m, sum, LeakyRelu::A)
        },
        Activation::Sigmoid => over(m, ONE, plus(m, ONE, exp(m, negated(sum)))),
    }
}

/// The derivative that a neuron keeps for a weighted sum.
pub open spec fn slope(activation: Activation, sum: u64) -> u64 {
    match activation {
        Activation::LeakyRelu => if at_least_zero(sum) {
            ONE
        } else {
            LeakyRelu::A
        },
        Activation::Sigmoid => ONE,
    }
}

/// The neuron after a forward pass on `inputs`.
pub open spec fn fired(
    m: Arithmetic,
    activation: Activation,
    s: NeuronState,
    inputs: Seq<u64>,
) -> NeuronState {
    let sum = weighted_sum(m, s.weights, inputs, inputs.len());
    NeuronState { output: activate(m, activation, sum), derivative: slope(activation, sum), ..s }
}

/// The step taken on weight `i`: the momentum factor times the step before,
/// plus the learning signal, which for every weight but the bias is first
/// multiplied by the input that the weight belongs to.
pub open spec fn delta(
    m: Arithmetic,
    momentum: Seq<u64>,
    d_out: u64,
    inertia: u64,
    inputs: Seq<u64>,
    i: int,
) -> u64 {
    if i == 0 {
        plus(m, times(m, inertia, momentum[0]), d_out)
    } else {
        plus(m, times(m, inertia, momentum[i]), times(m, d_out, inputs[i - 1]))
    }
}

/// The step taken on each weight.
pub open spec fn deltas(
    m: Arithmetic,
    momentum: Seq<u64>,
    d_out: u64,
    inertia: u64,
    inputs: Seq<u64>,
) -> Seq<u64> {
    Seq::new(momentum.len(), |i: int| delta(m, momentum, d_out, inertia, inputs, i))
}

/// Every weight plus its step.
pub open spec fn stepped(m: Arithmetic, weights: Seq<u64>, steps: Seq<u64>) -> Seq<u64> {
    Seq::new(weights.len(), |i: int| plus(m, weights[i], steps[i]))
}

/// The neuron after an update: the steps become its momentum and are added to
/// its weights.
pub open spec fn adjusted(
    m: Arithmetic,
    s: NeuronState,
    d_out: u64,
    inertia: u64,
    inputs: Seq<u64>,
) -> NeuronState {
    let steps = deltas(m, s.momentum, d_out, inertia, inputs);
    NeuronState { weights: stepped(m, s.weights, steps), momentum: steps, ..s }
}

/// The weighted sum of `inputs`, where there is a weight for each.
pub fn sum<F: Fn(Operation) -> u64>(weights: &[u64], inputs: &[u64], unit: &F) -> (r: Result<
    u64,
    NetError,
>)
    requires
        total(unit),
    ensures
        match r {
            Ok(s) => {
                &&& fits(weights@, inputs@.len())
                &&& forall|m: Arithmetic| #[trigger]
                    realises(unit, m) ==> s == weighted_sum(m, weights@, inputs@, inputs@.len())
            },
            Err(e) => !fits(weights@, inputs@.len()) && e == NetError::DimensionMismatch,
        },
{
    if weights.len() == 0 || weights.len() - 1 != inputs.len() {
        return Err(NetError::DimensionMismatch);
    }
    let mut acc: u64 = weights[0];
    let mut i: usize = 0;
    while i < inputs.len()
        invariant
            total(unit),
            fits(weights@, inputs@.len()),
            i <= inputs@.len(),
            forall|m: Arithmetic| #[trigger]
                realises(unit, m) ==> acc == weighted_sum(m, weights@, inputs@, i as nat),
        decreases inputs@.len() - i,
    {
        let term = eval(unit, Operation::Mul(weights[i + 1], inputs[i]));
        acc = eval(unit, Operation::Add(acc, term));
        i += 1;
    }
    Ok(acc)
}

/// Takes one step on every weight; see [`delta`].
pub fn update<F: Fn(Operation) -> u64>(
    weights: &mut [u64],
    prev_dws: &mut [u64],
    d_out: u64,
    inertia: u64,
    inputs: &[u64],
    unit: &F,
) -> (r: Result<(), NetError>)
    requires
        total(unit),
    ensures
        match r {
            Ok(_) => {
                &&& fits(old(weights)@, inputs@.len())
                &&& old(prev_dws)@.len() == old(weights)@.len()
                &&& final(prev_dws)@.len() == old(prev_dws)@.len()
                &&& final(weights)@.len() == old(weights)@.len()
                &&& forall|m: Arithmetic| #[trigger]
                    realises(unit, m) ==> {
                        &&& final(prev_dws)@ == deltas(m, old(prev_dws)@, d_out, inertia, inputs@)
                        &&& final(weights)@ == stepped(m, old(weights)@, final(prev_dws)@)
                    }
            },
            Err(e) => {
                &&& !(fits(old(weights)@, inputs@.len()) && old(prev_dws)@.len() == old(weights)@.len())
                &&& e == NetError::DimensionMismatch
                &&& final(prev_dws)@ == old(prev_dws)@
                &&& final(weights)@ == old(weights)@
            },
        },
{
    if weights.len() == 0 || weights.len() - 1 != inputs.len() || prev_dws.len() != weights.len() {
        return Err(NetError::DimensionMismatch);
    }
    let kept = eval(unit, Operation::Mul(inertia, prev_dws[0]));
    let delta_w = eval(unit, Operation::Add(kept, d_out));
    prev_dws[0] = delta_w;
    weights[0] = eval(unit, Operation::Add(weights[0], delta_w));
    let mut i: usize = 1;
    while i < weights.len()
        invariant
            total(unit),
            fits(old(weights)@, inputs@.len()),
            weights@.len() == old(weights)@.len(),
            prev_dws@.len() == weights@.len(),
            old(prev_dws)@.len() == weights@.len(),
            1 <= i <= weights@.len(),
            forall|m: Arithmetic| #[trigger]
                realises(unit, m) ==> forall|j: int|
                    0 <= j < i ==> {
                        &&& prev_dws@[j] == delta(m, old(prev_dws)@, d_out, inertia, inputs@, j)
                        &&& weights@[j] == plus(m, old(weights)@[j], prev_dws@[j])
                    },
            forall|j: int| i <= j < weights@.len() ==> prev_dws@[j] == old(prev_dws)@[j],
            forall|j: int| i <= j < weights@.len() ==> weights@[j] == old(weights)@[j],
        decreases weights@.len() - i,
    {
        let kept = eval(unit, Operation::Mul(inertia, prev_dws[i]));
        let push = eval(unit, Operation::Mul(d_out, inputs[i - 1]));
        let delta_w = eval(unit, Operation::Add(kept, push));
        prev_dws[i] = delta_w;
        weights[i] = eval(unit, Operation::Add(weights[i], delta_w));
        i += 1;
    }
    assert forall|m: Arithmetic| #[trigger] realises(unit, m) implies {
        &&& prev_dws@ == deltas(m, old(prev_dws)@, d_out, inertia, inputs@)
        &&& weights@ == stepped(m, old(weights)@, prev_dws@)
    } by {
        assert(prev_dws@ =~= deltas(m, old(prev_dws)@, d_out, inertia, inputs@));
        assert(weights@ =~= stepped(m, old(weights)@, prev_dws@));
    }
    Ok(())
}

/// As many positive zeros as there are weights.
pub open spec fn zeros(n: nat) -> Seq<u64> {
    Seq::new(n, |i: int| ZERO)
}

/// What the layers ask of a neuron.
pub trait Neuron {
    /// What the neuron holds.
    spec fn state(&self) -> NeuronState;

    /// The activation that the neuron's sums go through.
    spec fn activation() -> Activation;

    /// The forward pass: the weighted sum of `inputs` goes through the
    /// activation; the neuron keeps what came out and the derivative there.
    fn run<F: Fn(Operation) -> u64>(&mut self, inputs: &[u64], unit: &F) -> (r: Result<u64, NetError>)
        requires
            total(unit),
        ensures
            match r {
                Ok(out) => {
                    &&& fits(old(self).state().weights, inputs@.len())
                    &&& final(self).state().weights == old(self).state().weights
                    &&& final(self).state().momentum == old(self).state().momentum
                    &&& out == final(self).state().output
                    &&& forall|m: Arithmetic| #[trigger]
                        realises(unit, m) ==> final(self).state() == fired(
                            m,
                            Self::activation(),
                            old(self).state(),
                            inputs@,
                        )
                },
                Err(e) => {
                    &&& !fits(old(self).state().weights, inputs@.len())
                    &&& e == NetError::DimensionMismatch
                    &&& final(self).state() == old(self).state()
                },
            },
    ;

    /// One step on every weight, for the learning signal `d_out`.
    fn update<F: Fn(Operation) -> u64>(
        &mut self,
        d_out: u64,
        inertia: u64,
        inputs: &[u64],
        unit: &F,
    ) -> (r: Result<(), NetError>)
        requires
            total(unit),
        ensures
            match r {
                Ok(_) => {
                    &&& shaped(old(self).state(), inputs@.len())
                    &&& shaped(final(self).state(), inputs@.len())
                    &&& forall|m: Arithmetic| #[trigger]
                        realises(unit, m) ==> final(self).state() == adjusted(
                            m,
                            old(self).state(),
                            d_out,
                            inertia,
                            inputs@,
                        )
                },
                Err(e) => {
                    &&& !shaped(old(self).state(), inputs@.len())
                    &&& e == NetError::DimensionMismatch
                    &&& final(self).state() == old(self).state()
                },
            },
    ;

    /// The derivative of the activation where the neuron last fired.
    fn derivative(&self) -> (d: u64)
        ensures
            d == self.state().derivative,
    ;

    /// The weight on input `at`: the bias is not counted.
    fn weight(&self, at: usize) -> (w: u64)
        requires
            at + 1 < self.state().weights.len(),
        ensures
            w == self.state().weights[at + 1],
    ;

    /// Whether the neuron is shaped for `inputs_number` inputs.
    fn accepts(&self, inputs_number: usize) -> (b: bool)
        ensures
            b == shaped(self.state(), inputs_number as nat),
    ;
}

/// A neuron of a hidden layer.
#[derive(Debug)]
pub struct LeakyRelu {
    weights: Vec<u64>,
    prev_dws: Vec<u64>,
    output: u64,
    d_output: u64,
}

impl LeakyRelu {
    /// The slope below zero: the bit pattern of a hundredth.
    pub const A: u64 = 0x3F84_7AE1_47AE_147B;

    /// A neuron at rest: no momentum, nothing put out yet.
    pub fn new(weights: Vec<u64>) -> (r: LeakyRelu)
        ensures
            r.state() == (NeuronState {
                weights: weights@,
                momentum: zeros(weights@.len()),
                output: ZERO,
                derivative: ZERO,
            }),
    {
        let prev_dws = vec![ZERO; weights.len()];
        assert(prev_dws@ =~= zeros(weights@.len()));
        LeakyRelu { weights, prev_dws, output: ZERO, d_output: ZERO }
    }

    pub fn output(&self) -> (r: u64)
        ensures
            r == self.state().output,
    {
        self.output
    }

    pub fn weights(&self) -> (r: &[u64])
        ensures
            r@ == self.state().weights,
    {
        self.weights.as_slice()
    }

    pub fn momentum(&self) -> (r: &[u64])
        ensures
            r@ == self.state().momentum,
    {
        self.prev_dws.as_slice()
    }
}

impl Neuron for LeakyRelu {
    closed spec fn state(&self) -> NeuronState {
        NeuronState {
            weights: self.weights@,
            momentum: self.prev_dws@,
            output: self.output,
            derivative: self.d_output,
        }
    }

    open spec fn activation() -> Activation {
        Activation::LeakyRelu
    }

    fn run<F: Fn(Operation) -> u64>(&mut self, inputs: &[u64], unit: &F) -> (r: Result<u64, NetError>) {
        let sum = sum(self.weights.as_slice(), inputs, unit)?;
        if is_at_least_zero(sum) {
            self.output = sum;
            self.d_output = ONE;
        } else {
            self.output = eval(unit, Operation::Mul(sum, LeakyRelu::A));
            self.d_output = LeakyRelu::A;
        }
        Ok(self.output)
    }

    fn update<F: Fn(Operation) -> u64>(
        &mut self,
        d_out: u64,
        inertia: u64,
        inputs: &[u64],
        unit: &F,
    ) -> (r: Result<(), NetError>) {
        update(
            self.weights.as_mut_slice(),
            self.prev_dws.as_mut_slice(),
            d_out,
            inertia,
            inputs,
            unit,
        )
    }

    fn derivative(&self) -> (d: u64) {
        self.d_output
    }

    fn weight(&self, at: usize) -> (w: u64) {
        assert(at + 1 < self.weights.len());
        self.weights[at + 1]
    }

    fn accepts(&self, inputs_number: usize) -> (b: bool) {
        self.weights.len() > 0 && self.weights.len() - 1 == inputs_number
            && self.prev_dws.len() == self.weights.len()
    }
}

/// A neuron of the output layer.
#[derive(Debug)]
pub struct Out {
    weights: Vec<u64>,
    prev_dws: Vec<u64>,
    output: u64,
}

impl Out {
    /// A neuron at rest: no momentum, nothing put out yet.
    pub fn new(weights: Vec<u64>) -> (r: Out)
        ensures
            r.state() == (NeuronState {
                weights: weights@,
                momentum: zeros(weights@.len()),
                output: ZERO,
                derivative: ONE,
            }),
    {
        let prev_dws = vec![ZERO; weights.len()];
        assert(prev_dws@ =~= zeros(weights@.len()));
        Out { weights, prev_dws, output: ZERO }
    }

    pub fn output(&self) -> (r: u64)
        ensures
            r == self.state().output,
    {
        self.output
    }

    pub fn weights(&self) -> (r: &[u64])
        ensures
            r@ == self.state().weights,
    {
        self.weights.as_slice()
    }

    pub fn momentum(&self) -> (r: &[u64])
        ensures
            r@ == self.state().momentum,
    {
        self.prev_dws.as_slice()
    }
}

impl Neuron for Out {
    closed spec fn state(&self) -> NeuronState {
        NeuronState {
            weights: self.weights@,
            momentum: self.prev_dws@,
            output: self.output,
            derivative: ONE,
        }
    }

    open spec fn activation() -> Activation {
        Activation::Sigmoid
    }

    fn run<F: Fn(Operation) -> u64>(&mut self, inputs: &[u64], unit: &F) -> (r: Result<u64, NetError>) {
        let sum = sum(self.weights.as_slice(), inputs, unit)?;
        let decay = eval(unit, Operation::Exp(negate(sum)));
        let denominator = eval(unit, Operation::Add(ONE, decay));
        self.output = eval(unit, Operation::Div(ONE, denominator));
        Ok(self.output)
    }

    fn update<F: Fn(Operation) -> u64>(
        &mut self,
        d_out: u64,
        inertia: u64,
        inputs: &[u64],
        unit: &F,
    ) -> (r: Result<(), NetError>) {
        update(
            self.weights.as_mut_slice(),
            self.prev_dws.as_mut_slice(),
            d_out,
            inertia,
            inputs,
            unit,
        )
    }

    fn derivative(&self) -> (d: u64) {
        ONE
    }

    fn weight(&self, at: usize) -> (w: u64) {
        assert(at + 1 < self.weights.len());
        self.weights[at + 1]
    }

    fn accepts(&self, inputs_number: usize) -> (b: bool) {
        self.weights.len() > 0 && self.weights.len() - 1 == inputs_number
            && self.prev_dws.len() == self.weights.len()
    }
}

} // verus!
