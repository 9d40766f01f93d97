use vstd::prelude::*;
use crate::arithmetic::{Arithmetic, Operation, ZERO, eval, plus, realises, times, total};
use crate::error::NetError;
use crate::neurons;
use crate::arithmetic::ONE;
use crate::neurons::{Activation, Neuron, NeuronState, adjusted, fired, fits, shaped, zeros};

verus! {

/// What a layer holds: the number of inputs it takes and its neurons in
/// order.
pub struct LayerState {
    pub inputs_number: nat,
    pub neurons: Seq<NeuronState>,
}

impl LayerState {
    /// Every neuron is shaped for the layer's inputs.
    pub open spec fn well_formed(self) -> bool {
        all_shaped(self.neurons, self.inputs_number)
    }
}

/// What each neuron holds.
pub open spec fn states<T: Neuron>(layer: Seq<T>) -> Seq<NeuronState> {
    Seq::new(layer.len(), |n: int| layer[n].state())
}

/// Every neuron is shaped for the same number of inputs.
pub open spec fn all_shaped(neurons: Seq<NeuronState>, inputs_number: nat) -> bool {
    forall|n: int| 0 <= n < neurons.len() ==> shaped(#[trigger] neurons[n], inputs_number)
}

/// Every neuron after a forward pass on the same input.
pub open spec fn all_fired(
    m: Arithmetic,
    activation: Activation,
    neurons: Seq<NeuronState>,
    input: Seq<u64>,
) -> Seq<NeuronState> {
    Seq::new(neurons.len(), |n: int| fired(m, activation, neurons[n], input))
}

/// What each neuron last put out.
pub open spec fn outputs_of(neurons: Seq<NeuronState>) -> Seq<u64> {
    Seq::new(neurons.len(), |n: int| neurons[n].output)
}

/// The part of the error at input `i` that the first `n` neurons account for:
/// for each, its weight on that input times its derivative times its error,
/// added from the left to a positive zero.
pub open spec fn blame(m: Arithmetic, neurons: Seq<NeuronState>, errors: Seq<u64>, i: int, n: nat) -> u64
    decreases n,
{
    if n == 0 {
        ZERO
    } else {
        plus(
            m,
            blame(m, neurons, errors, i, (n - 1) as nat),
            times(m, times(m, neurons[n - 1].weights[i + 1], neurons[n - 1].derivative), errors[n - 1]),
        )
    }
}

/// The error at each of the layer's inputs.
pub open spec fn error_gradient(
    m: Arithmetic,
    neurons: Seq<NeuronState>,
    errors: Seq<u64>,
    inputs_number: nat,
) -> Seq<u64> {
    Seq::new(inputs_number, |i: int| blame(m, neurons, errors, i, neurons.len()))
}

/// The learning rate times the neuron's derivative times its error.
pub open spec fn learning_signal(m: Arithmetic, learning_rate: u64, s: NeuronState, error: u64) -> u64 {
    times(m, times(m, learning_rate, s.derivative), error)
}

/// Every neuron after an update for its own error.
pub open spec fn all_adjusted(
    m: Arithmetic,
    neurons: Seq<NeuronState>,
    errors: Seq<u64>,
    prev_layer: Seq<u64>,
    learning_rate: u64,
    inertia: u64,
) -> Seq<NeuronState> {
    Seq::new(
        neurons.len(),
        |n: int|
            adjusted(
                m,
                neurons[n],
                learning_signal(m, learning_rate, neurons[n], errors[n]),
                inertia,
                prev_layer,
            ),
    )
}

fn all_accept<T: Neuron>(layer: &[T], inputs_number: usize) -> (b: bool)
    ensures
        b == all_shaped(states(layer@), inputs_number as nat),
{
    let mut n: usize = 0;
    while n < layer.len()
        invariant
            n <= layer@.len(),
            forall|j: int| 0 <= j < n ==> shaped(#[trigger] states(layer@)[j], inputs_number as nat),
        decreases layer@.len() - n,
    {
        if !layer[n].accepts(inputs_number) {
            assert(!shaped(states(layer@)[n as int], inputs_number as nat));
            return false;
        }
        n += 1;
    }
    true
}

/// Runs every neuron on `input` and leaves in `output` what each put out.
pub fn run<T: Neuron, F: Fn(Operation) -> u64>(
    layer: &mut Vec<T>,
    output: &mut Vec<u64>,
    input: &[u64],
    unit: &F,
) -> (r: Result<(), NetError>)
    requires
        total(unit),
    ensures
        match r {
            Ok(_) => {
                &&& all_shaped(states(old(layer)@), input@.len())
                &&& all_shaped(states(final(layer)@), input@.len())
                &&& final(layer)@.len() == old(layer)@.len()
                &&& final(output)@ == outputs_of(states(final(layer)@))
                &&& forall|m: Arithmetic| #[trigger]
                    realises(unit, m) ==> states(final(layer)@) == all_fired(
                        m,
                        T::activation(),
                        states(old(layer)@),
                        input@,
                    )
            },
            Err(e) => {
                &&& !all_shaped(states(old(layer)@), input@.len())
                &&& e == NetError::DimensionMismatch
                &&& final(layer)@ == old(layer)@
                &&& final(output)@ == old(output)@
            },
        },
{
    if !all_accept(layer.as_slice(), input.len()) {
        return Err(NetError::DimensionMismatch);
    }
    output.clear();
    let mut n: usize = 0;
    while n < layer.len()
        invariant
            total(unit),
            layer@.len() == old(layer)@.len(),
            n <= layer@.len(),
            output@.len() == n,
            all_shaped(states(old(layer)@), input@.len()),
            forall|j: int| 0 <= j < n ==> shaped((#[trigger] layer@[j]).state(), input@.len()),
            forall|m: Arithmetic| #[trigger]
                realises(unit, m) ==> forall|j: int|
                    0 <= j < n ==> (#[trigger] layer@[j]).state() == fired(
                        m,
                        T::activation(),
                        old(layer)@[j].state(),
                        input@,
                    ),
            forall|j: int| 0 <= j < n ==> #[trigger] output@[j] == layer@[j].state().output,
            forall|j: int| n <= j < layer@.len() ==> #[trigger] layer@[j] == old(layer)@[j],
        decreases layer@.len() - n,
    {
        assert(shaped(states(old(layer)@)[n as int], input@.len()));
        let out = layer[n].run(input, unit)?;
        output.push(out);
        n += 1;
    }
    assert(all_shaped(states(layer@), input@.len()));
    assert forall|m: Arithmetic| #[trigger] realises(unit, m) implies states(layer@) == all_fired(
        m,
        T::activation(),
        states(old(layer)@),
        input@,
    ) by {
        assert(states(layer@) =~= all_fired(m, T::activation(), states(old(layer)@), input@));
    }
    assert(output@ =~= outputs_of(states(layer@)));
    Ok(())
}

/// Leaves in `gradient` the error at each of the `inputs_number` inputs.
pub fn gen_errors<T: Neuron, F: Fn(Operation) -> u64>(
    layer: &[T],
    gradient: &mut Vec<u64>,
    errors: &[u64],
    inputs_number: usize,
    unit: &F,
) -> (r: Result<(), NetError>)
    requires
        total(unit),
    ensures
        match r {
            Ok(_) => {
                &&& errors@.len() == layer@.len()
                &&& all_shaped(states(layer@), inputs_number as nat)
                &&& final(gradient)@.len() == inputs_number
                &&& forall|m: Arithmetic| #[trigger]
                    realises(unit, m) ==> final(gradient)@ == error_gradient(
                        m,
                        states(layer@),
                        errors@,
                        inputs_number as nat,
                    )
            },
            Err(e) => {
                &&& !(errors@.len() == layer@.len() && all_shaped(states(layer@), inputs_number as nat))
                &&& e == NetError::DimensionMismatch
                &&& final(gradient)@ == old(gradient)@
            },
        },
{
    if errors.len() != layer.len() || !all_accept(layer, inputs_number) {
        return Err(NetError::DimensionMismatch);
    }
    gradient.clear();
    let mut i: usize = 0;
    while i < inputs_number
        invariant
            total(unit),
            errors@.len() == layer@.len(),
            all_shaped(states(layer@), inputs_number as nat),
            i <= inputs_number,
            gradient@.len() == i,
            forall|m: Arithmetic| #[trigger]
                realises(unit, m) ==> forall|j: int|
                    0 <= j < i ==> #[trigger] gradient@[j] == blame(
                        m,
                        states(layer@),
                        errors@,
                        j,
                        layer@.len(),
                    ),
        decreases inputs_number - i,
    {
        let mut err: u64 = ZERO;
        let mut n: usize = 0;
        while n < layer.len()
            invariant
                total(unit),
                errors@.len() == layer@.len(),
                all_shaped(states(layer@), inputs_number as nat),
                i < inputs_number,
                n <= layer@.len(),
                forall|m: Arithmetic| #[trigger]
                    realises(unit, m) ==> err == blame(m, states(layer@), errors@, i as int, n as nat),
            decreases layer@.len() - n,
        {
            assert(shaped(states(layer@)[n as int], inputs_number as nat));
            let scaled = eval(unit, Operation::Mul(layer[n].weight(i), layer[n].derivative()));
            let share = eval(unit, Operation::Mul(scaled, errors[n]));
            err = eval(unit, Operation::Add(err, share));
            n += 1;
        }
        gradient.push(err);
        i += 1;
    }
    assert forall|m: Arithmetic| #[trigger] realises(unit, m) implies gradient@ == error_gradient(
        m,
        states(layer@),
        errors@,
        inputs_number as nat,
    ) by {
        assert(gradient@ =~= error_gradient(m, states(layer@), errors@, inputs_number as nat));
    }
    Ok(())
}

/// Updates every neuron for its own error, on what the layer before put out.
pub fn learn<N: Neuron, F: Fn(Operation) -> u64>(
    layer: &mut [N],
    errors: &[u64],
    prev_layer: &[u64],
    learning_rate: u64,
    inertia: u64,
    unit: &F,
) -> (r: Result<(), NetError>)
    requires
        total(unit),
    ensures
        match r {
            Ok(_) => {
                &&& errors@.len() == old(layer)@.len()
                &&& all_shaped(states(old(layer)@), prev_layer@.len())
                &&& all_shaped(states(final(layer)@), prev_layer@.len())
                &&& final(layer)@.len() == old(layer)@.len()
                &&& forall|m: Arithmetic| #[trigger]
                    realises(unit, m) ==> states(final(layer)@) == all_adjusted(
                        m,
                        states(old(layer)@),
                        errors@,
                        prev_layer@,
                        learning_rate,
                        inertia,
                    )
            },
            Err(e) => {
                &&& !(errors@.len() == old(layer)@.len() && all_shaped(
                    states(old(layer)@),
                    prev_layer@.len(),
                ))
                &&& e == NetError::DimensionMismatch
                &&& final(layer)@ == old(layer)@
            },
        },
{
    if errors.len() != layer.len() || !all_accept(layer, prev_layer.len()) {
        return Err(NetError::DimensionMismatch);
    }
    let mut n: usize = 0;
    while n < layer.len()
        invariant
            total(unit),
            layer@.len() == old(layer)@.len(),
            errors@.len() == layer@.len(),
            n <= layer@.len(),
            all_shaped(states(old(layer)@), prev_layer@.len()),
            forall|j: int| 0 <= j < n ==> shaped((#[trigger] layer@[j]).state(), prev_layer@.len()),
            forall|m: Arithmetic| #[trigger]
                realises(unit, m) ==> forall|j: int|
                    0 <= j < n ==> (#[trigger] layer@[j]).state() == adjusted(
                        m,
                        old(layer)@[j].state(),
                        learning_signal(m, learning_rate, old(layer)@[j].state(), errors@[j]),
                        inertia,
                        prev_layer@,
                    ),
            forall|j: int| n <= j < layer@.len() ==> #[trigger] layer@[j] == old(layer)@[j],
        decreases layer@.len() - n,
    {
        assert(shaped(states(old(layer)@)[n as int], prev_layer@.len()));
        let scaled = eval(unit, Operation::Mul(learning_rate, layer[n].derivative()));
        let d_out = eval(unit, Operation::Mul(scaled, errors[n]));
        layer[n].update(d_out, inertia, prev_layer, unit)?;
        n += 1;
    }
    assert(all_shaped(states(layer@), prev_layer@.len()));
    assert forall|m: Arithmetic| #[trigger] realises(unit, m) implies states(layer@) == all_adjusted(
        m,
        states(old(layer)@),
        errors@,
        prev_layer@,
        learning_rate,
        inertia,
    ) by {
        assert(states(layer@) =~= all_adjusted(
            m,
            states(old(layer)@),
            errors@,
            prev_layer@,
            learning_rate,
            inertia,
        ));
    }
    Ok(())
}

/// Every weight is something that the generator can return.
pub open spec fn drawn<G: Fn() -> u64>(generator_func: &G, weights: Seq<u64>) -> bool {
    forall|i: int| 0 <= i < weights.len() ==> generator_func.ensures((), #[trigger] weights[i])
}

/// A neuron as it is made for a layer of `inputs_number` inputs: weights from
/// the generator, no momentum, nothing put out yet.
pub open spec fn fresh<G: Fn() -> u64>(
    generator_func: &G,
    s: NeuronState,
    inputs_number: nat,
    derivative: u64,
) -> bool {
    &&& fits(s.weights, inputs_number)
    &&& drawn(generator_func, s.weights)
    &&& s.momentum == zeros(s.weights.len())
    &&& s.output == ZERO
    &&& s.derivative == derivative
}

/// What the network asks of a layer.
pub trait Layer {
    /// What the layer holds.
    spec fn state(&self) -> LayerState;

    /// The activation of the layer's neurons.
    spec fn activation() -> Activation;

    /// The forward pass; `output` receives what the neurons put out.
    fn run<F: Fn(Operation) -> u64>(&mut self, output: &mut Vec<u64>, input: &[u64], unit: &F) -> (r:
        Result<(), NetError>)
        requires
            old(self).state().well_formed(),
            total(unit),
        ensures
            final(self).state().well_formed(),
            final(self).state().inputs_number == old(self).state().inputs_number,
            final(self).state().neurons.len() == old(self).state().neurons.len(),
            match r {
                Ok(_) => {
                    &&& input@.len() == old(self).state().inputs_number
                    &&& final(output)@ == outputs_of(final(self).state().neurons)
                    &&& forall|m: Arithmetic| #[trigger]
                        realises(unit, m) ==> final(self).state().neurons == all_fired(
                            m,
                            Self::activation(),
                            old(self).state().neurons,
                            input@,
                        )
                },
                Err(e) => {
                    &&& input@.len() != old(self).state().inputs_number
                    &&& e == NetError::DimensionMismatch
                    &&& final(self).state() == old(self).state()
                    &&& final(output)@ == old(output)@
                },
            },
    ;

    /// The error at each input of the layer, from the error at each neuron;
    /// `inputs_number` is the width of the layer before.
    fn gen_errors<F: Fn(Operation) -> u64>(
        &self,
        gradient: &mut Vec<u64>,
        errors: &[u64],
        inputs_number: usize,
        unit: &F,
    ) -> (r: Result<(), NetError>)
        requires
            self.state().well_formed(),
            total(unit),
        ensures
            match r {
                Ok(_) => {
                    &&& errors@.len() == self.state().neurons.len()
                    &&& inputs_number == self.state().inputs_number
                    &&& final(gradient)@.len() == inputs_number
                    &&& forall|m: Arithmetic| #[trigger]
                        realises(unit, m) ==> final(gradient)@ == error_gradient(
                            m,
                            self.state().neurons,
                            errors@,
                            inputs_number as nat,
                        )
                },
                Err(e) => {
                    &&& !(errors@.len() == self.state().neurons.len() && inputs_number
                        == self.state().inputs_number)
                    &&& e == NetError::DimensionMismatch
                    &&& final(gradient)@ == old(gradient)@
                },
            },
    ;

    /// Updates the weights for the error at each neuron; `prev_layer` is what
    /// came into the layer on the forward pass.
    fn learn<F: Fn(Operation) -> u64>(
        &mut self,
        errors: &[u64],
        prev_layer: &[u64],
        learning_rate: u64,
        inertia: u64,
        unit: &F,
    ) -> (r: Result<(), NetError>)
        requires
            old(self).state().well_formed(),
            total(unit),
        ensures
            final(self).state().well_formed(),
            final(self).state().inputs_number == old(self).state().inputs_number,
            final(self).state().neurons.len() == old(self).state().neurons.len(),
            match r {
                Ok(_) => {
                    &&& errors@.len() == old(self).state().neurons.len()
                    &&& prev_layer@.len() == old(self).state().inputs_number
                    &&& forall|m: Arithmetic| #[trigger]
                        realises(unit, m) ==> final(self).state().neurons == all_adjusted(
                            m,
                            old(self).state().neurons,
                            errors@,
                            prev_layer@,
                            learning_rate,
                            inertia,
                        )
                },
                Err(e) => {
                    &&& !(errors@.len() == old(self).state().neurons.len() && prev_layer@.len()
                        == old(self).state().inputs_number)
                    &&& e == NetError::DimensionMismatch
                    &&& final(self).state() == old(self).state()
                },
            },
    ;

    /// What each neuron last put out.
    fn outputs(&self) -> (r: Vec<u64>)
        ensures
            r@ == outputs_of(self.state().neurons),
    ;

    /// The layer's width: the number of its neurons.
    fn len(&self) -> (r: usize)
        ensures
            r == self.state().neurons.len(),
    ;
}

/// A hidden layer.
#[derive(Debug)]
pub struct LeakyRleu {
    neurons: Vec<neurons::LeakyRelu>,
    inputs_number: usize,
}

impl LeakyRleu {
    /// A layer of `size` neurons for `prev_layer_size` inputs, every weight
    /// from the generator. The weights are drawn neuron by neuron, the bias
    /// first.
    pub fn boxed(prev_layer_size: u32, size: u32, generator_func: &impl Fn() -> u64) -> (r: Box<LeakyRleu>)
        requires
            generator_func.requires(()),
        ensures
            r.state().well_formed(),
            r.state().inputs_number == prev_layer_size,
            r.state().neurons.len() == size,
            forall|n: int|
                0 <= n < size ==> fresh(
                    generator_func,
                    #[trigger] r.state().neurons[n],
                    prev_layer_size as nat,
                    ZERO,
                ),
    {
        let mut layer: Vec<neurons::LeakyRelu> = Vec::new();
        let mut n: u32 = 0;
        while n < size
            invariant
                generator_func.requires(()),
                n <= size,
                layer@.len() == n,
                forall|j: int|
                    0 <= j < n ==> fresh(
                        generator_func,
                        #[trigger] states(layer@)[j],
                        prev_layer_size as nat,
                        ZERO,
                    ),
            decreases size - n,
        {
            let mut weights: Vec<u64> = Vec::new();
            let mut i: u32 = 0;
            weights.push(generator_func());
            while i < prev_layer_size
                invariant
                    generator_func.requires(()),
                    i <= prev_layer_size,
                    weights@.len() == i + 1,
                    drawn(generator_func, weights@),
                decreases prev_layer_size - i,
            {
                weights.push(generator_func());
                i += 1;
            }
            let ghost before = states(layer@);
            let neuron = neurons::LeakyRelu::new(weights);
            let ghost made = neuron.state();
            layer.push(neuron);
            n += 1;
            assert forall|j: int| 0 <= j < n implies fresh(
                generator_func,
                #[trigger] states(layer@)[j],
                prev_layer_size as nat,
                ZERO,
            ) by {
                if j < n - 1 {
                    assert(states(layer@)[j] == before[j]);
                } else {
                    assert(states(layer@)[j] == made);
                }
            }
        }
        let r = LeakyRleu { neurons: layer, inputs_number: prev_layer_size as usize };
        assert(r.state().neurons =~= states(layer@));
        assert forall|n: int| 0 <= n < r.state().neurons.len() implies shaped(
            #[trigger] r.state().neurons[n],
            r.state().inputs_number,
        ) by {
            assert(fresh(generator_func, states(layer@)[n], prev_layer_size as nat, ZERO));
        }
        Box::new(r)
    }

    /// The number of inputs that the layer takes.
    pub fn inputs_number(&self) -> (r: usize)
        ensures
            r == self.state().inputs_number,
    {
        self.inputs_number
    }

    /// The neurons in order.
    pub fn neurons(&self) -> (r: &[neurons::LeakyRelu])
        ensures
            states(r@) == self.state().neurons,
    {
        self.neurons.as_slice()
    }
}

impl Layer for LeakyRleu {
    closed spec fn state(&self) -> LayerState {
        LayerState { inputs_number: self.inputs_number as nat, neurons: states(self.neurons@) }
    }

    open spec fn activation() -> Activation {
        Activation::LeakyRelu
    }

    fn run<F: Fn(Operation) -> u64>(&mut self, output: &mut Vec<u64>, input: &[u64], unit: &F) -> (r:
        Result<(), NetError>) {
        if input.len() != self.inputs_number {
            return Err(NetError::DimensionMismatch);
        }
        run(&mut self.neurons, output, input, unit)
    }

    fn gen_errors<F: Fn(Operation) -> u64>(
        &self,
        gradient: &mut Vec<u64>,
        errors: &[u64],
        inputs_number: usize,
        unit: &F,
    ) -> (r: Result<(), NetError>) {
        if inputs_number != self.inputs_number {
            return Err(NetError::DimensionMismatch);
        }
        gen_errors(self.neurons.as_slice(), gradient, errors, inputs_number, unit)
    }

    fn learn<F: Fn(Operation) -> u64>(
        &mut self,
        errors: &[u64],
        prev_layer: &[u64],
        learning_rate: u64,
        inertia: u64,
        unit: &F,
    ) -> (r: Result<(), NetError>) {
        if prev_layer.len() != self.inputs_number {
            return Err(NetError::DimensionMismatch);
        }
        learn(self.neurons.as_mut_slice(), errors, prev_layer, learning_rate, inertia, unit)
    }

    fn outputs(&self) -> (r: Vec<u64>) {
        let mut r: Vec<u64> = Vec::new();
        let mut n: usize = 0;
        while n < self.neurons.len()
            invariant
                n <= self.neurons@.len(),
                r@.len() == n,
                forall|j: int| 0 <= j < n ==> #[trigger] r@[j] == self.neurons@[j].state().output,
            decreases self.neurons@.len() - n,
        {
            r.push(self.neurons[n].output());
            n += 1;
        }
        assert(r@ =~= outputs_of(self.state().neurons));
        r
    }

    fn len(&self) -> (r: usize) {
        self.neurons.len()
    }
}

/// The output layer.
#[derive(Debug)]
pub struct Out {
    neurons: Vec<neurons::Out>,
    inputs_number: usize,
}

impl Out {
    /// A layer of `size` neurons for `prev_layer_size` inputs, every weight
    /// from the generator. The weights are drawn neuron by neuron, the bias
    /// first.
    pub fn boxed(prev_layer_size: u32, size: u32, generator_func: &impl Fn() -> u64) -> (r: Box<Out>)
        requires
            generator_func.requires(()),
        ensures
            r.state().well_formed(),
            r.state().inputs_number == prev_layer_size,
            r.state().neurons.len() == size,
            forall|n: int|
                0 <= n < size ==> fresh(
                    generator_func,
                    #[trigger] r.state().neurons[n],
                    prev_layer_size as nat,
                    ONE,
                ),
    {
        let mut layer: Vec<neurons::Out> = Vec::new();
        let mut n: u32 = 0;
        while n < size
            invariant
                generator_func.requires(()),
                n <= size,
                layer@.len() == n,
                forall|j: int|
                    0 <= j < n ==> fresh(
                        generator_func,
                        #[trigger] states(layer@)[j],
                        prev_layer_size as nat,
                        ONE,
                    ),
            decreases size - n,
        {
            let mut weights: Vec<u64> = Vec::new();
            let mut i: u32 = 0;
            weights.push(generator_func());
            while i < prev_layer_size
                invariant
                    generator_func.requires(()),
                    i <= prev_layer_size,
                    weights@.len() == i + 1,
                    drawn(generator_func, weights@),
                decreases prev_layer_size - i,
            {
                weights.push(generator_func());
                i += 1;
            }
            let ghost before = states(layer@);
            let neuron = neurons::Out::new(weights);
            let ghost made = neuron.state();
            layer.push(neuron);
            n += 1;
            assert forall|j: int| 0 <= j < n implies fresh(
                generator_func,
                #[trigger] states(layer@)[j],
                prev_layer_size as nat,
                ONE,
            ) by {
                if j < n - 1 {
                    assert(states(layer@)[j] == before[j]);
                } else {
                    assert(states(layer@)[j] == made);
                }
            }
        }
        let r = Out { neurons: layer, inputs_number: prev_layer_size as usize };
        assert(r.state().neurons =~= states(layer@));
        assert forall|n: int| 0 <= n < r.state().neurons.len() implies shaped(
            #[trigger] r.state().neurons[n],
            r.state().inputs_number,
        ) by {
            assert(fresh(generator_func, states(layer@)[n], prev_layer_size as nat, ONE));
        }
        Box::new(r)
    }

    /// The number of inputs that the layer takes.
    pub fn inputs_number(&self) -> (r: usize)
        ensures
            r == self.state().inputs_number,
    {
        self.inputs_number
    }

    /// The neurons in order.
    pub fn neurons(&self) -> (r: &[neurons::Out])
        ensures
            states(r@) == self.state().neurons,
    {
        self.neurons.as_slice()
    }
}

impl Layer for Out {
    closed spec fn state(&self) -> LayerState {
        LayerState { inputs_number: self.inputs_number as nat, neurons: states(self.neurons@) }
    }

    open spec fn activation() -> Activation {
        Activation::Sigmoid
    }

    fn run<F: Fn(Operation) -> u64>(&mut self, output: &mut Vec<u64>, input: &[u64], unit: &F) -> (r:
        Result<(), NetError>) {
        if input.len() != self.inputs_number {
            return Err(NetError::DimensionMismatch);
        }
        run(&mut self.neurons, output, input, unit)
    }

    fn gen_errors<F: Fn(Operation) -> u64>(
        &self,
        gradient: &mut Vec<u64>,
        errors: &[u64],
        inputs_number: usize,
        unit: &F,
    ) -> (r: Result<(), NetError>) {
        if inputs_number != self.inputs_number {
            return Err(NetError::DimensionMismatch);
        }
        gen_errors(self.neurons.as_slice(), gradient, errors, inputs_number, unit)
    }

    fn learn<F: Fn(Operation) -> u64>(
        &mut self,
        errors: &[u64],
        prev_layer: &[u64],
        learning_rate: u64,
        inertia: u64,
        unit: &F,
    ) -> (r: Result<(), NetError>) {
        if prev_layer.len() != self.inputs_number {
            return Err(NetError::DimensionMismatch);
        }
        learn(self.neurons.as_mut_slice(), errors, prev_layer, learning_rate, inertia, unit)
    }

    fn outputs(&self) -> (r: Vec<u64>) {
        let mut r: Vec<u64> = Vec::new();
        let mut n: usize = 0;
        while n < self.neurons.len()
            invariant
                n <= self.neurons@.len(),
                r@.len() == n,
                forall|j: int| 0 <= j < n ==> #[trigger] r@[j] == self.neurons@[j].state().output,
            decreases self.neurons@.len() - n,
        {
            r.push(self.neurons[n].output());
            n += 1;
        }
        assert(r@ =~= outputs_of(self.state().neurons));
        r
    }

    fn len(&self) -> (r: usize) {
        self.neurons.len()
    }
}

} // verus!
