use vstd::prelude::*;
use crate::arithmetic::{Arithmetic, Operation, ONE, ZERO, realises, total};
use crate::error::NetError;
use crate::layers;
use crate::layers::{
    Layer, LayerState, LeakyRleu, all_adjusted, all_fired, error_gradient, fresh, outputs_of,
};
use crate::neurons::Activation;

verus! {

/// What a network holds: its layers from the input side on, and the input it
/// last ran on.
pub struct NetState {
    pub layers: Seq<LayerState>,
    pub input: Seq<u64>,
}

impl NetState {
    /// There is at least one layer, every layer is well formed, and each
    /// takes as many inputs as the layer before it is wide.
    pub open spec fn well_formed(self) -> bool {
        &&& self.layers.len() >= 1
        &&& forall|k: int| 0 <= k < self.layers.len() ==> (#[trigger] self.layers[k]).well_formed()
        &&& forall|k: int|
            1 <= k < self.layers.len() ==> (#[trigger] self.layers[k]).inputs_number
                == self.layers[k - 1].neurons.len()
    }

    /// The width of the input, then the width of each layer.
    pub open spec fn topology(self) -> Seq<nat> {
        Seq::new(
            self.layers.len() + 1,
            |k: int|
                if k == 0 {
                    self.layers[0].inputs_number
                } else {
                    self.layers[k - 1].neurons.len()
                },
        )
    }

    /// The width of the input.
    pub open spec fn inputs_number(self) -> nat {
        self.layers[0].inputs_number
    }

    /// The width of the output.
    pub open spec fn outputs_number(self) -> nat {
        self.layers.last().neurons.len()
    }

    /// The last layer is the output layer; those before it are hidden.
    pub open spec fn activation_at(self, k: int) -> Activation {
        if k + 1 == self.layers.len() {
            Activation::Sigmoid
        } else {
            Activation::LeakyRelu
        }
    }
}

/// What enters layer `k` when the network runs on `input`: the input itself
/// for the first layer, and for every other what the layer before puts out.
pub open spec fn signal(m: Arithmetic, s: NetState, input: Seq<u64>, k: nat) -> Seq<u64>
    decreases k,
{
    if k == 0 {
        input
    } else {
        outputs_of(
            all_fired(
                m,
                s.activation_at(k - 1),
                s.layers[k - 1].neurons,
                signal(m, s, input, (k - 1) as nat),
            ),
        )
    }
}

/// What the network answers to `input`.
pub open spec fn response(m: Arithmetic, s: NetState, input: Seq<u64>) -> Seq<u64> {
    signal(m, s, input, s.layers.len())
}

/// Layer `k` after a forward pass: its neurons have fired on what entered
/// the layer.
pub open spec fn ran_layer(m: Arithmetic, s: NetState, input: Seq<u64>, k: int) -> LayerState {
    LayerState {
        neurons: all_fired(m, s.activation_at(k), s.layers[k].neurons, signal(m, s, input, k as nat)),
        ..s.layers[k]
    }
}

/// The network after a forward pass: every layer has fired, and the input is
/// kept.
pub open spec fn ran(m: Arithmetic, s: NetState, input: Seq<u64>) -> NetState {
    NetState { layers: Seq::new(s.layers.len(), |k: int| ran_layer(m, s, input, k)), input }
}

/// The error at each neuron of layer `k`: for the last layer what the caller
/// gives, for every other the error at the inputs of the layer after it, as
/// that layer stands in `s`.
pub open spec fn back_errors(m: Arithmetic, s: NetState, errors: Seq<u64>, k: int) -> Seq<u64>
    decreases s.layers.len() - k,
{
    if k + 1 >= s.layers.len() {
        errors
    } else {
        error_gradient(
            m,
            s.layers[k + 1].neurons,
            back_errors(m, s, errors, k + 1),
            s.layers[k].neurons.len(),
        )
    }
}

/// What entered layer `k` on the last forward pass.
pub open spec fn feed(s: NetState, k: int) -> Seq<u64> {
    if k == 0 {
        s.input
    } else {
        outputs_of(s.layers[k - 1].neurons)
    }
}

/// Layer `k` after a backward pass: its neurons are updated for the error at
/// each of them, on what entered the layer.
pub open spec fn learned_layer(
    m: Arithmetic,
    s: NetState,
    errors: Seq<u64>,
    learning_rate: u64,
    inertia: u64,
    k: int,
) -> LayerState {
    LayerState {
        neurons: all_adjusted(
            m,
            s.layers[k].neurons,
            back_errors(m, s, errors, k),
            feed(s, k),
            learning_rate,
            inertia,
        ),
        ..s.layers[k]
    }
}

/// The network after a backward pass: every layer is updated.
pub open spec fn learned(
    m: Arithmetic,
    s: NetState,
    errors: Seq<u64>,
    learning_rate: u64,
    inertia: u64,
) -> NetState {
    NetState {
        layers: Seq::new(
            s.layers.len(),
            |k: int| learned_layer(m, s, errors, learning_rate, inertia, k),
        ),
        input: s.input,
    }
}

/// A feedforward network: hidden layers, then one output layer.
#[derive(Debug)]
pub struct NeuralNet {
    hidden: Vec<LeakyRleu>,
    out: layers::Out,
    input: Vec<u64>,
}

impl NeuralNet {
    /// What the network holds.
    pub closed spec fn state(&self) -> NetState {
        NetState {
            layers: Seq::new(
                self.hidden@.len() + 1,
                |k: int|
                    if k < self.hidden@.len() {
                        self.hidden@[k].state()
                    } else {
                        self.out.state()
                    },
            ),
            input: self.input@,
        }
    }

    /// A network of the widths in `layers_desc`: the width of the input first,
    /// the width of the output last. Every weight comes from the generator,
    /// drawn layer by layer from the input side on.
    pub fn new(layers_desc: &[u32], generator_func: &impl Fn() -> u64) -> (r: Result<NeuralNet, NetError>)
        requires
            generator_func.requires(()),
        ensures
            match r {
                Ok(net) => {
                    &&& layers_desc@.len() >= 2
                    &&& net.state().well_formed()
                    &&& net.state().layers.len() + 1 == layers_desc@.len()
                    &&& net.state().topology() == Seq::new(
                        layers_desc@.len(),
                        |k: int| layers_desc@[k] as nat,
                    )
                    &&& net.state().input.len() == 0
                    &&& forall|k: int, n: int|
                        0 <= k < net.state().layers.len() && 0 <= n < net.state().layers[k].neurons.len()
                            ==> fresh(
                            generator_func,
                            #[trigger] net.state().layers[k].neurons[n],
                            layers_desc@[k] as nat,
                            if k + 1 == net.state().layers.len() {
                                ONE
                            } else {
                                ZERO
                            },
                        )
                },
                Err(e) => layers_desc@.len() < 2 && e == NetError::DimensionMismatch,
            },
    {
        if layers_desc.len() < 2 {
            return Err(NetError::DimensionMismatch);
        }
        let mut hidden: Vec<LeakyRleu> = Vec::new();
        let mut i: usize = 1;
        while i < layers_desc.len() - 1
            invariant
                generator_func.requires(()),
                layers_desc@.len() >= 2,
                1 <= i < layers_desc@.len(),
                hidden@.len() == i - 1,
                forall|k: int|
                    0 <= k < hidden@.len() ==> {
                        &&& (#[trigger] hidden@[k]).state().well_formed()
                        &&& hidden@[k].state().inputs_number == layers_desc@[k]
                        &&& hidden@[k].state().neurons.len() == layers_desc@[k + 1]
                        &&& forall|n: int|
                            0 <= n < hidden@[k].state().neurons.len() ==> fresh(
                                generator_func,
                                #[trigger] hidden@[k].state().neurons[n],
                                layers_desc@[k] as nat,
                                ZERO,
                            )
                    },
            decreases layers_desc@.len() - i,
        {
            let layer = LeakyRleu::boxed(layers_desc[i - 1], layers_desc[i], generator_func);
            hidden.push(*layer);
            i += 1;
        }
        let out = layers::Out::boxed(layers_desc[i - 1], layers_desc[i], generator_func);
        let net = NeuralNet { hidden, out: *out, input: Vec::new() };
        assert(net.state().topology() =~= Seq::new(layers_desc@.len(), |k: int| layers_desc@[k] as nat));
        Ok(net)
    }

    /// The hidden layers, from the input side on.
    pub fn hidden_layers(&self) -> (r: &[LeakyRleu])
        ensures
            r@.len() + 1 == self.state().layers.len(),
            forall|k: int| 0 <= k < r@.len() ==> (#[trigger] r@[k]).state() == self.state().layers[k],
    {
        self.hidden.as_slice()
    }

    /// The output layer.
    pub fn output_layer(&self) -> (r: &layers::Out)
        ensures
            r.state() == self.state().layers.last(),
    {
        &self.out
    }

    /// The input of the last forward pass; empty before the first.
    pub fn input(&self) -> (r: &[u64])
        ensures
            r@ == self.state().input,
    {
        self.input.as_slice()
    }

    /// The number of inputs that the network takes.
    pub fn inputs_number(&self) -> (r: usize)
        ensures
            r == self.state().inputs_number(),
    {
        if self.hidden.len() > 0 {
            self.hidden[0].inputs_number()
        } else {
            self.out.inputs_number()
        }
    }

    /// The forward pass. The network keeps the input for the backward pass
    /// that follows.
    pub fn run<F: Fn(Operation) -> u64>(&mut self, input: Vec<u64>, unit: &F) -> (r: Result<
        Vec<u64>,
        NetError,
    >)
        requires
            old(self).state().well_formed(),
            total(unit),
        ensures
            final(self).state().well_formed(),
            final(self).state().topology() == old(self).state().topology(),
            final(self).state().inputs_number() == old(self).state().inputs_number(),
            final(self).state().outputs_number() == old(self).state().outputs_number(),
            match r {
                Ok(output) => {
                    &&& input@.len() == old(self).state().inputs_number()
                    &&& output@.len() == old(self).state().outputs_number()
                    &&& final(self).state().input == input@
                    &&& forall|m: Arithmetic| #[trigger]
                        realises(unit, m) ==> {
                            &&& final(self).state() == ran(m, old(self).state(), input@)
                            &&& output@ == response(m, old(self).state(), input@)
                        }
                },
                Err(e) => {
                    &&& input@.len() != old(self).state().inputs_number()
                    &&& e == NetError::DimensionMismatch
                    &&& final(self).state() == old(self).state()
                },
            },
    {
        if input.len() != self.inputs_number() {
            return Err(NetError::DimensionMismatch);
        }
        let ghost s = self.state();
        let ghost x = input@;
        self.input = input.clone();
        let mut input = input;
        let mut output: Vec<u64> = Vec::new();
        let mut k: usize = 0;
        assert forall|j: int| 0 <= j < self.hidden@.len() implies (#[trigger] self.hidden@[j]).state()
            == s.layers[j] by {}
        while k < self.hidden.len()
            invariant
                total(unit),
                s == old(self).state(),
                s.well_formed(),
                self.hidden@.len() == old(self).hidden@.len(),
                self.out == old(self).out,
                self.input@ == x,
                k <= self.hidden@.len(),
                input@.len() == s.layers[k as int].inputs_number,
                forall|j: int|
                    0 <= j < self.hidden@.len() ==> {
                        &&& (#[trigger] self.hidden@[j]).state().well_formed()
                        &&& self.hidden@[j].state().inputs_number == s.layers[j].inputs_number
                        &&& self.hidden@[j].state().neurons.len() == s.layers[j].neurons.len()
                    },
                forall|m: Arithmetic| #[trigger]
                    realises(unit, m) ==> {
                        &&& input@ == signal(m, s, x, k as nat)
                        &&& forall|j: int|
                            0 <= j < k ==> (#[trigger] self.hidden@[j]).state() == ran_layer(m, s, x, j)
                    },
                forall|j: int|
                    k <= j < self.hidden@.len() ==> #[trigger] self.hidden@[j] == old(self).hidden@[j],
            decreases self.hidden@.len() - k,
        {
            assert(self.hidden@[k as int].state() == s.layers[k as int]);
            assert(s.layers[k + 1].inputs_number == s.layers[k as int].neurons.len());
            self.hidden[k].run(&mut output, input.as_slice(), unit)?;
            std::mem::swap(&mut output, &mut input);
            k += 1;
        }
        assert(self.out.state() == s.layers[k as int]);
        self.out.run(&mut output, input.as_slice(), unit)?;
        proof {
            assert(self.state().topology() =~= s.topology());
            assert forall|m: Arithmetic| #[trigger] realises(unit, m) implies self.state() == ran(m, s, x)
                && output@ == response(m, s, x) by {
                assert(self.state().layers =~= ran(m, s, x).layers);
            }
        }
        Ok(output)
    }

    /// The backward pass, for the error at each output of the forward pass
    /// before it. From the last layer to the first, the error at a layer's
    /// inputs is taken before the layer's weights change.
    pub fn learn<F: Fn(Operation) -> u64>(
        &mut self,
        errors: Vec<u64>,
        learning_rate: u64,
        inertia: u64,
        unit: &F,
    ) -> (r: Result<(), NetError>)
        requires
            old(self).state().well_formed(),
            total(unit),
        ensures
            final(self).state().well_formed(),
            final(self).state().topology() == old(self).state().topology(),
            final(self).state().inputs_number() == old(self).state().inputs_number(),
            final(self).state().outputs_number() == old(self).state().outputs_number(),
            final(self).state().input == old(self).state().input,
            match r {
                Ok(_) => {
                    &&& errors@.len() == old(self).state().outputs_number()
                    &&& old(self).state().input.len() == old(self).state().inputs_number()
                    &&& forall|m: Arithmetic| #[trigger]
                        realises(unit, m) ==> final(self).state() == learned(
                            m,
                            old(self).state(),
                            errors@,
                            learning_rate,
                            inertia,
                        )
                },
                Err(e) => {
                    &&& !(errors@.len() == old(self).state().outputs_number()
                        && old(self).state().input.len() == old(self).state().inputs_number())
                    &&& e == NetError::DimensionMismatch
                    &&& final(self).state() == old(self).state()
                },
            },
    {
        if errors.len() != self.out.len() || self.input.len() != self.inputs_number() {
            return Err(NetError::DimensionMismatch);
        }
        let ghost s = self.state();
        let ghost e = errors@;
        let ghost rate = learning_rate;
        let mut errors = errors;
        let mut error_gradient: Vec<u64> = Vec::new();
        let mut k: usize = self.hidden.len();
        proof {
            assert forall|j: int| 0 <= j < self.hidden@.len() implies (#[trigger] self.hidden@[j]).state()
                == s.layers[j] by {}
            assert(self.out.state() == s.layers[k as int]);
            assert(s.layers[k as int].well_formed());
        }
        if k == 0 {
            self.out.learn(errors.as_slice(), self.input.as_slice(), learning_rate, inertia, unit)?;
            proof {
                assert forall|m: Arithmetic| #[trigger] realises(unit, m) implies self.out.state()
                    == learned_layer(m, s, e, rate, inertia, 0) by {
                    assert(back_errors(m, s, e, 0) == e);
                }
            }
        } else {
            assert(s.layers[k as int].inputs_number == s.layers[k - 1].neurons.len());
            let width = self.hidden[k - 1].len();
            self.out.gen_errors(&mut error_gradient, errors.as_slice(), width, unit)?;
            let fed = self.hidden[k - 1].outputs();
            self.out.learn(errors.as_slice(), fed.as_slice(), learning_rate, inertia, unit)?;
            std::mem::swap(&mut errors, &mut error_gradient);
            proof {
                assert forall|m: Arithmetic| #[trigger] realises(unit, m) implies errors@ == back_errors(
                    m,
                    s,
                    e,
                    k - 1,
                ) && self.out.state() == learned_layer(m, s, e, rate, inertia, k as int) by {
                    assert(back_errors(m, s, e, k as int) == e);
                }
            }
            while k > 1
                invariant
                    total(unit),
                    s == old(self).state(),
                    s.well_formed(),
                    rate == learning_rate,
                    self.hidden@.len() == old(self).hidden@.len(),
                    s.layers.len() == self.hidden@.len() + 1,
                    self.input == old(self).input,
                    1 <= k <= self.hidden@.len(),
                    errors@.len() == s.layers[k - 1].neurons.len(),
                    self.out.state().well_formed(),
                    self.out.state().inputs_number == s.layers[self.hidden@.len() as int].inputs_number,
                    self.out.state().neurons.len() == s.layers[self.hidden@.len() as int].neurons.len(),
                    forall|j: int|
                        0 <= j < self.hidden@.len() ==> {
                            &&& (#[trigger] self.hidden@[j]).state().well_formed()
                            &&& self.hidden@[j].state().inputs_number == s.layers[j].inputs_number
                            &&& self.hidden@[j].state().neurons.len() == s.layers[j].neurons.len()
                        },
                    forall|j: int| 0 <= j < k ==> (#[trigger] self.hidden@[j]).state() == s.layers[j],
                    forall|m: Arithmetic| #[trigger]
                        realises(unit, m) ==> {
                            &&& errors@ == back_errors(m, s, e, k - 1)
                            &&& self.out.state() == learned_layer(
                                m,
                                s,
                                e,
                                rate,
                                inertia,
                                self.hidden@.len() as int,
                            )
                            &&& forall|j: int|
                                k <= j < self.hidden@.len() ==> (#[trigger] self.hidden@[j]).state()
                                    == learned_layer(m, s, e, rate, inertia, j)
                        },
                decreases k,
            {
                let ghost before = self.hidden@;
                let ghost given = errors@;
                assert(before[k - 1].state() == s.layers[k - 1]);
                assert(before[k - 2].state() == s.layers[k - 2]);
                assert(s.layers[k - 1].inputs_number == s.layers[k - 2].neurons.len());
                assert(s.layers[k - 1].well_formed());
                let width = self.hidden[k - 2].len();
                self.hidden[k - 1].gen_errors(&mut error_gradient, errors.as_slice(), width, unit)?;
                let fed = self.hidden[k - 2].outputs();
                self.hidden[k - 1].learn(errors.as_slice(), fed.as_slice(), learning_rate, inertia, unit)?;
                std::mem::swap(&mut errors, &mut error_gradient);
                proof {
                    assert(forall|j: int|
                        0 <= j < before.len() && j != k - 1 ==> self.hidden@[j] == #[trigger] before[j]);
                    assert forall|m: Arithmetic| #[trigger] realises(unit, m) implies errors@
                        == back_errors(m, s, e, k - 2) && (forall|j: int|
                        k - 1 <= j < self.hidden@.len() ==> (#[trigger] self.hidden@[j]).state()
                            == learned_layer(m, s, e, rate, inertia, j)) by {
                        assert(given == back_errors(m, s, e, k - 1));
                        assert(self.hidden@[k - 1].state() == learned_layer(m, s, e, rate, inertia, k - 1));
                        assert forall|j: int| k - 1 <= j < self.hidden@.len() implies (
                        #[trigger] self.hidden@[j]).state() == learned_layer(m, s, e, rate, inertia, j) by {
                            if j != k - 1 {
                                assert(self.hidden@[j] == before[j]);
                            }
                        }
                    }
                }
                k -= 1;
            }
            assert(self.hidden@[0].state() == s.layers[0]);
            assert(s.layers[0].well_formed());
            self.hidden[0].learn(
                errors.as_slice(),
                self.input.as_slice(),
                learning_rate,
                inertia,
                unit,
            )?;
        }
        proof {
            assert(self.state().topology() =~= s.topology());
            assert forall|m: Arithmetic| #[trigger] realises(unit, m) implies self.state() == learned(
                m,
                s,
                e,
                rate,
                inertia,
            ) by {
                assert forall|j: int| 0 <= j < s.layers.len() implies #[trigger] self.state().layers[j]
                    == learned_layer(m, s, e, rate, inertia, j) by {
                    if j < self.hidden@.len() {
                        assert(self.hidden@[j].state() == learned_layer(m, s, e, rate, inertia, j));
                    }
                }
                assert(self.state().layers =~= learned(m, s, e, rate, inertia).layers);
            }
        }
        Ok(())
    }
}

} // verus!
