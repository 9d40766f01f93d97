use vstd::prelude::*;
use crate::arithmetic::{Arithmetic, SIGN, ZERO, is_finite, is_nan, plus, times, zero_adds_nothing};
use crate::layers::{all_adjusted, error_gradient};
use crate::neurons::{NeuronState, adjusted, delta, shaped};
use crate::network::{NetState, back_errors, feed, learned, ran, response, signal};

verus! {

/// Two networks weigh alike when they have the same layers of the same widths
/// and every neuron of one has the weights of its counterpart.
pub open spec fn same_weights(a: NetState, b: NetState) -> bool {
    &&& a.layers.len() == b.layers.len()
    &&& forall|k: int|
        0 <= k < a.layers.len() ==> (#[trigger] a.layers[k]).neurons.len() == b.layers[k].neurons.len()
    &&& forall|k: int, n: int|
        0 <= k < a.layers.len() && 0 <= n < a.layers[k].neurons.len() ==> (
        #[trigger] a.layers[k].neurons[n]).weights == b.layers[k].neurons[n].weights
}

/// The step of plain gradient descent on weight `i`: the learning signal
/// times the weight's input, the signal itself for the bias.
pub open spec fn plain_step(m: Arithmetic, d_out: u64, inputs: Seq<u64>, i: int) -> u64 {
    if i == 0 {
        d_out
    } else {
        times(m, d_out, inputs[i - 1])
    }
}

/// The shape of a network: every layer is as wide as its entry of the
/// topology, and every neuron has one weight, and one momentum entry, for the
/// bias and for each neuron of the layer before, or each input.
pub proof fn lemma_shape_follows_topology(s: NetState, k: int, n: int)
    requires
        s.well_formed(),
        0 <= k < s.layers.len(),
        0 <= n < s.layers[k].neurons.len(),
    ensures
        s.topology().len() == s.layers.len() + 1,
        s.layers[k].neurons.len() == s.topology()[k + 1],
        s.layers[k].inputs_number == s.topology()[k],
        s.layers[k].neurons[n].weights.len() == 1 + s.topology()[k],
        s.layers[k].neurons[n].momentum.len() == 1 + s.topology()[k],
{
    assert(s.layers[k].well_formed());
    assert(shaped(s.layers[k].neurons[n], s.layers[k].inputs_number));
    if k > 0 {
        assert(s.layers[k].inputs_number == s.layers[k - 1].neurons.len());
    }
}

/// A forward pass leaves the shape of a network as it is: every layer keeps
/// its width, every neuron its number of weights and of momentum entries.
pub proof fn lemma_run_keeps_shape(m: Arithmetic, s: NetState, input: Seq<u64>)
    requires
        s.well_formed(),
    ensures
        ran(m, s, input).well_formed(),
        ran(m, s, input).topology() == s.topology(),
{
    let after = ran(m, s, input);
    assert forall|k: int| 0 <= k < after.layers.len() implies (#[trigger] after.layers[k]).well_formed() by {
        assert(s.layers[k].well_formed());
        assert forall|n: int| 0 <= n < after.layers[k].neurons.len() implies shaped(
            #[trigger] after.layers[k].neurons[n],
            after.layers[k].inputs_number,
        ) by {
            assert(shaped(s.layers[k].neurons[n], s.layers[k].inputs_number));
        }
    }
    assert forall|k: int| 1 <= k < after.layers.len() implies (#[trigger] after.layers[k]).inputs_number
        == after.layers[k - 1].neurons.len() by {
        assert(s.layers[k].inputs_number == s.layers[k - 1].neurons.len());
    }
    assert(after.topology() =~= s.topology());
}

/// A backward pass leaves the shape of a network as it is.
pub proof fn lemma_learn_keeps_shape(
    m: Arithmetic,
    s: NetState,
    errors: Seq<u64>,
    learning_rate: u64,
    inertia: u64,
)
    requires
        s.well_formed(),
    ensures
        learned(m, s, errors, learning_rate, inertia).well_formed(),
        learned(m, s, errors, learning_rate, inertia).topology() == s.topology(),
{
    let after = learned(m, s, errors, learning_rate, inertia);
    assert forall|k: int| 0 <= k < after.layers.len() implies (#[trigger] after.layers[k]).well_formed() by {
        assert(s.layers[k].well_formed());
        assert forall|n: int| 0 <= n < after.layers[k].neurons.len() implies shaped(
            #[trigger] after.layers[k].neurons[n],
            after.layers[k].inputs_number,
        ) by {
            assert(shaped(s.layers[k].neurons[n], s.layers[k].inputs_number));
        }
    }
    assert forall|k: int| 1 <= k < after.layers.len() implies (#[trigger] after.layers[k]).inputs_number
        == after.layers[k - 1].neurons.len() by {
        assert(s.layers[k].inputs_number == s.layers[k - 1].neurons.len());
    }
    assert(after.topology() =~= s.topology());
}

/// What enters a layer depends on the weights before it and on the input,
/// not on what the neurons hold besides.
pub proof fn lemma_signal_depends_on_weights(
    m: Arithmetic,
    a: NetState,
    b: NetState,
    input: Seq<u64>,
    k: nat,
)
    requires
        same_weights(a, b),
        k <= a.layers.len(),
    ensures
        signal(m, a, input, k) == signal(m, b, input, k),
    decreases k,
{
    if k > 0 {
        lemma_signal_depends_on_weights(m, a, b, input, (k - 1) as nat);
        assert(a.layers[k - 1].neurons.len() == b.layers[k - 1].neurons.len());
        assert forall|n: int| 0 <= n < a.layers[k - 1].neurons.len() implies signal(m, a, input, k)[n]
            == signal(m, b, input, k)[n] by {
            assert(a.layers[k - 1].neurons[n].weights == b.layers[k - 1].neurons[n].weights);
        }
        assert(signal(m, a, input, k) =~= signal(m, b, input, k));
    }
}

/// Determinism: networks that weigh alike answer alike. The answer to an
/// input is a function of the weights and the input alone.
pub proof fn lemma_response_depends_on_weights(m: Arithmetic, a: NetState, b: NetState, input: Seq<u64>)
    requires
        same_weights(a, b),
    ensures
        response(m, a, input) == response(m, b, input),
{
    lemma_signal_depends_on_weights(m, a, b, input, a.layers.len());
}

/// A forward pass changes no weight.
pub proof fn lemma_run_keeps_weights(m: Arithmetic, s: NetState, input: Seq<u64>)
    ensures
        same_weights(s, ran(m, s, input)),
{
}

/// Running twice on one input gives the same answer twice, and leaves the
/// network as the first run left it.
pub proof fn lemma_run_twice(m: Arithmetic, s: NetState, input: Seq<u64>)
    ensures
        response(m, ran(m, s, input), input) == response(m, s, input),
        ran(m, ran(m, s, input), input) == ran(m, s, input),
{
    let once = ran(m, s, input);
    lemma_run_keeps_weights(m, s, input);
    lemma_response_depends_on_weights(m, s, once, input);
    assert forall|k: int| 0 <= k < s.layers.len() implies (#[trigger] ran(m, once, input).layers[k])
        == once.layers[k] by {
        lemma_signal_depends_on_weights(m, s, once, input, k as nat);
        assert(ran(m, once, input).layers[k].neurons =~= once.layers[k].neurons);
    }
    assert(ran(m, once, input).layers =~= once.layers);
}

/// Momentum bookkeeping: after a backward pass every neuron's momentum entry
/// is the step that the pass took on the weight it belongs to.
pub proof fn lemma_momentum_is_the_step_taken(
    m: Arithmetic,
    s: NetState,
    errors: Seq<u64>,
    learning_rate: u64,
    inertia: u64,
    k: int,
    n: int,
    i: int,
)
    requires
        s.well_formed(),
        0 <= k < s.layers.len(),
        0 <= n < s.layers[k].neurons.len(),
        0 <= i < s.layers[k].neurons[n].weights.len(),
    ensures
        ({
            let before = s.layers[k].neurons[n];
            let after = learned(m, s, errors, learning_rate, inertia).layers[k].neurons[n];
            after.weights[i] == plus(m, before.weights[i], after.momentum[i])
        }),
{
    assert(s.layers[k].well_formed());
    assert(shaped(s.layers[k].neurons[n], s.layers[k].inputs_number));
}

/// Plain gradient descent: with a momentum factor of zero, in an arithmetic
/// where zero adds nothing, the step on a weight is the plain step and the
/// weight moves by it. The earlier step must be finite, and the plain step a
/// number; where nothing of the earlier step is kept as positive zero, the
/// plain step must not be negative zero.
pub proof fn lemma_zero_momentum_is_plain_descent(
    m: Arithmetic,
    s: NeuronState,
    d_out: u64,
    inputs: Seq<u64>,
    i: int,
)
    requires
        zero_adds_nothing(m),
        shaped(s, inputs.len()),
        0 <= i < s.weights.len(),
        is_finite(s.momentum[i]),
        !is_nan(plain_step(m, d_out, inputs, i)),
        !(times(m, ZERO, s.momentum[i]) == ZERO && plain_step(m, d_out, inputs, i) == SIGN),
    ensures
        delta(m, s.momentum, d_out, ZERO, inputs, i) == plain_step(m, d_out, inputs, i),
        adjusted(m, s, d_out, ZERO, inputs).momentum[i] == plain_step(m, d_out, inputs, i),
        adjusted(m, s, d_out, ZERO, inputs).weights[i] == plus(
            m,
            s.weights[i],
            plain_step(m, d_out, inputs, i),
        ),
{
    let kept = times(m, ZERO, s.momentum[i]);
    let step = plain_step(m, d_out, inputs, i);
    assert(kept == ZERO || kept == SIGN);
    assert(plus(m, kept, step) == step);
}

/// Gradient ordering: the error that a backward pass hands to a layer comes
/// from the layer after it as that layer stood before the pass, not as the
/// pass leaves it.
pub proof fn lemma_errors_come_from_weights_before_update(
    m: Arithmetic,
    s: NetState,
    errors: Seq<u64>,
    learning_rate: u64,
    inertia: u64,
    k: int,
)
    requires
        1 <= k < s.layers.len(),
    ensures
        back_errors(m, s, errors, k - 1) == error_gradient(
            m,
            s.layers[k].neurons,
            back_errors(m, s, errors, k),
            s.layers[k - 1].neurons.len(),
        ),
        learned(m, s, errors, learning_rate, inertia).layers[k - 1].neurons == all_adjusted(
            m,
            s.layers[k - 1].neurons,
            error_gradient(
                m,
                s.layers[k].neurons,
                back_errors(m, s, errors, k),
                s.layers[k - 1].neurons.len(),
            ),
            feed(s, k - 1),
            learning_rate,
            inertia,
        ),
{
}

} // verus!
