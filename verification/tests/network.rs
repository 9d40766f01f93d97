use neural_net::arithmetic::{Operation, ONE, ZERO};
use neural_net::error::NetError;
use neural_net::layers::Layer;
use neural_net::network::NeuralNet;
use neural_net::neurons::Neuron;
use rand::{Rng, SeedableRng};
use rand_xorshift::XorShiftRng;
use std::cell::{Cell, RefCell};

fn unit(op: Operation) -> u64 {
    match op {
        Operation::Add(a, b) => (f64::from_bits(a) + f64::from_bits(b)).to_bits(),
        Operation::Mul(a, b) => (f64::from_bits(a) * f64::from_bits(b)).to_bits(),
        Operation::Div(a, b) => (f64::from_bits(a) / f64::from_bits(b)).to_bits(),
        Operation::Exp(a) => f64::from_bits(a).exp().to_bits(),
    }
}

fn bits(values: &[f64]) -> Vec<u64> {
    values.iter().map(|v| v.to_bits()).collect()
}

fn reals(values: &[u64]) -> Vec<f64> {
    values.iter().map(|v| f64::from_bits(*v)).collect()
}

fn sequence(values: &[f64]) -> impl Fn() -> u64 {
    let values = values.to_vec();
    let next = Cell::new(0usize);
    move || {
        let i = next.get();
        next.set(i + 1);
        values[i].to_bits()
    }
}

fn counting() -> impl Fn() -> u64 {
    let next = Cell::new(0u32);
    move || {
        let i = next.get();
        next.set(i + 1);
        (f64::from(i % 7) / 8.0 - 0.375).to_bits()
    }
}

fn sigmoid(x: f64) -> f64 {
    1.0 / (1.0 + (-x).exp())
}

/// The weights of every neuron, layer by layer.
fn weights(net: &NeuralNet) -> Vec<Vec<Vec<f64>>> {
    let mut all: Vec<Vec<Vec<f64>>> =
        net.hidden_layers().iter().map(|l| l.neurons().iter().map(|n| reals(n.weights())).collect()).collect();
    all.push(net.output_layer().neurons().iter().map(|n| reals(n.weights())).collect());
    all
}

/// The momentum of every neuron, layer by layer.
fn momentum(net: &NeuralNet) -> Vec<Vec<Vec<f64>>> {
    let mut all: Vec<Vec<Vec<f64>>> =
        net.hidden_layers().iter().map(|l| l.neurons().iter().map(|n| reals(n.momentum())).collect()).collect();
    all.push(net.output_layer().neurons().iter().map(|n| reals(n.momentum())).collect());
    all
}

fn assert_shape(net: &NeuralNet, topology: &[usize]) {
    assert_eq!(net.inputs_number(), topology[0]);
    assert_eq!(net.hidden_layers().len() + 2, topology.len());
    let all = weights(net);
    let held = momentum(net);
    for k in 1..topology.len() {
        assert_eq!(all[k - 1].len(), topology[k]);
        for n in 0..topology[k] {
            assert_eq!(all[k - 1][n].len(), 1 + topology[k - 1]);
            assert_eq!(held[k - 1][n].len(), 1 + topology[k - 1]);
        }
    }
    for (k, layer) in net.hidden_layers().iter().enumerate() {
        assert_eq!(layer.len(), topology[k + 1]);
        assert_eq!(layer.inputs_number(), topology[k]);
    }
    assert_eq!(net.output_layer().len(), topology[topology.len() - 1]);
    assert_eq!(net.output_layer().inputs_number(), topology[topology.len() - 2]);
}

#[test]
fn new_refuses_fewer_than_two_widths() {
    assert_eq!(NeuralNet::new(&[], &counting()).unwrap_err(), NetError::DimensionMismatch);
    assert_eq!(NeuralNet::new(&[3], &counting()).unwrap_err(), NetError::DimensionMismatch);
    assert!(NeuralNet::new(&[3, 1], &counting()).is_ok());
}

#[test]
fn new_draws_every_weight_in_order() {
    let drawn: Vec<f64> = (1..=13).map(f64::from).collect();
    let net = NeuralNet::new(&[2, 2, 1, 2], &sequence(&drawn)).unwrap();
    assert_eq!(
        weights(&net),
        vec![
            vec![vec![1.0, 2.0, 3.0], vec![4.0, 5.0, 6.0]],
            vec![vec![7.0, 8.0, 9.0]],
            vec![vec![10.0, 11.0], vec![12.0, 13.0]],
        ]
    );
    assert_eq!(
        momentum(&net),
        vec![vec![vec![0.0; 3], vec![0.0; 3]], vec![vec![0.0; 3]], vec![vec![0.0; 2], vec![0.0; 2]]]
    );
    assert_eq!(net.input(), &[] as &[u64]);
    assert_eq!(net.hidden_layers()[0].outputs(), vec![ZERO, ZERO]);
    assert_eq!(net.output_layer().neurons()[0].derivative(), ONE);
    assert_eq!(net.hidden_layers()[1].neurons()[0].derivative(), ZERO);
}

#[test]
fn a_network_has_the_shape_of_its_topology() {
    for topology in [vec![2, 6, 2], vec![1, 1], vec![3, 4, 5, 2], vec![0, 2], vec![2, 0, 1], vec![4, 3, 0]] {
        let desc: Vec<u32> = topology.iter().map(|w| *w as u32).collect();
        let mut net = NeuralNet::new(&desc, &counting()).unwrap();
        assert_shape(&net, &topology);
        let input = vec![ONE; topology[0]];
        let output = net.run(input, &unit).unwrap();
        assert_eq!(output.len(), topology[topology.len() - 1]);
        assert_shape(&net, &topology);
        net.learn(vec![ONE; output.len()], 0.1f64.to_bits(), 0.5f64.to_bits(), &unit).unwrap();
        assert_shape(&net, &topology);
        assert_eq!(net.run(vec![ONE; topology[0] + 1], &unit), Err(NetError::DimensionMismatch));
        assert_eq!(
            net.learn(vec![ONE; output.len() + 1], ONE, ZERO, &unit),
            Err(NetError::DimensionMismatch)
        );
        assert_shape(&net, &topology);
    }
}

#[test]
fn run_threads_the_input_through_the_layers() {
    let mut net = NeuralNet::new(&[2, 2, 1], &sequence(&[0.5, 1.0, -1.0, -1.0, 1.0, 1.0, 0.25, 2.0, -4.0])).unwrap();
    let output = net.run(bits(&[3.0, 1.0]), &unit).unwrap();
    let first = 0.5 + 1.0 * 3.0 + -1.0 * 1.0;
    let second = (-1.0 + 1.0 * 3.0 + 1.0 * 1.0) * 1.0;
    assert_eq!(reals(&net.hidden_layers()[0].outputs()), vec![first, second]);
    assert_eq!(reals(&output), vec![sigmoid(0.25 + 2.0 * first + -4.0 * second)]);
    assert_eq!(net.output_layer().outputs(), output);
    assert_eq!(reals(net.input()), vec![3.0, 1.0]);
    let output = net.run(bits(&[-3.0, 1.0]), &unit).unwrap();
    let first = (0.5 + 1.0 * -3.0 + -1.0 * 1.0) * 0.01;
    let second = (-1.0 + 1.0 * -3.0 + 1.0 * 1.0) * 0.01;
    assert_eq!(reals(&net.hidden_layers()[0].outputs()), vec![first, second]);
    assert_eq!(reals(&output), vec![sigmoid(0.25 + 2.0 * first + -4.0 * second)]);
    assert_eq!(reals(net.input()), vec![-3.0, 1.0]);
}

#[test]
fn run_refuses_an_input_of_another_width() {
    let mut net = NeuralNet::new(&[2, 3, 1], &counting()).unwrap();
    let before = weights(&net);
    assert_eq!(net.run(bits(&[1.0]), &unit), Err(NetError::DimensionMismatch));
    assert_eq!(net.run(bits(&[1.0, 2.0, 3.0]), &unit), Err(NetError::DimensionMismatch));
    assert_eq!(net.run(vec![], &unit), Err(NetError::DimensionMismatch));
    assert_eq!(net.input(), &[] as &[u64]);
    assert_eq!(net.hidden_layers()[0].outputs(), vec![ZERO; 3]);
    assert_eq!(weights(&net), before);
    net.run(bits(&[1.0, 2.0]), &unit).unwrap();
    let kept = net.output_layer().outputs();
    assert_eq!(net.run(bits(&[5.0]), &unit), Err(NetError::DimensionMismatch));
    assert_eq!(reals(net.input()), vec![1.0, 2.0]);
    assert_eq!(net.output_layer().outputs(), kept);
}

#[test]
fn learn_refuses_errors_of_another_width() {
    let mut net = NeuralNet::new(&[2, 3, 2], &counting()).unwrap();
    net.run(bits(&[1.0, 2.0]), &unit).unwrap();
    let before = weights(&net);
    let rate = 0.1f64.to_bits();
    assert_eq!(net.learn(bits(&[1.0]), rate, ZERO, &unit), Err(NetError::DimensionMismatch));
    assert_eq!(net.learn(bits(&[1.0, 2.0, 3.0]), rate, ZERO, &unit), Err(NetError::DimensionMismatch));
    assert_eq!(net.learn(vec![], rate, ZERO, &unit), Err(NetError::DimensionMismatch));
    assert_eq!(weights(&net), before);
    assert_eq!(momentum(&net), vec![vec![vec![0.0; 3]; 3], vec![vec![0.0; 4]; 2]]);
    assert_eq!(net.learn(bits(&[1.0, 2.0]), rate, ZERO, &unit), Ok(()));
    assert_ne!(weights(&net), before);
}

#[test]
fn learn_refuses_to_go_before_a_forward_pass() {
    let mut net = NeuralNet::new(&[2, 2], &counting()).unwrap();
    let before = weights(&net);
    assert_eq!(net.learn(bits(&[1.0, 2.0]), ONE, ZERO, &unit), Err(NetError::DimensionMismatch));
    assert_eq!(weights(&net), before);
    net.run(bits(&[1.0, 2.0]), &unit).unwrap();
    assert_eq!(net.learn(bits(&[1.0, 2.0]), ONE, ZERO, &unit), Ok(()));
    let mut bare = NeuralNet::new(&[0, 1], &counting()).unwrap();
    assert_eq!(bare.learn(bits(&[1.0]), ONE, ZERO, &unit), Ok(()));
}

#[test]
fn running_twice_gives_the_same_bits() {
    let mut net = NeuralNet::new(&[3, 5, 4, 2], &counting()).unwrap();
    let input = bits(&[0.3, -1.7, 12.5]);
    let first = net.run(input.clone(), &unit).unwrap();
    let after_first = net.hidden_layers()[1].outputs();
    let second = net.run(input.clone(), &unit).unwrap();
    assert_eq!(first, second);
    assert_eq!(net.hidden_layers()[1].outputs(), after_first);
    net.run(bits(&[9.0, 9.0, 9.0]), &unit).unwrap();
    assert_eq!(net.run(input.clone(), &unit).unwrap(), first);
    let mut twin = NeuralNet::new(&[3, 5, 4, 2], &counting()).unwrap();
    assert_eq!(twin.run(input, &unit).unwrap(), first);
}

#[test]
fn momentum_is_the_step_just_taken() {
    let mut net = NeuralNet::new(&[2, 3, 2], &counting()).unwrap();
    let rate = 0.05f64.to_bits();
    let inertia = 0.2f64.to_bits();
    for round in 0..3 {
        let output = net.run(bits(&[0.25 + f64::from(round), -0.5]), &unit).unwrap();
        let errors: Vec<u64> = reals(&output).iter().map(|o| (1.0 - o).to_bits()).collect();
        let before = weights(&net);
        net.learn(errors, rate, inertia, &unit).unwrap();
        let after = weights(&net);
        let held = momentum(&net);
        let mut moved = false;
        for k in 0..after.len() {
            for n in 0..after[k].len() {
                for i in 0..after[k][n].len() {
                    assert_eq!(after[k][n][i], before[k][n][i] + held[k][n][i]);
                    moved = moved || held[k][n][i] != 0.0;
                }
            }
        }
        assert!(moved);
    }
}

#[test]
fn without_momentum_the_step_is_the_signal_times_the_input() {
    let mut net = NeuralNet::new(&[2, 2], &sequence(&[0.5, 1.0, -1.0, -0.25, 2.0, 0.75])).unwrap();
    let rate = 0.5f64.to_bits();
    for input in [[3.0, 1.0], [-2.0, 0.5]] {
        net.run(bits(&input), &unit).unwrap();
        let before = weights(&net);
        net.learn(bits(&[0.25, -1.5]), rate, ZERO, &unit).unwrap();
        for (n, error) in [0.25, -1.5].iter().enumerate() {
            let signal = 0.5 * 1.0 * error;
            let steps = vec![signal, signal * input[0], signal * input[1]];
            assert_eq!(momentum(&net)[0][n], steps);
            let moved: Vec<f64> = (0..3).map(|i| before[0][n][i] + steps[i]).collect();
            assert_eq!(weights(&net)[0][n], moved);
        }
    }
}

#[test]
fn the_error_for_a_layer_comes_from_the_weights_before_the_update() {
    let drawn = [0.5, 1.0, -1.0, -1.0, 1.0, 1.0, 0.25, 2.0, -4.0, -0.5, 3.0, 1.5];
    let mut net = NeuralNet::new(&[2, 2, 2], &sequence(&drawn)).unwrap();
    net.run(bits(&[3.0, 1.0]), &unit).unwrap();
    let before = weights(&net);
    let errors = [0.5, -0.25];
    let rate = 0.5f64;
    net.learn(bits(&errors), rate.to_bits(), ZERO, &unit).unwrap();
    let after = weights(&net);
    assert_ne!(after[1], before[1]);
    // both hidden neurons fired at or above zero, so their derivative is one
    let derivatives: Vec<f64> = net.hidden_layers()[0].neurons().iter().map(|n| f64::from_bits(n.derivative())).collect();
    assert_eq!(derivatives, vec![1.0, 1.0]);
    let expected = |last: &Vec<Vec<f64>>| -> Vec<Vec<f64>> {
        (0..2)
            .map(|n| {
                let gradient = (0.0 + last[0][n + 1] * 1.0 * errors[0]) + last[1][n + 1] * 1.0 * errors[1];
                let signal = rate * 1.0 * gradient;
                vec![
                    before[0][n][0] + (0.0 * 0.0 + signal),
                    before[0][n][1] + (0.0 * 0.0 + signal * 3.0),
                    before[0][n][2] + (0.0 * 0.0 + signal * 1.0),
                ]
            })
            .collect()
    };
    assert_eq!(after[0], expected(&before[1]));
    assert_ne!(after[0], expected(&after[1]));
}

#[test]
fn one_sigmoid_neuron_learns_one_sample() {
    let mut net = NeuralNet::new(&[1, 1], &sequence(&[0.0, 1.0])).unwrap();
    assert_eq!(weights(&net), vec![vec![vec![0.0, 1.0]]]);
    assert_eq!(momentum(&net), vec![vec![vec![0.0, 0.0]]]);
    let output = reals(&net.run(bits(&[0.5]), &unit).unwrap());
    assert_eq!(output, vec![1.0 / (1.0 + (-0.5f64).exp())]);
    assert!((output[0] - 0.6224593).abs() < 1e-7);
    let error = 1.0 - output[0];
    assert!((error - 0.3775407).abs() < 1e-7);
    net.learn(bits(&[error]), 0.1f64.to_bits(), ZERO, &unit).unwrap();
    let signal = 0.1 * 1.0 * error;
    assert!((signal - 0.0377541).abs() < 1e-7);
    let bias = weights(&net)[0][0][0];
    let weight = weights(&net)[0][0][1];
    assert_eq!(bias, 0.0 + signal);
    assert_eq!(weight, 1.0 + signal * 0.5);
    assert!((bias - 0.0377541).abs() < 1e-7);
    assert!((weight - 1.0188770).abs() < 1e-7);
    assert_eq!(momentum(&net), vec![vec![vec![signal, signal * 0.5]]]);
    assert!((momentum(&net)[0][0][0] - 0.0377541).abs() < 1e-7);
    assert!((momentum(&net)[0][0][1] - 0.0188770).abs() < 1e-7);
}

#[test]
fn training_on_rings_brings_the_error_down() {
    let rng = RefCell::new(XorShiftRng::from_seed([7, 1, 8, 2, 8, 1, 8, 2, 8, 4, 5, 9, 0, 4, 5, 2]));
    let get_random = || rng.borrow_mut().gen_range(0.0f64, 1.0f64);
    let mut net = NeuralNet::new(&[2, 6, 2], &|| get_random().to_bits()).unwrap();
    let dataset: Vec<(f64, f64, Vec<f64>)> = (0..2_000)
        .map(|_| loop {
            let (x, y) = (get_random(), get_random());
            let d = (x * x + y * y).sqrt();
            if !(d > 0.3 && d < 0.7) {
                let expected = if d > 0.3 { vec![1.0, 0.0] } else { vec![0.0, 1.0] };
                break (x, y, expected);
            }
        })
        .collect();
    let mean_error = |net: &mut NeuralNet| -> f64 {
        let held_out = dataset.iter().rev().take(100);
        let total: f64 = held_out
            .map(|(x, y, expected)| {
                let result = reals(&net.run(bits(&[*x, *y]), &unit).unwrap());
                expected.iter().zip(&result).map(|(e, r)| (e - r) * (e - r)).sum::<f64>()
            })
            .sum();
        total / 100.0
    };
    let mut errors = vec![mean_error(&mut net)];
    for i in 0..100 {
        for _ in 0..10 {
            for (x, y, expected) in dataset.iter().skip(i * 10).take(10) {
                let result = reals(&net.run(bits(&[*x, *y]), &unit).unwrap());
                let error: Vec<u64> = expected.iter().zip(&result).map(|(e, r)| (e - r).to_bits()).collect();
                net.learn(error, 0.05f64.to_bits(), 0.2f64.to_bits(), &unit).unwrap();
            }
        }
        if (i + 1) % 25 == 0 {
            errors.push(mean_error(&mut net));
        }
    }
    println!("mean squared error on the held-out samples: {errors:?}");
    assert_eq!(errors.len(), 5);
    assert!(errors.iter().all(|e| e.is_finite()));
    assert!(errors[4] < errors[0]);
    assert!(errors[4] < 0.25);
}
