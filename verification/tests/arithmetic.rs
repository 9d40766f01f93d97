use neural_net::arithmetic::{
    eval, is_at_least_zero, negate, Operation, INFINITY, ONE, SIGN, ZERO,
};
use neural_net::neurons::LeakyRelu;

fn unit(op: Operation) -> u64 {
    match op {
        Operation::Add(a, b) => (f64::from_bits(a) + f64::from_bits(b)).to_bits(),
        Operation::Mul(a, b) => (f64::from_bits(a) * f64::from_bits(b)).to_bits(),
        Operation::Div(a, b) => (f64::from_bits(a) / f64::from_bits(b)).to_bits(),
        Operation::Exp(a) => f64::from_bits(a).exp().to_bits(),
    }
}

fn samples() -> Vec<f64> {
    vec![
        0.0,
        -0.0,
        1.0,
        -1.0,
        0.01,
        -0.01,
        0.5,
        -2.0,
        1e300,
        -1e300,
        5e-324,
        -5e-324,
        f64::MAX,
        f64::MIN,
        f64::INFINITY,
        f64::NEG_INFINITY,
        f64::NAN,
        -f64::NAN,
    ]
}

#[test]
fn constants_are_the_bit_patterns_of_their_numbers() {
    assert_eq!(ZERO, 0.0f64.to_bits());
    assert_eq!(ONE, 1.0f64.to_bits());
    assert_eq!(SIGN, (-0.0f64).to_bits());
    assert_eq!(INFINITY, f64::INFINITY.to_bits());
    assert_eq!(LeakyRelu::A, 0.01f64.to_bits());
}

#[test]
fn negate_gives_the_opposite_number() {
    for x in samples() {
        assert_eq!(negate(x.to_bits()), (-x).to_bits(), "{x}");
    }
    assert_eq!(negate(ONE), (-1.0f64).to_bits());
    assert_eq!(negate(negate(LeakyRelu::A)), LeakyRelu::A);
}

#[test]
fn is_at_least_zero_agrees_with_the_comparison() {
    for x in samples() {
        assert_eq!(is_at_least_zero(x.to_bits()), x >= 0.0, "{x}");
    }
    assert!(is_at_least_zero(ZERO));
    assert!(is_at_least_zero(SIGN));
    assert!(is_at_least_zero(INFINITY));
    assert!(!is_at_least_zero(INFINITY + 1));
    assert!(!is_at_least_zero(SIGN + 1));
    assert!(!is_at_least_zero(u64::MAX));
}

#[test]
fn eval_hands_the_operation_to_the_unit() {
    let two = 2.0f64.to_bits();
    let three = 3.0f64.to_bits();
    assert_eq!(eval(&unit, Operation::Add(two, three)), 5.0f64.to_bits());
    assert_eq!(eval(&unit, Operation::Mul(two, three)), 6.0f64.to_bits());
    assert_eq!(eval(&unit, Operation::Div(three, two)), 1.5f64.to_bits());
    assert_eq!(eval(&unit, Operation::Exp(ZERO)), ONE);
    let first = |op: Operation| match op {
        Operation::Add(a, _) | Operation::Mul(a, _) | Operation::Div(a, _) | Operation::Exp(a) => a,
    };
    assert_eq!(eval(&first, Operation::Div(7, 9)), 7);
}

#[test]
fn zero_adds_nothing_in_binary64() {
    for x in samples() {
        let bits = x.to_bits();
        if x.is_finite() {
            let kept = unit(Operation::Mul(ZERO, bits));
            assert!(kept == ZERO || kept == SIGN, "{x}");
        }
        if !x.is_nan() {
            assert_eq!(unit(Operation::Add(SIGN, bits)), bits, "{x}");
            if bits != SIGN {
                assert_eq!(unit(Operation::Add(ZERO, bits)), bits, "{x}");
            }
        }
    }
    assert_eq!(unit(Operation::Add(ZERO, SIGN)), ZERO);
    assert!(f64::from_bits(unit(Operation::Mul(ZERO, INFINITY))).is_nan());
}
