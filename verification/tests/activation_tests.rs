use neural_network::activation::Activation;
use neural_network::fixed::SCALE;

#[test]
fn sigmoid_at_zero_is_exactly_one_half() {
    assert_eq!(Activation::Sigmoid.apply(0), SCALE / 2);
}

#[test]
fn sigmoid_known_values() {
    // sigmoid(1.0) and sigmoid(-1.0) in fixed point
    assert_eq!(Activation::Sigmoid.apply(SCALE), 47906);
    assert_eq!(Activation::Sigmoid.apply(-SCALE), 17630);
    // sigmoid(2.0)
    assert_eq!(Activation::Sigmoid.apply(2 * SCALE), 57698);
    // symmetric pair sums to one
    assert_eq!(
        Activation::Sigmoid.apply(SCALE) + Activation::Sigmoid.apply(-SCALE),
        SCALE
    );
}

#[test]
fn sigmoid_stays_strictly_between_zero_and_one() {
    let mut x: i64 = -40 * SCALE;
    while x <= 40 * SCALE {
        let s = Activation::Sigmoid.apply(x);
        assert!(0 < s && s < SCALE, "sigmoid out of range at {}", x);
        x += 12345;
    }
    // far outside the saturation window
    assert!(Activation::Sigmoid.apply(i64::MAX) < SCALE);
    assert!(Activation::Sigmoid.apply(i64::MIN) > 0);
}

#[test]
fn sigmoid_derivative_values() {
    // sigmoid'(0) = 1/4
    assert_eq!(Activation::Sigmoid.apply_prime(0), SCALE / 4);
    assert_eq!(Activation::Sigmoid.apply_prime(SCALE), 12887);
    assert_eq!(Activation::Sigmoid.apply_prime(-SCALE), 12887);
}

#[test]
fn relu_values() {
    assert_eq!(Activation::Relu.apply(-5), 0);
    assert_eq!(Activation::Relu.apply(0), 0);
    assert_eq!(Activation::Relu.apply(7), 7);
    assert_eq!(Activation::Relu.apply(3 * SCALE), 3 * SCALE);
    assert!(Activation::Relu.apply(-123456) >= 0);
}

#[test]
fn relu_derivative_is_a_step() {
    assert_eq!(Activation::Relu.apply_prime(-1), 0);
    assert_eq!(Activation::Relu.apply_prime(0), 0);
    assert_eq!(Activation::Relu.apply_prime(1), SCALE);
}

#[test]
fn perceptron_is_a_hard_threshold() {
    assert_eq!(Activation::Perceptron.apply(-1), 0);
    assert_eq!(Activation::Perceptron.apply(0), 0);
    assert_eq!(Activation::Perceptron.apply(1), SCALE);
    // its derivative is the constant one, by design
    assert_eq!(Activation::Perceptron.apply_prime(-99), SCALE);
    assert_eq!(Activation::Perceptron.apply_prime(99), SCALE);
}

#[test]
fn identity_passes_values_through() {
    assert_eq!(Activation::Identity.apply(-42), -42);
    assert_eq!(Activation::Identity.apply_prime(-42), SCALE);
}
