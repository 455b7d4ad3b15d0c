use neural_network::activation::Activation;
use neural_network::fixed::SCALE;
use neural_network::layer::DenseLayer;
use neural_network::network::{Error, Network};
use neural_network::rng::seeded_rng;

const HALF: i64 = SCALE / 2;

#[test]
fn test_building_network() {
    let mut rng = seeded_rng(1);
    let network = Network::build()
        .input(784)
        .dense(16, Activation::Sigmoid, &mut rng)
        .dense(10, Activation::Sigmoid, &mut rng)
        .done();

    let input: Vec<i64> = vec![0; 784];
    let output = network.predict(&input).unwrap();

    assert_eq!(output.len(), 10);
    // sigmoid outputs are strictly between zero and one
    for &v in output.iter() {
        assert!(0 < v && v < SCALE);
    }
}

#[test]
fn predict_is_deterministic_for_fixed_weights() {
    let mut rng = seeded_rng(7);
    let network = Network::build()
        .input(3)
        .dense(4, Activation::Sigmoid, &mut rng)
        .dense(2, Activation::Sigmoid, &mut rng)
        .done();

    let input: Vec<i64> = vec![SCALE, 0, -SCALE];
    let a = network.predict(&input).unwrap();
    let b = network.predict(&input).unwrap();
    assert_eq!(a, b);
}

#[test]
fn empty_network_is_the_identity() {
    let network = Network::build().input(5).done();
    let input: Vec<i64> = vec![1, -2, 3, -4, 5];
    let output = network.predict(&input).unwrap();
    assert_eq!(output, input);
    assert_eq!(output.len(), 5);
}

#[test]
fn wrong_input_length_is_rejected_and_leaves_weights_alone() {
    let mut rng = seeded_rng(3);
    let mut network = Network::build().input(2).dense(1, Activation::Sigmoid, &mut rng).done();

    let probe: Vec<i64> = vec![SCALE, HALF];
    let before = network.predict(&probe).unwrap();

    let too_short: Vec<i64> = vec![SCALE];
    assert_eq!(network.predict(&too_short), Err(Error::ShapeMismatch));

    // a bad training batch is rejected without touching the weights
    let bad_data = vec![vec![SCALE, 0, 0]];
    let bad_label = vec![vec![SCALE]];
    assert_eq!(network.gradient_descent(&bad_data, &bad_label, SCALE), Err(Error::ShapeMismatch));
    let unequal_data = vec![vec![SCALE, 0]];
    let no_labels: Vec<Vec<i64>> = vec![];
    assert_eq!(
        network.gradient_descent(&unequal_data, &no_labels, SCALE),
        Err(Error::ShapeMismatch)
    );
    let wrong_label = vec![vec![SCALE, SCALE]];
    assert_eq!(
        network.gradient_descent(&unequal_data, &wrong_label, SCALE),
        Err(Error::ShapeMismatch)
    );

    let after = network.predict(&probe).unwrap();
    assert_eq!(before, after);
}

#[test]
fn empty_batch_is_rejected() {
    let mut rng = seeded_rng(4);
    let mut network = Network::build().input(2).dense(1, Activation::Sigmoid, &mut rng).done();
    let no_data: Vec<Vec<i64>> = vec![];
    let no_labels: Vec<Vec<i64>> = vec![];
    assert_eq!(network.gradient_descent(&no_data, &no_labels, SCALE), Err(Error::EmptyBatch));
    assert_eq!(
        network.stochastic_gradient_descent(&no_data, &no_labels, SCALE, 2, &mut rng),
        Err(Error::EmptyBatch)
    );
}

#[test]
fn gradient_descent_cost_is_never_negative() {
    let mut rng = seeded_rng(5);
    let mut network = Network::build().input(2).dense(2, Activation::Sigmoid, &mut rng).done();
    let data = vec![vec![0, 0], vec![SCALE, SCALE]];
    let label = vec![vec![0, SCALE], vec![SCALE, 0]];
    for _ in 0..50 {
        let cost = network.gradient_descent(&data, &label, SCALE).unwrap();
        assert!(cost >= 0);
    }
    let cost = network.stochastic_gradient_descent(&data, &label, SCALE, 1, &mut rng).unwrap();
    assert!(cost >= 0);
}

#[test]
fn training_on_one_example_drives_the_cost_down() {
    let mut rng = seeded_rng(11);
    let mut network = Network::build().input(1).dense(1, Activation::Sigmoid, &mut rng).done();
    let data = vec![vec![SCALE]];
    let label = vec![vec![SCALE]];
    let mut costs: Vec<i64> = Vec::new();
    for _ in 0..600 {
        costs.push(network.gradient_descent(&data, &label, HALF).unwrap());
    }
    // strictly decreasing until it converges near zero
    for w in costs.windows(2) {
        assert!(w[1] <= w[0], "cost went up: {} -> {}", w[0], w[1]);
        if w[0] > 200 {
            assert!(w[1] < w[0], "cost stalled early: {} -> {}", w[0], w[1]);
        }
    }
    assert!(*costs.last().unwrap() <= 200, "cost did not converge: {:?}", costs.last());
}

#[test]
fn single_layer_network_learns_and() {
    let mut rng = seeded_rng(2);
    let mut network = Network::build().input(2).dense(1, Activation::Sigmoid, &mut rng).done();
    let data = vec![vec![0, 0], vec![0, SCALE], vec![SCALE, 0], vec![SCALE, SCALE]];
    let label = vec![vec![0], vec![0], vec![0], vec![SCALE]];
    for _ in 0..1000 {
        network.gradient_descent(&data, &label, SCALE).unwrap();
    }
    let on = network.predict(&vec![SCALE, SCALE]).unwrap();
    let off = network.predict(&vec![0, 0]).unwrap();
    assert!(on[0] > HALF, "predict(1,1) = {}", on[0]);
    assert!(off[0] < HALF, "predict(0,0) = {}", off[0]);
}

#[test]
fn evaluation_counts_correct_argmax_predictions() {
    // a network with no layers predicts its input, so the arg-max is
    // directly visible
    let network = Network::build().input(3).done();
    let data = vec![vec![5, 9, 2], vec![7, 1, 1], vec![0, 0, 64]];
    assert_eq!(network.test(&data, &vec![1, 0, 2]), 3);
    assert_eq!(network.test(&data, &vec![1, 0, 1]), 2);
    assert_eq!(network.test(&data, &vec![0, 1, 0]), 0);
    // among equal entries the last index wins
    let ties = vec![vec![3, 3, 1]];
    assert_eq!(network.test(&ties, &vec![1]), 1);
    assert_eq!(network.test(&ties, &vec![0]), 0);
}

#[test]
fn one_chunk_stochastic_descent_matches_full_batch() {
    // with mini_batch_size == n there is exactly one chunk, and since
    // fixed-point sums of small values are order-independent the step
    // equals a full-batch step
    let mut rng = seeded_rng(9);
    let mut net_a = Network::build().input(2).dense(2, Activation::Sigmoid, &mut rng).done();
    let mut rng_b = seeded_rng(9);
    let mut net_b = Network::build().input(2).dense(2, Activation::Sigmoid, &mut rng_b).done();

    let data = vec![vec![0, SCALE], vec![SCALE, 0], vec![HALF, HALF]];
    let label = vec![vec![SCALE, 0], vec![0, SCALE], vec![HALF, HALF]];

    let cost_a = net_a.gradient_descent(&data, &label, SCALE).unwrap();
    let cost_b = net_b
        .stochastic_gradient_descent(&data, &label, SCALE, data.len(), &mut rng)
        .unwrap();
    assert_eq!(cost_a, cost_b);

    let probe = vec![HALF, -HALF];
    assert_eq!(net_a.predict(&probe).unwrap(), net_b.predict(&probe).unwrap());
}

#[test]
fn stochastic_descent_handles_a_shorter_final_chunk() {
    let mut rng = seeded_rng(10);
    let mut network = Network::build().input(1).dense(1, Activation::Sigmoid, &mut rng).done();
    let data = vec![vec![0], vec![SCALE], vec![2 * SCALE], vec![-SCALE], vec![HALF]];
    let label = vec![vec![0], vec![SCALE], vec![SCALE], vec![0], vec![HALF]];
    // five examples in chunks of two: the last chunk has one example
    let cost = network.stochastic_gradient_descent(&data, &label, HALF, 2, &mut rng).unwrap();
    assert!(cost >= 0);
    // chunk size larger than the data: one short chunk
    let cost = network.stochastic_gradient_descent(&data, &label, HALF, 7, &mut rng).unwrap();
    assert!(cost >= 0);
}

#[test]
fn random_layers_draw_weights_within_one() {
    let mut rng = seeded_rng(12);
    let layer = DenseLayer::random(3, 2, Activation::Sigmoid, &mut rng);
    let w = layer.weights();
    assert_eq!(w.rows(), 2);
    assert_eq!(w.cols(), 3);
    let mut any_nonzero = false;
    for i in 0..2 {
        for j in 0..3 {
            let v = w.get(i, j);
            assert!(-SCALE <= v && v <= SCALE);
            if v != 0 {
                any_nonzero = true;
            }
        }
    }
    for &b in layer.biases().iter() {
        assert!(-SCALE <= b && b <= SCALE);
    }
    assert!(any_nonzero);
}

#[test]
fn test_matrix_layer() {
    let layer = DenseLayer::new(3, 1, Activation::Sigmoid);
    let input: Vec<i64> = vec![SCALE; 3];

    let (z, a) = layer.feed_forward(&input);

    println!("z={:?}, a={:?}", z, a);
    // zero-initialised weights: the pre-activation is zero and the
    // sigmoid output is exactly one half
    assert_eq!(z, vec![0]);
    assert_eq!(a, vec![SCALE / 2]);
}
