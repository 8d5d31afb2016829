use fusee_controle::config::ActivationFunction;
use fusee_controle::network::NeuralNetwork;
use rand::SeedableRng;

fn unit_net(activation: ActivationFunction) -> NeuralNetwork {
    NeuralNetwork {
        weights: vec![vec![vec![1_000_000]]],
        biases: vec![vec![0]],
        activation,
    }
}

#[test]
fn relu_unit_network_passes_positive_through() {
    let net = unit_net(ActivationFunction::ReLU);
    assert_eq!(net.forward(&vec![5_000_000]), vec![5_000_000]);
    assert_eq!(net.forward(&vec![0]), vec![0]);
}

#[test]
fn relu_unit_network_clips_negative_to_zero() {
    let net = unit_net(ActivationFunction::ReLU);
    assert_eq!(net.forward(&vec![-3_000_000]), vec![0]);
}

#[test]
fn tanh_unit_network_exact_values() {
    let net = unit_net(ActivationFunction::Tanh);
    // x (27 + x^2) / (27 + 9 x^2) at one unit: 28 / 36 of a unit
    assert_eq!(net.forward(&vec![1_000_000]), vec![777_777]);
    assert_eq!(net.forward(&vec![-1_000_000]), vec![-777_777]);
    // saturated at three units and beyond
    assert_eq!(net.forward(&vec![3_000_000]), vec![1_000_000]);
    assert_eq!(net.forward(&vec![50_000_000]), vec![1_000_000]);
    assert_eq!(net.forward(&vec![0]), vec![0]);
}

#[test]
fn silu_unit_network_exact_values() {
    let net = unit_net(ActivationFunction::SiLU);
    assert_eq!(net.forward(&vec![0]), vec![0]);
    // x (1 + tanh(x/2)) / 2 at two units: 2 * (1 + 0.777777) / 2
    assert_eq!(net.forward(&vec![2_000_000]), vec![1_777_777]);
}

#[test]
fn forward_sums_weighted_inputs_and_bias() {
    // two inputs, one output, weights 0.5 and -0.25, bias 0.1, ReLU
    let net = NeuralNetwork {
        weights: vec![vec![vec![500_000], vec![-250_000]]],
        biases: vec![vec![100_000]],
        activation: ActivationFunction::ReLU,
    };
    // 1.0 * 0.5 + 2.0 * (-0.25) + 0.1 = 0.1
    let out = net.forward(&vec![1_000_000, 2_000_000]);
    assert_eq!(out, vec![100_000]);
}

#[test]
fn forward_saturates_oversized_sums() {
    // the heaviest admissible weight against the largest admissible input
    let net = NeuralNetwork {
        weights: vec![vec![vec![2_000_000]]],
        biases: vec![vec![0]],
        activation: ActivationFunction::ReLU,
    };
    let out = net.forward(&vec![1_000_000_000_000]);
    // the doubled input saturates at the value limit
    assert_eq!(out, vec![1_000_000_000_000]);
    let out = net.forward(&vec![-1_000_000_000_000]);
    assert_eq!(out, vec![0]);
}

#[test]
fn mutation_with_zero_rate_is_bit_for_bit_identical() {
    let mut rng = rand::rngs::StdRng::seed_from_u64(11);
    let net = NeuralNetwork::new(&vec![6, 8, 2], ActivationFunction::Tanh, &mut rng);
    let copy = net.copy_with_mutation(0, 100_000, &mut rng);
    assert_eq!(net.weights, copy.weights);
    assert_eq!(net.biases, copy.biases);
}

#[test]
fn mutation_stays_within_strength_and_clamps() {
    let mut rng = rand::rngs::StdRng::seed_from_u64(12);
    let net = NeuralNetwork::new(&vec![4, 4, 2], ActivationFunction::ReLU, &mut rng);
    // rate of one: every entry perturbed by at most the strength
    let copy = net.copy_with_mutation(1_000_000, 10_000, &mut rng);
    for (lw, lc) in net.weights.iter().zip(copy.weights.iter()) {
        for (rw, rc) in lw.iter().zip(lc.iter()) {
            for (a, b) in rw.iter().zip(rc.iter()) {
                assert!((a - b).abs() <= 10_000);
                assert!(b.abs() <= 2_000_000);
            }
        }
    }
    for (lb, lc) in net.biases.iter().zip(copy.biases.iter()) {
        for (a, b) in lb.iter().zip(lc.iter()) {
            assert!((a - b).abs() <= 10_000);
            assert!(b.abs() <= 1_000_000);
        }
    }
}

#[test]
fn new_network_has_requested_shape_and_bounded_coefficients() {
    let mut rng = rand::rngs::StdRng::seed_from_u64(13);
    let net = NeuralNetwork::new(&vec![6, 64, 32, 2], ActivationFunction::Tanh, &mut rng);
    assert_eq!(net.weights.len(), 3);
    assert_eq!(net.biases.len(), 3);
    assert_eq!(net.weights[0].len(), 6);
    assert_eq!(net.weights[0][0].len(), 64);
    assert_eq!(net.weights[1].len(), 64);
    assert_eq!(net.weights[1][0].len(), 32);
    assert_eq!(net.weights[2].len(), 32);
    assert_eq!(net.weights[2][0].len(), 2);
    assert_eq!(net.biases[2].len(), 2);
    for layer in &net.weights {
        for row in layer {
            for w in row {
                assert!(w.abs() <= 2_000_000);
            }
        }
    }
    for layer in &net.biases {
        for b in layer {
            assert!(b.abs() <= 1_000_000);
        }
    }
}
