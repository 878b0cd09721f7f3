use lib_simulation::count_weights;
use lib_simulation::Layer;
use lib_simulation::Network;
use lib_simulation::Neuron;
use lib_simulation::Point;
use lib_simulation::RandomSource;
use lib_simulation::Recorder;
use nalgebra as na;
use rand::distributions::Distribution;
use rand::distributions::WeightedIndex;
use rand::Rng;
use rand::SeedableRng;
use rand_chacha::ChaCha8Rng;

struct Draws(ChaCha8Rng);

impl Draws {
    fn seeded() -> Self {
        Draws(ChaCha8Rng::from_seed(Default::default()))
    }
}

impl RandomSource<f32> for Draws {
    fn uniform(&mut self, low: f32, high: f32) -> f32 {
        self.0.gen_range(low..=high)
    }

    fn fair_coin(&mut self) -> bool {
        self.0.gen_bool(0.5)
    }

    fn bernoulli(&mut self, chance: f32) -> bool {
        self.0.gen_bool(chance as _)
    }

    fn weighted_index(&mut self, weights: &[f32]) -> usize {
        WeightedIndex::new(weights.iter())
            .expect("got an empty population")
            .sample(&mut self.0)
    }

    fn index(&mut self, size: usize) -> usize {
        self.0.gen_range(0..size)
    }

    fn point(&mut self) -> Point<f32> {
        let point: na::Point2<f32> = self.0.gen();

        Point {
            x: point.x,
            y: point.y,
        }
    }

    fn rotation(&mut self) -> f32 {
        let rotation: na::Rotation2<f32> = self.0.gen();

        rotation.angle()
    }
}

fn close(actual: f32, expected: f32) -> bool {
    approx::Relative::default().eq(&actual, &expected)
}

fn all_close(actual: &[f32], expected: &[f32]) -> bool {
    approx::Relative::default().eq(actual, expected)
}

#[test]
fn neuron_test_random() {
    let mut rng = Recorder::new(Draws::seeded());
    let neuron = Neuron::random(&mut rng, 4);

    assert!(close(neuron.bias, -0.6255188));
    assert!(all_close(
        neuron.weights.as_slice(),
        [0.67383957, 0.8181262, 0.26284897, 0.5238807].as_ref()
    ));
}

#[test]
fn neuron_test_propogate() {
    let neuron = Neuron {
        bias: 0.5,
        weights: vec![-0.3, 0.8],
    };

    // test ReLU
    assert!(close(neuron.propogate(&[-10.0, -10.0]), 0.0));

    assert!(close(
        neuron.propogate(&[-0.4, 0.7]),
        (-0.4 * -0.3) + (0.7 * 0.8) + 0.5,
    ));
}

#[test]
fn layer_test_random() {
    let mut rng = Recorder::new(Draws::seeded());

    let input_size: usize = 3;
    let num_neurons: usize = 2;
    let layer = Layer::random(&mut rng, input_size, num_neurons);

    let mut actual_biases: Vec<f32> = Vec::with_capacity(num_neurons);
    let mut actual_weights: Vec<&[f32]> = Vec::with_capacity(num_neurons);
    for i in 0..num_neurons {
        actual_biases.push(layer.neurons[i].bias);
        actual_weights.push(layer.neurons[i].weights.as_slice());
    }

    let expected_biases: Vec<f32> = vec![-0.6255188, 0.5238807];
    let expected_weights: Vec<&[f32]> = vec![
        &[0.67383957, 0.8181262, 0.26284897],
        &[-0.53516835, 0.069369674, -0.7648182],
    ];

    assert!(all_close(actual_biases.as_slice(), expected_biases.as_slice()));
    assert_eq!(actual_weights.len(), expected_weights.len());
    for i in 0..num_neurons {
        assert!(all_close(actual_weights[i], expected_weights[i]));
    }
}

#[test]
fn layer_test_propogate() {
    let layer = Layer {
        neurons: vec![
            Neuron {
                bias: 0.3,
                weights: vec![0.3, 0.4, 0.1],
            },
            Neuron {
                bias: 0.1,
                weights: vec![0.4, 0.1, -0.1],
            },
        ],
    };

    let inputs = &[0.2, 0.4, 0.6];

    let actual = layer.propogate(inputs.to_vec());
    let expected = vec![
        f32::max((0.3 * 0.2) + (0.4 * 0.4) + (0.1 * 0.6) + 0.3, 0.0),
        f32::max((0.4 * 0.2) + (0.1 * 0.4) + (-0.1 * 0.6) + 0.1, 0.0),
    ];
    assert!(all_close(actual.as_slice(), expected.as_slice()));

    let inputs = &[0.4, -2.0, -0.7];
    let actual = layer.propogate(inputs.to_vec());
    let expected = vec![
        f32::max((0.3 * 0.4) + (0.4 * -2.0) + (0.1 * -0.7) + 0.3, 0.0),
        f32::max((0.4 * 0.4) + (0.1 * -2.0) + (-0.1 * -0.7) + 0.1, 0.0),
    ];
    assert!(all_close(actual.as_slice(), expected.as_slice()));
}

#[test]
fn lib_test_random() {
    let mut rng = Recorder::new(Draws::seeded());

    let layer_info = &[3, 2, 1];
    let network = Network::random(&mut rng, layer_info);

    assert_eq!(network.layers.len(), 2);

    assert_eq!(network.layers[0].neurons.len(), 2);
    assert!(close(network.layers[0].neurons[0].bias, -0.6255188));
    assert!(close(network.layers[0].neurons[1].bias, 0.5238807));
    assert!(all_close(
        network.layers[0].neurons[0].weights.as_slice(),
        [0.67383957, 0.8181262, 0.26284897].as_slice(),
    ));
    assert!(all_close(
        network.layers[0].neurons[1].weights.as_slice(),
        [-0.53516835, 0.069369674, -0.7648182].as_slice(),
    ));

    assert_eq!(network.layers[1].neurons.len(), 1);
    assert!(close(network.layers[1].neurons[0].bias, -0.102499366));
    assert!(all_close(
        network.layers[1].neurons[0].weights.as_slice(),
        [-0.48879617, -0.19277132].as_slice(),
    ));
}

#[test]
fn lib_test_propogate() {
    let network = Network {
        layers: vec![
            Layer {
                neurons: vec![
                    Neuron {
                        bias: 0.4,
                        weights: vec![0.3, -0.8, 0.0],
                    },
                    Neuron {
                        bias: -0.8,
                        weights: vec![0.6, -0.3, -0.9],
                    },
                ],
            },
            Layer {
                neurons: vec![Neuron {
                    bias: 0.0,
                    weights: vec![0.9, -2.6],
                }],
            },
        ],
    };

    let input = vec![0.9, 0.6, -0.2];
    let actual = network.propogate(input.clone());
    let expected = network.layers[1].propogate(network.layers[0].propogate(input.clone()));

    assert!(all_close(actual.as_slice(), expected.as_slice()));
}

#[test]
fn test_weights() {
    let network = Network::new(vec![
        Layer::new(vec![Neuron::new(0.1, vec![0.2, 0.3, 0.4])]),
        Layer::new(vec![Neuron::new(0.5, vec![0.6, 0.7, 0.8])]),
    ]);

    let actual_weights = network.weights();
    let expected_weights = vec![0.1, 0.2, 0.3, 0.4, 0.5, 0.6, 0.7, 0.8];

    assert!(all_close(actual_weights.as_slice(), expected_weights.as_slice()));
}

#[test]
fn from_weights() {
    let layer_info = &[3, 2];
    let weights = vec![0.1, 0.2, 0.3, 0.4, 0.5, 0.6, 0.7, 0.8];

    let network = Network::from_weights(layer_info, weights.clone());
    let actual = network.weights();

    assert!(all_close(actual.as_slice(), weights.as_slice()));
}

#[test]
fn from_weights_places_each_value() {
    let weights: Vec<f32> = (1..=13).map(|n| n as f32).collect();
    let network = Network::from_weights(&[2, 3, 1], weights.clone());

    assert_eq!(network.layers.len(), 2);
    assert_eq!(network.layers[0].neurons.len(), 3);
    assert_eq!(network.layers[0].neurons[0].bias, 1.0);
    assert_eq!(network.layers[0].neurons[0].weights, vec![2.0, 3.0]);
    assert_eq!(network.layers[0].neurons[1].bias, 4.0);
    assert_eq!(network.layers[0].neurons[1].weights, vec![5.0, 6.0]);
    assert_eq!(network.layers[0].neurons[2].bias, 7.0);
    assert_eq!(network.layers[0].neurons[2].weights, vec![8.0, 9.0]);
    assert_eq!(network.layers[1].neurons.len(), 1);
    assert_eq!(network.layers[1].neurons[0].bias, 10.0);
    assert_eq!(network.layers[1].neurons[0].weights, vec![11.0, 12.0, 13.0]);
    assert_eq!(network.weights(), weights);
}

#[test]
fn neuron_weights_start_with_the_bias() {
    let neuron = Neuron::new(0.5, vec![-0.3, 0.8]);
    assert_eq!(neuron.weights(), vec![0.5, -0.3, 0.8]);

    let mut source = vec![0.5, -0.3, 0.8, 9.0].into_iter();
    let read = Neuron::from_weights(2, &mut source);
    assert_eq!(read.bias, 0.5);
    assert_eq!(read.weights, vec![-0.3, 0.8]);
    assert_eq!(source.next(), Some(9.0));
}

#[test]
fn layer_weights_are_neuron_major() {
    let layer = Layer::new(vec![
        Neuron::new(1.0, vec![2.0, 3.0]),
        Neuron::new(4.0, vec![5.0, 6.0]),
    ]);
    assert_eq!(layer.weights(), vec![1.0, 2.0, 3.0, 4.0, 5.0, 6.0]);

    let mut source = vec![1.0, 2.0, 3.0, 4.0, 5.0, 6.0, 7.0].into_iter();
    let read = Layer::from_weights(2, 2, &mut source);
    assert_eq!(read.neurons.len(), 2);
    assert_eq!(read.neurons[1].bias, 4.0);
    assert_eq!(read.neurons[1].weights, vec![5.0, 6.0]);
    assert_eq!(source.next(), Some(7.0));
}

#[test]
fn count_weights_follows_the_topology() {
    assert_eq!(count_weights(&[3, 2]), Some(8));
    assert_eq!(count_weights(&[3, 2, 1]), Some(11));
    assert_eq!(count_weights(&[9, 18, 2]), Some(218));
    assert_eq!(count_weights(&[7]), Some(0));
    assert_eq!(count_weights(&[]), Some(0));
    assert_eq!(count_weights(&[usize::MAX, 0]), Some(0));
    assert_eq!(count_weights(&[usize::MAX, 1]), None);
    assert_eq!(count_weights(&[usize::MAX / 2, 3]), None);
}

#[test]
fn propagation_gives_one_value_for_each_output_neuron() {
    let mut rng = Recorder::new(Draws::seeded());
    let network: Network<f32> = Network::random(&mut rng, &[4, 8, 3]);
    let outputs = network.propogate(vec![0.1, 0.2, 0.3, 0.4]);
    assert_eq!(outputs.len(), 3);
    for output in outputs {
        assert!(output >= 0.0);
    }
}

#[test]
fn neuron_output_is_never_negative() {
    let neuron = Neuron::new(-1.0, vec![1.0, 1.0]);
    assert_eq!(neuron.propogate(&[0.25, 0.25]), 0.0);
    assert_eq!(neuron.propogate(&[0.75, 0.75]), 0.5);
    assert_eq!(neuron.propogate(&[0.5, 0.5]), 0.0);
}

#[test]
fn random_network_round_trips_through_its_weights() {
    let mut rng = Recorder::new(Draws::seeded());
    let topology = [5, 10, 2];
    let network: Network<f32> = Network::random(&mut rng, &topology);
    let weights = network.weights();
    assert_eq!(Some(weights.len()), count_weights(&topology));
    let again = Network::from_weights(&topology, weights.clone());
    assert_eq!(again.weights(), weights);
}

#[test]
fn recorder_hands_the_draws_through() {
    let mut direct = Draws::seeded();
    let mut rng = Recorder::new(Draws::seeded());

    assert_eq!(rng.uniform(-1.0, 1.0), direct.uniform(-1.0, 1.0));
    assert_eq!(rng.fair_coin(), direct.fair_coin());
    assert_eq!(rng.bernoulli(0.25), direct.bernoulli(0.25));
    assert_eq!(
        rng.weighted_index(&[1.0, 2.0, 3.0]),
        direct.weighted_index(&[1.0, 2.0, 3.0])
    );
    assert_eq!(rng.index(7), direct.index(7));
    let point = rng.point();
    let other = direct.point();
    assert_eq!((point.x, point.y), (other.x, other.y));
    assert_eq!(rng.rotation(), direct.rotation());

    // the source comes back as the draws left it
    let mut source = rng.into_source();
    assert_eq!(source.uniform(0.0, 1.0), direct.uniform(0.0, 1.0));
}

#[test]
fn random_between_draws_the_weights_in_flat_order() {
    let mut rng = Recorder::new(Draws::seeded());
    let network: Network<f32> = Network::random_between(&mut rng, &[2, 3, 1], 0.0, 10.0);

    let mut direct = Draws::seeded();
    let drawn: Vec<f32> = (0..13).map(|_| direct.uniform(0.0, 10.0)).collect();

    assert_eq!(network.weights(), drawn);
    assert!(drawn.iter().all(|weight| (0.0..=10.0).contains(weight)));
}
