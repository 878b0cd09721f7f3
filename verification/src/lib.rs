//! Evolving foragers: a feed-forward neural network whose weights form a
//! genome, a generational genetic algorithm over such genomes, and a
//! simulation of animals that look for food, see with an eye, steer by such
//! a network and evolve by such an algorithm.
//!
//! Every type is generic over its scalar `T`. The library computes with a
//! scalar only through its operators and comparisons. It draws randomness
//! only from a `RandomSource`, and only through a `Recorder`, which keeps
//! the record of every draw; it finds distances and directions only
//! through a `Space`, and passes between counts and scalars only through a
//! `Measure`: whoever runs the simulation brings these three.

pub mod animal;
pub mod animal_individual;
pub mod brain;
pub mod chromosome;
pub mod crossover;
pub mod eye;
pub mod food;
pub mod genetic_algorithm;
pub mod individual;
pub mod layer;
pub mod mutation;
pub mod network;
pub mod neuron;
pub mod random;
pub mod scalar;
pub mod selection;
pub mod settings;
pub mod simulation;
pub mod space;
pub mod statistics;
pub mod steering;
pub mod world;

pub use crate::animal::Animal;
pub use crate::animal_individual::AnimalIndividual;
pub use crate::brain::Brain;
pub use crate::chromosome::Chromosome;
pub use crate::crossover::CrossoverMethod;
pub use crate::crossover::UniformCrossover;
pub use crate::eye::Eye;
pub use crate::eye::Sighting;
pub use crate::food::Food;
pub use crate::genetic_algorithm::GeneticAlgorithm;
pub use crate::individual::Individual;
pub use crate::layer::Layer;
pub use crate::mutation::GaussianMutation;
pub use crate::mutation::MutationMethod;
pub use crate::network::count_weights;
pub use crate::network::Network;
pub use crate::neuron::Neuron;
pub use crate::random::RandomSource;
pub use crate::random::Recorder;
pub use crate::scalar::Measure;
pub use crate::scalar::Scalar;
pub use crate::selection::RouletteWheelSelection;
pub use crate::selection::SelectionMethod;
pub use crate::selection::UniformSelection;
pub use crate::settings::Settings;
pub use crate::settings::GENERATION_LENGTH;
pub use crate::simulation::Generation;
pub use crate::simulation::Simulation;
pub use crate::space::Point;
pub use crate::space::Space;
pub use crate::statistics::Statistics;
pub use crate::steering::clamp;
pub use crate::steering::steer;
pub use crate::steering::Limits;
pub use crate::steering::Steering;
pub use crate::world::World;
