use vstd::prelude::*;
use core::ops::Add;
use core::ops::Mul;
use crate::chromosome::Chromosome;
use crate::network::decode_network;
use crate::network::flat_network;
use crate::network::has_topology;
use crate::network::lemma_propagation_length;
use crate::network::lemma_weights_round_trip;
use crate::network::Network;
use crate::network::network_is_random;
use crate::network::network_output;
use crate::network::weight_count;
use crate::neuron::exact_arithmetic;
use crate::neuron::NeuronModel;
use crate::random::extends;
use crate::random::is_unit_range;
use crate::random::RandomSource;
use crate::random::Recorder;
use crate::random::weight_draws;
use crate::scalar::adds_freely;
use crate::scalar::multiplies_freely;

verus! {

/// The topology of the brain behind an eye of `input_size` cells: one hidden
/// layer twice as wide as the input, and two outputs.
pub open spec fn brain_topology(input_size: usize) -> Seq<usize> {
    seq![input_size, (2 * input_size) as usize, 2usize]
}

/// An animal's brain: a network that turns what the eye sees into a change
/// of speed and a change of rotation.
#[derive(Debug)]
pub struct Brain<T> {
    nn: Network<T>,
    input_size: usize,
}

impl<T> View for Brain<T> {
    type V = Seq<Seq<NeuronModel<T>>>;

    closed spec fn view(&self) -> Seq<Seq<NeuronModel<T>>> {
        self.nn@
    }
}

impl<T> Brain<T> {
    pub closed spec fn spec_input_size(&self) -> usize {
        self.input_size
    }

    /// How many values the brain takes. The brain has the topology that
    /// this size calls for.
    #[verifier::when_used_as_spec(spec_input_size)]
    pub fn input_size(&self) -> (input_size: usize)
        ensures
            input_size == self.spec_input_size(),
            input_size <= usize::MAX / 2,
            has_topology(self@, brain_topology(input_size)),
    {
        proof {
            use_type_invariant(self);
        }
        self.input_size
    }

    #[verifier::type_invariant]
    spec fn well_formed(&self) -> bool {
        &&& self.input_size <= usize::MAX / 2
        &&& has_topology(self.nn@, brain_topology(self.input_size))
    }
}

impl<T: Copy> Brain<T> {
    /// The sizes of a brain's layers, the input first.
    pub fn topology(input_size: usize) -> (layer_info: [usize; 3])
        requires
            input_size <= usize::MAX / 2,
        ensures
            layer_info@ == brain_topology(input_size),
    {
        let layer_info = [input_size, 2 * input_size, 2];
        assert(layer_info@ =~= brain_topology(input_size));
        layer_info
    }

    /// The brain's weights as a genome.
    pub fn as_chromosome(&self) -> (chromosome: Chromosome<T>)
        ensures
            chromosome@ == flat_network(self@),
    {
        let genes = self.nn.weights();
        Chromosome::new(genes)
    }

    /// The brain of `input_size` inputs whose weights are the genes of `chromosome`.
    pub fn from_chromosome(input_size: usize, chromosome: Chromosome<T>) -> (brain: Self)
        requires
            input_size <= usize::MAX / 2,
            chromosome@.len() == weight_count(brain_topology(input_size)),
        ensures
            brain.input_size() == input_size,
            brain@ == decode_network(brain_topology(input_size), chromosome@),
            flat_network(brain@) == chromosome@,
    {
        let layer_info = Self::topology(input_size);
        proof {
            lemma_weights_round_trip(brain_topology(input_size), chromosome@);
        }
        let nn = Network::from_weights(layer_info.as_slice(), chromosome.genes);
        Self { nn, input_size }
    }
}

impl<T: Copy + From<i8>> Brain<T> {
    /// A brain of `input_size` inputs with random weights.
    pub fn random<R: RandomSource<T>>(rng: &mut Recorder<T, R>, input_size: usize) -> (brain: Self)
        requires
            input_size <= usize::MAX / 2,
        ensures
            brain.input_size() == input_size,
            network_is_random::<T, R>(brain@),
            exists|low: T, high: T|
                #[trigger] is_unit_range(low, high) && extends(
                    final(rng).history(),
                    old(rng).history(),
                    weight_draws(low, high, flat_network(brain@)),
                ),
    {
        let layer_info = Self::topology(input_size);
        let nn = Network::random(rng, layer_info.as_slice());
        Self { nn, input_size }
    }
}

impl<T: Copy + Add<Output = T> + Mul<Output = T> + PartialOrd + Default> Brain<T> {
    /// The brain's answer to what the eye sees: a change of speed, then a
    /// change of rotation.
    pub fn propogate(&self, inputs: Vec<T>) -> (outputs: Vec<T>)
        requires
            inputs@.len() == self.input_size(),
            adds_freely::<T>(),
            multiplies_freely::<T>(),
        ensures
            outputs@.len() == 2,
            exact_arithmetic::<T>() ==> outputs@ == network_output(self@, inputs@),
    {
        proof {
            use_type_invariant(self);
            lemma_propagation_length(self.nn@, brain_topology(self.input_size), inputs@.len() as int);
        }
        self.nn.propogate(inputs)
    }
}

} // verus!
