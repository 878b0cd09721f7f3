use vstd::prelude::*;
use vstd::std_specs::iter::IteratorSpec;
use core::ops::Add;
use core::ops::Mul;
use crate::layer::decode_layer;
use crate::layer::flat_layer;
use crate::layer::Layer;
use crate::layer::layer_drawn_between;
use crate::layer::layer_is_random;
use crate::layer::layer_output;
use crate::layer::layer_size;
use crate::layer::layer_takes;
use crate::layer::lemma_flat_layer_len;
use crate::layer::lemma_layer_round_trip;
use crate::layer::lemma_neuron_is_random;
use crate::neuron::exact_arithmetic;
use crate::neuron::NeuronModel;
use crate::random::extends;
use crate::random::is_unit_range;
use crate::random::RandomSource;
use crate::random::Recorder;
use crate::random::weight_draws;
use crate::scalar::adds_freely;
use crate::scalar::multiplies_freely;

verus! {

/// How many values a network of the given topology takes when flat: for
/// every layer, one bias and one weight per input for each of its neurons.
pub open spec fn weight_count(topology: Seq<usize>) -> int
    decreases topology.len(),
{
    if topology.len() < 2 {
        0
    } else {
        weight_count(topology.drop_last()) + layer_size(
            topology[topology.len() - 2] as int,
            topology.last() as int,
        )
    }
}

/// The layers of a network written out flat, layer after layer.
pub open spec fn flat_network<T>(layers: Seq<Seq<NeuronModel<T>>>) -> Seq<T>
    decreases layers.len(),
{
    if layers.len() == 0 {
        Seq::empty()
    } else {
        flat_network(layers.drop_last()) + flat_layer(layers.last())
    }
}

/// The network of the given topology that the first `weight_count(topology)`
/// values of `source` spell.
pub open spec fn decode_network<T>(topology: Seq<usize>, source: Seq<T>) -> Seq<
    Seq<NeuronModel<T>>,
> {
    Seq::new(
        (topology.len() - 1) as nat,
        |i: int|
            decode_layer(
                topology[i] as int,
                topology[i + 1] as int,
                source.skip(weight_count(topology.take(i + 1))),
            ),
    )
}

/// The layers have the sizes that `topology` gives: its first entry is the
/// input width, and every later entry is the neuron count of a layer whose
/// input width is the entry before.
pub open spec fn has_topology<T>(layers: Seq<Seq<NeuronModel<T>>>, topology: Seq<usize>) -> bool {
    &&& topology.len() == layers.len() + 1
    &&& forall|i: int|
        0 <= i < layers.len() ==> {
            &&& (#[trigger] layers[i]).len() == topology[i + 1]
            &&& layer_takes(layers[i], topology[i] as int)
        }
}

/// How many values come out of the layers when `width` values go in.
pub open spec fn output_width<T>(layers: Seq<Seq<NeuronModel<T>>>, width: int) -> int {
    if layers.len() == 0 {
        width
    } else {
        layers.last().len() as int
    }
}

/// The layers can take `width` values: every neuron of the first layer has
/// `width` inputs, and every neuron of a later layer has one input for each
/// neuron of the layer before.
pub open spec fn accepts<T>(layers: Seq<Seq<NeuronModel<T>>>, width: int) -> bool
    decreases layers.len(),
{
    if layers.len() == 0 {
        true
    } else {
        &&& accepts(layers.drop_last(), width)
        &&& layer_takes(layers.last(), output_width(layers.drop_last(), width))
    }
}

/// What the network gives for `inputs`: the inputs, passed through each layer in turn.
pub open spec fn network_output<T: Add<Output = T> + Mul<Output = T> + PartialOrd + Default>(
    layers: Seq<Seq<NeuronModel<T>>>,
    inputs: Seq<T>,
) -> Seq<T>
    decreases layers.len(),
{
    if layers.len() == 0 {
        inputs
    } else {
        layer_output(layers.last(), network_output(layers.drop_last(), inputs))
    }
}

/// Layers that take `width` values still do when the last of them are left out.
pub proof fn lemma_accepts_prefix<T>(layers: Seq<Seq<NeuronModel<T>>>, width: int, k: int)
    requires
        accepts(layers, width),
        0 <= k <= layers.len(),
    ensures
        accepts(layers.take(k), width),
        k < layers.len() ==> layer_takes(layers[k], output_width(layers.take(k), width)),
    decreases layers.len(),
{
    if k == layers.len() {
        assert(layers.take(k) =~= layers);
    } else {
        assert(layers.drop_last().take(k) =~= layers.take(k));
        if k == layers.len() - 1 {
            assert(layers.take(k) =~= layers.drop_last());
        } else {
            lemma_accepts_prefix(layers.drop_last(), width, k);
        }
    }
}

/// Propagation length: a network of a given topology takes as many values
/// as the topology's first entry says, and gives as many as its last entry says.
pub proof fn lemma_propagation_length<T>(
    layers: Seq<Seq<NeuronModel<T>>>,
    topology: Seq<usize>,
    width: int,
)
    requires
        has_topology(layers, topology),
        width == topology.first(),
    ensures
        accepts(layers, width),
        output_width(layers, width) == topology.last(),
    decreases layers.len(),
{
    if layers.len() > 0 {
        let shorter = topology.drop_last();
        assert(has_topology(layers.drop_last(), shorter)) by {
            assert forall|i: int| 0 <= i < layers.drop_last().len() implies {
                &&& (#[trigger] layers.drop_last()[i]).len() == shorter[i + 1]
                &&& layer_takes(layers.drop_last()[i], shorter[i] as int)
            } by {
                assert(layers.drop_last()[i] == layers[i]);
            }
        }
        lemma_propagation_length(layers.drop_last(), shorter, width);
        assert(layers.last() == layers[layers.len() - 1]);
    }
}

/// A longer topology never takes fewer values, and none takes a negative number.
pub proof fn lemma_weight_count_grows(topology: Seq<usize>, k: int)
    requires
        0 <= k <= topology.len(),
    ensures
        0 <= weight_count(topology.take(k)) <= weight_count(topology),
    decreases topology.len() - k,
{
    if k == topology.len() {
        assert(topology.take(k) =~= topology);
        lemma_weight_count_nonnegative(topology);
    } else {
        lemma_weight_count_grows(topology, k + 1);
        lemma_weight_count_step(topology, k);
    }
}

proof fn lemma_weight_count_nonnegative(topology: Seq<usize>)
    ensures
        0 <= weight_count(topology),
    decreases topology.len(),
{
    if topology.len() >= 2 {
        lemma_weight_count_nonnegative(topology.drop_last());
        let width = topology[topology.len() - 2] as int;
        let count = topology.last() as int;
        assert(0 <= count * (width + 1)) by (nonlinear_arith)
            requires
                0 <= width,
                0 <= count,
        ;
    }
}

/// One more entry of the topology adds the size of one layer.
pub proof fn lemma_weight_count_step(topology: Seq<usize>, k: int)
    requires
        0 <= k < topology.len(),
    ensures
        weight_count(topology.take(k + 1)) == weight_count(topology.take(k)) + if k == 0 {
            0
        } else {
            layer_size(topology[k - 1] as int, topology[k] as int)
        },
        0 <= weight_count(topology.take(k)) <= weight_count(topology.take(k + 1)),
{
    let longer = topology.take(k + 1);
    assert(longer.drop_last() =~= topology.take(k));
    lemma_weight_count_nonnegative(topology.take(k));
    lemma_weight_count_nonnegative(longer);
    if k > 0 {
        let width = topology[k - 1] as int;
        let count = topology[k] as int;
        assert(0 <= count * (width + 1)) by (nonlinear_arith)
            requires
                0 <= width,
                0 <= count,
        ;
    }
}

/// A network written out flat takes as many values as its topology counts.
pub proof fn lemma_flat_network_len<T>(layers: Seq<Seq<NeuronModel<T>>>, topology: Seq<usize>)
    requires
        has_topology(layers, topology),
    ensures
        flat_network(layers).len() == weight_count(topology),
    decreases layers.len(),
{
    if layers.len() > 0 {
        let earlier = layers.drop_last();
        let shorter = topology.drop_last();
        assert forall|i: int| 0 <= i < earlier.len() implies {
            &&& (#[trigger] earlier[i]).len() == shorter[i + 1]
            &&& layer_takes(earlier[i], shorter[i] as int)
        } by {
            assert(earlier[i] == layers[i]);
        }
        lemma_flat_network_len(earlier, shorter);
        assert(layers.last() == layers[layers.len() - 1]);
        lemma_flat_layer_len(layers.last(), topology[topology.len() - 2] as int);
    }
}

/// Writing out a decoded network gives back the values it was decoded from,
/// and the decoded network has the topology it was decoded by.
pub proof fn lemma_network_round_trip<T>(topology: Seq<usize>, source: Seq<T>)
    requires
        topology.len() >= 1,
        weight_count(topology) <= source.len(),
    ensures
        flat_network(decode_network(topology, source)) == source.take(weight_count(topology)),
        has_topology(decode_network(topology, source), topology),
    decreases topology.len(),
{
    let layers = decode_network(topology, source);
    lemma_weight_count_nonnegative(topology);
    if topology.len() == 1 {
        assert(layers =~= Seq::<Seq<NeuronModel<T>>>::empty());
        assert(source.take(0) =~= Seq::<T>::empty());
    } else {
        let shorter = topology.drop_last();
        let last = topology.len() - 2;
        let width = topology[last] as int;
        let count = topology.last() as int;
        let start = weight_count(shorter);
        lemma_weight_count_nonnegative(shorter);
        assert(0 <= count * (width + 1)) by (nonlinear_arith)
            requires
                0 <= width,
                0 <= count,
        ;
        lemma_network_round_trip(shorter, source);
        assert forall|i: int| 0 <= i < shorter.len() - 1 implies decode_network(shorter, source)[i]
            == layers[i] by {
            assert(shorter.take(i + 1) =~= topology.take(i + 1));
        }
        assert(layers.drop_last() =~= decode_network(shorter, source));
        assert(topology.take(last + 1) =~= shorter);
        assert(layers.last() == decode_layer(width, count, source.skip(start)));
        lemma_layer_round_trip(width, count, source.skip(start));
        assert(source.skip(start).take(layer_size(width, count)) =~= source.subrange(
            start,
            start + layer_size(width, count),
        ));
        assert(source.take(start) + source.subrange(start, start + layer_size(width, count))
            =~= source.take(start + layer_size(width, count)));
        assert forall|i: int| 0 <= i < layers.len() implies {
            &&& (#[trigger] layers[i]).len() == topology[i + 1]
            &&& layer_takes(layers[i], topology[i] as int)
        } by {
            if i < layers.len() - 1 {
                assert(layers[i] == decode_network(shorter, source)[i]);
            }
        }
    }
}

/// Weight round trip: a flat vector of the length that the topology asks for,
/// decoded into a network and written out again, comes back unchanged.
pub proof fn lemma_weights_round_trip<T>(topology: Seq<usize>, weights: Seq<T>)
    requires
        topology.len() >= 2,
        weights.len() == weight_count(topology),
    ensures
        flat_network(decode_network(topology, weights)) == weights,
        has_topology(decode_network(topology, weights), topology),
{
    lemma_network_round_trip(topology, weights);
    assert(weights.take(weights.len() as int) =~= weights);
}

/// The number of values that a network of topology `layer_info` takes when
/// flat, or `None` where that number does not fit in a `usize`.
pub fn count_weights(layer_info: &[usize]) -> (count: Option<usize>)
    ensures
        match count {
            Some(n) => n == weight_count(layer_info@),
            None => weight_count(layer_info@) > usize::MAX,
        },
{
    if layer_info.len() == 0 {
        return Some(0);
    }
    let mut total: usize = 0;
    let mut i: usize = 1;
    while i < layer_info.len()
        invariant
            1 <= i <= layer_info.len(),
            total == weight_count(layer_info@.take(i as int)),
        decreases layer_info.len() - i,
    {
        let width = layer_info[i - 1];
        let neurons = layer_info[i];
        proof {
            lemma_weight_count_step(layer_info@, i as int);
            lemma_weight_count_grows(layer_info@, i + 1);
            if neurons == 0 {
                assert(neurons * (width + 1) == 0) by (nonlinear_arith)
                    requires
                        neurons == 0,
                ;
            } else {
                assert(neurons * (width + 1) >= width + 1) by (nonlinear_arith)
                    requires
                        neurons >= 1,
                        width >= 0,
                ;
            }
        }
        let size: usize = if neurons == 0 {
            0
        } else {
            let per_neuron = match width.checked_add(1) {
                Some(n) => n,
                None => {
                    return None;
                },
            };
            match neurons.checked_mul(per_neuron) {
                Some(n) => n,
                None => {
                    return None;
                },
            }
        };
        total = match total.checked_add(size) {
            Some(n) => n,
            None => {
                return None;
            },
        };
        i += 1;
    }
    proof {
        assert(layer_info@.take(i as int) =~= layer_info@);
    }
    Some(total)
}

/// A feed-forward network: an ordered sequence of layers.
#[derive(Clone, Debug)]
pub struct Network<T> {
    pub layers: Vec<Layer<T>>,
}

impl<T> View for Network<T> {
    type V = Seq<Seq<NeuronModel<T>>>;

    open spec fn view(&self) -> Seq<Seq<NeuronModel<T>>> {
        self.layers@.map_values(|layer: Layer<T>| layer@)
    }
}

impl<T: Copy> Network<T> {
    pub fn new(layers: Vec<Layer<T>>) -> (network: Self)
        ensures
            network.layers@ == layers@,
    {
        Self { layers }
    }

    /// The weights of every layer, layer after layer.
    pub fn weights(&self) -> (flat: Vec<T>)
        ensures
            flat@ == flat_network(self@),
    {
        let mut flat: Vec<T> = Vec::new();
        let mut i: usize = 0;
        while i < self.layers.len()
            invariant
                i <= self.layers.len(),
                flat@ == flat_network(self@.take(i as int)),
            decreases self.layers.len() - i,
        {
            let mut part = self.layers[i].weights();
            flat.append(&mut part);
            assert(self@.take(i + 1).drop_last() =~= self@.take(i as int));
            assert(self@.take(i + 1).last() == self.layers[i as int]@);
            i += 1;
        }
        assert(self@.take(i as int) =~= self@);
        flat
    }

    /// The network of topology `layer_info` whose flat weights are `weights`.
    pub fn from_weights(layer_info: &[usize], weights: Vec<T>) -> (network: Self)
        requires
            layer_info.len() > 1,
            weights.len() == weight_count(layer_info@),
        ensures
            network@ == decode_network(layer_info@, weights@),
    {
        broadcast use vstd::std_specs::vec::axiom_spec_into_iter;

        let ghost topology = layer_info@;
        let ghost source = weights@;
        let mut values = weights.into_iter();
        let mut layers: Vec<Layer<T>> = Vec::new();
        let mut i: usize = 0;
        proof {
            assert(topology.take(1).len() < 2);
            assert(source.skip(0) =~= source);
        }
        while i + 1 < layer_info.len()
            invariant
                i + 1 <= layer_info.len(),
                topology == layer_info@,
                source.len() == weight_count(topology),
                values.obeys_prophetic_iter_laws(),
                values.remaining() == source.skip(weight_count(topology.take(i + 1))),
                layers@.len() == i,
                forall|k: int|
                    0 <= k < i ==> (#[trigger] layers@[k])@ == decode_layer(
                        topology[k] as int,
                        topology[k + 1] as int,
                        source.skip(weight_count(topology.take(k + 1))),
                    ),
            decreases layer_info.len() - i,
        {
            proof {
                lemma_weight_count_step(topology, i + 1);
                lemma_weight_count_grows(topology, i + 2);
                lemma_weight_count_grows(topology, i + 1);
            }
            let layer = Layer::from_weights(layer_info[i], layer_info[i + 1], &mut values);
            layers.push(layer);
            assert(values.remaining() =~= source.skip(weight_count(topology.take(i + 2))));
            i += 1;
        }
        let network = Self { layers };
        assert(network@ =~= decode_network(topology, source));
        network
    }
}

impl<T: Copy + Add<Output = T> + Mul<Output = T> + PartialOrd + Default> Network<T> {
    /// The network's answer to `inputs`: the inputs, passed through each layer in turn.
    pub fn propogate(&self, inputs: Vec<T>) -> (outputs: Vec<T>)
        requires
            accepts(self@, inputs@.len() as int),
            adds_freely::<T>(),
            multiplies_freely::<T>(),
        ensures
            outputs@.len() == output_width(self@, inputs@.len() as int),
            exact_arithmetic::<T>() ==> outputs@ == network_output(self@, inputs@),
    {
        let ghost given = inputs@;
        let mut current = inputs;
        let mut i: usize = 0;
        proof {
            assert(self@.take(0) =~= Seq::<Seq<NeuronModel<T>>>::empty());
        }
        while i < self.layers.len()
            invariant
                i <= self.layers.len(),
                accepts(self@, given.len() as int),
                adds_freely::<T>(),
                multiplies_freely::<T>(),
                current@.len() == output_width(self@.take(i as int), given.len() as int),
                exact_arithmetic::<T>() ==> current@ == network_output(self@.take(i as int), given),
            decreases self.layers.len() - i,
        {
            proof {
                lemma_accepts_prefix(self@, given.len() as int, i as int);
                assert(self@[i as int] == self.layers[i as int]@);
                assert(self@.take(i + 1).drop_last() =~= self@.take(i as int));
                assert(self@.take(i + 1).last() == self@[i as int]);
            }
            current = self.layers[i].propogate(current);
            i += 1;
        }
        proof {
            assert(self@.take(i as int) =~= self@);
        }
        current
    }
}

/// Every layer of the network is made of values that the source can draw.
pub open spec fn network_is_random<T: From<i8>, R: RandomSource<T>>(
    layers: Seq<Seq<NeuronModel<T>>>,
) -> bool {
    forall|i: int| 0 <= i < layers.len() ==> layer_is_random::<T, R>(#[trigger] layers[i])
}

/// Every layer of the network is made of values that the source can draw
/// between `low` and `high`.
pub open spec fn network_drawn_between<T, R: RandomSource<T>>(
    layers: Seq<Seq<NeuronModel<T>>>,
    low: T,
    high: T,
) -> bool {
    forall|i: int|
        0 <= i < layers.len() ==> layer_drawn_between::<T, R>(#[trigger] layers[i], low, high)
}

/// A network whose values are drawn between what minus one and one convert
/// into is random.
pub proof fn lemma_network_is_random<T: From<i8>, R: RandomSource<T>>(
    layers: Seq<Seq<NeuronModel<T>>>,
    low: T,
    high: T,
)
    requires
        is_unit_range(low, high),
        network_drawn_between::<T, R>(layers, low, high),
    ensures
        network_is_random::<T, R>(layers),
{
    assert forall|i: int| 0 <= i < layers.len() implies layer_is_random::<T, R>(
        #[trigger] layers[i],
    ) by {
        assert forall|j: int| 0 <= j < layers[i].len() implies (#[trigger] layers[i][j]).is_random::<
            R,
        >() by {
            lemma_neuron_is_random::<T, R>(layers[i][j], low, high);
        }
    }
}

impl<T: Copy> Network<T> {
    /// A network of topology `layer_info`, drawn one layer after the other,
    /// and nothing else, between `low` and `high`: the draws are the
    /// network's weights in the order in which they are written out flat.
    pub fn random_between<R: RandomSource<T>>(
        rng: &mut Recorder<T, R>,
        layer_info: &[usize],
        low: T,
        high: T,
    ) -> (network: Self)
        requires
            layer_info.len() > 1,
        ensures
            has_topology(network@, layer_info@),
            network_drawn_between::<T, R>(network@, low, high),
            extends(
                final(rng).history(),
                old(rng).history(),
                weight_draws(low, high, flat_network(network@)),
            ),
    {
        let mut layers: Vec<Layer<T>> = Vec::with_capacity(layer_info.len() - 1);
        let ghost mut models: Seq<Seq<NeuronModel<T>>> = Seq::empty();
        let mut i: usize = 0;
        assert(rng.history() =~= old(rng).history() + weight_draws(
            low,
            high,
            flat_network(models),
        ));
        while i + 1 < layer_info.len()
            invariant
                i + 1 <= layer_info.len(),
                layers@.len() == i,
                models.len() == i,
                forall|k: int| 0 <= k < i ==> (#[trigger] layers@[k])@ == models[k],
                forall|k: int|
                    0 <= k < i ==> {
                        &&& (#[trigger] models[k]).len() == layer_info@[k + 1]
                        &&& layer_takes(models[k], layer_info@[k] as int)
                        &&& layer_drawn_between::<T, R>(models[k], low, high)
                    },
                rng.history() == old(rng).history() + weight_draws(
                    low,
                    high,
                    flat_network(models),
                ),
            decreases layer_info.len() - i,
        {
            let ghost earlier = models;
            let layer = Layer::random_between(rng, layer_info[i], layer_info[i + 1], low, high);
            proof {
                models = earlier.push(layer@);
                assert(models.drop_last() =~= earlier);
                assert(weight_draws(low, high, flat_network(models)) =~= weight_draws(
                    low,
                    high,
                    flat_network(earlier),
                ) + weight_draws(low, high, flat_layer(layer@)));
                assert(rng.history() =~= old(rng).history() + weight_draws(
                    low,
                    high,
                    flat_network(models),
                ));
            }
            layers.push(layer);
            i += 1;
        }
        let network = Self { layers };
        assert(network@ =~= models);
        network
    }
}

impl<T: Copy + From<i8>> Network<T> {
    /// A random network of topology `layer_info`, drawn one layer after the
    /// other: the draws are the network's weights in the order in which
    /// they are written out flat.
    pub fn random<R: RandomSource<T>>(rng: &mut Recorder<T, R>, layer_info: &[usize]) -> (network:
        Self)
        requires
            layer_info.len() > 1,
        ensures
            has_topology(network@, layer_info@),
            network_is_random::<T, R>(network@),
            exists|low: T, high: T|
                #[trigger] is_unit_range(low, high) && extends(
                    final(rng).history(),
                    old(rng).history(),
                    weight_draws(low, high, flat_network(network@)),
                ),
    {
        let low = T::from(-1i8);
        let high = T::from(1i8);
        let network = Network::random_between(rng, layer_info, low, high);
        proof {
            assert(is_unit_range(low, high));
            lemma_network_is_random::<T, R>(network@, low, high);
        }
        network
    }
}

} // verus!
