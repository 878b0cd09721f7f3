use vstd::prelude::*;
use vstd::std_specs::iter::IteratorSpec;
use core::ops::Add;
use core::ops::Mul;
use crate::neuron::exact_arithmetic;
use crate::neuron::Neuron;
use crate::neuron::NeuronModel;
use crate::random::all_drawn_between;
use crate::random::extends;
use crate::random::is_drawn_between;
use crate::random::is_drawn_weight;
use crate::random::is_unit_range;
use crate::random::RandomSource;
use crate::random::Recorder;
use crate::random::weight_draws;
use crate::scalar::adds_freely;
use crate::scalar::multiplies_freely;

verus! {

/// The neurons of a layer written out flat, neuron after neuron.
pub open spec fn flat_layer<T>(neurons: Seq<NeuronModel<T>>) -> Seq<T>
    decreases neurons.len(),
{
    if neurons.len() == 0 {
        Seq::empty()
    } else {
        flat_layer(neurons.drop_last()) + neurons.last().flat()
    }
}

/// How many values a layer of `count` neurons with `width` inputs each takes when flat.
pub open spec fn layer_size(width: int, count: int) -> int {
    count * (width + 1)
}

/// The layer of `count` neurons with `width` inputs each that the first
/// `layer_size(width, count)` values of `source` spell.
pub open spec fn decode_layer<T>(width: int, count: int, source: Seq<T>) -> Seq<NeuronModel<T>> {
    Seq::new(count as nat, |j: int| NeuronModel::decode(width, source.skip(j * (width + 1))))
}

/// Every neuron of the layer takes `width` inputs.
pub open spec fn layer_takes<T>(neurons: Seq<NeuronModel<T>>, width: int) -> bool {
    forall|j: int| 0 <= j < neurons.len() ==> (#[trigger] neurons[j]).weights.len() == width
}

/// What the layer gives for `inputs`: the output of each neuron, in order.
pub open spec fn layer_output<T: Add<Output = T> + Mul<Output = T> + PartialOrd + Default>(
    neurons: Seq<NeuronModel<T>>,
    inputs: Seq<T>,
) -> Seq<T> {
    Seq::new(neurons.len(), |j: int| neurons[j].output(inputs))
}

/// `j` whole neurons of `width` inputs fit before the end of `count` of them.
pub proof fn lemma_neuron_offset(width: int, count: int, j: int)
    requires
        0 <= width,
        0 <= j < count,
    ensures
        0 <= j * (width + 1),
        (j + 1) * (width + 1) == j * (width + 1) + (width + 1),
        (j + 1) * (width + 1) <= count * (width + 1),
{
    assert(0 <= j * (width + 1)) by (nonlinear_arith)
        requires
            0 <= width,
            0 <= j,
    ;
    assert((j + 1) * (width + 1) == j * (width + 1) + (width + 1)) by (nonlinear_arith);
    assert((j + 1) * (width + 1) <= count * (width + 1)) by (nonlinear_arith)
        requires
            0 <= width,
            j + 1 <= count,
    ;
}

/// A layer written out flat takes one value more than its input width for
/// each of its neurons.
pub proof fn lemma_flat_layer_len<T>(neurons: Seq<NeuronModel<T>>, width: int)
    requires
        0 <= width,
        layer_takes(neurons, width),
    ensures
        flat_layer(neurons).len() == layer_size(width, neurons.len() as int),
    decreases neurons.len(),
{
    let count = neurons.len() as int;
    if count == 0 {
        assert(count * (width + 1) == 0) by (nonlinear_arith)
            requires
                count == 0,
        ;
    } else {
        let earlier = neurons.drop_last();
        assert forall|j: int| 0 <= j < earlier.len() implies (#[trigger] earlier[j]).weights.len()
            == width by {
            assert(earlier[j] == neurons[j]);
        }
        lemma_flat_layer_len(earlier, width);
        assert(neurons.last() == neurons[count - 1]);
        assert(count * (width + 1) == (count - 1) * (width + 1) + (width + 1))
            by (nonlinear_arith);
    }
}

/// Writing out a decoded layer gives back the values it was decoded from.
pub proof fn lemma_layer_round_trip<T>(width: int, count: int, source: Seq<T>)
    requires
        0 <= width,
        0 <= count,
        layer_size(width, count) <= source.len(),
    ensures
        flat_layer(decode_layer(width, count, source)) == source.take(layer_size(width, count)),
        layer_takes(decode_layer(width, count, source), width),
        decode_layer(width, count, source).len() == count,
    decreases count,
{
    let layer = decode_layer(width, count, source);
    if count == 0 {
        assert(count * (width + 1) == 0) by (nonlinear_arith)
            requires
                count == 0,
        ;
        assert(source.take(0) =~= Seq::<T>::empty());
        assert(layer =~= Seq::<NeuronModel<T>>::empty());
    } else {
        lemma_neuron_offset(width, count, count - 1);
        let start = (count - 1) * (width + 1);
        lemma_layer_round_trip(width, count - 1, source);
        assert(layer.drop_last() =~= decode_layer(width, count - 1, source));
        let last = NeuronModel::decode(width, source.skip(start));
        assert(layer.last() == last);
        assert(last.flat() =~= source.subrange(start, start + width + 1));
        assert(source.take(start) + source.subrange(start, start + width + 1) =~= source.take(
            start + width + 1,
        ));
        assert(layer_size(width, count - 1) == start);
        assert(layer_size(width, count) == start + width + 1);
        assert(flat_layer(layer) == flat_layer(layer.drop_last()) + layer.last().flat());
    }
    assert forall|j: int| 0 <= j < layer.len() implies (#[trigger] layer[j]).weights.len()
        == width by {
        lemma_neuron_offset(width, count, j);
    }
}

/// An ordered sequence of neurons that share their input width.
#[derive(Clone, Debug)]
pub struct Layer<T> {
    pub neurons: Vec<Neuron<T>>,
}

impl<T> View for Layer<T> {
    type V = Seq<NeuronModel<T>>;

    open spec fn view(&self) -> Seq<NeuronModel<T>> {
        self.neurons@.map_values(|neuron: Neuron<T>| neuron@)
    }
}

impl<T: Copy> Layer<T> {
    pub fn new(neurons: Vec<Neuron<T>>) -> (layer: Self)
        ensures
            layer.neurons@ == neurons@,
    {
        Self { neurons }
    }

    /// The weights of every neuron, neuron after neuron.
    pub fn weights(&self) -> (flat: Vec<T>)
        ensures
            flat@ == flat_layer(self@),
    {
        let mut flat: Vec<T> = Vec::new();
        let mut i: usize = 0;
        while i < self.neurons.len()
            invariant
                i <= self.neurons.len(),
                flat@ == flat_layer(self@.take(i as int)),
            decreases self.neurons.len() - i,
        {
            let mut part = self.neurons[i].weights();
            flat.append(&mut part);
            assert(self@.take(i + 1).drop_last() =~= self@.take(i as int));
            assert(self@.take(i + 1).last() == self.neurons[i as int]@);
            i += 1;
        }
        assert(self@.take(i as int) =~= self@);
        flat
    }

    /// Reads `num_neurons` neurons of `num_inputs` inputs each from the front
    /// of `weights`, in order. The values read are consumed.
    pub fn from_weights<I: Iterator<Item = T>>(
        num_inputs: usize,
        num_neurons: usize,
        weights: &mut I,
    ) -> (layer: Self)
        requires
            (*old(weights)).obeys_prophetic_iter_laws(),
            (*old(weights)).remaining().len() >= layer_size(num_inputs as int, num_neurons as int),
        ensures
            (*final(weights)).obeys_prophetic_iter_laws(),
            layer@ == decode_layer(num_inputs as int, num_neurons as int, (*old(weights)).remaining()),
            (*final(weights)).remaining() == (*old(weights)).remaining().skip(
                layer_size(num_inputs as int, num_neurons as int),
            ),
    {
        let ghost source = (*weights).remaining();
        let ghost width = num_inputs as int;
        let mut neurons: Vec<Neuron<T>> = Vec::new();
        let mut j: usize = 0;
        assert(source.skip(0) =~= source);
        while j < num_neurons
            invariant
                j <= num_neurons,
                width == num_inputs,
                (*weights).obeys_prophetic_iter_laws(),
                source.len() >= layer_size(width, num_neurons as int),
                (*weights).remaining() == source.skip(j * (width + 1)),
                neurons@.len() == j,
                forall|k: int|
                    0 <= k < j ==> (#[trigger] neurons@[k])@ == NeuronModel::decode(
                        width,
                        source.skip(k * (width + 1)),
                    ),
            decreases num_neurons - j,
        {
            proof {
                lemma_neuron_offset(width, num_neurons as int, j as int);
            }
            let neuron = Neuron::from_weights(num_inputs, weights);
            neurons.push(neuron);
            assert((*weights).remaining() =~= source.skip((j + 1) * (width + 1)));
            j += 1;
        }
        let layer = Self { neurons };
        assert(layer@ =~= decode_layer(width, num_neurons as int, source));
        layer
    }
}

impl<T: Copy + Add<Output = T> + Mul<Output = T> + PartialOrd + Default> Layer<T> {
    /// The answer of each neuron to `inputs`, in order.
    pub fn propogate(&self, inputs: Vec<T>) -> (outputs: Vec<T>)
        requires
            layer_takes(self@, inputs@.len() as int),
            adds_freely::<T>(),
            multiplies_freely::<T>(),
        ensures
            outputs@.len() == self@.len(),
            exact_arithmetic::<T>() ==> outputs@ == layer_output(self@, inputs@),
    {
        let mut outputs: Vec<T> = Vec::with_capacity(self.neurons.len());
        let mut j: usize = 0;
        while j < self.neurons.len()
            invariant
                j <= self.neurons.len(),
                layer_takes(self@, inputs@.len() as int),
                adds_freely::<T>(),
                multiplies_freely::<T>(),
                outputs@.len() == j,
                exact_arithmetic::<T>() ==> outputs@ == layer_output(self@, inputs@).take(j as int),
            decreases self.neurons.len() - j,
        {
            assert(self@[j as int] == self.neurons[j as int]@);
            let output = self.neurons[j].propogate(inputs.as_slice());
            outputs.push(output);
            proof {
                if exact_arithmetic::<T>() {
                    assert(outputs@ =~= layer_output(self@, inputs@).take(j + 1));
                }
            }
            j += 1;
        }
        proof {
            if exact_arithmetic::<T>() {
                assert(outputs@ =~= layer_output(self@, inputs@));
            }
        }
        outputs
    }
}

/// Every neuron of the layer is made of values that the source can draw.
pub open spec fn layer_is_random<T: From<i8>, R: RandomSource<T>>(
    neurons: Seq<NeuronModel<T>>,
) -> bool {
    forall|j: int| 0 <= j < neurons.len() ==> (#[trigger] neurons[j]).is_random::<R>()
}

/// Every neuron of the layer is made of values that the source can draw
/// between `low` and `high`.
pub open spec fn layer_drawn_between<T, R: RandomSource<T>>(
    neurons: Seq<NeuronModel<T>>,
    low: T,
    high: T,
) -> bool {
    forall|j: int|
        0 <= j < neurons.len() ==> all_drawn_between::<T, R>(low, high, (#[trigger] neurons[j]).flat())
}

/// A neuron whose values are drawn between what minus one and one convert
/// into is random.
pub proof fn lemma_neuron_is_random<T: From<i8>, R: RandomSource<T>>(
    neuron: NeuronModel<T>,
    low: T,
    high: T,
)
    requires
        is_unit_range(low, high),
        all_drawn_between::<T, R>(low, high, neuron.flat()),
    ensures
        neuron.is_random::<R>(),
{
    assert(neuron.flat()[0] == neuron.bias);
    assert(is_drawn_between::<T, R>(low, high, neuron.flat()[0]));
    assert forall|i: int| 0 <= i < neuron.weights.len() implies is_drawn_weight::<T, R>(
        #[trigger] neuron.weights[i],
    ) by {
        assert(neuron.flat()[i + 1] == neuron.weights[i]);
        assert(is_drawn_between::<T, R>(low, high, neuron.flat()[i + 1]));
    }
}

impl<T: Copy> Layer<T> {
    /// A layer of `num_neurons` neurons of `input_size` inputs each, drawn
    /// one neuron after the other, and nothing else, between `low` and `high`.
    pub fn random_between<R: RandomSource<T>>(
        rng: &mut Recorder<T, R>,
        input_size: usize,
        num_neurons: usize,
        low: T,
        high: T,
    ) -> (layer: Self)
        ensures
            layer@.len() == num_neurons,
            layer_takes(layer@, input_size as int),
            layer_drawn_between::<T, R>(layer@, low, high),
            extends(
                final(rng).history(),
                old(rng).history(),
                weight_draws(low, high, flat_layer(layer@)),
            ),
    {
        let mut neurons: Vec<Neuron<T>> = Vec::with_capacity(num_neurons);
        let ghost mut models: Seq<NeuronModel<T>> = Seq::empty();
        let mut j: usize = 0;
        assert(rng.history() =~= old(rng).history() + weight_draws(low, high, flat_layer(models)));
        while j < num_neurons
            invariant
                j <= num_neurons,
                neurons@.len() == j,
                models.len() == j,
                forall|k: int| 0 <= k < j ==> (#[trigger] neurons@[k])@ == models[k],
                forall|k: int| 0 <= k < j ==> (#[trigger] models[k]).weights.len() == input_size,
                forall|k: int|
                    0 <= k < j ==> all_drawn_between::<T, R>(low, high, (#[trigger] models[k]).flat()),
                rng.history() == old(rng).history() + weight_draws(low, high, flat_layer(models)),
            decreases num_neurons - j,
        {
            let ghost earlier = models;
            let neuron = Neuron::random_between(rng, input_size, low, high);
            proof {
                models = earlier.push(neuron@);
                assert(models.drop_last() =~= earlier);
                assert(weight_draws(low, high, flat_layer(models)) =~= weight_draws(
                    low,
                    high,
                    flat_layer(earlier),
                ) + weight_draws(low, high, neuron@.flat()));
                assert(rng.history() =~= old(rng).history() + weight_draws(
                    low,
                    high,
                    flat_layer(models),
                ));
            }
            neurons.push(neuron);
            j += 1;
        }
        let layer = Self { neurons };
        assert(layer@ =~= models);
        layer
    }
}

impl<T: Copy + From<i8>> Layer<T> {
    /// A layer of `num_neurons` random neurons of `input_size` inputs each,
    /// drawn one neuron after the other.
    pub fn random<R: RandomSource<T>>(
        rng: &mut Recorder<T, R>,
        input_size: usize,
        num_neurons: usize,
    ) -> (layer: Self)
        ensures
            layer@.len() == num_neurons,
            layer_takes(layer@, input_size as int),
            layer_is_random::<T, R>(layer@),
            exists|low: T, high: T|
                #[trigger] is_unit_range(low, high) && extends(
                    final(rng).history(),
                    old(rng).history(),
                    weight_draws(low, high, flat_layer(layer@)),
                ),
    {
        let low = T::from(-1i8);
        let high = T::from(1i8);
        let layer = Layer::random_between(rng, input_size, num_neurons, low, high);
        proof {
            assert(is_unit_range(low, high));
            assert forall|k: int| 0 <= k < layer@.len() implies (#[trigger] layer@[k]).is_random::<
                R,
            >() by {
                lemma_neuron_is_random::<T, R>(layer@[k], low, high);
            }
        }
        layer
    }
}

} // verus!
