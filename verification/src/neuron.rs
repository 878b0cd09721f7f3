use vstd::prelude::*;
use vstd::std_specs::iter::IteratorSpec;
use vstd::std_specs::ops::AddSpec;
use vstd::std_specs::ops::MulSpec;
use core::ops::Add;
use core::ops::Mul;
use crate::random::all_drawn_between;
use crate::random::extends;
use crate::random::is_drawn_between;
use crate::random::is_drawn_weight;
use crate::random::is_unit_range;
use crate::random::RandomSource;
use crate::random::Recorder;
use crate::random::weight_draws;
use crate::scalar::adds_freely;
use crate::scalar::compares_exactly;
use crate::scalar::exceeds;
use crate::scalar::multiplies_freely;
use crate::scalar::product_of;
use crate::scalar::sum_of;
use crate::scalar::zero;
use crate::scalar::zero_is_fixed;
use crate::scalar::zero_value;

verus! {

/// What a neuron is, as a mathematical value.
pub struct NeuronModel<T> {
    pub bias: T,
    pub weights: Seq<T>,
}

impl<T> NeuronModel<T> {
    /// The neuron written out flat: the bias, then the weights in order.
    pub open spec fn flat(self) -> Seq<T> {
        seq![self.bias] + self.weights
    }

    /// The neuron of `width` inputs that the first `width + 1` values of `source` spell.
    pub open spec fn decode(width: int, source: Seq<T>) -> NeuronModel<T> {
        NeuronModel { bias: source[0], weights: source.subrange(1, width + 1) }
    }
}

/// The sum of the products `inputs[i] * weights[i]`, taken up from zero in
/// the order of `i`.
pub open spec fn weighted_sum<T: Add<Output = T> + Mul<Output = T> + Default>(
    inputs: Seq<T>,
    weights: Seq<T>,
) -> T
    decreases inputs.len(),
{
    if inputs.len() == 0 {
        zero::<T>()
    } else {
        sum_of(
            weighted_sum(inputs.drop_last(), weights.drop_last()),
            product_of(inputs.last(), weights.last()),
        )
    }
}

/// `value` where it exceeds zero, and zero elsewhere.
pub open spec fn rectified<T: PartialOrd + Default>(value: T) -> T {
    if exceeds(value, zero::<T>()) {
        value
    } else {
        zero::<T>()
    }
}

/// Addition, multiplication and comparison on `T` keep to their
/// specifications, and its zero is one value.
pub open spec fn exact_arithmetic<T: Add<Output = T> + Mul<Output = T> + PartialOrd + Default>() -> bool {
    &&& zero_is_fixed::<T>()
    &&& T::obeys_add_spec()
    &&& T::obeys_mul_spec()
    &&& compares_exactly::<T>()
}

impl<T: Add<Output = T> + Mul<Output = T> + PartialOrd + Default> NeuronModel<T> {
    /// What the neuron gives for `inputs`: the weighted sum of the inputs plus
    /// the bias, rectified.
    pub open spec fn output(self, inputs: Seq<T>) -> T {
        rectified(sum_of(weighted_sum(inputs, self.weights), self.bias))
    }
}

/// One unit of a layer: a bias and one weight per input.
#[derive(Clone, Debug)]
pub struct Neuron<T> {
    pub bias: T,
    pub weights: Vec<T>,
}

impl<T> View for Neuron<T> {
    type V = NeuronModel<T>;

    open spec fn view(&self) -> NeuronModel<T> {
        NeuronModel { bias: self.bias, weights: self.weights@ }
    }
}

impl<T: Copy> Neuron<T> {
    pub fn new(bias: T, weights: Vec<T>) -> (neuron: Self)
        ensures
            neuron@ == (NeuronModel { bias, weights: weights@ }),
    {
        Self { bias, weights }
    }

    /// The bias followed by the weights.
    pub fn weights(&self) -> (flat: Vec<T>)
        ensures
            flat@ == self@.flat(),
    {
        let mut flat: Vec<T> = Vec::with_capacity(1);
        flat.push(self.bias);
        let mut i: usize = 0;
        while i < self.weights.len()
            invariant
                i <= self.weights.len(),
                flat@ == seq![self.bias] + self.weights@.take(i as int),
            decreases self.weights.len() - i,
        {
            flat.push(self.weights[i]);
            assert(self.weights@.take(i + 1) =~= self.weights@.take(i as int).push(self.weights@[i as int]));
            assert(flat@ =~= seq![self.bias] + self.weights@.take(i + 1));
            i += 1;
        }
        assert(self.weights@.take(i as int) =~= self.weights@);
        flat
    }

    /// Reads a neuron of `num_weights` inputs from the front of `weights`: the
    /// bias first, then the weights. The values read are consumed.
    pub fn from_weights<I: Iterator<Item = T>>(num_weights: usize, weights: &mut I) -> (neuron: Self)
        requires
            (*old(weights)).obeys_prophetic_iter_laws(),
            (*old(weights)).remaining().len() > num_weights,
        ensures
            (*final(weights)).obeys_prophetic_iter_laws(),
            neuron@ == NeuronModel::decode(num_weights as int, (*old(weights)).remaining()),
            (*final(weights)).remaining() == (*old(weights)).remaining().skip(num_weights + 1),
    {
        let ghost source = (*weights).remaining();
        let bias = match weights.next() {
            Some(value) => value,
            None => vstd::pervasive::unreached(),
        };
        let mut taken: Vec<T> = Vec::with_capacity(num_weights);
        assert(taken@ =~= source.subrange(1, 1));
        let mut i: usize = 0;
        while i < num_weights
            invariant
                i <= num_weights,
                (*weights).obeys_prophetic_iter_laws(),
                source.len() > num_weights,
                (*weights).remaining() == source.skip(i + 1),
                taken@ == source.subrange(1, i + 1),
            decreases num_weights - i,
        {
            match weights.next() {
                Some(value) => {
                    taken.push(value);
                },
                None => {
                    assert(false);
                },
            }
            assert((*weights).remaining() =~= source.skip(i + 2));
            assert(taken@ =~= source.subrange(1, i + 2));
            i += 1;
        }
        Self { bias, weights: taken }
    }
}

impl<T: Copy + Add<Output = T> + Mul<Output = T> + PartialOrd + Default> Neuron<T> {
    /// The neuron's answer to `inputs`: the weighted sum of the inputs plus
    /// the bias where that exceeds zero, and zero elsewhere.
    pub fn propogate(&self, inputs: &[T]) -> (output: T)
        requires
            inputs@.len() == self@.weights.len(),
            adds_freely::<T>(),
            multiplies_freely::<T>(),
        ensures
            exact_arithmetic::<T>() ==> output == self@.output(inputs@),
            compares_exactly::<T>() && zero_is_fixed::<T>() ==> output == zero::<T>() || exceeds(
                output,
                zero::<T>(),
            ),
    {
        let nothing: T = zero_value();
        let mut output: T = nothing;
        let mut i: usize = 0;
        while i < inputs.len()
            invariant
                i <= inputs.len(),
                inputs@.len() == self.weights@.len(),
                adds_freely::<T>(),
                multiplies_freely::<T>(),
                exact_arithmetic::<T>() ==> output == weighted_sum(
                    inputs@.take(i as int),
                    self.weights@.take(i as int),
                ),
            decreases inputs.len() - i,
        {
            proof {
                assert(inputs@.take(i + 1).drop_last() =~= inputs@.take(i as int));
                assert(self.weights@.take(i + 1).drop_last() =~= self.weights@.take(i as int));
            }
            output = output + inputs[i] * self.weights[i];
            i += 1;
        }
        proof {
            assert(inputs@.take(i as int) =~= inputs@);
            assert(self.weights@.take(i as int) =~= self.weights@);
        }
        let total = output + self.bias;
        if total > nothing {
            total
        } else {
            nothing
        }
    }
}

impl<T: From<i8>> NeuronModel<T> {
    /// The bias and every weight are values that the source can draw
    /// between minus one and one.
    pub open spec fn is_random<R: RandomSource<T>>(self) -> bool {
        &&& is_drawn_weight::<T, R>(self.bias)
        &&& forall|i: int|
            0 <= i < self.weights.len() ==> is_drawn_weight::<T, R>(#[trigger] self.weights[i])
    }
}

impl<T: Copy> Neuron<T> {
    /// A neuron of `input_size` inputs whose bias and weights are drawn, in
    /// that order and with nothing else drawn, between `low` and `high`.
    pub fn random_between<R: RandomSource<T>>(
        rng: &mut Recorder<T, R>,
        input_size: usize,
        low: T,
        high: T,
    ) -> (neuron: Self)
        ensures
            neuron@.weights.len() == input_size,
            all_drawn_between::<T, R>(low, high, neuron@.flat()),
            extends(
                final(rng).history(),
                old(rng).history(),
                weight_draws(low, high, neuron@.flat()),
            ),
    {
        let bias = rng.uniform(low, high);
        assert(is_drawn_between::<T, R>(low, high, bias));
        let mut weights: Vec<T> = Vec::with_capacity(input_size);
        let mut i: usize = 0;
        assert(rng.history() =~= old(rng).history() + weight_draws(
            low,
            high,
            seq![bias] + weights@,
        ));
        while i < input_size
            invariant
                i <= input_size,
                weights@.len() == i,
                is_drawn_between::<T, R>(low, high, bias),
                forall|k: int|
                    0 <= k < i ==> is_drawn_between::<T, R>(low, high, #[trigger] weights@[k]),
                rng.history() == old(rng).history() + weight_draws(
                    low,
                    high,
                    seq![bias] + weights@,
                ),
            decreases input_size - i,
        {
            let ghost earlier = weights@;
            let weight = rng.uniform(low, high);
            assert(is_drawn_between::<T, R>(low, high, weight));
            weights.push(weight);
            proof {
                assert forall|k: int| 0 <= k < i implies weights@[k] == earlier[k] by {}
                assert(seq![bias] + weights@ =~= (seq![bias] + earlier).push(weight));
                assert(rng.history() =~= old(rng).history() + weight_draws(
                    low,
                    high,
                    seq![bias] + weights@,
                ));
            }
            i += 1;
        }
        let neuron = Self { bias, weights };
        assert forall|k: int| 0 <= k < neuron@.flat().len() implies is_drawn_between::<T, R>(
            low,
            high,
            #[trigger] neuron@.flat()[k],
        ) by {
            if k > 0 {
                assert(neuron@.flat()[k] == neuron.weights@[k - 1]);
            }
        }
        neuron
    }
}

impl<T: Copy + From<i8>> Neuron<T> {
    /// A neuron of `input_size` inputs whose bias and weights are drawn, in
    /// that order and with nothing else drawn, uniformly between -1 and 1.
    pub fn random<R: RandomSource<T>>(rng: &mut Recorder<T, R>, input_size: usize) -> (neuron: Self)
        ensures
            neuron@.weights.len() == input_size,
            neuron@.is_random::<R>(),
            exists|low: T, high: T|
                #[trigger] is_unit_range(low, high) && extends(
                    final(rng).history(),
                    old(rng).history(),
                    weight_draws(low, high, neuron@.flat()),
                ),
    {
        let low = T::from(-1i8);
        let high = T::from(1i8);
        let neuron = Neuron::random_between(rng, input_size, low, high);
        proof {
            assert(is_unit_range(low, high));
            assert(neuron@.flat()[0] == neuron@.bias);
            assert(is_drawn_between::<T, R>(low, high, neuron@.flat()[0]));
            assert forall|i: int| 0 <= i < neuron@.weights.len() implies is_drawn_weight::<T, R>(
                #[trigger] neuron@.weights[i],
            ) by {
                assert(neuron@.flat()[i + 1] == neuron@.weights[i]);
                assert(is_drawn_between::<T, R>(low, high, neuron@.flat()[i + 1]));
            }
        }
        neuron
    }
}

} // verus!
