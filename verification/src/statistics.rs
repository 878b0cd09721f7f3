use vstd::prelude::*;
use vstd::std_specs::ops::AddSpec;
use vstd::std_specs::ops::DivSpec;
use core::ops::Add;
use core::ops::Div;
use crate::individual::fitnesses;
use crate::individual::Individual;
use crate::scalar::adds_freely;
use crate::scalar::compares_exactly;
use crate::scalar::counts;
use crate::scalar::exceeds;
use crate::scalar::Measure;
use crate::scalar::precedes;
use crate::scalar::quotient_of;
use crate::scalar::sum_of;
use crate::scalar::zero;
use crate::scalar::zero_is_fixed;
use crate::scalar::zero_value;

verus! {

/// The least of `values`: the first, unless a later one precedes all before it.
pub open spec fn least<T: PartialOrd>(values: Seq<T>) -> T
    decreases values.len(),
{
    if values.len() <= 1 {
        values[0]
    } else if precedes(values.last(), least(values.drop_last())) {
        values.last()
    } else {
        least(values.drop_last())
    }
}

/// The greatest of `values`: the first, unless a later one exceeds all before it.
pub open spec fn greatest<T: PartialOrd>(values: Seq<T>) -> T
    decreases values.len(),
{
    if values.len() <= 1 {
        values[0]
    } else if exceeds(values.last(), greatest(values.drop_last())) {
        values.last()
    } else {
        greatest(values.drop_last())
    }
}

/// The sum of `values`, taken up from zero in order.
pub open spec fn total<T: Add<Output = T> + Default>(values: Seq<T>) -> T
    decreases values.len(),
{
    if values.len() == 0 {
        zero::<T>()
    } else {
        sum_of(total(values.drop_last()), values.last())
    }
}

/// Addition and comparison on `T` keep to their specifications, and its zero
/// is one value.
pub open spec fn exact_summary<T: Add<Output = T> + PartialOrd + Default>() -> bool {
    &&& zero_is_fixed::<T>()
    &&& T::obeys_add_spec()
    &&& compares_exactly::<T>()
}

/// The fitness of a population in summary: the least, the greatest, and the
/// sum over its members together with their number, which give the average.
#[derive(Clone, Debug)]
pub struct Statistics<T> {
    min_fitness: T,
    max_fitness: T,
    sum_fitness: T,
    population_size: usize,
}

impl<T: Copy> Statistics<T> {
    pub closed spec fn spec_min_fitness(&self) -> T {
        self.min_fitness
    }

    pub closed spec fn spec_max_fitness(&self) -> T {
        self.max_fitness
    }

    pub closed spec fn spec_sum_fitness(&self) -> T {
        self.sum_fitness
    }

    pub closed spec fn spec_population_size(&self) -> usize {
        self.population_size
    }

    #[verifier::when_used_as_spec(spec_min_fitness)]
    pub fn min_fitness(&self) -> (fitness: T)
        ensures
            fitness == self.spec_min_fitness(),
    {
        self.min_fitness
    }

    #[verifier::when_used_as_spec(spec_max_fitness)]
    pub fn max_fitness(&self) -> (fitness: T)
        ensures
            fitness == self.spec_max_fitness(),
    {
        self.max_fitness
    }

    /// The sum of the members' fitness; divided by `population_size`, it is
    /// the average fitness.
    #[verifier::when_used_as_spec(spec_sum_fitness)]
    pub fn sum_fitness(&self) -> (fitness: T)
        ensures
            fitness == self.spec_sum_fitness(),
    {
        self.sum_fitness
    }

    #[verifier::when_used_as_spec(spec_population_size)]
    pub fn population_size(&self) -> (size: usize)
        ensures
            size == self.spec_population_size(),
    {
        self.population_size
    }
}

impl<T: Copy + Div<Output = T>> Statistics<T> {
    /// The average fitness: the sum of the members' fitness, divided by the
    /// scalar that `measure` gives for their number.
    pub fn avg_fitness<M: Measure<T>>(&self, measure: &M) -> (fitness: T)
        requires
            forall|a: T, b: T| #[trigger] a.div_req(b),
        ensures
            exists|size: T|
                #[trigger] counts(measure, self.population_size(), size) && (T::obeys_div_spec()
                    ==> fitness == quotient_of(self.sum_fitness(), size)),
    {
        let size = measure.scalar(self.population_size);
        let fitness = self.sum_fitness / size;
        assert(counts(measure, self.population_size(), size));
        fitness
    }
}

impl<T: Copy + Add<Output = T> + PartialOrd + Default> Statistics<T> {
    /// These statistics are those of a population with the given fitness values.
    pub open spec fn summarizes(&self, values: Seq<T>) -> bool {
        &&& self.population_size() == values.len()
        &&& exact_summary::<T>() ==> {
            &&& self.min_fitness() == least(values)
            &&& self.max_fitness() == greatest(values)
            &&& self.sum_fitness() == total(values)
        }
    }

    /// The statistics of `population`, computed in one pass over its members.
    pub fn new<I: Individual<T>>(population: &[I]) -> (statistics: Self)
        requires
            population.len() > 0,
            adds_freely::<T>(),
        ensures
            statistics.summarizes(fitnesses(population@)),
    {
        let ghost values = fitnesses(population@);
        let population_size = population.len();
        let first = population[0].fitness();
        let mut min_fitness = first;
        let mut max_fitness = first;
        let nothing: T = zero_value();
        let mut sum_fitness = nothing + first;
        let mut i: usize = 1;
        proof {
            assert(values.take(1).drop_last() =~= Seq::<T>::empty());
            assert(values.take(1).last() == first);
            assert(total(values.take(1).drop_last()) == zero::<T>());
        }
        while i < population_size
            invariant
                1 <= i <= population_size,
                population_size == population.len(),
                values == fitnesses(population@),
                adds_freely::<T>(),
                exact_summary::<T>() ==> {
                    &&& min_fitness == least(values.take(i as int))
                    &&& max_fitness == greatest(values.take(i as int))
                    &&& sum_fitness == total(values.take(i as int))
                },
            decreases population_size - i,
        {
            let fitness = population[i].fitness();
            proof {
                assert(values.take(i + 1).drop_last() =~= values.take(i as int));
                assert(values.take(i + 1).last() == fitness);
            }
            if fitness < min_fitness {
                min_fitness = fitness;
            }
            if fitness > max_fitness {
                max_fitness = fitness;
            }
            sum_fitness = sum_fitness + fitness;
            i += 1;
        }
        proof {
            assert(values.take(i as int) =~= values);
        }
        Self { min_fitness, max_fitness, sum_fitness, population_size }
    }
}

} // verus!
