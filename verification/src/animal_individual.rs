use vstd::prelude::*;
use crate::animal::Animal;
use crate::brain::brain_topology;
use crate::chromosome::Chromosome;
use crate::individual::Individual;
use crate::network::flat_network;
use crate::network::weight_count;
use crate::random::extends;
use crate::random::RandomSource;
use crate::random::Recorder;
use crate::scalar::computes_freely;
use crate::scalar::counts;
use crate::scalar::Measure;
use crate::scalar::Scalar;
use crate::scalar::zero;
use crate::scalar::zero_is_fixed;
use crate::scalar::zero_value;
use crate::settings::Settings;

verus! {

/// An animal as the genetic algorithm sees it: the weights of its brain as
/// a genome, and the food it has eaten as its fitness.
#[derive(Debug)]
pub struct AnimalIndividual<T> {
    chromosome: Chromosome<T>,
    fitness: T,
}

impl<T: Scalar> AnimalIndividual<T> {
    /// The individual that stands for `animal`: its genome is the animal's
    /// brain, and its fitness is the scalar that stands for the number of
    /// foods that the animal has eaten.
    pub fn from_animal<M: Measure<T>>(animal: &Animal<T>, measure: &M) -> (individual: Self)
        ensures
            individual.genome() == flat_network(animal.brain@),
            counts(measure, animal.food_eaten, individual.spec_fitness()),
    {
        Self { fitness: measure.scalar(animal.food_eaten), chromosome: animal.as_chromosome() }
    }

    /// An animal at a random place whose brain is this individual's genome.
    pub fn to_animal<R: RandomSource<T>>(self, rng: &mut Recorder<T, R>, settings: &Settings<T>) -> (animal:
        Animal<T>)
        requires
            settings.valid(),
            computes_freely::<T>(),
            self.genome().len() == weight_count(brain_topology(settings.cells)),
        ensures
            animal.fits(*settings),
            animal.food_eaten == 0,
            animal.is_placed::<R>(*settings),
            flat_network(animal.brain@) == self.genome(),
            extends(final(rng).history(), old(rng).history(), animal.placing()),
    {
        Animal::from_chromosome(self.chromosome, rng, settings)
    }
}

impl<T: Copy + Default> Individual<T> for AnimalIndividual<T> {
    closed spec fn genome(&self) -> Seq<T> {
        self.chromosome@
    }

    closed spec fn spec_fitness(&self) -> T {
        self.fitness
    }

    /// An individual with the given genome, and with no food eaten yet.
    fn from_chromosome(chromosome: Chromosome<T>) -> (individual: Self)
        ensures
            zero_is_fixed::<T>() ==> individual.spec_fitness() == zero::<T>(),
    {
        Self { fitness: zero_value(), chromosome }
    }

    fn fitness(&self) -> (fitness: T) {
        self.fitness
    }

    fn to_chromosome(&self) -> (chromosome: &Chromosome<T>) {
        &self.chromosome
    }
}

} // verus!
