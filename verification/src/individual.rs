use vstd::prelude::*;
use crate::chromosome::Chromosome;

verus! {

/// A member of a population: it has a fitness, exposes its genome, and can be
/// made from a genome.
pub trait Individual<T>: Sized {
    /// The genes of this individual. An implementation says what they are;
    /// where it does not, nothing is known of them.
    open spec fn genome(&self) -> Seq<T> {
        arbitrary()
    }

    fn from_chromosome(chromosome: Chromosome<T>) -> (individual: Self)
        ensures
            individual.genome() == chromosome@,
    ;

    /// How fit this individual is. An implementation says what that is;
    /// where it does not, nothing is known of it.
    open spec fn spec_fitness(&self) -> T {
        arbitrary()
    }

    fn fitness(&self) -> (fitness: T)
        ensures
            fitness == self.spec_fitness(),
    ;

    fn to_chromosome(&self) -> (chromosome: &Chromosome<T>)
        ensures
            chromosome@ == self.genome(),
    ;
}

/// Every member of the population has `length` genes.
pub open spec fn genomes_have_length<T, I: Individual<T>>(population: Seq<I>, length: nat) -> bool {
    forall|i: int| 0 <= i < population.len() ==> (#[trigger] population[i]).genome().len() == length
}

/// The fitness of every member of the population, in order.
pub open spec fn fitnesses<T, I: Individual<T>>(population: Seq<I>) -> Seq<T> {
    Seq::new(population.len(), |i: int| population[i].spec_fitness())
}

} // verus!
