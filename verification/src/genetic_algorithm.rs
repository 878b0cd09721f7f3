use vstd::prelude::*;
use core::ops::Add;
use crate::crossover::CrossoverMethod;
use crate::individual::fitnesses;
use crate::individual::genomes_have_length;
use crate::individual::Individual;
use crate::mutation::MutationMethod;
use crate::random::Draw;
use crate::random::extends;
use crate::random::RandomSource;
use crate::random::Recorder;
use crate::scalar::adds_freely;
use crate::selection::SelectionMethod;
use crate::statistics::Statistics;

verus! {

/// `child` descends from the population by the two methods: it is what the
/// mutation method allows to come of a genome that the crossover method
/// allows as the child of two members.
pub open spec fn descends<T, I: Individual<T>, C: CrossoverMethod<T>, M: MutationMethod<T>>(
    crossover_method: C,
    mutation_method: M,
    population: Seq<I>,
    child: Seq<T>,
) -> bool {
    exists|i: int, j: int, crossed: Seq<T>|
        {
            &&& 0 <= i < population.len()
            &&& 0 <= j < population.len()
            &&& #[trigger] crossover_method.crosses(
                population[i].genome(),
                population[j].genome(),
                crossed,
            )
            &&& mutation_method.mutates(crossed, child)
        }
}

/// How one child was bred: which members were chosen for its parents and
/// by what draws, what the parents were crossed into and by what draws, and
/// by what draws that was mutated.
pub struct Brood<T> {
    pub first: int,
    pub first_draws: Seq<Draw<T>>,
    pub second: int,
    pub second_draws: Seq<Draw<T>>,
    pub crossed: Seq<T>,
    pub crossover_draws: Seq<Draw<T>>,
    pub mutation_draws: Seq<Draw<T>>,
}

impl<T> Brood<T> {
    /// The draws made for the child, in the order in which they were made:
    /// for the first parent, for the second parent, for the crossover, for
    /// the mutation.
    pub open spec fn draws(self) -> Seq<Draw<T>> {
        self.first_draws + self.second_draws + self.crossover_draws + self.mutation_draws
    }
}

/// The draws made for all the children, child after child.
pub open spec fn all_draws<T>(broods: Seq<Brood<T>>) -> Seq<Draw<T>>
    decreases broods.len(),
{
    if broods.len() == 0 {
        Seq::empty()
    } else {
        all_draws(broods.drop_last()) + broods.last().draws()
    }
}

/// `child` is bred from the population by the three methods as `brood`
/// tells: the selection method chose the first parent and then the second,
/// the crossover method crossed them, and the mutation method mutated what
/// came of it into `child`, each by the draws that the brood holds for it.
pub open spec fn is_bred<
    T,
    I: Individual<T>,
    S: SelectionMethod<T>,
    C: CrossoverMethod<T>,
    M: MutationMethod<T>,
>(
    selection_method: S,
    crossover_method: C,
    mutation_method: M,
    population: Seq<I>,
    brood: Brood<T>,
    child: Seq<T>,
) -> bool {
    &&& 0 <= brood.first < population.len()
    &&& 0 <= brood.second < population.len()
    &&& selection_method.selects_by(fitnesses(population), brood.first_draws, brood.first)
    &&& selection_method.selects_by(fitnesses(population), brood.second_draws, brood.second)
    &&& crossover_method.crosses_by(
        population[brood.first].genome(),
        population[brood.second].genome(),
        brood.crossover_draws,
        brood.crossed,
    )
    &&& mutation_method.mutates_by(brood.crossed, brood.mutation_draws, child)
}

/// The children are bred from the population one after the other, as
/// `broods` tells, and the draws made are those of the broods and no others.
pub open spec fn are_bred<
    T,
    I: Individual<T>,
    S: SelectionMethod<T>,
    C: CrossoverMethod<T>,
    M: MutationMethod<T>,
>(
    selection_method: S,
    crossover_method: C,
    mutation_method: M,
    population: Seq<I>,
    broods: Seq<Brood<T>>,
    children: Seq<I>,
) -> bool {
    &&& broods.len() == children.len()
    &&& forall|k: int|
        0 <= k < children.len() ==> is_bred(
            selection_method,
            crossover_method,
            mutation_method,
            population,
            #[trigger] broods[k],
            children[k].genome(),
        )
}

/// A generational genetic algorithm, made of a way to select parents, a way
/// to cross two parents over, and a way to mutate their child.
pub struct GeneticAlgorithm<S, C, M> {
    selection_method: S,
    crossover_method: C,
    mutation_method: M,
}

impl<S, C, M> GeneticAlgorithm<S, C, M> {
    pub closed spec fn selection_method(&self) -> S {
        self.selection_method
    }

    pub closed spec fn crossover_method(&self) -> C {
        self.crossover_method
    }

    pub closed spec fn mutation_method(&self) -> M {
        self.mutation_method
    }

    pub fn new(selection_method: S, crossover_method: C, mutation_method: M) -> (algorithm: Self)
        ensures
            algorithm.selection_method() == selection_method,
            algorithm.crossover_method() == crossover_method,
            algorithm.mutation_method() == mutation_method,
    {
        Self { selection_method, crossover_method, mutation_method }
    }

    /// One generation: the statistics of `population`, and as many children
    /// as it has members. Each child is made in turn: two parents are
    /// selected, one after the other, and crossed over, and what comes of it
    /// is mutated.
    pub fn evolve<T, I, R>(&self, rng: &mut Recorder<T, R>, population: &[I]) -> (next: (
        Vec<I>,
        Statistics<T>,
    ))
        where
            T: Copy + Add<Output = T> + PartialOrd + Default,
            S: SelectionMethod<T>,
            C: CrossoverMethod<T>,
            M: MutationMethod<T>,
            I: Individual<T>,
            R: RandomSource<T>,
        requires
            population.len() > 0,
            population[0].genome().len() > 0,
            genomes_have_length(population@, population[0].genome().len()),
            self.selection_method().selectable(fitnesses(population@)),
            self.mutation_method().applicable(),
            adds_freely::<T>(),
        ensures
            next.0@.len() == population@.len(),
            genomes_have_length(next.0@, population[0].genome().len()),
            forall|k: int|
                0 <= k < next.0@.len() ==> descends(
                    self.crossover_method(),
                    self.mutation_method(),
                    population@,
                    (#[trigger] next.0@[k]).genome(),
                ),
            exists|broods: Seq<Brood<T>>|
                {
                    &&& #[trigger] are_bred(
                        self.selection_method(),
                        self.crossover_method(),
                        self.mutation_method(),
                        population@,
                        broods,
                        next.0@,
                    )
                    &&& extends(final(rng).history(), old(rng).history(), all_draws(broods))
                },
            next.1.summarizes(fitnesses(population@)),
    {
        let ghost length = population[0].genome().len();
        let stats = Statistics::new(population);
        let mut offspring: Vec<I> = Vec::with_capacity(population.len());
        let ghost mut broods: Seq<Brood<T>> = Seq::empty();
        let mut i: usize = 0;
        assert(rng.history() =~= old(rng).history() + all_draws(broods));
        while i < population.len()
            invariant
                i <= population.len(),
                length > 0,
                genomes_have_length(population@, length),
                self.selection_method().selectable(fitnesses(population@)),
                self.mutation_method().applicable(),
                offspring@.len() == i,
                genomes_have_length(offspring@, length),
                forall|k: int|
                    0 <= k < i ==> descends(
                        self.crossover_method(),
                        self.mutation_method(),
                        population@,
                        (#[trigger] offspring@[k]).genome(),
                    ),
                are_bred(
                    self.selection_method(),
                    self.crossover_method(),
                    self.mutation_method(),
                    population@,
                    broods,
                    offspring@,
                ),
                rng.history() == old(rng).history() + all_draws(broods),
            decreases population.len() - i,
        {
            let ghost earlier = broods;
            let ghost was = offspring@;
            let ghost h0 = rng.history();
            let first = self.selection_method.select(rng, population);
            let ghost h1 = rng.history();
            let second = self.selection_method.select(rng, population);
            let ghost h2 = rng.history();
            let parent1 = first.to_chromosome();
            let parent2 = second.to_chromosome();
            let mut child = self.crossover_method.crossover(rng, parent1, parent2);
            let ghost h3 = rng.history();
            let ghost crossed = child@;
            self.mutation_method.mutate(rng, &mut child);
            let ghost h4 = rng.history();
            let ghost bred = child@;
            offspring.push(I::from_chromosome(child));
            proof {
                let a = choose|a: int| 0 <= a < population.len() && *first == population[a];
                let b = choose|b: int| 0 <= b < population.len() && *second == population[b];
                assert(self.crossover_method().crosses(
                    population@[a].genome(),
                    population@[b].genome(),
                    crossed,
                ));
                assert(descends(
                    self.crossover_method(),
                    self.mutation_method(),
                    population@,
                    bred,
                ));
                let (first_index, first_draws) = choose|i: int, draws: Seq<Draw<T>>|
                    {
                        &&& 0 <= i < population.len()
                        &&& *first == population[i]
                        &&& #[trigger] extends(h1, h0, draws)
                        &&& #[trigger] self.selection_method().selects_by(
                            fitnesses(population@),
                            draws,
                            i,
                        )
                    };
                let (second_index, second_draws) = choose|i: int, draws: Seq<Draw<T>>|
                    {
                        &&& 0 <= i < population.len()
                        &&& *second == population[i]
                        &&& #[trigger] extends(h2, h1, draws)
                        &&& #[trigger] self.selection_method().selects_by(
                            fitnesses(population@),
                            draws,
                            i,
                        )
                    };
                let crossover_draws = choose|draws: Seq<Draw<T>>|
                    #[trigger] extends(h3, h2, draws) && self.crossover_method().crosses_by(
                        parent1@,
                        parent2@,
                        draws,
                        crossed,
                    );
                let mutation_draws = choose|draws: Seq<Draw<T>>|
                    #[trigger] extends(h4, h3, draws) && self.mutation_method().mutates_by(
                        crossed,
                        draws,
                        bred,
                    );
                let brood = Brood {
                    first: first_index,
                    first_draws,
                    second: second_index,
                    second_draws,
                    crossed,
                    crossover_draws,
                    mutation_draws,
                };
                broods = earlier.push(brood);
                assert(broods.drop_last() =~= earlier);
                assert(h4 =~= h0 + brood.draws());
                assert(rng.history() =~= old(rng).history() + all_draws(broods));
                assert(is_bred(
                    self.selection_method(),
                    self.crossover_method(),
                    self.mutation_method(),
                    population@,
                    brood,
                    bred,
                ));
                assert forall|k: int| 0 <= k < i + 1 implies is_bred(
                    self.selection_method(),
                    self.crossover_method(),
                    self.mutation_method(),
                    population@,
                    #[trigger] broods[k],
                    offspring@[k].genome(),
                ) by {
                    if k < i {
                        assert(broods[k] == earlier[k]);
                        assert(offspring@[k] == was[k]);
                    }
                }
            }
            i += 1;
        }
        proof {
            assert(extends(rng.history(), old(rng).history(), all_draws(broods)));
        }
        (offspring, stats)
    }
}

} // verus!
