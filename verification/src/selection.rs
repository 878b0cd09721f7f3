use vstd::prelude::*;
use crate::individual::fitnesses;
use crate::individual::Individual;
use crate::random::Draw;
use crate::random::extends;
use crate::random::RandomSource;
use crate::random::Recorder;
use crate::scalar::compares_exactly;
use crate::scalar::exceeds;
use crate::scalar::zero;
use crate::scalar::zero_is_fixed;

verus! {

/// A way to choose a parent from a population.
pub trait SelectionMethod<T> {
    /// What the method asks of the members' fitness before it can choose:
    /// nothing, unless an implementation says otherwise.
    open spec fn selectable(&self, fitnesses: Seq<T>) -> bool {
        true
    }

    /// The member at `index` is one that the method can choose among
    /// members of the given fitness when it makes the draws `draws`, and no
    /// others, to choose: any member, unless an implementation says more.
    open spec fn selects_by(&self, fitnesses: Seq<T>, draws: Seq<Draw<T>>, index: int) -> bool {
        true
    }

    fn select<'a, I: Individual<T>, R: RandomSource<T>>(
        &self,
        rng: &mut Recorder<T, R>,
        population: &'a [I],
    ) -> (chosen: &'a I)
        requires
            population.len() > 0,
            self.selectable(fitnesses(population@)),
        ensures
            exists|i: int| 0 <= i < population.len() && *chosen == population[i],
            exists|i: int, draws: Seq<Draw<T>>|
                {
                    &&& 0 <= i < population.len()
                    &&& *chosen == population[i]
                    &&& #[trigger] extends(final(rng).history(), old(rng).history(), draws)
                    &&& #[trigger] self.selects_by(fitnesses(population@), draws, i)
                },
    ;
}

/// The one draw of the position `index` with the weights `weights`.
pub open spec fn weighted_draw<T>(weights: Seq<T>, index: usize) -> Seq<Draw<T>> {
    Seq::<Draw<T>>::empty().push(Draw::Weighted { weights, index })
}

/// The one draw of the count `index` below `size`.
pub open spec fn index_draw<T>(size: usize, index: usize) -> Seq<Draw<T>> {
    Seq::<Draw<T>>::empty().push(Draw::Index { size, index })
}

/// The position that a drawn index stands for in a population of `size`
/// members: itself, or the last position where it lies beyond the end.
pub open spec fn clamped_index(index: int, size: int) -> int {
    if index < size {
        index
    } else {
        size - 1
    }
}

/// Fitness-proportionate selection: a member is chosen with a probability
/// equal to its share of the population's total fitness.
pub struct RouletteWheelSelection;

impl RouletteWheelSelection {
    pub fn new() -> Self {
        Self
    }

    /// The fitness of every member, in order.
    pub fn weights<T, I: Individual<T>>(population: &[I]) -> (weights: Vec<T>)
        ensures
            weights@ == fitnesses(population@),
    {
        let mut weights: Vec<T> = Vec::with_capacity(population.len());
        let mut i: usize = 0;
        assert(weights@ =~= fitnesses(population@).take(0));
        while i < population.len()
            invariant
                i <= population.len(),
                weights@ == fitnesses(population@).take(i as int),
            decreases population.len() - i,
        {
            weights.push(population[i].fitness());
            assert(weights@ =~= fitnesses(population@).take(i + 1));
            i += 1;
        }
        assert(weights@ =~= fitnesses(population@));
        weights
    }

    /// The member that a drawn `index` stands for.
    pub fn pick<'a, I>(population: &'a [I], index: usize) -> (chosen: &'a I)
        requires
            population.len() > 0,
        ensures
            *chosen == population[clamped_index(index as int, population.len() as int)],
    {
        if index < population.len() {
            &population[index]
        } else {
            &population[population.len() - 1]
        }
    }
}

/// One of `fitnesses` is above zero.
pub open spec fn some_above_zero<T: PartialOrd + Default>(fitnesses: Seq<T>) -> bool {
    exists|i: int| 0 <= i < fitnesses.len() && exceeds(#[trigger] fitnesses[i], zero::<T>())
}

impl<T: PartialOrd + Default> SelectionMethod<T> for RouletteWheelSelection {
    /// One member at least has a fitness above zero. This is asked of
    /// scalars whose comparison keeps to its specification and whose zero
    /// is one value; of other scalars nothing can be asked.
    open spec fn selectable(&self, fitnesses: Seq<T>) -> bool {
        compares_exactly::<T>() && zero_is_fixed::<T>() ==> some_above_zero(fitnesses)
    }

    /// One position is drawn with the members' fitness as weights, and
    /// nothing else; the member chosen is the one that it stands for.
    open spec fn selects_by(&self, fitnesses: Seq<T>, draws: Seq<Draw<T>>, index: int) -> bool {
        exists|drawn: usize|
            {
                &&& draws == #[trigger] weighted_draw(fitnesses, drawn)
                &&& index == clamped_index(drawn as int, fitnesses.len() as int)
            }
    }

    /// A member drawn by the source with the members' fitness as weights.
    fn select<'a, I: Individual<T>, R: RandomSource<T>>(
        &self,
        rng: &mut Recorder<T, R>,
        population: &'a [I],
    ) -> (chosen: &'a I) {
        let weights = RouletteWheelSelection::weights(population);
        let index = rng.weighted_index(weights.as_slice());
        let chosen = RouletteWheelSelection::pick(population, index);
        proof {
            let draws = weighted_draw(fitnesses(population@), index);
            let i = clamped_index(index as int, population.len() as int);
            assert(fitnesses(population@).len() == population.len());
            assert(rng.history() =~= old(rng).history() + draws);
            assert(extends(rng.history(), old(rng).history(), draws));
            assert(self.selects_by(fitnesses(population@), draws, i));
        }
        chosen
    }
}

/// Selection without regard to fitness: every member is as likely to be
/// chosen as any other.
pub struct UniformSelection;

impl UniformSelection {
    pub fn new() -> Self {
        Self
    }
}

impl<T> SelectionMethod<T> for UniformSelection {
    /// One count is drawn below the number of members, and nothing else;
    /// the member chosen is the one that it stands for.
    open spec fn selects_by(&self, fitnesses: Seq<T>, draws: Seq<Draw<T>>, index: int) -> bool {
        exists|drawn: usize|
            {
                &&& draws == #[trigger] index_draw::<T>(fitnesses.len() as usize, drawn)
                &&& index == clamped_index(drawn as int, fitnesses.len() as int)
            }
    }

    /// A member drawn by the source, each as likely as any other.
    fn select<'a, I: Individual<T>, R: RandomSource<T>>(
        &self,
        rng: &mut Recorder<T, R>,
        population: &'a [I],
    ) -> (chosen: &'a I) {
        let index = rng.index(population.len());
        let chosen = RouletteWheelSelection::pick(population, index);
        proof {
            let draws = index_draw::<T>(population.len(), index);
            let i = clamped_index(index as int, population.len() as int);
            assert(fitnesses(population@).len() == population.len());
            assert(rng.history() =~= old(rng).history() + draws);
            assert(extends(rng.history(), old(rng).history(), draws));
            assert(fitnesses(population@).len() as usize == population.len());
            assert(draws == index_draw::<T>(fitnesses(population@).len() as usize, index));
            assert(self.selects_by(fitnesses(population@), draws, i));
        }
        chosen
    }
}

} // verus!
