use vstd::prelude::*;
use vstd::std_specs::ops::AddSpec;
use core::ops::Add;
use core::ops::Neg;
use crate::chromosome::Chromosome;
use crate::random::Draw;
use crate::random::extends;
use crate::random::is_drawn_between;
use crate::random::RandomSource;
use crate::random::Recorder;
use crate::scalar::adds_freely;
use crate::scalar::at_least;
use crate::scalar::at_most;
use crate::scalar::negates_freely;
use crate::scalar::small;
use crate::scalar::sum_of;
use crate::scalar::zero;

verus! {

/// A way to alter a genome in place, gene by gene.
pub trait MutationMethod<T> {
    /// What the method asks of the scalar's operators before it can run:
    /// nothing, unless an implementation says otherwise.
    open spec fn applicable(&self) -> bool {
        true
    }

    /// What the method allows a genome to become: a genome of the same
    /// length, unless an implementation says more.
    open spec fn mutates(&self, before: Seq<T>, after: Seq<T>) -> bool {
        after.len() == before.len()
    }

    /// What the method allows a genome to become when it makes the draws
    /// `draws`, and no others, to get there: what it allows it to become,
    /// unless an implementation says more.
    open spec fn mutates_by(&self, before: Seq<T>, draws: Seq<Draw<T>>, after: Seq<T>) -> bool {
        self.mutates(before, after)
    }

    fn mutate<R: RandomSource<T>>(&self, rng: &mut Recorder<T, R>, child: &mut Chromosome<T>)
        requires
            self.applicable(),
        ensures
            final(child)@.len() == old(child)@.len(),
            self.mutates(old(child)@, final(child)@),
            exists|draws: Seq<Draw<T>>|
                #[trigger] extends(final(rng).history(), old(rng).history(), draws)
                    && self.mutates_by(old(child)@, draws, final(child)@),
    ;
}

/// `after` is `before` with the noise planned for each gene added to it: a
/// gene with no noise planned is as it was, and a gene with noise planned is
/// the sum of what it was and the noise, where addition on `T` keeps to its
/// specification.
pub open spec fn is_perturbed<T: Add<Output = T>>(
    after: Seq<T>,
    before: Seq<T>,
    noise: Seq<Option<T>>,
) -> bool {
    &&& after.len() == before.len()
    &&& noise.len() == before.len()
    &&& forall|i: int|
        #![trigger noise[i]]
        #![trigger after[i]]
        0 <= i < before.len() ==> match noise[i] {
            Some(amount) => T::obeys_add_spec() ==> after[i] == sum_of(before[i], amount),
            None => after[i] == before[i],
        }
}

/// Mutation without effect: where no gene has noise planned, the genome
/// stays as it is.
pub proof fn lemma_no_noise_no_change<T: Add<Output = T>>(
    after: Seq<T>,
    before: Seq<T>,
    noise: Seq<Option<T>>,
)
    requires
        is_perturbed(after, before, noise),
        forall|i: int| 0 <= i < noise.len() ==> noise[i] is None,
    ensures
        after == before,
{
    assert(after =~= before);
}

/// Mutation that, gene by gene, first decides by `chance` whether the gene
/// changes, and then adds to it a value drawn uniformly between `-coeff` and
/// `coeff`.
#[derive(Clone, Debug)]
pub struct GaussianMutation<T> {
    chance: T,
    coeff: T,
}

impl<T: Copy> GaussianMutation<T> {
    /// The probability with which a gene changes.
    pub closed spec fn chance(&self) -> T {
        self.chance
    }

    /// The largest amount by which a gene changes, up or down.
    pub closed spec fn coeff(&self) -> T {
        self.coeff
    }

    pub fn new(chance: T, coeff: T) -> (method: GaussianMutation<T>)
        ensures
            method.chance() == chance,
            method.coeff() == coeff,
    {
        GaussianMutation { chance, coeff }
    }
}

impl<T: Copy + Add<Output = T>> GaussianMutation<T> {
    /// Adds to each gene the noise planned for it.
    pub fn apply(child: &mut Chromosome<T>, noise: &Vec<Option<T>>)
        requires
            old(child)@.len() == noise@.len(),
            adds_freely::<T>(),
        ensures
            is_perturbed(final(child)@, old(child)@, noise@),
    {
        let ghost before = child@;
        let mut i: usize = 0;
        while i < noise.len()
            invariant
                i <= noise.len(),
                before.len() == noise@.len(),
                child@.len() == before.len(),
                adds_freely::<T>(),
                forall|k: int| i <= k < before.len() ==> child@[k] == before[k],
                forall|k: int|
                    #![trigger noise@[k]]
                    #![trigger child@[k]]
                    0 <= k < i ==> match noise@[k] {
                        Some(amount) => T::obeys_add_spec() ==> child@[k] == sum_of(
                            before[k],
                            amount,
                        ),
                        None => child@[k] == before[k],
                    },
            decreases noise.len() - i,
        {
            match noise[i] {
                Some(amount) => {
                    let gene = child[i];
                    child.genes.set(i, gene + amount);
                },
                None => {},
            }
            i += 1;
        }
    }
}

/// The draws that a plan takes, gene after gene: for each gene the answer
/// whether it changes, and, where the answer is yes, the noise drawn for it
/// between `low` and `high`.
pub open spec fn plan_draws<T>(chance: T, low: T, high: T, noise: Seq<Option<T>>) -> Seq<Draw<T>>
    decreases noise.len(),
{
    if noise.len() == 0 {
        Seq::empty()
    } else {
        plan_draws(chance, low, high, noise.drop_last()) + match noise.last() {
            Some(amount) => seq![
                Draw::Bernoulli { chance, yes: true },
                Draw::Uniform { low, high, value: amount },
            ],
            None => seq![Draw::Bernoulli { chance, yes: false }],
        }
    }
}

/// The source can answer `yes` when asked whether a gene changes, with the
/// chance `chance`.
pub open spec fn answers<T, R: RandomSource<T>>(chance: T, yes: bool) -> bool {
    exists|source: &mut R| #[trigger] call_ensures(R::bernoulli, (source, chance), yes)
}

/// `amount` is a value that the source can draw between what `coeff`
/// negates to and `coeff`.
pub open spec fn is_noise<T: Neg<Output = T>, R: RandomSource<T>>(coeff: T, amount: T) -> bool {
    exists|low: T| call_ensures(T::neg, (coeff,), low) && #[trigger] is_drawn_between::<T, R>(low, coeff, amount)
}

/// `noise` is a plan that the source can give for the chance and the
/// coefficient: for each gene the source answered whether the gene changes,
/// and where it said yes, the noise is a value that it drew.
pub open spec fn is_planned<T: Neg<Output = T>, R: RandomSource<T>>(
    chance: T,
    coeff: T,
    noise: Seq<Option<T>>,
) -> bool {
    forall|i: int|
        0 <= i < noise.len() ==> match #[trigger] noise[i] {
            Some(amount) => answers::<T, R>(chance, true) && is_noise::<T, R>(coeff, amount),
            None => answers::<T, R>(chance, false),
        }
}

/// `after` is what the source can make of `before` by a mutation with the
/// chance and the coefficient.
pub open spec fn is_mutated<T: Neg<Output = T> + Add<Output = T>, R: RandomSource<T>>(
    chance: T,
    coeff: T,
    before: Seq<T>,
    after: Seq<T>,
) -> bool {
    exists|noise: Seq<Option<T>>|
        #[trigger] is_perturbed(after, before, noise) && is_planned::<T, R>(chance, coeff, noise)
}

/// Mutation without effect, by the chance: where the source never says yes
/// with the chance, a mutation leaves the genome as it is.
pub proof fn lemma_chance_never<T: Neg<Output = T> + Add<Output = T>, R: RandomSource<T>>(
    chance: T,
    coeff: T,
    before: Seq<T>,
    after: Seq<T>,
)
    requires
        is_mutated::<T, R>(chance, coeff, before, after),
        !answers::<T, R>(chance, true),
    ensures
        after == before,
{
    let noise = choose|noise: Seq<Option<T>>|
        #[trigger] is_perturbed(after, before, noise) && is_planned::<T, R>(chance, coeff, noise);
    assert forall|i: int| 0 <= i < noise.len() implies noise[i] is None by {}
    lemma_no_noise_no_change(after, before, noise);
}

/// Mutation without effect, by the coefficient: where every value that the
/// source draws for the coefficient leaves a gene that it is added to as it
/// is, a mutation leaves the genome as it is.
pub proof fn lemma_noise_adds_nothing<T: Neg<Output = T> + Add<Output = T>, R: RandomSource<T>>(
    chance: T,
    coeff: T,
    before: Seq<T>,
    after: Seq<T>,
)
    requires
        is_mutated::<T, R>(chance, coeff, before, after),
        T::obeys_add_spec(),
        forall|gene: T, amount: T| is_noise::<T, R>(coeff, amount) ==> #[trigger] sum_of(gene, amount) == gene,
    ensures
        after == before,
{
    let noise = choose|noise: Seq<Option<T>>|
        #[trigger] is_perturbed(after, before, noise) && is_planned::<T, R>(chance, coeff, noise);
    assert forall|i: int| 0 <= i < before.len() implies after[i] == before[i] by {
        match noise[i] {
            Some(amount) => {
                assert(is_noise::<T, R>(coeff, amount));
                assert(sum_of(before[i], amount) == before[i]);
            },
            None => {},
        }
    }
    assert(after =~= before);
}

impl<T> MutationMethod<T> for GaussianMutation<T> where
    T: Copy + PartialOrd + Default + From<i8> + Neg<Output = T> + Add<Output = T>,
 {
    /// The chance lies between zero and one, the coefficient is not below
    /// zero, and the scalar can be negated and added freely.
    open spec fn applicable(&self) -> bool {
        &&& at_least(self.chance(), zero::<T>())
        &&& at_most(self.chance(), small::<T>(1))
        &&& at_least(self.coeff(), zero::<T>())
        &&& negates_freely::<T>()
        &&& adds_freely::<T>()
    }

    open spec fn mutates(&self, before: Seq<T>, after: Seq<T>) -> bool {
        exists|noise: Seq<Option<T>>| is_perturbed(after, before, noise)
    }

    /// For each gene in turn the source is asked whether the gene changes,
    /// with the method's chance, and, only where it says yes, one value is
    /// drawn between what the coefficient negates to and the coefficient;
    /// nothing else is drawn, and the genome is perturbed by that plan.
    open spec fn mutates_by(&self, before: Seq<T>, draws: Seq<Draw<T>>, after: Seq<T>) -> bool {
        exists|noise: Seq<Option<T>>, low: T|
            {
                &&& call_ensures(T::neg, (self.coeff(),), low)
                &&& draws == #[trigger] plan_draws(self.chance(), low, self.coeff(), noise)
                &&& is_perturbed(after, before, noise)
            }
    }

    /// For each gene in turn, asks the source whether the gene changes, with
    /// the method's chance; where it does, a value drawn between `-coeff` and
    /// `coeff` is added to the gene.
    fn mutate<R: RandomSource<T>>(&self, rng: &mut Recorder<T, R>, child: &mut Chromosome<T>)
        ensures
            is_mutated::<T, R>(self.chance(), self.coeff(), old(child)@, final(child)@),
    {
        let gene_cnt = child.len();
        let low = self.coeff.neg();
        let mut noise: Vec<Option<T>> = Vec::with_capacity(gene_cnt);
        let mut i: usize = 0;
        assert(rng.history() =~= old(rng).history() + plan_draws(
            self.chance(),
            low,
            self.coeff(),
            noise@,
        ));
        while i < gene_cnt
            invariant
                i <= gene_cnt,
                noise@.len() == i,
                call_ensures(T::neg, (self.coeff(),), low),
                is_planned::<T, R>(self.chance(), self.coeff(), noise@),
                rng.history() == old(rng).history() + plan_draws(
                    self.chance(),
                    low,
                    self.coeff(),
                    noise@,
                ),
            decreases gene_cnt - i,
        {
            let ghost earlier = noise@;
            let ghost planned = plan_draws(self.chance(), low, self.coeff(), earlier);
            let yes = rng.bernoulli(self.chance);
            assert(answers::<T, R>(self.chance(), yes));
            if yes {
                let amount = rng.uniform(low, self.coeff);
                assert(is_drawn_between::<T, R>(low, self.coeff(), amount));
                assert(is_noise::<T, R>(self.coeff(), amount));
                noise.push(Some(amount));
            } else {
                noise.push(None);
            }
            proof {
                assert forall|k: int| 0 <= k < i implies noise@[k] == earlier[k] by {}
                assert(noise@.drop_last() =~= earlier);
                assert(rng.history() =~= old(rng).history() + plan_draws(
                    self.chance(),
                    low,
                    self.coeff(),
                    noise@,
                ));
            }
            i += 1;
        }
        GaussianMutation::apply(child, &noise);
        assert(extends(
            rng.history(),
            old(rng).history(),
            plan_draws(self.chance(), low, self.coeff(), noise@),
        ));
    }
}

} // verus!
