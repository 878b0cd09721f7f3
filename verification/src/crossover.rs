use vstd::prelude::*;
use crate::chromosome::Chromosome;
use crate::random::Draw;
use crate::random::extends;
use crate::random::RandomSource;
use crate::random::Recorder;

verus! {

/// A way to make one child genome from two parents of the same length.
pub trait CrossoverMethod<T> {
    /// What the method allows as the child of two parents: a genome of the
    /// parents' length, unless an implementation says more.
    open spec fn crosses(&self, parent_a: Seq<T>, parent_b: Seq<T>, child: Seq<T>) -> bool {
        child.len() == parent_a.len()
    }

    /// What the method allows as the child of two parents when it makes
    /// the draws `draws`, and no others, to get it: what it allows as
    /// their child, unless an implementation says more.
    open spec fn crosses_by(
        &self,
        parent_a: Seq<T>,
        parent_b: Seq<T>,
        draws: Seq<Draw<T>>,
        child: Seq<T>,
    ) -> bool {
        self.crosses(parent_a, parent_b, child)
    }

    fn crossover<R: RandomSource<T>>(
        &self,
        rng: &mut Recorder<T, R>,
        parent_a: &Chromosome<T>,
        parent_b: &Chromosome<T>,
    ) -> (child: Chromosome<T>)
        requires
            parent_a@.len() == parent_b@.len(),
            parent_a@.len() != 0,
        ensures
            child@.len() == parent_a@.len(),
            self.crosses(parent_a@, parent_b@, child@),
            exists|draws: Seq<Draw<T>>|
                #[trigger] extends(final(rng).history(), old(rng).history(), draws)
                    && self.crosses_by(parent_a@, parent_b@, draws, child@),
    ;
}

/// The child that takes gene `i` from `a` where `picks[i]` holds, and from `b` where it does not.
pub open spec fn combined<T>(a: Seq<T>, b: Seq<T>, picks: Seq<bool>) -> Seq<T> {
    Seq::new(
        a.len(),
        |i: int|
            if picks[i] {
                a[i]
            } else {
                b[i]
            },
    )
}

/// Every gene of `child` is the gene of `a` or of `b` at the same position.
pub open spec fn inherits<T>(child: Seq<T>, a: Seq<T>, b: Seq<T>) -> bool {
    &&& child.len() == a.len()
    &&& forall|i: int| 0 <= i < child.len() ==> child[i] == a[i] || child[i] == b[i]
}

/// The draws of one coin for each pick, in order.
pub open spec fn coins<T>(picks: Seq<bool>) -> Seq<Draw<T>> {
    Seq::new(picks.len(), |i: int| Draw::Coin { pick: picks[i] })
}

/// `pick` is an answer that the source can give when a coin is flipped.
pub open spec fn is_flip<T, R: RandomSource<T>>(pick: bool) -> bool {
    exists|source: &mut R| #[trigger] call_ensures(R::fair_coin, (source,), pick)
}

/// Every pick is an answer that the source can give when a coin is flipped.
pub open spec fn are_flips<T, R: RandomSource<T>>(picks: Seq<bool>) -> bool {
    forall|i: int| 0 <= i < picks.len() ==> is_flip::<T, R>(#[trigger] picks[i])
}

/// `child` is what the source can make of the parents by flipping a coin
/// for each gene: it takes the gene from `a` where the coin shows `true`.
pub open spec fn is_crossed<T, R: RandomSource<T>>(child: Seq<T>, a: Seq<T>, b: Seq<T>) -> bool {
    exists|picks: Seq<bool>|
        {
            &&& picks.len() == a.len()
            &&& are_flips::<T, R>(picks)
            &&& child == #[trigger] combined(a, b, picks)
        }
}

/// Uniform crossover: every gene comes from one parent or the other, as a
/// fair coin decides, gene by gene.
#[derive(Clone, Debug)]
pub struct UniformCrossover;

impl UniformCrossover {
    pub fn new() -> Self {
        Self
    }

    /// The child that `picks` selects from the two parents.
    pub fn combine<T: Copy>(
        parent_a: &Chromosome<T>,
        parent_b: &Chromosome<T>,
        picks: &Vec<bool>,
    ) -> (child: Chromosome<T>)
        requires
            parent_a@.len() == parent_b@.len(),
            parent_a@.len() == picks@.len(),
        ensures
            child@ == combined(parent_a@, parent_b@, picks@),
    {
        let gene_cnt = parent_a.len();
        let mut child: Vec<T> = Vec::with_capacity(gene_cnt);
        let mut i: usize = 0;
        while i < gene_cnt
            invariant
                i <= gene_cnt,
                gene_cnt == parent_a@.len(),
                gene_cnt == parent_b@.len(),
                gene_cnt == picks@.len(),
                child@ == combined(parent_a@, parent_b@, picks@).take(i as int),
            decreases gene_cnt - i,
        {
            let gene = if picks[i] {
                parent_a[i]
            } else {
                parent_b[i]
            };
            child.push(gene);
            assert(child@ =~= combined(parent_a@, parent_b@, picks@).take(i + 1));
            i += 1;
        }
        assert(child@ =~= combined(parent_a@, parent_b@, picks@));
        Chromosome::new(child)
    }
}

impl<T: Copy> CrossoverMethod<T> for UniformCrossover {
    open spec fn crosses(&self, parent_a: Seq<T>, parent_b: Seq<T>, child: Seq<T>) -> bool {
        inherits(child, parent_a, parent_b)
    }

    /// One coin is drawn for each gene, in the order of the genes, and
    /// nothing else; the child takes each gene from `parent_a` where the
    /// coin for it shows `true`, and from `parent_b` where it does not.
    open spec fn crosses_by(
        &self,
        parent_a: Seq<T>,
        parent_b: Seq<T>,
        draws: Seq<Draw<T>>,
        child: Seq<T>,
    ) -> bool {
        exists|picks: Seq<bool>|
            {
                &&& picks.len() == parent_a.len()
                &&& draws == #[trigger] coins::<T>(picks)
                &&& child == combined(parent_a, parent_b, picks)
            }
    }

    /// A child of the parents' length, each of whose genes is the gene of
    /// one parent or the other at the same position. For each gene in turn
    /// one fair coin is drawn, and the gene comes from `parent_a` where the
    /// coin shows `true`.
    fn crossover<R: RandomSource<T>>(
        &self,
        rng: &mut Recorder<T, R>,
        parent_a: &Chromosome<T>,
        parent_b: &Chromosome<T>,
    ) -> (child: Chromosome<T>)
        ensures
            is_crossed::<T, R>(child@, parent_a@, parent_b@),
    {
        let gene_cnt = parent_a.len();
        let mut picks: Vec<bool> = Vec::with_capacity(gene_cnt);
        let mut i: usize = 0;
        assert(rng.history() =~= old(rng).history() + coins::<T>(picks@));
        while i < gene_cnt
            invariant
                i <= gene_cnt,
                picks@.len() == i,
                are_flips::<T, R>(picks@),
                rng.history() == old(rng).history() + coins::<T>(picks@),
            decreases gene_cnt - i,
        {
            let ghost earlier = picks@;
            let pick = rng.fair_coin();
            assert(is_flip::<T, R>(pick));
            picks.push(pick);
            assert forall|k: int| 0 <= k < i implies picks@[k] == earlier[k] by {}
            assert(rng.history() =~= old(rng).history() + coins::<T>(picks@));
            i += 1;
        }
        let child = UniformCrossover::combine(parent_a, parent_b, &picks);
        assert(extends(rng.history(), old(rng).history(), coins::<T>(picks@)));
        assert(self.crosses_by(parent_a@, parent_b@, coins::<T>(picks@), child@));
        child
    }
}

} // verus!
