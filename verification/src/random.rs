use vstd::prelude::*;
use crate::space::Point;

verus! {

/// A source of random draws. Nothing is promised of what a draw returns: the
/// library's functions hold for every outcome.
pub trait RandomSource<T> {
    /// A value between `low` and `high`, both included, each as likely as any other.
    fn uniform(&mut self, low: T, high: T) -> T;

    /// `true` or `false`, each as likely as the other.
    fn fair_coin(&mut self) -> bool;

    /// `true` with probability `chance`.
    fn bernoulli(&mut self, chance: T) -> bool;

    /// A position in `weights`, each as likely as its weight is large. A
    /// source may stop where the weights give it nothing to draw by: where
    /// there are none, where one is below zero, or where none is above it.
    fn weighted_index(&mut self, weights: &[T]) -> usize;

    /// A count below `size`, each as likely as any other.
    fn index(&mut self, size: usize) -> usize
        requires
            size > 0,
    ;

    /// A point of the unit square, each as likely as any other.
    fn point(&mut self) -> Point<T>;

    /// A rotation, each as likely as any other.
    fn rotation(&mut self) -> T;
}

/// One draw from a source: what was asked of it and what it gave.
pub enum Draw<T> {
    Uniform { low: T, high: T, value: T },
    Coin { pick: bool },
    Bernoulli { chance: T, yes: bool },
    Weighted { weights: Seq<T>, index: usize },
    Index { size: usize, index: usize },
    Point { point: Point<T> },
    Rotation { rotation: T },
}

/// The history `after` is the history `before` with `draws` made after it.
pub open spec fn extends<T>(after: Seq<Draw<T>>, before: Seq<Draw<T>>, draws: Seq<Draw<T>>) -> bool {
    after == before + draws
}

/// A source of random draws together with the record of every draw made
/// from it. The library draws through a recorder only, so that its
/// contracts can say which draws a function makes and in what order.
pub struct Recorder<T, R> {
    source: R,
    history: Ghost<Seq<Draw<T>>>,
}

impl<T, R> Recorder<T, R> {
    /// Every draw made so far, the first first.
    pub closed spec fn history(&self) -> Seq<Draw<T>> {
        self.history@
    }

    /// The source as it now is.
    pub closed spec fn inner(&self) -> R {
        self.source
    }
}

impl<T, R: RandomSource<T>> Recorder<T, R> {
    /// A recorder of `source`, with nothing drawn yet.
    pub fn new(source: R) -> (recorder: Self)
        ensures
            recorder.inner() == source,
            recorder.history() == Seq::<Draw<T>>::empty(),
    {
        Self { source, history: Ghost(Seq::empty()) }
    }

    /// The source, to look at: nothing can be drawn through this.
    pub fn source(&self) -> (source: &R)
        ensures
            *source == self.inner(),
    {
        &self.source
    }

    /// The source, given back.
    pub fn into_source(self) -> (source: R)
        ensures
            source == self.inner(),
    {
        self.source
    }

    /// One flip of the source's coin.
    pub fn fair_coin(&mut self) -> (pick: bool)
        ensures
            final(self).history() == old(self).history().push(Draw::Coin { pick }),
            exists|source: &mut R|
                mut_ref_current(source) == old(self).inner() && mut_ref_future(source)
                    == final(self).inner() && #[trigger] call_ensures(R::fair_coin, (source,), pick),
    {
        let pick = self.source.fair_coin();
        self.history = Ghost(self.history@.push(Draw::Coin { pick }));
        pick
    }

    /// One position drawn by the source with `weights`.
    pub fn weighted_index(&mut self, weights: &[T]) -> (index: usize)
        ensures
            final(self).history() == old(self).history().push(
                Draw::Weighted { weights: weights@, index },
            ),
            exists|source: &mut R|
                mut_ref_current(source) == old(self).inner() && mut_ref_future(source)
                    == final(self).inner() && #[trigger] call_ensures(R::weighted_index, (source, weights), index),
    {
        let index = self.source.weighted_index(weights);
        self.history = Ghost(self.history@.push(Draw::Weighted { weights: weights@, index }));
        index
    }

    /// One count drawn by the source below `size`.
    pub fn index(&mut self, size: usize) -> (index: usize)
        requires
            size > 0,
        ensures
            final(self).history() == old(self).history().push(Draw::Index { size, index }),
            exists|source: &mut R|
                mut_ref_current(source) == old(self).inner() && mut_ref_future(source)
                    == final(self).inner() && #[trigger] call_ensures(R::index, (source, size), index),
    {
        let index = self.source.index(size);
        self.history = Ghost(self.history@.push(Draw::Index { size, index }));
        index
    }
}

impl<T: Copy, R: RandomSource<T>> Recorder<T, R> {
    /// One draw of the source between `low` and `high`.
    pub fn uniform(&mut self, low: T, high: T) -> (value: T)
        ensures
            final(self).history() == old(self).history().push(Draw::Uniform { low, high, value }),
            exists|source: &mut R|
                mut_ref_current(source) == old(self).inner() && mut_ref_future(source)
                    == final(self).inner() && #[trigger] call_ensures(R::uniform, (source, low, high), value),
    {
        let value = self.source.uniform(low, high);
        self.history = Ghost(self.history@.push(Draw::Uniform { low, high, value }));
        value
    }

    /// One answer of the source for the chance `chance`.
    pub fn bernoulli(&mut self, chance: T) -> (yes: bool)
        ensures
            final(self).history() == old(self).history().push(Draw::Bernoulli { chance, yes }),
            exists|source: &mut R|
                mut_ref_current(source) == old(self).inner() && mut_ref_future(source)
                    == final(self).inner() && #[trigger] call_ensures(R::bernoulli, (source, chance), yes),
    {
        let yes = self.source.bernoulli(chance);
        self.history = Ghost(self.history@.push(Draw::Bernoulli { chance, yes }));
        yes
    }

    /// One point drawn by the source.
    pub fn point(&mut self) -> (point: Point<T>)
        ensures
            final(self).history() == old(self).history().push(Draw::Point { point }),
            exists|source: &mut R|
                mut_ref_current(source) == old(self).inner() && mut_ref_future(source)
                    == final(self).inner() && #[trigger] call_ensures(R::point, (source,), point),
    {
        let point = self.source.point();
        self.history = Ghost(self.history@.push(Draw::Point { point }));
        point
    }

    /// One rotation drawn by the source.
    pub fn rotation(&mut self) -> (rotation: T)
        ensures
            final(self).history() == old(self).history().push(Draw::Rotation { rotation }),
            exists|source: &mut R|
                mut_ref_current(source) == old(self).inner() && mut_ref_future(source)
                    == final(self).inner() && #[trigger] call_ensures(R::rotation, (source,), rotation),
    {
        let rotation = self.source.rotation();
        self.history = Ghost(self.history@.push(Draw::Rotation { rotation }));
        rotation
    }
}

/// `point` is a point that the source, being as `before`, can draw.
pub open spec fn draws_point<T, R: RandomSource<T>>(before: R, point: Point<T>) -> bool {
    exists|source: &mut R|
        mut_ref_current(source) == before && #[trigger] call_ensures(R::point, (source,), point)
}

/// `point` is a point that the source can draw, whatever it has drawn
/// before.
pub open spec fn is_drawn_point<T, R: RandomSource<T>>(point: Point<T>) -> bool {
    exists|source: R| draws_point(source, point)
}

/// `rotation` is a rotation that the source can draw.
pub open spec fn is_drawn_rotation<T, R: RandomSource<T>>(rotation: T) -> bool {
    exists|source: &mut R| #[trigger] call_ensures(R::rotation, (source,), rotation)
}

/// `value` is a value that the source can draw between `low` and `high`.
pub open spec fn is_drawn_between<T, R: RandomSource<T>>(low: T, high: T, value: T) -> bool {
    exists|source: &mut R| #[trigger] call_ensures(R::uniform, (source, low, high), value)
}

/// `value` is a value that the source can draw between what minus one and
/// what one convert into.
pub open spec fn is_drawn_weight<T: From<i8>, R: RandomSource<T>>(value: T) -> bool {
    exists|low: T, high: T|
        {
            &&& call_ensures(T::from, (-1i8,), low)
            &&& call_ensures(T::from, (1i8,), high)
            &&& #[trigger] is_drawn_between::<T, R>(low, high, value)
        }
}

/// `low` and `high` are what minus one and one convert into.
pub open spec fn is_unit_range<T: From<i8>>(low: T, high: T) -> bool {
    &&& call_ensures(T::from, (-1i8,), low)
    &&& call_ensures(T::from, (1i8,), high)
}

/// Every one of `values` is a value that the source can draw between `low`
/// and `high`.
pub open spec fn all_drawn_between<T, R: RandomSource<T>>(low: T, high: T, values: Seq<T>) -> bool {
    forall|i: int| 0 <= i < values.len() ==> is_drawn_between::<T, R>(low, high, #[trigger] values[i])
}

/// The draws of `values` between `low` and `high`, one after the other.
pub open spec fn weight_draws<T>(low: T, high: T, values: Seq<T>) -> Seq<Draw<T>> {
    Seq::new(values.len(), |i: int| Draw::Uniform { low, high, value: values[i] })
}

} // verus!
