use vstd::prelude::*;
use crate::random::Draw;
use crate::random::draws_point;
use crate::random::RandomSource;
use crate::random::Recorder;
use crate::space::Point;

verus! {

/// The draws by which the foods were laid out, food after food: for each
/// food the point at which it lies.
pub open spec fn food_draws<T>(foods: Seq<Food<T>>) -> Seq<Draw<T>> {
    Seq::new(foods.len(), |j: int| Draw::Point { point: foods[j].position })
}

/// A food: it lies somewhere until an animal reaches it, and then it lies
/// somewhere else.
#[derive(Clone, Copy, Debug)]
pub struct Food<T> {
    pub position: Point<T>,
}

impl<T: Copy> Food<T> {
    /// A food at a random place.
    pub fn random<R: RandomSource<T>>(rng: &mut Recorder<T, R>) -> (food: Self)
        ensures
            draws_point(old(rng).inner(), food.position),
            final(rng).history() == old(rng).history().push(Draw::Point { point: food.position }),
    {
        Self { position: rng.point() }
    }

    pub fn position(&self) -> (position: Point<T>)
        ensures
            position == self.position,
    {
        self.position
    }
}

} // verus!
