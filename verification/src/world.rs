use vstd::prelude::*;
use crate::animal::Animal;
use crate::animal::Meal;
use crate::animal::meal_draws;
use crate::food::Food;
use crate::food::food_draws;
use crate::network::network_is_random;
use crate::random::Draw;
use crate::random::draws_point;
use crate::random::extends;
use crate::random::is_drawn_point;
use crate::random::RandomSource;
use crate::random::Recorder;
use crate::scalar::computes_freely;
use crate::scalar::Scalar;
use crate::settings::Settings;
use crate::space::Space;

verus! {

/// Animal `i` has resolved its collisions with the foods as it found them,
/// and has made the draws that `draws` holds for it, and no others.
pub open spec fn has_collided<T: Scalar, E: RandomSource<T> + Space<T>>(
    after: Seq<Animal<T>>,
    before: Seq<Animal<T>>,
    stages: Seq<Seq<Food<T>>>,
    sources: Seq<E>,
    draws: Seq<Seq<Draw<T>>>,
    eating_distance: T,
    i: int,
) -> bool {
    exists|meals: Seq<Meal<T, E>>|
        #[trigger] after[i].has_eaten(
            before[i],
            stages[i + 1],
            stages[i],
            sources[i],
            meals,
            eating_distance,
        ) && draws[i] == meal_draws(meals)
}

/// The draws of one after the other, in order.
pub open spec fn flat_draws<T>(draws: Seq<Seq<Draw<T>>>) -> Seq<Draw<T>>
    decreases draws.len(),
{
    if draws.len() == 0 {
        Seq::empty()
    } else {
        flat_draws(draws.drop_last()) + draws.last()
    }
}

/// The animals have resolved their collisions with the foods, one animal
/// after the other: `stages` are the foods as each animal in turn found
/// them, and after the last animal; `sources` are the source as each animal
/// in turn found it, and after the last animal; `draws` are the draws that
/// each animal in turn made.
pub open spec fn have_collided<T: Scalar, E: RandomSource<T> + Space<T>>(
    after: Seq<Animal<T>>,
    before: Seq<Animal<T>>,
    stages: Seq<Seq<Food<T>>>,
    sources: Seq<E>,
    draws: Seq<Seq<Draw<T>>>,
    eating_distance: T,
) -> bool {
    &&& after.len() == before.len()
    &&& stages.len() == before.len() + 1
    &&& sources.len() == before.len() + 1
    &&& draws.len() == before.len()
    &&& forall|i: int|
        0 <= i < before.len() ==> #[trigger] has_collided(
            after,
            before,
            stages,
            sources,
            draws,
            eating_distance,
            i,
        )
}

/// The world: the animals in it and the foods in it.
#[derive(Debug)]
pub struct World<T> {
    pub animals: Vec<Animal<T>>,
    pub foods: Vec<Food<T>>,
}

impl<T: Scalar> World<T> {
    /// Every animal of the world is one that the settings describe.
    pub open spec fn fits(&self, settings: Settings<T>) -> bool {
        forall|i: int| 0 <= i < self.animals@.len() ==> (#[trigger] self.animals@[i]).fits(settings)
    }

    /// Every animal of the world has a brain made of values that the source
    /// can draw and has been placed by the source, and every food lies at
    /// a point that the source can draw.
    pub open spec fn is_random<R: RandomSource<T>>(&self, settings: Settings<T>) -> bool {
        &&& forall|i: int|
            0 <= i < self.animals@.len() ==> {
                &&& (#[trigger] self.animals@[i]).is_placed::<R>(settings)
                &&& network_is_random::<T, R>(self.animals@[i].brain@)
            }
        &&& forall|j: int|
            0 <= j < self.foods@.len() ==> is_drawn_point::<T, R>(
                (#[trigger] self.foods@[j]).position,
            )
    }

    /// The animals of the world were drawn one after the other, each by
    /// the draws that `draws` holds for it.
    pub open spec fn is_drawn_by(&self, draws: Seq<Seq<Draw<T>>>) -> bool {
        &&& draws.len() == self.animals@.len()
        &&& forall|i: int|
            0 <= i < self.animals@.len() ==> (#[trigger] self.animals@[i]).is_drawn_by(draws[i])
    }

    /// No animal of the world has eaten more than `most` foods.
    pub open spec fn eaten_at_most(&self, most: int) -> bool {
        forall|i: int| 0 <= i < self.animals@.len() ==> (#[trigger] self.animals@[i]).food_eaten <= most
    }

    /// A world of as many random animals and foods as the settings say: the
    /// animals are drawn first, one after the other, and then the foods.
    pub fn random<R: RandomSource<T>>(rng: &mut Recorder<T, R>, settings: &Settings<T>) -> (world:
        Self)
        requires
            settings.valid(),
            computes_freely::<T>(),
        ensures
            world.animals@.len() == settings.animals,
            world.foods@.len() == settings.foods,
            world.fits(*settings),
            world.eaten_at_most(0),
            world.is_random::<R>(*settings),
            exists|draws: Seq<Seq<Draw<T>>>|
                #[trigger] world.is_drawn_by(draws) && extends(
                    final(rng).history(),
                    old(rng).history(),
                    flat_draws(draws) + food_draws(world.foods@),
                ),
    {
        let mut animals: Vec<Animal<T>> = Vec::with_capacity(settings.animals);
        let ghost mut draws: Seq<Seq<Draw<T>>> = Seq::empty();
        let mut i: usize = 0;
        assert(rng.history() =~= old(rng).history() + flat_draws(draws));
        while i < settings.animals
            invariant
                i <= settings.animals,
                settings.valid(),
                computes_freely::<T>(),
                animals@.len() == i,
                draws.len() == i,
                forall|k: int| 0 <= k < i ==> (#[trigger] animals@[k]).fits(*settings),
                forall|k: int| 0 <= k < i ==> (#[trigger] animals@[k]).food_eaten == 0,
                forall|k: int|
                    0 <= k < i ==> {
                        &&& (#[trigger] animals@[k]).is_placed::<R>(*settings)
                        &&& network_is_random::<T, R>(animals@[k].brain@)
                        &&& animals@[k].is_drawn_by(draws[k])
                    },
                rng.history() == old(rng).history() + flat_draws(draws),
            decreases settings.animals - i,
        {
            let ghost earlier = draws;
            let ghost was = animals@;
            let ghost history = rng.history();
            let animal = Animal::random(rng, settings);
            proof {
                let drawn = choose|drawn: Seq<Draw<T>>|
                    #[trigger] animal.is_drawn_by(drawn) && extends(rng.history(), history, drawn);
                draws = earlier.push(drawn);
                assert(draws.drop_last() =~= earlier);
                assert(rng.history() =~= old(rng).history() + flat_draws(draws));
            }
            animals.push(animal);
            proof {
                assert forall|k: int| 0 <= k < i + 1 implies (#[trigger] animals@[k]).is_drawn_by(
                    draws[k],
                ) by {
                    if k < i {
                        assert(animals@[k] == was[k]);
                        assert(draws[k] == earlier[k]);
                    }
                }
            }
            i += 1;
        }
        let ghost placed = rng.history();
        let mut foods: Vec<Food<T>> = Vec::with_capacity(settings.foods);
        let mut j: usize = 0;
        assert(rng.history() =~= placed + food_draws(foods@));
        while j < settings.foods
            invariant
                j <= settings.foods,
                foods@.len() == j,
                forall|k: int|
                    0 <= k < j ==> is_drawn_point::<T, R>((#[trigger] foods@[k]).position),
                rng.history() == placed + food_draws(foods@),
            decreases settings.foods - j,
        {
            let ghost source = rng.inner();
            let ghost laid = foods@;
            let food = Food::random(rng);
            assert(is_drawn_point::<T, R>(food.position)) by {
                assert(draws_point(source, food.position));
            }
            foods.push(food);
            proof {
                assert(food_draws(foods@) =~= food_draws(laid).push(
                    Draw::Point { point: food.position },
                ));
                assert(rng.history() =~= placed + food_draws(foods@));
            }
            j += 1;
        }
        let world = Self { animals, foods };
        proof {
            assert(world.is_drawn_by(draws));
            assert(rng.history() =~= old(rng).history() + (flat_draws(draws) + food_draws(
                world.foods@,
            )));
            assert(extends(
                rng.history(),
                old(rng).history(),
                flat_draws(draws) + food_draws(world.foods@),
            ));
        }
        world
    }

    pub fn animals(&self) -> (animals: &[Animal<T>])
        ensures
            animals@ == self.animals@,
    {
        self.animals.as_slice()
    }

    pub fn foods(&self) -> (foods: &[Food<T>])
        ensures
            foods@ == self.foods@,
    {
        self.foods.as_slice()
    }
}

} // verus!
