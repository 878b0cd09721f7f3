use vstd::prelude::*;
use crate::brain::Brain;
use crate::brain::brain_topology;
use crate::chromosome::Chromosome;
use crate::eye::Bearing;
use crate::eye::Eye;
use crate::eye::vision_of;
use crate::food::Food;
use crate::network::flat_network;
use crate::network::network_is_random;
use crate::network::network_output;
use crate::network::weight_count;
use crate::random::Draw;
use crate::random::draws_point;
use crate::random::extends;
use crate::random::is_drawn_point;
use crate::random::is_drawn_rotation;
use crate::random::is_unit_range;
use crate::random::RandomSource;
use crate::random::Recorder;
use crate::random::weight_draws;
use crate::scalar::at_most;
use crate::scalar::compares_exactly;
use crate::scalar::computes_exactly;
use crate::scalar::computes_freely;
use crate::scalar::Measure;
use crate::scalar::quotient_of;
use crate::scalar::Scalar;
use crate::scalar::small;
use crate::scalar::small_value;
use crate::scalar::sum_of;
use crate::settings::Settings;
use crate::space::advances;
use crate::space::measures;
use crate::space::Point;
use crate::space::Space;
use crate::space::turns;
use crate::steering::Limits;
use crate::steering::steer;
use crate::steering::steering_of;

verus! {

/// What came of one food in an animal's collisions: the source as it was
/// when the animal came to the food, how far off it found the food, and
/// whether the animal ate it.
pub struct Meal<T, E> {
    pub source: E,
    pub distance: T,
    pub eaten: bool,
    pub place: Point<T>,
}

/// The draws made for the foods, food after food: one point for each food
/// eaten, which is where the food then lies, and nothing for any other.
pub open spec fn meal_draws<T, E>(meals: Seq<Meal<T, E>>) -> Seq<Draw<T>>
    decreases meals.len(),
{
    if meals.len() == 0 {
        Seq::empty()
    } else if meals.last().eaten {
        meal_draws(meals.drop_last()).push(Draw::Point { point: meals.last().place })
    } else {
        meal_draws(meals.drop_last())
    }
}

/// How many of the foods were eaten.
pub open spec fn eaten_count<T, E>(meals: Seq<Meal<T, E>>) -> nat
    decreases meals.len(),
{
    if meals.len() == 0 {
        0
    } else if meals.last().eaten {
        eaten_count(meals.drop_last()) + 1
    } else {
        eaten_count(meals.drop_last())
    }
}

/// The draws by which the animals were placed, animal after animal.
pub open spec fn placement_draws<T: Scalar>(animals: Seq<Animal<T>>) -> Seq<Draw<T>>
    decreases animals.len(),
{
    if animals.len() == 0 {
        Seq::empty()
    } else {
        placement_draws(animals.drop_last()) + animals.last().placing()
    }
}

/// An animal: where it is, which way it is turned and how fast it goes, the
/// eye it sees with and the brain it steers by, and how many foods it has
/// eaten in this generation.
#[derive(Debug)]
pub struct Animal<T> {
    pub position: Point<T>,
    pub rotation: T,
    pub speed: T,
    pub eye: Eye<T>,
    pub brain: Brain<T>,
    pub food_eaten: usize,
}

impl<T: Scalar> Animal<T> {
    /// The brain takes one value for each cell of the eye.
    pub open spec fn wf(&self) -> bool {
        self.brain.input_size() == self.eye.cells()
    }

    /// The animal is one that the settings describe: well-formed, and with
    /// an eye of as many cells as they say.
    pub open spec fn fits(&self, settings: Settings<T>) -> bool {
        &&& self.wf()
        &&& self.eye.cells() == settings.cells
    }

    /// The animal has been placed by the source: it is at a point and has a
    /// rotation that the source can draw, and its speed is half the sum of
    /// the least and the greatest speed allowed.
    pub open spec fn is_placed<R: RandomSource<T>>(&self, settings: Settings<T>) -> bool {
        &&& is_drawn_point::<T, R>(self.position)
        &&& is_drawn_rotation::<T, R>(self.rotation)
        &&& computes_exactly::<T>() ==> self.speed == quotient_of(
            sum_of(settings.limits.min_speed, settings.limits.max_speed),
            small::<T>(2),
        )
    }

    /// The draws by which the animal was placed: its position, then its
    /// rotation.
    pub open spec fn placing(&self) -> Seq<Draw<T>> {
        Seq::<Draw<T>>::empty().push(Draw::Point { point: self.position }).push(
            Draw::Rotation { rotation: self.rotation },
        )
    }

    /// The animal was drawn by `draws`: the weights of its brain, in the
    /// order in which they are written out flat, between what minus one and
    /// one convert into; then its position; then its rotation.
    pub open spec fn is_drawn_by(&self, draws: Seq<Draw<T>>) -> bool {
        exists|low: T, high: T|
            #[trigger] is_unit_range(low, high) && draws == weight_draws(
                low,
                high,
                flat_network(self.brain@),
            ) + self.placing()
    }

    /// The animal is as `before` was, but for the food it has eaten.
    pub open spec fn same_but_food(&self, before: Self) -> bool {
        &&& self.position == before.position
        &&& self.rotation == before.rotation
        &&& self.speed == before.speed
        &&& self.eye == before.eye
        &&& self.brain == before.brain
    }

    /// The animal has resolved its collisions with the foods, `meals`
    /// being what came of each food in turn: the source found the food as
    /// far off from the animal as the meal says; the food was eaten exactly
    /// where that is at most `eating_distance`; a food eaten lies at a point
    /// that the source drew, and every other food lies where it lay; and the
    /// animal, otherwise as it was, has eaten as many more foods as were
    /// eaten. The first food was met by the source as it was at first.
    pub open spec fn has_eaten<E: RandomSource<T> + Space<T>>(
        &self,
        before: Self,
        foods: Seq<Food<T>>,
        foods_before: Seq<Food<T>>,
        source: E,
        meals: Seq<Meal<T, E>>,
        eating_distance: T,
    ) -> bool {
        &&& meals.len() == foods_before.len()
        &&& foods.len() == foods_before.len()
        &&& self.same_but_food(before)
        &&& self.food_eaten == before.food_eaten + eaten_count(meals)
        &&& meals.len() > 0 ==> meals[0].source == source
        &&& forall|j: int|
            0 <= j < meals.len() ==> measures(
                &(#[trigger] meals[j]).source,
                before.position,
                foods_before[j].position,
                meals[j].distance,
            )
        &&& compares_exactly::<T>() ==> forall|j: int|
            0 <= j < meals.len() ==> (#[trigger] meals[j]).eaten == at_most(
                meals[j].distance,
                eating_distance,
            )
        &&& forall|j: int|
            0 <= j < meals.len() ==> if (#[trigger] meals[j]).eaten {
                &&& draws_point(meals[j].source, foods[j].position)
                &&& foods[j].position == meals[j].place
            } else {
                foods[j] == foods_before[j]
            }
    }

    /// The animal's speed is what its brain makes of what its eye sees,
    /// the answers given for the foods being `answers`, held within `limits`.
    pub open spec fn has_steered(
        &self,
        before: Self,
        answers: Seq<Bearing<T>>,
        limits: Limits<T>,
    ) -> bool {
        computes_exactly::<T>() ==> self.speed == steering_of(
            before.speed,
            network_output(
                before.brain@,
                vision_of(before.eye.cells(), before.eye.sightings_of(answers)),
            ),
            limits,
        ).speed
    }

    /// The animal is turned as `space` turns it from where `before` was
    /// turned, by the angle `delta`; and `delta` is the change of rotation
    /// that its brain makes of what its eye sees, the answers given for the
    /// foods being `answers`, held within `limits`.
    pub open spec fn has_turned<S: Space<T>>(
        &self,
        before: Self,
        space: &S,
        answers: Seq<Bearing<T>>,
        delta: T,
        limits: Limits<T>,
    ) -> bool {
        &&& turns(space, before.rotation, delta, self.rotation)
        &&& computes_exactly::<T>() ==> delta == steering_of(
            before.speed,
            network_output(
                before.brain@,
                vision_of(before.eye.cells(), before.eye.sightings_of(answers)),
            ),
            limits,
        ).delta_rotation
    }

    /// The animal has steered and turned by what `space` answered for the
    /// foods from where `before` stood.
    pub open spec fn has_answered<S: Space<T> + Measure<T>>(
        &self,
        before: Self,
        space: &S,
        foods: Seq<Food<T>>,
        limits: Limits<T>,
        answers: Seq<Bearing<T>>,
        scale: T,
        delta: T,
    ) -> bool {
        &&& before.eye.answered(space, before.position, before.rotation, foods, answers, scale)
        &&& self.has_steered(before, answers, limits)
        &&& self.has_turned(before, space, answers, delta, limits)
    }

    /// The animal has taken its brain step from `before`: it is where it
    /// was, with the eye, the brain and the food eaten that it had, and it
    /// has steered and turned by what `space` answered for `foods`.
    pub open spec fn has_thought<S: Space<T> + Measure<T>>(
        &self,
        before: Self,
        space: &S,
        foods: Seq<Food<T>>,
        limits: Limits<T>,
    ) -> bool {
        &&& self.position == before.position
        &&& self.eye == before.eye
        &&& self.brain == before.brain
        &&& self.food_eaten == before.food_eaten
        &&& exists|answers: Seq<Bearing<T>>, scale: T, delta: T|
            self.has_answered(before, space, foods, limits, answers, scale, delta)
    }

    /// The animal has moved from where `before` was: it is where `space`
    /// takes it at its speed in the direction that it is turned in, and
    /// nothing else of it has changed.
    pub open spec fn has_moved<S: Space<T>>(&self, before: Self, space: &S) -> bool {
        &&& advances(space, before.position, before.rotation, before.speed, self.position)
        &&& self.rotation == before.rotation
        &&& self.speed == before.speed
        &&& self.eye == before.eye
        &&& self.brain == before.brain
        &&& self.food_eaten == before.food_eaten
    }

    /// An animal with a random brain at a random place: the brain is drawn
    /// first, then the position, then the rotation.
    pub fn random<R: RandomSource<T>>(rng: &mut Recorder<T, R>, settings: &Settings<T>) -> (animal: Self)
        requires
            settings.valid(),
            computes_freely::<T>(),
        ensures
            animal.fits(*settings),
            animal.food_eaten == 0,
            animal.is_placed::<R>(*settings),
            network_is_random::<T, R>(animal.brain@),
            exists|draws: Seq<Draw<T>>|
                #[trigger] animal.is_drawn_by(draws) && extends(
                    final(rng).history(),
                    old(rng).history(),
                    draws,
                ),
    {
        let eye = settings.eye();
        let brain = Brain::random(rng, eye.cells());
        let ghost (low, high) = choose|low: T, high: T|
            #[trigger] is_unit_range(low, high) && extends(
                rng.history(),
                old(rng).history(),
                weight_draws(low, high, flat_network(brain@)),
            );
        let animal = Self::new(eye, brain, rng, settings);
        proof {
            let draws = weight_draws(low, high, flat_network(animal.brain@)) + animal.placing();
            assert(rng.history() =~= old(rng).history() + draws);
            assert(animal.is_drawn_by(draws));
            assert(extends(rng.history(), old(rng).history(), draws));
        }
        animal
    }

    /// The weights of the animal's brain as a genome.
    pub fn as_chromosome(&self) -> (chromosome: Chromosome<T>)
        ensures
            chromosome@ == flat_network(self.brain@),
    {
        self.brain.as_chromosome()
    }

    /// An animal at a random place whose brain has the genes of
    /// `chromosome` for its weights.
    pub fn from_chromosome<R: RandomSource<T>>(
        chromosome: Chromosome<T>,
        rng: &mut Recorder<T, R>,
        settings: &Settings<T>,
    ) -> (animal: Self)
        requires
            settings.valid(),
            computes_freely::<T>(),
            chromosome@.len() == weight_count(brain_topology(settings.cells)),
        ensures
            animal.fits(*settings),
            animal.food_eaten == 0,
            animal.is_placed::<R>(*settings),
            flat_network(animal.brain@) == chromosome@,
            extends(final(rng).history(), old(rng).history(), animal.placing()),
    {
        let eye = settings.eye();
        let brain = Brain::from_chromosome(eye.cells(), chromosome);
        Self::new(eye, brain, rng, settings)
    }

    fn new<R: RandomSource<T>>(eye: Eye<T>, brain: Brain<T>, rng: &mut Recorder<T, R>, settings: &Settings<T>) -> (animal:
        Self)
        requires
            computes_freely::<T>(),
        ensures
            animal.eye == eye,
            animal.brain == brain,
            animal.food_eaten == 0,
            animal.is_placed::<R>(*settings),
            extends(final(rng).history(), old(rng).history(), animal.placing()),
    {
        let position = rng.point();
        assert(is_drawn_point::<T, R>(position)) by {
            assert(draws_point(old(rng).inner(), position));
        }
        let rotation = rng.rotation();
        assert(is_drawn_rotation::<T, R>(rotation));
        let two: T = small_value(2);
        let speed = (settings.limits.min_speed + settings.limits.max_speed) / two;
        let animal = Self { position, rotation, speed, eye, brain, food_eaten: 0 };
        assert(rng.history() =~= old(rng).history() + animal.placing());
        animal
    }

    /// The animal's part in the resolving of collisions: it eats each food
    /// in turn that is no farther off than `eating_distance`, and a food
    /// eaten lies at a new random place at once.
    pub fn process_collisions<E: RandomSource<T> + Space<T>>(
        &mut self,
        env: &mut Recorder<T, E>,
        foods: &mut Vec<Food<T>>,
        eating_distance: T,
    )
        requires
            old(self).food_eaten + old(foods)@.len() <= usize::MAX,
        ensures
            old(self).food_eaten <= final(self).food_eaten <= old(self).food_eaten + old(
                foods,
            )@.len(),
            exists|meals: Seq<Meal<T, E>>|
                {
                    &&& #[trigger] final(self).has_eaten(
                        *old(self),
                        final(foods)@,
                        old(foods)@,
                        old(env).inner(),
                        meals,
                        eating_distance,
                    )
                    &&& extends(final(env).history(), old(env).history(), meal_draws(meals))
                },
    {
        let ghost mut meals: Seq<Meal<T, E>> = Seq::empty();
        let mut j: usize = 0;
        assert(env.history() =~= old(env).history() + meal_draws(meals));
        while j < foods.len()
            invariant
                j <= foods@.len(),
                foods@.len() == old(foods)@.len(),
                self.same_but_food(*old(self)),
                old(self).food_eaten + foods@.len() <= usize::MAX,
                meals.len() == j,
                eaten_count(meals) <= j,
                self.food_eaten == old(self).food_eaten + eaten_count(meals),
                j == 0 ==> env.inner() == old(env).inner(),
                j > 0 ==> meals[0].source == old(env).inner(),
                forall|k: int|
                    0 <= k < j ==> measures(
                        &(#[trigger] meals[k]).source,
                        old(self).position,
                        old(foods)@[k].position,
                        meals[k].distance,
                    ),
                compares_exactly::<T>() ==> forall|k: int|
                    0 <= k < j ==> (#[trigger] meals[k]).eaten == at_most(
                        meals[k].distance,
                        eating_distance,
                    ),
                forall|k: int|
                    0 <= k < j ==> if (#[trigger] meals[k]).eaten {
                        &&& draws_point(meals[k].source, foods@[k].position)
                        &&& foods@[k].position == meals[k].place
                    } else {
                        foods@[k] == old(foods)@[k]
                    },
                env.history() == old(env).history() + meal_draws(meals),
                forall|k: int| j <= k < foods@.len() ==> foods@[k] == old(foods)@[k],
            decreases foods@.len() - j,
        {
            let ghost earlier = meals;
            let ghost source = env.inner();
            let distance = env.source().distance(self.position, foods[j].position);
            let eaten = distance <= eating_distance;
            if eaten {
                foods[j].position = env.point();
                self.food_eaten += 1;
            }
            proof {
                meals = earlier.push(Meal { source, distance, eaten, place: foods@[j as int].position });
                assert(meals.drop_last() =~= earlier);
                assert(env.history() =~= old(env).history() + meal_draws(meals));
                assert forall|k: int| 0 <= k < j implies meals[k] == earlier[k] by {}
            }
            j += 1;
        }
        assert(self.has_eaten(
            *old(self),
            foods@,
            old(foods)@,
            old(env).inner(),
            meals,
            eating_distance,
        ));
        assert(extends(env.history(), old(env).history(), meal_draws(meals)));
    }

    /// The animal's brain step: what its eye sees of `foods` goes through
    /// its brain, and the brain's answer, held within `limits`, gives the
    /// animal its new speed and turns it.
    pub fn process_brain<S: Space<T> + Measure<T>>(
        &mut self,
        space: &S,
        foods: &[Food<T>],
        limits: &Limits<T>,
    )
        requires
            old(self).wf(),
            computes_freely::<T>(),
        ensures
            final(self).has_thought(*old(self), space, foods@, *limits),
    {
        let vision = self.eye.process_vision(space, self.position, self.rotation, foods);
        let ghost (answers, scale) = choose|answers: Seq<Bearing<T>>, scale: T|
            self.eye.sees(vision@, space, self.position, self.rotation, foods@, answers, scale);
        let adjustment = self.brain.propogate(vision);
        let steering = steer(self.speed, adjustment.as_slice(), limits);
        self.speed = steering.speed;
        self.rotation = space.turn(self.rotation, steering.delta_rotation);
        assert(self.has_answered(
            *old(self),
            space,
            foods@,
            *limits,
            answers,
            scale,
            steering.delta_rotation,
        ));
    }

    /// The animal's movement: it goes as far as its speed in the direction
    /// that it is turned in.
    pub fn process_movement<S: Space<T>>(&mut self, space: &S)
        ensures
            final(self).has_moved(*old(self), space),
    {
        self.position = space.advance(self.position, self.rotation, self.speed);
    }
}

} // verus!
