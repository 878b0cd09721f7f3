use vstd::prelude::*;
use vstd::std_specs::iter::IteratorSpec;
use crate::animal::Animal;
use crate::animal::Meal;
use crate::animal::meal_draws;
use crate::animal::placement_draws;
use crate::animal_individual::AnimalIndividual;
use crate::brain::brain_topology;
use crate::crossover::CrossoverMethod;
use crate::crossover::UniformCrossover;
use crate::food::Food;
use crate::food::food_draws;
use crate::genetic_algorithm::all_draws;
use crate::genetic_algorithm::are_bred;
use crate::genetic_algorithm::Brood;
use crate::genetic_algorithm::descends;
use crate::genetic_algorithm::GeneticAlgorithm;
use crate::genetic_algorithm::is_bred;
use crate::individual::fitnesses;
use crate::individual::genomes_have_length;
use crate::individual::Individual;
use crate::mutation::GaussianMutation;
use crate::mutation::MutationMethod;
use crate::network::flat_network;
use crate::network::lemma_flat_network_len;
use crate::network::lemma_weight_count_step;
use crate::network::weight_count;
use crate::random::Draw;
use crate::random::draws_point;
use crate::random::extends;
use crate::random::is_drawn_point;
use crate::random::RandomSource;
use crate::random::Recorder;
use crate::scalar::compares_exactly;
use crate::scalar::computes_freely;
use crate::scalar::counts;
use crate::scalar::exceeds;
use crate::scalar::Measure;
use crate::scalar::Scalar;
use crate::scalar::zero;
use crate::scalar::zero_is_fixed;
use crate::scalar::zero_value;
use crate::selection::RouletteWheelSelection;
use crate::selection::some_above_zero;
use crate::selection::UniformSelection;
use crate::settings::GENERATION_LENGTH;
use crate::settings::Settings;
use crate::space::Space;
use crate::statistics::Statistics;
use crate::world::flat_draws;
use crate::world::has_collided;
use crate::world::have_collided;
use crate::world::World;

verus! {

/// The age of the current generation, in ticks.
#[derive(Debug)]
pub struct Generation {
    age: usize,
}

impl Generation {
    pub closed spec fn spec_age(&self) -> usize {
        self.age
    }

    #[verifier::type_invariant]
    spec fn well_formed(&self) -> bool {
        self.age <= GENERATION_LENGTH
    }

    /// A generation that has just begun.
    pub fn new() -> (generation: Self)
        ensures
            generation.age() == 0,
    {
        Self { age: 0 }
    }

    /// How many ticks the generation has lasted: never more than `GENERATION_LENGTH`.
    #[verifier::when_used_as_spec(spec_age)]
    pub fn age(&self) -> (age: usize)
        ensures
            age == self.spec_age(),
            age <= GENERATION_LENGTH,
    {
        proof {
            use_type_invariant(self);
        }
        self.age
    }

    /// Counts one tick. Where that takes the age past `GENERATION_LENGTH`
    /// the generation is over: the age starts again at zero, and the answer
    /// is `true`, which asks for the population to be evolved.
    pub fn tick(&mut self) -> (over: bool)
        ensures
            over == (old(self).age() == GENERATION_LENGTH),
            final(self).age() == if over {
                0
            } else {
                old(self).age() + 1
            },
    {
        proof {
            use_type_invariant(&*self);
        }
        if self.age >= GENERATION_LENGTH {
            self.age = 0;
            true
        } else {
            self.age += 1;
            false
        }
    }
}

/// A brain's genome is never empty: whatever its input size, its two
/// output neurons have a bias each.
pub proof fn lemma_brain_genome_len(input_size: usize)
    requires
        input_size <= usize::MAX / 2,
    ensures
        weight_count(brain_topology(input_size)) >= 2,
{
    let topology = brain_topology(input_size);
    lemma_weight_count_step(topology, 2);
    lemma_weight_count_step(topology, 1);
    assert(topology.take(3) =~= topology);
    let hidden = topology[1] as int;
    assert(2 * (hidden + 1) >= 2) by (nonlinear_arith)
        requires
            hidden >= 0,
    ;
}

/// An animal with `eaten` foods eaten in a generation of age `age`, in a
/// world of `foods` foods, can eat every food once more and still count
/// what it has eaten.
pub proof fn lemma_eaten_fits(eaten: int, age: int, foods: int)
    requires
        0 <= age <= GENERATION_LENGTH,
        0 <= foods,
        (GENERATION_LENGTH + 1) * foods <= usize::MAX,
        eaten <= age * foods,
    ensures
        eaten + foods <= (age + 1) * foods,
        (age + 1) * foods <= usize::MAX,
{
    assert((age + 1) * foods == age * foods + foods) by (nonlinear_arith);
    assert((age + 1) * foods <= (GENERATION_LENGTH + 1) * foods) by (nonlinear_arith)
        requires
            0 <= age + 1 <= GENERATION_LENGTH + 1,
            0 <= foods,
    ;
}

/// `child` descends from the animals by the two methods: it is what the
/// mutation method allows to come of a genome that the crossover method
/// allows as the child of the brains of two of the animals.
pub open spec fn descends_from_animals<T, C: CrossoverMethod<T>, M: MutationMethod<T>>(
    crossover_method: C,
    mutation_method: M,
    animals: Seq<Animal<T>>,
    child: Seq<T>,
) -> bool {
    exists|i: int, j: int, crossed: Seq<T>|
        {
            &&& 0 <= i < animals.len()
            &&& 0 <= j < animals.len()
            &&& #[trigger] crossover_method.crosses(
                flat_network(animals[i].brain@),
                flat_network(animals[j].brain@),
                crossed,
            )
            &&& mutation_method.mutates(crossed, child)
        }
}

/// What descends from animals descends from animals with the same brains.
pub proof fn lemma_descends_same_brains<T, C: CrossoverMethod<T>, M: MutationMethod<T>>(
    crossover_method: C,
    mutation_method: M,
    animals: Seq<Animal<T>>,
    others: Seq<Animal<T>>,
    child: Seq<T>,
)
    requires
        animals.len() == others.len(),
        forall|i: int| 0 <= i < animals.len() ==> (#[trigger] animals[i]).brain == others[i].brain,
        descends_from_animals(crossover_method, mutation_method, animals, child),
    ensures
        descends_from_animals(crossover_method, mutation_method, others, child),
{
    let (a, b, crossed) = choose|a: int, b: int, crossed: Seq<T>|
        {
            &&& 0 <= a < animals.len()
            &&& 0 <= b < animals.len()
            &&& #[trigger] crossover_method.crosses(
                flat_network(animals[a].brain@),
                flat_network(animals[b].brain@),
                crossed,
            )
            &&& mutation_method.mutates(crossed, child)
        };
    assert(animals[a].brain == others[a].brain);
    assert(animals[b].brain == others[b].brain);
    assert(crossover_method.crosses(
        flat_network(others[a].brain@),
        flat_network(others[b].brain@),
        crossed,
    ));
}

/// `fitness` holds, for each animal in turn, the scalar that `measure`
/// gives for the number of foods that the animal has eaten.
pub open spec fn are_fitnesses<T, M: Measure<T>>(
    fitness: Seq<T>,
    animals: Seq<Animal<T>>,
    measure: &M,
) -> bool {
    &&& fitness.len() == animals.len()
    &&& forall|i: int|
        0 <= i < animals.len() ==> counts(measure, animals[i].food_eaten, #[trigger] fitness[i])
}

/// The animals have gone through the three steps of a tick and made the
/// draws `draws`, and no others, for it, `fed` being
/// the animals after their collisions and `thought` the animals after their
/// brain steps: the animals resolved their collisions one after the other,
/// from the foods and the source as they were to the foods as they are and
/// to the source as `space`; then each steered and turned by what `space`
/// answered for the foods; then each moved as `space` took it.
pub open spec fn have_ticked<T: Scalar, E: RandomSource<T> + Space<T> + Measure<T>>(
    after: Seq<Animal<T>>,
    before: Seq<Animal<T>>,
    foods_after: Seq<Food<T>>,
    foods_before: Seq<Food<T>>,
    source: E,
    space: E,
    settings: Settings<T>,
    draws: Seq<Draw<T>>,
    stages: Seq<Seq<Food<T>>>,
    sources: Seq<E>,
    collisions: Seq<Seq<Draw<T>>>,
    fed: Seq<Animal<T>>,
    thought: Seq<Animal<T>>,
) -> bool {
    &&& have_collided(fed, before, stages, sources, collisions, settings.eating_distance)
    &&& draws == flat_draws(collisions)
    &&& stages.first() == foods_before
    &&& stages.last() == foods_after
    &&& sources.first() == source
    &&& sources.last() == space
    &&& thought.len() == before.len()
    &&& after.len() == before.len()
    &&& forall|i: int|
        0 <= i < before.len() ==> (#[trigger] thought[i]).has_thought(
            fed[i],
            &space,
            foods_after,
            settings.limits,
        )
    &&& forall|i: int| 0 <= i < before.len() ==> (#[trigger] after[i]).has_moved(thought[i], &space)
}

/// The animals have gone through the three steps of a tick, collisions,
/// brains and movement, and made the draws `draws`, and no others, for it.
pub open spec fn has_ticked<T: Scalar, E: RandomSource<T> + Space<T> + Measure<T>>(
    after: Seq<Animal<T>>,
    before: Seq<Animal<T>>,
    foods_after: Seq<Food<T>>,
    foods_before: Seq<Food<T>>,
    source: E,
    space: E,
    settings: Settings<T>,
    draws: Seq<Draw<T>>,
) -> bool {
    exists|
        stages: Seq<Seq<Food<T>>>,
        sources: Seq<E>,
        collisions: Seq<Seq<Draw<T>>>,
        fed: Seq<Animal<T>>,
        thought: Seq<Animal<T>>,
    |
        #[trigger] have_ticked(
            after,
            before,
            foods_after,
            foods_before,
            source,
            space,
            settings,
            draws,
            stages,
            sources,
            collisions,
            fed,
            thought,
        )
}

/// The generation has ended with the tick: `grown` are the animals as the
/// tick left them, with `foods` and the source as `space`, and `summary`
/// summarises their fitness, which is what `space` gives for the foods
/// that each has eaten.
pub open spec fn has_ended<T: Scalar, E: RandomSource<T> + Space<T> + Measure<T>>(
    summary: Statistics<T>,
    before: Seq<Animal<T>>,
    foods_before: Seq<Food<T>>,
    source: E,
    settings: Settings<T>,
    grown: Seq<Animal<T>>,
    foods: Seq<Food<T>>,
    space: E,
    fitness: Seq<T>,
    draws: Seq<Draw<T>>,
) -> bool {
    &&& has_ticked(grown, before, foods, foods_before, source, space, settings, draws)
    &&& are_fitnesses(fitness, grown, &space)
    &&& summary.summarizes(fitness)
}

/// How a generation was bred: the population that the animals stood in,
/// the children that came of it, how each child was bred, and whether the
/// parents were chosen by fitness.
pub struct Breeding<T> {
    pub population: Seq<AnimalIndividual<T>>,
    pub children: Seq<AnimalIndividual<T>>,
    pub broods: Seq<Brood<T>>,
    pub by_fitness: bool,
}

/// The draws of a generation's end: those of the breeding, child after
/// child, then those by which the new animals were placed, then those by
/// which the foods were laid out.
pub open spec fn breeding_draws<T: Scalar>(
    breeding: Breeding<T>,
    after: Seq<Animal<T>>,
    foods_after: Seq<Food<T>>,
) -> Seq<Draw<T>> {
    all_draws(breeding.broods) + placement_draws(after) + food_draws(foods_after)
}

/// The animals `after` were bred from the animals `before` as `breeding`
/// tells. Each animal stood in the population with its brain for a genome
/// and with what `measure` gives for the foods it has eaten for its
/// fitness, and `summary` summarises that fitness. The parents were chosen
/// by fitness where one fitness at least is above zero, and without regard
/// to fitness elsewhere. Each child is the brain of a new animal.
pub open spec fn has_bred<T: Scalar, M: Measure<T>>(
    summary: Statistics<T>,
    after: Seq<Animal<T>>,
    before: Seq<Animal<T>>,
    measure: &M,
    crossover_method: UniformCrossover,
    mutation_method: GaussianMutation<T>,
    breeding: Breeding<T>,
) -> bool {
    &&& breeding.population.len() == before.len()
    &&& forall|i: int|
        0 <= i < before.len() ==> {
            &&& (#[trigger] breeding.population[i]).genome() == flat_network(before[i].brain@)
            &&& counts(measure, before[i].food_eaten, breeding.population[i].spec_fitness())
        }
    &&& summary.summarizes(fitnesses(breeding.population))
    &&& compares_exactly::<T>() && zero_is_fixed::<T>() ==> breeding.by_fitness == some_above_zero(
        fitnesses(breeding.population),
    )
    &&& if breeding.by_fitness {
        are_bred(
            RouletteWheelSelection,
            crossover_method,
            mutation_method,
            breeding.population,
            breeding.broods,
            breeding.children,
        )
    } else {
        are_bred(
            UniformSelection,
            crossover_method,
            mutation_method,
            breeding.population,
            breeding.broods,
            breeding.children,
        )
    }
    &&& after.len() == breeding.children.len()
    &&& forall|k: int|
        0 <= k < after.len() ==> flat_network((#[trigger] after[k]).brain@)
            == breeding.children[k].genome()
}

/// The world has been laid out anew: every animal has been placed by the
/// source, and every food lies at a point that the source can draw.
pub open spec fn is_laid_out<T: Scalar, R: RandomSource<T>>(
    animals: Seq<Animal<T>>,
    foods: Seq<Food<T>>,
    settings: Settings<T>,
) -> bool {
    &&& forall|i: int| 0 <= i < animals.len() ==> (#[trigger] animals[i]).is_placed::<R>(settings)
    &&& forall|j: int|
        0 <= j < foods.len() ==> is_drawn_point::<T, R>((#[trigger] foods[j]).position)
}

/// The animals, each at a random place, that the `count` individuals stand
/// for, in order.
fn animals_of<T: Scalar, I: Iterator<Item = AnimalIndividual<T>>, R: RandomSource<T>>(
    individuals: I,
    count: usize,
    rng: &mut Recorder<T, R>,
    settings: &Settings<T>,
) -> (animals: Vec<Animal<T>>)
    requires
        individuals.obeys_prophetic_iter_laws(),
        individuals.remaining().len() == count,
        settings.valid(),
        computes_freely::<T>(),
        genomes_have_length(
            individuals.remaining(),
            weight_count(brain_topology(settings.cells)) as nat,
        ),
    ensures
        animals@.len() == count,
        forall|k: int| 0 <= k < count ==> (#[trigger] animals@[k]).fits(*settings),
        forall|k: int| 0 <= k < count ==> (#[trigger] animals@[k]).food_eaten == 0,
        forall|k: int| 0 <= k < count ==> (#[trigger] animals@[k]).is_placed::<R>(*settings),
        forall|k: int|
            0 <= k < count ==> flat_network((#[trigger] animals@[k]).brain@)
                == individuals.remaining()[k].genome(),
        extends(final(rng).history(), old(rng).history(), placement_draws(animals@)),
{
    let ghost children = individuals.remaining();
    let mut rest = individuals;
    let mut animals: Vec<Animal<T>> = Vec::with_capacity(count);
    let mut j: usize = 0;
    assert(children.skip(0) =~= children);
    assert(rng.history() =~= old(rng).history() + placement_draws(animals@));
    while j < count
        invariant
            j <= count,
            rng.history() == old(rng).history() + placement_draws(animals@),
            children.len() == count,
            settings.valid(),
            computes_freely::<T>(),
            genomes_have_length(children, weight_count(brain_topology(settings.cells)) as nat),
            rest.obeys_prophetic_iter_laws(),
            rest.remaining() == children.skip(j as int),
            animals@.len() == j,
            forall|k: int| 0 <= k < j ==> (#[trigger] animals@[k]).fits(*settings),
            forall|k: int| 0 <= k < j ==> (#[trigger] animals@[k]).food_eaten == 0,
            forall|k: int| 0 <= k < j ==> (#[trigger] animals@[k]).is_placed::<R>(*settings),
            forall|k: int|
                0 <= k < j ==> flat_network((#[trigger] animals@[k]).brain@)
                    == children[k].genome(),
        decreases count - j,
    {
        match rest.next() {
            Some(child) => {
                proof {
                    lemma_brain_genome_len(settings.cells);
                    assert(child == children[j as int]);
                }
                let ghost placed = animals@;
                let animal = child.to_animal(rng, settings);
                animals.push(animal);
                proof {
                    assert(animals@.drop_last() =~= placed);
                    assert(rng.history() =~= old(rng).history() + placement_draws(animals@));
                }
            },
            None => {
                assert(false);
            },
        }
        assert(rest.remaining() =~= children.skip(j + 1));
        j += 1;
    }
    animals
}

/// A simulation: a world of animals that look for food, and the genetic
/// algorithm by which, generation after generation, their brains evolve.
pub struct Simulation<T> {
    world: World<T>,
    ga: GeneticAlgorithm<RouletteWheelSelection, UniformCrossover, GaussianMutation<T>>,
    generation: Generation,
    settings: Settings<T>,
}

impl<T: Scalar> Simulation<T> {
    pub closed spec fn spec_world(&self) -> &World<T> {
        &self.world
    }

    pub closed spec fn spec_age(&self) -> usize {
        self.generation.age()
    }

    pub closed spec fn spec_settings(&self) -> Settings<T> {
        self.settings
    }

    /// The way parents are crossed over from one generation to the next.
    pub closed spec fn crossover_method(&self) -> UniformCrossover {
        self.ga.crossover_method()
    }

    /// The way children are mutated from one generation to the next.
    pub closed spec fn mutation_method(&self) -> GaussianMutation<T> {
        self.ga.mutation_method()
    }

    /// The simulation is in order: its settings are valid, its world holds
    /// as many animals and foods as they say, every animal is one that they
    /// describe, and no animal has eaten more than every food at every tick
    /// of this generation.
    pub closed spec fn wf(&self) -> bool {
        &&& self.settings.valid()
        &&& self.generation.age() <= GENERATION_LENGTH
        &&& self.world.animals@.len() == self.settings.animals
        &&& self.world.foods@.len() == self.settings.foods
        &&& self.world.fits(self.settings)
        &&& self.world.eaten_at_most(self.generation.age() * self.settings.foods)
        &&& self.ga.mutation_method().chance() == self.settings.mutation_chance
        &&& self.ga.mutation_method().coeff() == self.settings.mutation_coeff
    }

    /// How a simulation in order shows from outside.
    pub proof fn lemma_wf(&self)
        requires
            self.wf(),
        ensures
            self.settings().valid(),
            self.age() <= GENERATION_LENGTH,
            self.world().animals@.len() == self.settings().animals,
            self.world().foods@.len() == self.settings().foods,
            self.world().fits(self.settings()),
            self.world().eaten_at_most(self.age() * self.settings().foods),
    {
    }

    /// A simulation of a random world, at the start of its first generation.
    pub fn random<R: RandomSource<T>>(rng: &mut Recorder<T, R>, settings: Settings<T>) -> (simulation: Self)
        requires
            settings.valid(),
            computes_freely::<T>(),
        ensures
            simulation.wf(),
            simulation.settings() == settings,
            simulation.age() == 0,
            simulation.world().animals@.len() == settings.animals,
            simulation.world().foods@.len() == settings.foods,
            simulation.world().eaten_at_most(0),
            simulation.world().is_random::<R>(settings),
            exists|draws: Seq<Seq<Draw<T>>>|
                #[trigger] simulation.world().is_drawn_by(draws) && extends(
                    final(rng).history(),
                    old(rng).history(),
                    flat_draws(draws) + food_draws(simulation.world().foods@),
                ),
    {
        let world = World::random(rng, &settings);
        let ga = GeneticAlgorithm::new(
            RouletteWheelSelection::new(),
            UniformCrossover::new(),
            settings.mutation(),
        );
        let simulation = Self { world, ga, generation: Generation::new(), settings };
        assert(simulation.world.eaten_at_most(0 * settings.foods)) by {
            assert(0 * settings.foods == 0) by (nonlinear_arith);
        }
        simulation
    }

    #[verifier::when_used_as_spec(spec_world)]
    pub fn world(&self) -> (world: &World<T>)
        ensures
            world == self.spec_world(),
    {
        &self.world
    }

    /// How many ticks the current generation has lasted.
    #[verifier::when_used_as_spec(spec_age)]
    pub fn age(&self) -> (age: usize)
        ensures
            age == self.spec_age(),
            age <= GENERATION_LENGTH,
    {
        self.generation.age()
    }

    #[verifier::when_used_as_spec(spec_settings)]
    pub fn settings(&self) -> (settings: Settings<T>)
        ensures
            settings == self.spec_settings(),
    {
        self.settings
    }

    /// One tick: collisions are resolved, every animal's brain steers it,
    /// every animal moves, and the generation grows one tick older. The tick
    /// that takes the generation past `GENERATION_LENGTH` ends it: the
    /// animals are evolved, and the statistics of the generation that ended
    /// are the answer.
    pub fn step<E: RandomSource<T> + Space<T> + Measure<T>>(&mut self, env: &mut Recorder<T, E>) -> (statistics:
        Option<Statistics<T>>)
        requires
            old(self).wf(),
            computes_freely::<T>(),
        ensures
            final(self).wf(),
            final(self).settings() == old(self).settings(),
            final(self).crossover_method() == old(self).crossover_method(),
            final(self).mutation_method() == old(self).mutation_method(),
            statistics is Some <==> old(self).age() == GENERATION_LENGTH,
            final(self).age() == if statistics is Some {
                0
            } else {
                old(self).age() + 1
            },
            final(self).world().animals@.len() == old(self).world().animals@.len(),
            final(self).world().foods@.len() == old(self).world().foods@.len(),
            statistics is None ==> exists|draws: Seq<Draw<T>>|
                {
                    &&& #[trigger] has_ticked(
                        final(self).world().animals@,
                        old(self).world().animals@,
                        final(self).world().foods@,
                        old(self).world().foods@,
                        old(env).inner(),
                        final(env).inner(),
                        old(self).settings(),
                        draws,
                    )
                    &&& extends(final(env).history(), old(env).history(), draws)
                },
            statistics is None ==> forall|i: int|
                0 <= i < old(self).world().animals@.len() ==> {
                    &&& (#[trigger] final(self).world().animals@[i]).brain
                        == old(self).world().animals@[i].brain
                    &&& final(self).world().animals@[i].eye == old(self).world().animals@[i].eye
                    &&& final(self).world().animals@[i].food_eaten
                        >= old(self).world().animals@[i].food_eaten
                },
            statistics matches Some(summary) ==> {
                &&& summary.population_size() == old(self).world().animals@.len()
                &&& exists|
                    grown: Seq<Animal<T>>,
                    foods: Seq<Food<T>>,
                    space: E,
                    fitness: Seq<T>,
                    draws: Seq<Draw<T>>,
                    breeding: Breeding<T>,
                |
                    {
                        &&& #[trigger] has_ended(
                            summary,
                            old(self).world().animals@,
                            old(self).world().foods@,
                            old(env).inner(),
                            old(self).settings(),
                            grown,
                            foods,
                            space,
                            fitness,
                            draws,
                        )
                        &&& #[trigger] has_bred(
                            summary,
                            final(self).world().animals@,
                            grown,
                            &space,
                            old(self).crossover_method(),
                            old(self).mutation_method(),
                            breeding,
                        )
                        &&& extends(
                            final(env).history(),
                            old(env).history(),
                            draws + breeding_draws(
                                breeding,
                                final(self).world().animals@,
                                final(self).world().foods@,
                            ),
                        )
                    }
                &&& final(self).world().eaten_at_most(0)
                &&& is_laid_out::<T, E>(
                    final(self).world().animals@,
                    final(self).world().foods@,
                    old(self).settings(),
                )
                &&& forall|k: int|
                    0 <= k < final(self).world().animals@.len() ==> descends_from_animals(
                        old(self).crossover_method(),
                        old(self).mutation_method(),
                        old(self).world().animals@,
                        flat_network((#[trigger] final(self).world().animals@[k]).brain@),
                    )
            },
    {
        let ghost before = self.world.animals@;
        let ghost foods_before = self.world.foods@;
        let ghost source = env.inner();
        self.process_collisions(env);
        let ghost fed = self.world.animals@;
        let ghost space = env.inner();
        let ghost (stages, sources, collisions) = choose|
            stages: Seq<Seq<Food<T>>>,
            sources: Seq<E>,
            collisions: Seq<Seq<Draw<T>>>,
        |
            {
                &&& #[trigger] have_collided(
                    fed,
                    before,
                    stages,
                    sources,
                    collisions,
                    self.settings.eating_distance,
                )
                &&& stages.first() == foods_before
                &&& stages.last() == self.world.foods@
                &&& sources.first() == source
                &&& sources.last() == space
                &&& extends(env.history(), old(env).history(), flat_draws(collisions))
            };
        let ghost draws = flat_draws(collisions);
        proof {
            assert forall|i: int| 0 <= i < before.len() implies {
                &&& (#[trigger] fed[i]).same_but_food(before[i])
                &&& fed[i].food_eaten >= before[i].food_eaten
            } by {
                assert(has_collided(
                    fed,
                    before,
                    stages,
                    sources,
                    collisions,
                    self.settings.eating_distance,
                    i,
                ));
            }
            assert forall|i: int| 0 <= i < fed.len() implies (#[trigger] fed[i]).fits(
                self.settings,
            ) by {
                assert(before[i].fits(self.settings));
                assert(fed[i].same_but_food(before[i]));
            }
        }
        self.process_brains(env.source());
        let ghost thought = self.world.animals@;
        self.process_movement(env.source());
        let ghost grown = self.world.animals@;
        let ghost foods = self.world.foods@;
        proof {
            assert(have_ticked(
                grown,
                before,
                foods,
                foods_before,
                source,
                space,
                self.settings,
                draws,
                stages,
                sources,
                collisions,
                fed,
                thought,
            ));
            assert forall|i: int| 0 <= i < before.len() implies {
                &&& (#[trigger] grown[i]).brain == before[i].brain
                &&& grown[i].eye == before[i].eye
                &&& grown[i].food_eaten == fed[i].food_eaten
            } by {
                assert(thought[i].has_thought(fed[i], &space, foods, self.settings.limits));
                assert(grown[i].has_moved(thought[i], &space));
                assert(fed[i].same_but_food(before[i]));
            }
            assert forall|i: int| 0 <= i < grown.len() implies (#[trigger] grown[i]).fits(
                self.settings,
            ) by {
                assert(fed[i].fits(self.settings));
                assert(grown[i].brain == before[i].brain);
            }
        }
        if self.generation.tick() {
            let ghost ticked = env.history();
            let summary = self.evolve(env);
            proof {
                let breeding = choose|breeding: Breeding<T>|
                    {
                        &&& #[trigger] has_bred(
                            summary,
                            self.world.animals@,
                            grown,
                            &space,
                            self.ga.crossover_method(),
                            self.ga.mutation_method(),
                            breeding,
                        )
                        &&& extends(
                            env.history(),
                            ticked,
                            breeding_draws(breeding, self.world.animals@, self.world.foods@),
                        )
                    };
                assert(env.history() =~= old(env).history() + (draws + breeding_draws(
                    breeding,
                    self.world.animals@,
                    self.world.foods@,
                )));
                let fitness = choose|fitness: Seq<T>|
                    summary.summarizes(fitness) && #[trigger] are_fitnesses(fitness, grown, &space);
                assert(has_ended(
                    summary,
                    before,
                    foods_before,
                    source,
                    self.settings,
                    grown,
                    foods,
                    space,
                    fitness,
                    draws,
                ));
                assert forall|k: int|
                    0 <= k < self.world.animals@.len() implies descends_from_animals(
                    self.ga.crossover_method(),
                    self.ga.mutation_method(),
                    before,
                    flat_network((#[trigger] self.world.animals@[k]).brain@),
                ) by {
                    lemma_descends_same_brains(
                        self.ga.crossover_method(),
                        self.ga.mutation_method(),
                        grown,
                        before,
                        flat_network(self.world.animals@[k].brain@),
                    );
                }
                assert(self.world.eaten_at_most(0 * self.settings.foods)) by {
                    assert(0 * self.settings.foods == 0) by (nonlinear_arith);
                }
            }
            Some(summary)
        } else {
            proof {
                assert(has_ticked(
                    grown,
                    before,
                    foods,
                    foods_before,
                    source,
                    space,
                    self.settings,
                    draws,
                ));
                assert(extends(env.history(), old(env).history(), draws));
            }
            None
        }
    }

    /// Ticks on until a generation ends, and answers with its statistics.
    pub fn train<E: RandomSource<T> + Space<T> + Measure<T>>(&mut self, env: &mut Recorder<T, E>) -> (statistics:
        Statistics<T>)
        requires
            old(self).wf(),
            computes_freely::<T>(),
        ensures
            final(self).wf(),
            final(self).settings() == old(self).settings(),
            final(self).crossover_method() == old(self).crossover_method(),
            final(self).mutation_method() == old(self).mutation_method(),
            final(self).age() == 0,
            final(self).world().animals@.len() == old(self).world().animals@.len(),
            final(self).world().foods@.len() == old(self).world().foods@.len(),
            final(self).world().eaten_at_most(0),
            statistics.population_size() == old(self).world().animals@.len(),
            exists|
                parents: Seq<Animal<T>>,
                foods_before: Seq<Food<T>>,
                source: E,
                grown: Seq<Animal<T>>,
                foods: Seq<Food<T>>,
                space: E,
                fitness: Seq<T>,
                draws: Seq<Draw<T>>,
                breeding: Breeding<T>,
            |
                {
                    &&& #[trigger] has_ended(
                        statistics,
                        parents,
                        foods_before,
                        source,
                        old(self).settings(),
                        grown,
                        foods,
                        space,
                        fitness,
                        draws,
                    )
                    &&& #[trigger] has_bred(
                        statistics,
                        final(self).world().animals@,
                        grown,
                        &space,
                        old(self).crossover_method(),
                        old(self).mutation_method(),
                        breeding,
                    )
                    &&& parents.len() == old(self).world().animals@.len()
                    &&& forall|i: int|
                        0 <= i < parents.len() ==> (#[trigger] parents[i]).brain
                            == old(self).world().animals@[i].brain
                },
            is_laid_out::<T, E>(
                final(self).world().animals@,
                final(self).world().foods@,
                old(self).settings(),
            ),
            forall|k: int|
                0 <= k < final(self).world().animals@.len() ==> descends_from_animals(
                    old(self).crossover_method(),
                    old(self).mutation_method(),
                    old(self).world().animals@,
                    flat_network((#[trigger] final(self).world().animals@[k]).brain@),
                ),
    {
        loop
            invariant
                self.wf(),
                computes_freely::<T>(),
                self.settings() == old(self).settings(),
                self.crossover_method() == old(self).crossover_method(),
                self.mutation_method() == old(self).mutation_method(),
                self.world().animals@.len() == old(self).world().animals@.len(),
                self.world().foods@.len() == old(self).world().foods@.len(),
                self.age() <= GENERATION_LENGTH,
                forall|i: int|
                    0 <= i < old(self).world().animals@.len() ==> (
                    #[trigger] self.world().animals@[i]).brain
                        == old(self).world().animals@[i].brain,
            decreases GENERATION_LENGTH - self.age(),
        {
            let ghost parents = self.world.animals@;
            let ghost foods_before = self.world.foods@;
            let ghost source = env.inner();
            if let Some(stats) = self.step(env) {
                proof {
                    let (grown, foods, space, fitness, draws, breeding) = choose|
                        grown: Seq<Animal<T>>,
                        foods: Seq<Food<T>>,
                        space: E,
                        fitness: Seq<T>,
                        draws: Seq<Draw<T>>,
                        breeding: Breeding<T>,
                    |
                        #[trigger] has_ended(
                            stats,
                            parents,
                            foods_before,
                            source,
                            self.settings(),
                            grown,
                            foods,
                            space,
                            fitness,
                            draws,
                        ) && #[trigger] has_bred(
                            stats,
                            self.world().animals@,
                            grown,
                            &space,
                            self.crossover_method(),
                            self.mutation_method(),
                            breeding,
                        );
                    assert(has_bred(
                        stats,
                        self.world().animals@,
                        grown,
                        &space,
                        old(self).crossover_method(),
                        old(self).mutation_method(),
                        breeding,
                    ));
                    assert(has_ended(
                        stats,
                        parents,
                        foods_before,
                        source,
                        old(self).settings(),
                        grown,
                        foods,
                        space,
                        fitness,
                        draws,
                    ));
                    assert forall|k: int|
                        0 <= k < self.world().animals@.len() implies descends_from_animals(
                        old(self).crossover_method(),
                        old(self).mutation_method(),
                        old(self).world().animals@,
                        flat_network((#[trigger] self.world().animals@[k]).brain@),
                    ) by {
                        lemma_descends_same_brains(
                            old(self).crossover_method(),
                            old(self).mutation_method(),
                            parents,
                            old(self).world().animals@,
                            flat_network(self.world().animals@[k].brain@),
                        );
                    }
                }
                return stats;
            }
        }
    }

    /// Collisions: each animal in turn, and for it each food in turn; a food
    /// no farther off than the eating distance is eaten, and lies at a new
    /// random place at once.
    fn process_collisions<E: RandomSource<T> + Space<T> + Measure<T>>(
        &mut self,
        env: &mut Recorder<T, E>,
    )
        requires
            old(self).wf(),
        ensures
            final(self).settings == old(self).settings,
            final(self).ga == old(self).ga,
            final(self).generation == old(self).generation,
            final(self).world.animals@.len() == old(self).world.animals@.len(),
            final(self).world.foods@.len() == old(self).world.foods@.len(),
            exists|stages: Seq<Seq<Food<T>>>, sources: Seq<E>, draws: Seq<Seq<Draw<T>>>|
                {
                    &&& #[trigger] have_collided(
                        final(self).world.animals@,
                        old(self).world.animals@,
                        stages,
                        sources,
                        draws,
                        old(self).settings.eating_distance,
                    )
                    &&& stages.first() == old(self).world.foods@
                    &&& stages.last() == final(self).world.foods@
                    &&& sources.first() == old(env).inner()
                    &&& sources.last() == final(env).inner()
                    &&& extends(final(env).history(), old(env).history(), flat_draws(draws))
                },
            final(self).world.eaten_at_most(
                (old(self).generation.age() + 1) * old(self).settings.foods,
            ),
    {
        let ghost before = self.world.animals@;
        let ghost age = self.generation.age() as int;
        let ghost foods = self.settings.foods as int;
        let ghost mut stages: Seq<Seq<Food<T>>> = seq![self.world.foods@];
        let ghost mut sources: Seq<E> = seq![env.inner()];
        let ghost mut draws: Seq<Seq<Draw<T>>> = Seq::empty();
        let eating_distance = self.settings.eating_distance;
        let mut i: usize = 0;
        proof {
            use_type_invariant(&self.generation);
            assert(env.history() =~= old(env).history() + flat_draws(draws));
        }
        while i < self.world.animals.len()
            invariant
                i <= self.world.animals@.len(),
                self.settings == old(self).settings,
                eating_distance == old(self).settings.eating_distance,
                self.ga == old(self).ga,
                self.generation == old(self).generation,
                self.world.animals@.len() == before.len(),
                self.world.foods@.len() == foods,
                0 <= age <= GENERATION_LENGTH,
                0 <= foods,
                (GENERATION_LENGTH + 1) * foods <= usize::MAX,
                stages.len() == i + 1,
                sources.len() == i + 1,
                draws.len() == i,
                stages[0] == old(self).world.foods@,
                stages[i as int] == self.world.foods@,
                sources[0] == old(env).inner(),
                sources[i as int] == env.inner(),
                env.history() == old(env).history() + flat_draws(draws),
                forall|k: int| 0 <= k < before.len() ==> (#[trigger] before[k]).food_eaten <= age * foods,
                forall|k: int| i <= k < before.len() ==> self.world.animals@[k] == before[k],
                forall|k: int|
                    0 <= k < i ==> {
                        &&& (#[trigger] self.world.animals@[k]).food_eaten <= (age + 1) * foods
                        &&& exists|meals: Seq<Meal<T, E>>|
                            #[trigger] self.world.animals@[k].has_eaten(
                                before[k],
                                stages[k + 1],
                                stages[k],
                                sources[k],
                                meals,
                                eating_distance,
                            ) && draws[k] == meal_draws(meals)
                    },
            decreases self.world.animals@.len() - i,
        {
            proof {
                lemma_eaten_fits(before[i as int].food_eaten as int, age, foods);
            }
            let ghost was = self.world.animals@;
            let ghost earlier_stages = stages;
            let ghost earlier_sources = sources;
            let ghost earlier_draws = draws;
            let ghost foods_before = self.world.foods@;
            let ghost source = env.inner();
            let ghost history = env.history();
            self.world.animals[i].process_collisions(env, &mut self.world.foods, eating_distance);
            proof {
                let meals = choose|meals: Seq<Meal<T, E>>|
                    {
                        &&& #[trigger] self.world.animals@[i as int].has_eaten(
                            was[i as int],
                            self.world.foods@,
                            foods_before,
                            source,
                            meals,
                            eating_distance,
                        )
                        &&& extends(env.history(), history, meal_draws(meals))
                    };
                stages = earlier_stages.push(self.world.foods@);
                sources = earlier_sources.push(env.inner());
                draws = earlier_draws.push(meal_draws(meals));
                assert(draws.drop_last() =~= earlier_draws);
                assert(env.history() =~= old(env).history() + flat_draws(draws));
                assert(was[i as int] == before[i as int]);
                assert(stages[i + 1] == self.world.foods@);
                assert(stages[i as int] == foods_before);
                assert(sources[i as int] == source);
                assert(self.world.animals@[i as int].has_eaten(
                    before[i as int],
                    stages[i + 1],
                    stages[i as int],
                    sources[i as int],
                    meals,
                    eating_distance,
                ));
                assert forall|k: int| 0 <= k < i implies {
                    &&& (#[trigger] self.world.animals@[k]).food_eaten <= (age + 1) * foods
                    &&& exists|meals: Seq<Meal<T, E>>|
                        #[trigger] self.world.animals@[k].has_eaten(
                            before[k],
                            stages[k + 1],
                            stages[k],
                            sources[k],
                            meals,
                            eating_distance,
                        ) && draws[k] == meal_draws(meals)
                } by {
                    assert(self.world.animals@[k] == was[k]);
                    assert(stages[k + 1] == earlier_stages[k + 1]);
                    assert(stages[k] == earlier_stages[k]);
                    assert(sources[k] == earlier_sources[k]);
                    assert(draws[k] == earlier_draws[k]);
                }
            }
            i += 1;
        }
        proof {
            assert forall|k: int| 0 <= k < self.world.animals@.len() implies (
            #[trigger] self.world.animals@[k]).food_eaten <= (age + 1) * foods by {}
            let after = self.world.animals@;
            assert forall|k: int| 0 <= k < before.len() implies #[trigger] has_collided(
                after,
                before,
                stages,
                sources,
                draws,
                eating_distance,
                k,
            ) by {
                assert(self.world.animals@[k].food_eaten <= (age + 1) * foods);
            }
            assert(have_collided(after, before, stages, sources, draws, eating_distance));
            assert(extends(env.history(), old(env).history(), flat_draws(draws)));
        }
    }

    /// Brains: each animal in turn sees, thinks and steers.
    fn process_brains<S: Space<T> + Measure<T>>(&mut self, space: &S)
        requires
            old(self).world.fits(old(self).settings),
            computes_freely::<T>(),
        ensures
            final(self).settings == old(self).settings,
            final(self).ga == old(self).ga,
            final(self).generation == old(self).generation,
            final(self).world.foods == old(self).world.foods,
            final(self).world.animals@.len() == old(self).world.animals@.len(),
            forall|i: int|
                0 <= i < old(self).world.animals@.len() ==> (
                #[trigger] final(self).world.animals@[i]).has_thought(
                    old(self).world.animals@[i],
                    space,
                    old(self).world.foods@,
                    old(self).settings.limits,
                ),
    {
        let ghost before = self.world.animals@;
        let limits = self.settings.limits;
        assert forall|k: int| 0 <= k < before.len() implies (#[trigger] before[k]).wf() by {
            assert(before[k].fits(self.settings));
        }
        let mut i: usize = 0;
        while i < self.world.animals.len()
            invariant
                i <= self.world.animals@.len(),
                computes_freely::<T>(),
                limits == old(self).settings.limits,
                self.settings == old(self).settings,
                self.ga == old(self).ga,
                self.generation == old(self).generation,
                self.world.foods == old(self).world.foods,
                self.world.animals@.len() == before.len(),
                forall|k: int| 0 <= k < before.len() ==> (#[trigger] before[k]).wf(),
                forall|k: int| i <= k < before.len() ==> self.world.animals@[k] == before[k],
                forall|k: int|
                    0 <= k < i ==> (#[trigger] self.world.animals@[k]).has_thought(
                        before[k],
                        space,
                        old(self).world.foods@,
                        limits,
                    ),
            decreases self.world.animals@.len() - i,
        {
            assert(self.world.animals@[i as int] == before[i as int]);
            assert(before[i as int].wf());
            self.world.animals[i].process_brain(space, self.world.foods.as_slice(), &limits);
            i += 1;
        }
    }

    /// Movement: each animal in turn goes on its way.
    fn process_movement<S: Space<T>>(&mut self, space: &S)
        ensures
            final(self).settings == old(self).settings,
            final(self).ga == old(self).ga,
            final(self).generation == old(self).generation,
            final(self).world.foods == old(self).world.foods,
            final(self).world.animals@.len() == old(self).world.animals@.len(),
            forall|i: int|
                0 <= i < old(self).world.animals@.len() ==> (
                #[trigger] final(self).world.animals@[i]).has_moved(
                    old(self).world.animals@[i],
                    space,
                ),
    {
        let ghost before = self.world.animals@;
        let mut i: usize = 0;
        while i < self.world.animals.len()
            invariant
                i <= self.world.animals@.len(),
                self.settings == old(self).settings,
                self.ga == old(self).ga,
                self.generation == old(self).generation,
                self.world.foods == old(self).world.foods,
                self.world.animals@.len() == before.len(),
                forall|k: int| i <= k < before.len() ==> self.world.animals@[k] == before[k],
                forall|k: int|
                    0 <= k < i ==> (#[trigger] self.world.animals@[k]).has_moved(before[k], space),
            decreases self.world.animals@.len() - i,
        {
            assert(self.world.animals@[i as int] == before[i as int]);
            self.world.animals[i].process_movement(space);
            i += 1;
        }
    }

    /// Evolution: every animal stands in the population with its brain for
    /// a genome and the food it has eaten for its fitness; the genetic
    /// algorithm makes as many children; each child becomes an animal at a
    /// random place that has eaten nothing; and every food comes to lie at a
    /// new random place. Where no animal is found to have a fitness above
    /// zero, the parents are chosen without regard to fitness.
    fn evolve<E: RandomSource<T> + Space<T> + Measure<T>>(&mut self, env: &mut Recorder<T, E>) -> (statistics:
        Statistics<T>)
        requires
            old(self).settings.valid(),
            old(self).world.animals@.len() == old(self).settings.animals,
            old(self).world.fits(old(self).settings),
            old(self).ga.mutation_method().chance() == old(self).settings.mutation_chance,
            old(self).ga.mutation_method().coeff() == old(self).settings.mutation_coeff,
            computes_freely::<T>(),
        ensures
            final(self).settings == old(self).settings,
            final(self).ga == old(self).ga,
            final(self).generation == old(self).generation,
            final(self).world.animals@.len() == old(self).world.animals@.len(),
            final(self).world.foods@.len() == old(self).world.foods@.len(),
            final(self).world.fits(old(self).settings),
            final(self).world.eaten_at_most(0),
            statistics.population_size() == old(self).world.animals@.len(),
            is_laid_out::<T, E>(
                final(self).world.animals@,
                final(self).world.foods@,
                old(self).settings,
            ),
            exists|fitness: Seq<T>|
                statistics.summarizes(fitness) && #[trigger] are_fitnesses(
                    fitness,
                    old(self).world.animals@,
                    &old(env).inner(),
                ),
            exists|breeding: Breeding<T>|
                {
                    &&& #[trigger] has_bred(
                        statistics,
                        final(self).world.animals@,
                        old(self).world.animals@,
                        &old(env).inner(),
                        old(self).ga.crossover_method(),
                        old(self).ga.mutation_method(),
                        breeding,
                    )
                    &&& extends(
                        final(env).history(),
                        old(env).history(),
                        breeding_draws(
                            breeding,
                            final(self).world.animals@,
                            final(self).world.foods@,
                        ),
                    )
                },
            forall|k: int|
                0 <= k < final(self).world.animals@.len() ==> descends_from_animals(
                    old(self).ga.crossover_method(),
                    old(self).ga.mutation_method(),
                    old(self).world.animals@,
                    flat_network((#[trigger] final(self).world.animals@[k]).brain@),
                ),
    {
        broadcast use vstd::std_specs::vec::axiom_spec_into_iter;

        let ghost parents = self.world.animals@;
        let ghost length = weight_count(brain_topology(self.settings.cells));
        proof {
            lemma_brain_genome_len(self.settings.cells);
        }
        let nothing: T = zero_value();
        let mut fed = false;
        let ghost mut found: int = 0;
        let mut population: Vec<AnimalIndividual<T>> = Vec::with_capacity(
            self.world.animals.len(),
        );
        let mut i: usize = 0;
        while i < self.world.animals.len()
            invariant
                i <= self.world.animals@.len(),
                env.inner() == old(env).inner(),
                self.world.animals@ == parents,
                self.world.fits(self.settings),
                self.settings == old(self).settings,
                self.settings.valid(),
                length == weight_count(brain_topology(self.settings.cells)),
                length >= 2,
                zero_is_fixed::<T>() ==> nothing == zero::<T>(),
                population@.len() == i,
                genomes_have_length(population@, length as nat),
                forall|k: int|
                    0 <= k < i ==> (#[trigger] population@[k]).genome() == flat_network(
                        parents[k].brain@,
                    ),
                forall|k: int|
                    0 <= k < i ==> counts(
                        &old(env).inner(),
                        parents[k].food_eaten,
                        (#[trigger] population@[k]).spec_fitness(),
                    ),
                fed ==> 0 <= found < i && (compares_exactly::<T>() ==> exceeds(
                    population@[found].spec_fitness(),
                    nothing,
                )),
                !fed && compares_exactly::<T>() ==> forall|k: int|
                    0 <= k < i ==> !exceeds((#[trigger] population@[k]).spec_fitness(), nothing),
                env.history() == old(env).history(),
            decreases self.world.animals@.len() - i,
        {
            let animal = &self.world.animals[i];
            let size = animal.brain.input_size();
            proof {
                assert(parents[i as int].fits(self.settings));
                lemma_flat_network_len(animal.brain@, brain_topology(size));
            }
            let individual = AnimalIndividual::from_animal(animal, env.source());
            if individual.fitness() > nothing {
                fed = true;
                proof {
                    found = i as int;
                }
            }
            population.push(individual);
            i += 1;
        }
        let ghost fitness = fitnesses(population@);
        proof {
            assert(are_fitnesses(fitness, parents, &old(env).inner()));
            if fed {
                assert(fitness[found] == population@[found].spec_fitness());
            }
        }
        let ghost mut broods: Seq<Brood<T>> = Seq::empty();
        let ghost h0 = env.history();
        let (offspring, statistics) = if fed {
            let bred = self.ga.evolve(env, population.as_slice());
            proof {
                broods = choose|broods: Seq<Brood<T>>|
                    {
                        &&& #[trigger] are_bred(
                            self.ga.selection_method(),
                            self.ga.crossover_method(),
                            self.ga.mutation_method(),
                            population@,
                            broods,
                            bred.0@,
                        )
                        &&& extends(env.history(), h0, all_draws(broods))
                    };
                assert(self.ga.selection_method() == RouletteWheelSelection);
            }
            bred
        } else {
            let other = GeneticAlgorithm::new(
                UniformSelection::new(),
                UniformCrossover::new(),
                self.settings.mutation(),
            );
            let bred = other.evolve(env, population.as_slice());
            proof {
                broods = choose|broods: Seq<Brood<T>>|
                    {
                        &&& #[trigger] are_bred(
                            other.selection_method(),
                            other.crossover_method(),
                            other.mutation_method(),
                            population@,
                            broods,
                            bred.0@,
                        )
                        &&& extends(env.history(), h0, all_draws(broods))
                    };
                assert(other.selection_method() == UniformSelection);
                assert forall|k: int| 0 <= k < bred.0@.len() implies is_bred(
                    UniformSelection,
                    self.ga.crossover_method(),
                    self.ga.mutation_method(),
                    population@,
                    #[trigger] broods[k],
                    bred.0@[k].genome(),
                ) by {
                    assert(is_bred(
                        other.selection_method(),
                        other.crossover_method(),
                        other.mutation_method(),
                        population@,
                        broods[k],
                        bred.0@[k].genome(),
                    ));
                }
                assert forall|k: int| 0 <= k < bred.0@.len() implies descends(
                    self.ga.crossover_method(),
                    self.ga.mutation_method(),
                    population@,
                    (#[trigger] bred.0@[k]).genome(),
                ) by {
                    let child = bred.0@[k].genome();
                    assert(descends(
                        other.crossover_method(),
                        other.mutation_method(),
                        population@,
                        child,
                    ));
                    let (a, b, crossed) = choose|a: int, b: int, crossed: Seq<T>|
                        {
                            &&& 0 <= a < population@.len()
                            &&& 0 <= b < population@.len()
                            &&& #[trigger] other.crossover_method().crosses(
                                population@[a].genome(),
                                population@[b].genome(),
                                crossed,
                            )
                            &&& other.mutation_method().mutates(crossed, child)
                        };
                    assert(self.ga.crossover_method().crosses(
                        population@[a].genome(),
                        population@[b].genome(),
                        crossed,
                    ));
                    assert(self.ga.mutation_method().mutates(crossed, child));
                }
            }
            bred
        };
        let ghost h1 = env.history();
        let count = offspring.len();
        let ghost children = offspring@;
        let animals = animals_of(offspring.into_iter(), count, env, &self.settings);
        proof {
            assert forall|k: int| 0 <= k < animals@.len() implies descends_from_animals(
                self.ga.crossover_method(),
                self.ga.mutation_method(),
                parents,
                flat_network((#[trigger] animals@[k]).brain@),
            ) by {
                let child = children[k].genome();
                assert(descends(
                    self.ga.crossover_method(),
                    self.ga.mutation_method(),
                    population@,
                    child,
                ));
                let (a, b, crossed) = choose|a: int, b: int, crossed: Seq<T>|
                    {
                        &&& 0 <= a < population@.len()
                        &&& 0 <= b < population@.len()
                        &&& #[trigger] self.ga.crossover_method().crosses(
                            population@[a].genome(),
                            population@[b].genome(),
                            crossed,
                        )
                        &&& self.ga.mutation_method().mutates(crossed, child)
                    };
                assert(self.ga.crossover_method().crosses(
                    flat_network(parents[a].brain@),
                    flat_network(parents[b].brain@),
                    crossed,
                ));
            }
        }
        let ghost h2 = env.history();
        let ghost breeding = Breeding {
            population: population@,
            children,
            broods,
            by_fitness: fed,
        };
        proof {
            assert(has_bred(
                statistics,
                animals@,
                parents,
                &old(env).inner(),
                self.ga.crossover_method(),
                self.ga.mutation_method(),
                breeding,
            ));
            assert(h2 =~= old(env).history() + all_draws(broods) + placement_draws(animals@));
            assert(food_draws(self.world.foods@.take(0)) =~= Seq::<Draw<T>>::empty());
        }
        self.world.animals = animals;
        let mut j: usize = 0;
        while j < self.world.foods.len()
            invariant
                j <= self.world.foods@.len(),
                env.history() == h2 + food_draws(self.world.foods@.take(j as int)),
                self.settings == old(self).settings,
                self.ga == old(self).ga,
                self.generation == old(self).generation,
                self.world.animals@ == animals@,
                self.world.foods@.len() == old(self).world.foods@.len(),
                forall|k: int|
                    0 <= k < j ==> is_drawn_point::<T, E>(
                        (#[trigger] self.world.foods@[k]).position,
                    ),
            decreases self.world.foods@.len() - j,
        {
            let ghost source = env.inner();
            let position = env.point();
            assert(is_drawn_point::<T, E>(position)) by {
                assert(draws_point(source, position));
            }
            let ghost laid = self.world.foods@.take(j as int);
            self.world.foods[j].position = position;
            proof {
                assert(self.world.foods@.take(j + 1) =~= laid.push(self.world.foods@[j as int]));
                assert(food_draws(self.world.foods@.take(j + 1)) =~= food_draws(laid).push(
                    Draw::Point { point: position },
                ));
                assert(env.history() =~= h2 + food_draws(self.world.foods@.take(j + 1)));
            }
            j += 1;
        }
        proof {
            assert(self.world.foods@.take(j as int) =~= self.world.foods@);
            assert(env.history() =~= old(env).history() + breeding_draws(
                breeding,
                self.world.animals@,
                self.world.foods@,
            ));
            assert(extends(
                env.history(),
                old(env).history(),
                breeding_draws(breeding, self.world.animals@, self.world.foods@),
            ));
        }
        statistics
    }
}

} // verus!
