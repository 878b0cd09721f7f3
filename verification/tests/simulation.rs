use lib_simulation::clamp;
use lib_simulation::count_weights;
use lib_simulation::steer;
use lib_simulation::Animal;
use lib_simulation::AnimalIndividual;
use lib_simulation::Brain;
use lib_simulation::Chromosome;
use lib_simulation::Food;
use lib_simulation::Generation;
use lib_simulation::Individual;
use lib_simulation::Limits;
use lib_simulation::Measure;
use lib_simulation::Point;
use lib_simulation::RandomSource;
use lib_simulation::Recorder;
use lib_simulation::Settings;
use lib_simulation::Simulation;
use lib_simulation::Space;
use lib_simulation::World;
use lib_simulation::GENERATION_LENGTH;
use nalgebra as na;
use rand::distributions::Distribution;
use rand::distributions::WeightedIndex;
use rand::Rng;
use rand::SeedableRng;
use rand_chacha::ChaCha8Rng;
use std::f32::consts::FRAC_PI_2;
use std::f32::consts::FRAC_PI_4;
use std::f32::consts::PI;

struct Draws(ChaCha8Rng);

impl Draws {
    fn seeded() -> Self {
        Draws(ChaCha8Rng::from_seed(Default::default()))
    }
}

impl RandomSource<f32> for Draws {
    fn uniform(&mut self, low: f32, high: f32) -> f32 {
        self.0.gen_range(low..=high)
    }

    fn fair_coin(&mut self) -> bool {
        self.0.gen_bool(0.5)
    }

    fn bernoulli(&mut self, chance: f32) -> bool {
        self.0.gen_bool(chance as _)
    }

    fn weighted_index(&mut self, weights: &[f32]) -> usize {
        WeightedIndex::new(weights.iter())
            .expect("got an empty population")
            .sample(&mut self.0)
    }

    fn index(&mut self, size: usize) -> usize {
        self.0.gen_range(0..size)
    }

    fn point(&mut self) -> Point<f32> {
        let point: na::Point2<f32> = self.0.gen();

        Point {
            x: point.x,
            y: point.y,
        }
    }

    fn rotation(&mut self) -> f32 {
        let rotation: na::Rotation2<f32> = self.0.gen();

        rotation.angle()
    }
}

fn point(point: Point<f32>) -> na::Point2<f32> {
    na::Point2::new(point.x, point.y)
}

impl Space<f32> for Draws {
    fn distance(&self, a: Point<f32>, b: Point<f32>) -> f32 {
        na::distance(&point(a), &point(b))
    }

    fn bearing(&self, position: Point<f32>, rotation: f32, target: Point<f32>) -> (f32, f32) {
        let vec = point(target) - point(position);
        let norm = vec.norm();
        let angle = na::Rotation2::rotation_between(&na::Vector2::y(), &vec).angle();
        let angle = angle - na::Rotation2::new(rotation).angle();
        let angle = na::wrap(angle, -PI, PI);

        (norm, angle)
    }

    fn advance(&self, position: Point<f32>, rotation: f32, speed: f32) -> Point<f32> {
        let mut position = point(position);

        position += na::Rotation2::new(rotation) * na::Vector2::new(0.0, speed);

        position.x = na::wrap(position.x, 0.0, 1.0);
        position.y = na::wrap(position.y, 0.0, 1.0);

        Point {
            x: position.x,
            y: position.y,
        }
    }

    fn turn(&self, rotation: f32, delta: f32) -> f32 {
        na::Rotation2::new(rotation).angle() + delta
    }
}

impl Measure<f32> for Draws {
    fn scalar(&self, count: usize) -> f32 {
        count as f32
    }

    fn whole(&self, value: f32) -> usize {
        value as usize
    }
}


fn limits() -> Limits<f32> {
    Limits {
        min_speed: 0.001,
        max_speed: 0.003,
        speed_accel: 0.02,
        rotation_accel: FRAC_PI_2,
    }
}

fn settings() -> Settings<f32> {
    Settings {
        animals: 40,
        foods: 60,
        fov_range: 0.25,
        fov_angle: PI + FRAC_PI_4,
        cells: 9,
        limits: limits(),
        eating_distance: 0.01,
        mutation_chance: 0.01,
        mutation_coeff: 0.3,
    }
}

fn small_settings() -> Settings<f32> {
    Settings {
        animals: 6,
        foods: 10,
        cells: 3,
        ..settings()
    }
}

fn in_unit_square(point: Point<f32>) -> bool {
    (0.0..=1.0).contains(&point.x) && (0.0..=1.0).contains(&point.y)
}

#[test]
fn brain_topology_has_a_hidden_layer_twice_the_input() {
    assert_eq!(Brain::<f32>::topology(9), [9, 18, 2]);
    assert_eq!(Brain::<f32>::topology(1), [1, 2, 2]);
    assert_eq!(Brain::<f32>::topology(0), [0, 0, 2]);
}

#[test]
fn random_brain_answers_with_two_values() {
    let mut rng = Recorder::new(Draws::seeded());
    let brain: Brain<f32> = Brain::random(&mut rng, 9);
    assert_eq!(brain.input_size(), 9);
    let answer = brain.propogate(vec![0.0, 0.1, 0.2, 0.3, 0.4, 0.5, 0.6, 0.7, 0.8]);
    assert_eq!(answer.len(), 2);
}

#[test]
fn brain_round_trips_through_its_chromosome() {
    let mut rng = Recorder::new(Draws::seeded());
    let brain: Brain<f32> = Brain::random(&mut rng, 3);
    let chromosome = brain.as_chromosome();
    assert_eq!(Some(chromosome.len()), count_weights(&[3, 6, 2]));
    assert_eq!(chromosome.len(), 38);

    let genes = chromosome.genes.clone();
    let again = Brain::from_chromosome(3, chromosome);
    assert_eq!(again.input_size(), 3);
    assert_eq!(again.as_chromosome().genes, genes);
}

#[test]
fn brain_from_chromosome_reads_the_genes_in_order() {
    // one input: a hidden layer of two neurons, and two outputs
    let genes = vec![
        0.0, 1.0, // hidden neuron 0: bias, weight
        0.5, -1.0, // hidden neuron 1
        0.0, 1.0, 1.0, // output neuron 0: bias, weights
        1.0, -2.0, 0.0, // output neuron 1
    ];
    let brain = Brain::from_chromosome(1, Chromosome::new(genes));
    // hidden: [max(0, 0.25), max(0, 0.5 - 0.25)] = [0.25, 0.25]
    // output: [0.25 + 0.25, max(0, 1.0 - 0.5)] = [0.5, 0.5]
    assert_eq!(brain.propogate(vec![0.25]), vec![0.5, 0.5]);
    // hidden: [2.0, 0.0]; output: [2.0, 0.0]
    assert_eq!(brain.propogate(vec![2.0]), vec![2.0, 0.0]);
}

#[test]
fn random_animal_starts_between_the_speeds_with_nothing_eaten() {
    let mut rng = Recorder::new(Draws::seeded());
    let settings = settings();
    let animal = Animal::random(&mut rng, &settings);

    assert!(in_unit_square(animal.position));
    assert!(animal.position.x < 1.0 && animal.position.y < 1.0);
    assert!((-PI..=PI).contains(&animal.rotation));
    assert_eq!(animal.speed, (0.001 + 0.003) / 2.0);
    assert_eq!(animal.food_eaten, 0);
    assert_eq!(animal.eye.cells(), 9);
    assert_eq!(animal.eye.fov_range(), 0.25);
    assert_eq!(animal.eye.fov_angle(), PI + FRAC_PI_4);
    assert_eq!(animal.brain.input_size(), 9);
    assert_eq!(animal.as_chromosome().len(), 218);
}

#[test]
fn random_animal_draws_its_brain_first() {
    let settings = settings();

    let mut rng = Recorder::new(Draws::seeded());
    let animal = Animal::random(&mut rng, &settings);

    let mut rng = Recorder::new(Draws::seeded());
    let brain: Brain<f32> = Brain::random(&mut rng, 9);
    let position = rng.point();
    let rotation = rng.rotation();

    assert_eq!(animal.as_chromosome().genes, brain.as_chromosome().genes);
    assert_eq!(animal.position.x, position.x);
    assert_eq!(animal.position.y, position.y);
    assert_eq!(animal.rotation, rotation);
}

#[test]
fn animal_round_trips_through_its_chromosome() {
    let mut rng = Recorder::new(Draws::seeded());
    let settings = settings();
    let animal = Animal::random(&mut rng, &settings);
    let genes = animal.as_chromosome().genes;

    let again = Animal::from_chromosome(Chromosome::new(genes.clone()), &mut rng, &settings);
    assert_eq!(again.as_chromosome().genes, genes);
    assert_eq!(again.food_eaten, 0);
    assert_eq!(again.speed, (0.001 + 0.003) / 2.0);
    assert!(in_unit_square(again.position));
}

#[test]
fn animal_individual_carries_brain_and_fitness() {
    let mut rng = Recorder::new(Draws::seeded());
    let settings = settings();
    let mut animal = Animal::random(&mut rng, &settings);
    animal.food_eaten = 7;
    let genes = animal.as_chromosome().genes;

    let individual = AnimalIndividual::from_animal(&animal, rng.source());
    assert_eq!(individual.fitness(), 7.0);
    assert_eq!(individual.to_chromosome().genes, genes);

    let again = individual.to_animal(&mut rng, &settings);
    assert_eq!(again.food_eaten, 0);
    assert_eq!(again.brain.input_size(), 9);
    assert_eq!(again.as_chromosome().genes, genes);
}

#[test]
fn animal_individual_from_chromosome_has_eaten_nothing() {
    let individual: AnimalIndividual<f32> =
        AnimalIndividual::from_chromosome(Chromosome::new(vec![1.0, 2.0, 3.0]));
    assert_eq!(individual.fitness(), 0.0);
    assert_eq!(individual.to_chromosome().genes, vec![1.0, 2.0, 3.0]);
}

#[test]
fn clamp_holds_a_value_between_its_bounds() {
    assert_eq!(clamp(0.5, -1.0, 1.0), 0.5);
    assert_eq!(clamp(-1.5, -1.0, 1.0), -1.0);
    assert_eq!(clamp(1.5, -1.0, 1.0), 1.0);
    assert_eq!(clamp(-1.0, -1.0, 1.0), -1.0);
    assert_eq!(clamp(1.0, -1.0, 1.0), 1.0);
    assert_eq!(clamp(7, 1, 5), 5);
    assert_eq!(clamp(0, 1, 5), 1);
    assert_eq!(clamp(3, 1, 5), 3);
}

#[test]
fn steer_holds_speed_and_rotation_within_the_limits() {
    let limits = limits();

    // a large answer: speed change held to 0.02, speed then held to the maximum
    let steering = steer(0.002, &[10.0, 10.0], &limits);
    assert_eq!(steering.speed, 0.003);
    assert_eq!(steering.delta_rotation, FRAC_PI_2);

    // a large answer the other way
    let steering = steer(0.002, &[-10.0, -10.0], &limits);
    assert_eq!(steering.speed, 0.001);
    assert_eq!(steering.delta_rotation, -FRAC_PI_2);

    // a small answer is taken as it is
    let steering = steer(0.002, &[0.0005, 0.25], &limits);
    assert_eq!(steering.speed, 0.002 + 0.0005);
    assert_eq!(steering.delta_rotation, 0.25);

    // no answer at all
    let steering = steer(0.002, &[0.0, 0.0], &limits);
    assert_eq!(steering.speed, 0.002);
    assert_eq!(steering.delta_rotation, 0.0);
}

#[test]
fn generation_is_over_after_its_length() {
    let mut generation = Generation::new();
    assert_eq!(generation.age(), 0);
    assert_eq!(GENERATION_LENGTH, 2500);

    for tick in 1..=GENERATION_LENGTH {
        assert!(!generation.tick());
        assert_eq!(generation.age(), tick);
    }

    // the tick that takes the age past the length ends the generation
    assert!(generation.tick());
    assert_eq!(generation.age(), 0);

    assert!(!generation.tick());
    assert_eq!(generation.age(), 1);
}

fn animal_at(x: f32, y: f32, rotation: f32, speed: f32) -> Animal<f32> {
    let mut rng = Recorder::new(Draws::seeded());
    let mut animal = Animal::random(&mut rng, &small_settings());
    animal.position = Point { x, y };
    animal.rotation = rotation;
    animal.speed = speed;
    animal
}

fn food_at(x: f32, y: f32) -> Food<f32> {
    Food {
        position: Point { x, y },
    }
}

#[test]
fn animal_eats_the_foods_it_reaches() {
    let mut rng = Recorder::new(Draws::seeded());
    let mut animal = animal_at(0.5, 0.5, 0.0, 0.002);
    let mut foods = vec![
        food_at(0.5, 0.505),   // within reach
        food_at(0.5, 0.52),    // out of reach
        food_at(0.503, 0.504), // within reach
        food_at(0.1, 0.9),     // far off
    ];

    animal.process_collisions(&mut rng, &mut foods, 0.01);

    assert_eq!(animal.food_eaten, 2);
    assert_eq!(foods.len(), 4);
    // the foods eaten lie somewhere else; the others lie where they lay
    assert!(foods[0].position.x != 0.5 || foods[0].position.y != 0.505);
    assert!(in_unit_square(foods[0].position));
    assert_eq!((foods[1].position.x, foods[1].position.y), (0.5, 0.52));
    assert!(foods[2].position.x != 0.503 || foods[2].position.y != 0.504);
    assert_eq!((foods[3].position.x, foods[3].position.y), (0.1, 0.9));
    // the animal itself stays where it is
    assert_eq!((animal.position.x, animal.position.y), (0.5, 0.5));
    assert_eq!(animal.speed, 0.002);
}

#[test]
fn animal_moves_the_way_it_is_turned_and_wraps_round() {
    let space = Draws::seeded();

    // turned by nothing, an animal goes up
    let mut animal = animal_at(0.5, 0.5, 0.0, 0.003);
    animal.process_movement(&space);
    assert_eq!(animal.position.x, 0.5);
    assert!((animal.position.y - 0.503).abs() < 1.0e-6);
    assert_eq!(animal.rotation, 0.0);
    assert_eq!(animal.speed, 0.003);

    // over the upper edge it comes back in at the lower one
    let mut animal = animal_at(0.5, 0.999, 0.0, 0.003);
    animal.process_movement(&space);
    assert!((animal.position.y - 0.002).abs() < 1.0e-6);

    // turned by a quarter to the left it goes left, and over the left edge
    let mut animal = animal_at(0.001, 0.5, FRAC_PI_2, 0.003);
    animal.process_movement(&space);
    assert!((animal.position.x - 0.998).abs() < 1.0e-6);
    assert!((animal.position.y - 0.5).abs() < 1.0e-6);
}

#[test]
fn animal_brain_step_keeps_to_the_limits() {
    let space = Draws::seeded();
    let limits = limits();
    let foods = vec![food_at(0.5, 0.6), food_at(0.45, 0.55), food_at(0.6, 0.6)];

    let mut animal = animal_at(0.5, 0.5, 0.0, 0.002);
    let genes = animal.as_chromosome().genes;
    for _ in 0..50 {
        let rotation = na::Rotation2::new(animal.rotation).angle();
        animal.process_brain(&space, &foods, &limits);
        assert!((0.001..=0.003).contains(&animal.speed));
        assert!((animal.rotation - rotation).abs() <= FRAC_PI_2);
        assert_eq!((animal.position.x, animal.position.y), (0.5, 0.5));
        assert_eq!(animal.food_eaten, 0);
    }
    assert_eq!(animal.as_chromosome().genes, genes);
}

#[test]
fn random_world_has_the_animals_and_foods_asked_for() {
    let mut rng = Recorder::new(Draws::seeded());
    let world = World::random(&mut rng, &settings());

    assert_eq!(world.animals().len(), 40);
    assert_eq!(world.foods().len(), 60);
    for animal in world.animals() {
        assert!(in_unit_square(animal.position));
        assert_eq!(animal.food_eaten, 0);
        assert_eq!(animal.eye.cells(), 9);
    }
    for food in world.foods() {
        assert!(in_unit_square(food.position()));
    }
}

#[test]
fn random_simulation_starts_at_age_zero() {
    let mut rng = Recorder::new(Draws::seeded());
    let simulation = Simulation::random(&mut rng, settings());

    assert_eq!(simulation.age(), 0);
    assert_eq!(simulation.world().animals().len(), 40);
    assert_eq!(simulation.world().foods().len(), 60);
    assert_eq!(simulation.settings().cells, 9);
}

#[test]
fn step_grows_the_generation_older_and_keeps_the_world_in_bounds() {
    let mut rng = Recorder::new(Draws::seeded());
    let mut simulation = Simulation::random(&mut rng, settings());

    for tick in 1..=100 {
        assert!(simulation.step(&mut rng).is_none());
        assert_eq!(simulation.age(), tick);
        assert_eq!(simulation.world().animals().len(), 40);
        assert_eq!(simulation.world().foods().len(), 60);
        for animal in simulation.world().animals() {
            assert!(in_unit_square(animal.position));
            assert!((0.001..=0.003).contains(&animal.speed));
        }
        for food in simulation.world().foods() {
            assert!(in_unit_square(food.position()));
        }
    }
}

#[test]
fn step_never_takes_food_back() {
    let mut rng = Recorder::new(Draws::seeded());
    let mut simulation = Simulation::random(
        &mut rng,
        Settings {
            foods: 400,
            eating_distance: 0.05,
            ..small_settings()
        },
    );

    let mut eaten = vec![0; 6];
    for _ in 0..200 {
        assert!(simulation.step(&mut rng).is_none());
        for (animal, before) in simulation.world().animals().iter().zip(eaten.iter_mut()) {
            assert!(animal.food_eaten >= *before);
            *before = animal.food_eaten;
        }
    }
    assert!(eaten.iter().any(|eaten| *eaten > 0));
}

#[test]
fn train_ends_the_generation_and_evolves_the_animals() {
    let mut rng = Recorder::new(Draws::seeded());
    let mut simulation = Simulation::random(
        &mut rng,
        Settings {
            eating_distance: 0.05,
            ..small_settings()
        },
    );

    for _ in 0..10 {
        assert!(simulation.step(&mut rng).is_none());
    }
    assert_eq!(simulation.age(), 10);

    let statistics = simulation.train(&mut rng);

    assert_eq!(simulation.age(), 0);
    assert_eq!(statistics.population_size(), 6);
    assert!(statistics.min_fitness() <= statistics.max_fitness());
    assert!(statistics.min_fitness() >= 0.0);
    assert!(statistics.sum_fitness() >= statistics.max_fitness());
    assert_eq!(simulation.world().animals().len(), 6);
    assert_eq!(simulation.world().foods().len(), 10);
    for animal in simulation.world().animals() {
        assert_eq!(animal.food_eaten, 0);
        assert_eq!(animal.speed, (0.001 + 0.003) / 2.0);
        assert_eq!(animal.brain.input_size(), 3);
        assert!(in_unit_square(animal.position));
    }

    // the next generation lasts as long: its last tick is the one past its length
    for _ in 0..GENERATION_LENGTH {
        assert!(simulation.step(&mut rng).is_none());
    }
    assert_eq!(simulation.age(), GENERATION_LENGTH);
    assert!(simulation.step(&mut rng).is_some());
    assert_eq!(simulation.age(), 0);
}

#[test]
fn without_mutation_children_have_their_parents_genes() {
    let mut rng = Recorder::new(Draws::seeded());
    let mut simulation = Simulation::random(
        &mut rng,
        Settings {
            animals: 4,
            foods: 30,
            cells: 2,
            eating_distance: 0.1,
            mutation_chance: 0.0,
            ..settings()
        },
    );

    let parents: Vec<Vec<f32>> = simulation
        .world()
        .animals()
        .iter()
        .map(|animal| animal.as_chromosome().genes)
        .collect();

    simulation.train(&mut rng);

    for animal in simulation.world().animals() {
        let genes = animal.as_chromosome().genes;
        assert_eq!(genes.len(), parents[0].len());
        for (position, gene) in genes.iter().enumerate() {
            assert!(parents.iter().any(|parent| parent[position] == *gene));
        }
    }
}

#[test]
fn animals_that_ate_nothing_still_evolve() {
    let mut rng = Recorder::new(Draws::seeded());
    // no food at all: no animal ever eats
    let mut simulation = Simulation::random(
        &mut rng,
        Settings {
            animals: 3,
            foods: 0,
            cells: 2,
            ..settings()
        },
    );

    let statistics = simulation.train(&mut rng);

    assert_eq!(statistics.min_fitness(), 0.0);
    assert_eq!(statistics.max_fitness(), 0.0);
    assert_eq!(statistics.sum_fitness(), 0.0);
    assert_eq!(statistics.population_size(), 3);
    assert_eq!(simulation.world().animals().len(), 3);
    assert_eq!(simulation.age(), 0);
}
