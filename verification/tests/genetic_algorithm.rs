use lib_simulation::Chromosome;
use lib_simulation::CrossoverMethod;
use lib_simulation::GaussianMutation;
use lib_simulation::GeneticAlgorithm;
use lib_simulation::Individual;
use lib_simulation::Measure;
use lib_simulation::MutationMethod;
use lib_simulation::Point;
use lib_simulation::RandomSource;
use lib_simulation::Recorder;
use lib_simulation::RouletteWheelSelection;
use lib_simulation::SelectionMethod;
use lib_simulation::Statistics;
use lib_simulation::UniformCrossover;
use lib_simulation::UniformSelection;
use nalgebra as na;
use rand::distributions::Distribution;
use rand::distributions::WeightedIndex;
use rand::Rng;
use rand::SeedableRng;
use rand_chacha::ChaCha8Rng;
use std::collections::BTreeMap;

struct Draws(ChaCha8Rng);

impl Draws {
    fn seeded() -> Self {
        Draws(ChaCha8Rng::from_seed(Default::default()))
    }
}

impl RandomSource<f32> for Draws {
    fn uniform(&mut self, low: f32, high: f32) -> f32 {
        self.0.gen_range(low..=high)
    }

    fn fair_coin(&mut self) -> bool {
        self.0.gen_bool(0.5)
    }

    fn bernoulli(&mut self, chance: f32) -> bool {
        self.0.gen_bool(chance as _)
    }

    fn weighted_index(&mut self, weights: &[f32]) -> usize {
        WeightedIndex::new(weights.iter())
            .expect("got an empty population")
            .sample(&mut self.0)
    }

    fn index(&mut self, size: usize) -> usize {
        self.0.gen_range(0..size)
    }

    fn point(&mut self) -> Point<f32> {
        let point: na::Point2<f32> = self.0.gen();

        Point {
            x: point.x,
            y: point.y,
        }
    }

    fn rotation(&mut self) -> f32 {
        let rotation: na::Rotation2<f32> = self.0.gen();

        rotation.angle()
    }
}

struct Counts;

impl Measure<f32> for Counts {
    fn scalar(&self, count: usize) -> f32 {
        count as f32
    }

    fn whole(&self, value: f32) -> usize {
        value as usize
    }
}

fn all_close(actual: &[f32], expected: &[f32]) -> bool {
    approx::Relative::default().eq(actual, expected)
}

#[derive(Clone, Debug)]
enum TestIndividual {
    WithChromosome { chromosome: Chromosome<f32> },
    WithFitness { fitness: f32 },
}

impl TestIndividual {
    fn new(fitness: f32) -> Self {
        Self::WithFitness { fitness }
    }
}

impl PartialEq for TestIndividual {
    fn eq(&self, other: &Self) -> bool {
        match (self, other) {
            (
                Self::WithChromosome { chromosome: a },
                Self::WithChromosome { chromosome: b },
            ) => all_close(a.genes.as_slice(), b.genes.as_slice()),
            (Self::WithFitness { fitness: a }, Self::WithFitness { fitness: b }) => a == b,
            _ => false,
        }
    }
}

impl Individual<f32> for TestIndividual {
    fn from_chromosome(chromosome: Chromosome<f32>) -> Self {
        Self::WithChromosome { chromosome }
    }

    fn fitness(&self) -> f32 {
        match self {
            Self::WithChromosome { chromosome } => chromosome.iter().sum(),
            Self::WithFitness { fitness } => *fitness,
        }
    }

    fn to_chromosome(&self) -> &Chromosome<f32> {
        match self {
            Self::WithChromosome { chromosome } => chromosome,
            Self::WithFitness { fitness: _ } => {
                panic!("not supported for TestIndividual::WithFitness")
            }
        }
    }
}

fn individual(genes: Vec<f32>) -> TestIndividual {
    let chromosome: Chromosome<f32> = Chromosome::new(genes);

    TestIndividual::WithChromosome {
        chromosome: chromosome,
    }
}

#[test]
fn uniform_test() {
    let mut rng = Recorder::new(Draws::seeded());
    let parent_a: Chromosome<f32> = Chromosome::new((1..=1000).map(|n| n as f32).collect());
    let parent_b: Chromosome<f32> = Chromosome::new((1..=1000).map(|n| -n as f32).collect());

    let uniform_crossover = UniformCrossover::new();
    let child: Chromosome<f32> = uniform_crossover.crossover(&mut rng, &parent_a, &parent_b);

    let mut diff_a = 0;
    let mut diff_b = 0;
    for i in 0..1000 {
        if child[i] > 0.0 {
            diff_b += 1;
        } else {
            diff_a += 1;
        }
    }

    assert_eq!(diff_a, 515);
    assert_eq!(diff_b, 485);
}

#[test]
fn lib_test() {
    let mut rng = Recorder::new(Draws::seeded());

    let ga = GeneticAlgorithm::new(
        RouletteWheelSelection::new(),
        UniformCrossover::new(),
        GaussianMutation::new(0.5, 0.5),
    );

    let mut population = vec![
        individual(vec![0.0, 0.0, 0.0]), // fitness = 0.0
        individual(vec![1.0, 1.0, 1.0]), // fitness = 3.0
        individual(vec![1.0, 2.0, 1.0]), // fitness = 4.0
        individual(vec![1.0, 2.0, 4.0]), // fitness = 7.0
    ];

    for _ in 0..10 {
        population = ga.evolve(&mut rng, &population).0;
    }

    let expected = vec![
        individual(vec![0.6002736, 1.5194247, 4.3595104]), // fitness ~= 6.5
        individual(vec![1.0955309, 2.4240465, 3.6959934]), // fitness ~= 7.2
        individual(vec![1.2753081, 2.4675508, 3.8890047]), // fitness ~= 7.6
        individual(vec![1.0225878, 2.4240465, 4.3595104]), // fitness ~= 7.8
    ];

    assert_eq!(population, expected)
}

fn mutated(chance: f32, coeff: f32) -> Vec<f32> {
    let mut child = Chromosome::new(vec![1.0, 2.0, 3.0, 4.0, 5.0, 6.0, 7.0]);

    let mut rng = Recorder::new(Draws::seeded());

    GaussianMutation::new(chance, coeff).mutate(&mut rng, &mut child);

    let mut genes = Vec::with_capacity(child.len());
    for i in 0..child.len() {
        genes.push(child[i]);
    }

    genes
}

fn no_change(chance: f32, coeff: f32) {
    let actual = mutated(chance, coeff);
    let expected = vec![1.0, 2.0, 3.0, 4.0, 5.0, 6.0, 7.0];

    assert!(all_close(actual.as_slice(), expected.as_slice()));
}

fn change(chance: f32, coeff: f32, expected: Vec<f32>) {
    let actual = mutated(chance, coeff);

    assert!(all_close(actual.as_slice(), expected.as_slice()));
}

#[test]
fn gaussian_test() {
    // zero chance, zero coefficient
    no_change(0.0, 0.0);
    // zero chance, nonzero coefficient
    no_change(0.0, 1.0);
    // half chance, zero coefficient
    no_change(0.5, 0.0);
    // half chance, nonzero coefficient
    change(
        0.5,
        1.0,
        vec![1.0, 2.0, 3.0693698, 3.5112038, 5.2754607, 6.0, 6.638722],
    );
    // max chance, zero coefficient
    no_change(1.0, 0.0);
    // max chance, nonzero coefficient
    change(
        1.0,
        1.0,
        vec![
            0.3744812, 2.6738396, 3.8181262, 4.262849, 5.523881, 5.464832, 7.06937,
        ],
    );
}

#[test]
fn roulette_wheel_test() {
    let selection_method = RouletteWheelSelection::new();
    let mut rng = Recorder::new(Draws::seeded());

    let population = vec![
        TestIndividual::new(2.0),
        TestIndividual::new(1.0),
        TestIndividual::new(4.0),
        TestIndividual::new(3.0),
    ];

    let mut actual = BTreeMap::new();
    for _ in 0..1000 {
        let fitness = selection_method.select(&mut rng, &population).fitness() as i32;

        *actual.entry(fitness).or_insert(0) += 1;
    }

    let mut expected = BTreeMap::new();
    expected.insert(1, 98);
    expected.insert(2, 202);
    expected.insert(3, 278);
    expected.insert(4, 422);

    assert_eq!(actual, expected);
}

#[test]
fn combine_takes_each_gene_from_the_parent_picked() {
    let a = Chromosome::new(vec![1.0, 2.0, 3.0, 4.0]);
    let b = Chromosome::new(vec![-1.0, -2.0, -3.0, -4.0]);
    let child = UniformCrossover::combine(&a, &b, &vec![true, false, false, true]);
    assert_eq!(child.genes, vec![1.0, -2.0, -3.0, 4.0]);
}

#[test]
fn crossover_keeps_length_and_parent_genes() {
    let mut rng = Recorder::new(Draws::seeded());
    let a = Chromosome::new(vec![1.0, 2.0, 3.0, 4.0, 5.0]);
    let b = Chromosome::new(vec![10.0, 20.0, 30.0, 40.0, 50.0]);
    let child = UniformCrossover::new().crossover(&mut rng, &a, &b);
    assert_eq!(child.len(), a.len());
    for i in 0..child.len() {
        assert!(child[i] == a[i] || child[i] == b[i]);
    }
}

#[test]
fn apply_adds_the_noise_planned() {
    let mut child = Chromosome::new(vec![1.0, 2.0, 3.0]);
    GaussianMutation::apply(&mut child, &vec![None, Some(0.5), Some(-3.0)]);
    assert_eq!(child.genes, vec![1.0, 2.5, 0.0]);

    let mut child = Chromosome::new(vec![1.0, 2.0, 3.0]);
    GaussianMutation::<f32>::apply(&mut child, &vec![None, None, None]);
    assert_eq!(child.genes, vec![1.0, 2.0, 3.0]);
}

#[test]
fn mutation_keeps_length() {
    let mut rng = Recorder::new(Draws::seeded());
    let mut child = Chromosome::new(vec![1.0; 37]);
    GaussianMutation::new(0.7, 2.0).mutate(&mut rng, &mut child);
    assert_eq!(child.len(), 37);
}

#[test]
fn pick_clamps_to_the_last_member() {
    let population = vec![10, 20, 30];
    assert_eq!(*RouletteWheelSelection::pick(&population, 0), 10);
    assert_eq!(*RouletteWheelSelection::pick(&population, 2), 30);
    assert_eq!(*RouletteWheelSelection::pick(&population, 3), 30);
    assert_eq!(*RouletteWheelSelection::pick(&population, usize::MAX), 30);
}

#[test]
fn fitnesses_are_in_population_order() {
    let population = vec![
        TestIndividual::new(2.0),
        TestIndividual::new(1.0),
        TestIndividual::new(4.0),
    ];
    assert_eq!(
        RouletteWheelSelection::weights(&population),
        vec![2.0, 1.0, 4.0]
    );
}

#[test]
fn statistics_of_a_population() {
    let population = vec![
        TestIndividual::new(30.0),
        TestIndividual::new(10.0),
        TestIndividual::new(20.0),
        TestIndividual::new(40.0),
    ];
    let stats: Statistics<f32> = Statistics::new(&population);
    assert_eq!(stats.min_fitness(), 10.0);
    assert_eq!(stats.max_fitness(), 40.0);
    assert_eq!(stats.sum_fitness(), 100.0);
    assert_eq!(stats.population_size(), 4);
    assert_eq!(stats.avg_fitness(&Counts), 25.0);
}

#[test]
fn statistics_of_one_member() {
    let population = vec![TestIndividual::new(7.5)];
    let stats: Statistics<f32> = Statistics::new(&population);
    assert_eq!(stats.min_fitness(), 7.5);
    assert_eq!(stats.max_fitness(), 7.5);
    assert_eq!(stats.sum_fitness(), 7.5);
    assert_eq!(stats.population_size(), 1);
    assert_eq!(stats.avg_fitness(&Counts), 7.5);
}

#[test]
fn evolve_keeps_the_population_size() {
    let mut rng = Recorder::new(Draws::seeded());
    let ga = GeneticAlgorithm::new(
        RouletteWheelSelection::new(),
        UniformCrossover::new(),
        GaussianMutation::new(0.5, 0.5),
    );
    let population = vec![
        individual(vec![0.0, 0.0, 0.0]),
        individual(vec![1.0, 1.0, 1.0]),
        individual(vec![1.0, 2.0, 1.0]),
        individual(vec![1.0, 2.0, 4.0]),
        individual(vec![3.0, 2.0, 4.0]),
    ];
    let (offspring, stats) = ga.evolve(&mut rng, &population);
    assert_eq!(offspring.len(), population.len());
    for child in offspring.iter() {
        assert_eq!(child.to_chromosome().len(), 3);
    }
    assert_eq!(stats.min_fitness(), 0.0);
    assert_eq!(stats.max_fitness(), 9.0);
    assert_eq!(stats.sum_fitness(), 23.0);
    assert_eq!(stats.population_size(), 5);
}

#[test]
fn uniform_selection_has_no_regard_to_fitness() {
    let selection_method = UniformSelection::new();
    let mut rng = Recorder::new(Draws::seeded());

    let population = vec![
        TestIndividual::new(0.0),
        TestIndividual::new(100.0),
        TestIndividual::new(0.0),
        TestIndividual::new(1.0),
    ];

    let mut chosen = [0; 4];
    for _ in 0..1000 {
        let member = selection_method.select(&mut rng, &population);
        let position = population
            .iter()
            .position(|other| std::ptr::eq(other, member))
            .unwrap();
        chosen[position] += 1;
    }

    assert_eq!(chosen.iter().sum::<i32>(), 1000);
    for count in chosen {
        assert!(count > 200 && count < 300);
    }
}

#[test]
fn roulette_never_chooses_a_member_of_no_fitness() {
    let selection_method = RouletteWheelSelection::new();
    let mut rng = Recorder::new(Draws::seeded());

    let population = vec![
        TestIndividual::new(0.0),
        TestIndividual::new(3.0),
        TestIndividual::new(0.0),
        TestIndividual::new(1.0),
    ];

    for _ in 0..1000 {
        assert!(selection_method.select(&mut rng, &population).fitness() > 0.0);
    }
}
