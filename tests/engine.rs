use knapsack_genetic::crossover_method::CrossoverMethod;
use knapsack_genetic::genetic_algorithm::{
    calculate_fitness, genetic_algorithm, record_generation, GeneticAlgorithmData,
    GeneticAlgorithmError, GeneticAlgorithmResultData, RateName,
};
use knapsack_genetic::individual::Individual;
use knapsack_genetic::mutation_method::MutationMethod;
use knapsack_genetic::probability::Probability;
use knapsack_genetic::selection_method::{SelectionError, SelectionMethod};

const BENCH_WEIGHTS: [u64; 24] = [
    382745, 799601, 909247, 729069, 467902, 44328, 34610, 698150, 823460, 903959, 853665, 551830,
    610856, 670702, 488960, 951111, 323046, 446298, 931161, 31385, 496951, 264724, 224916, 169684,
];
const BENCH_PRICES: [u64; 24] = [
    825594, 1677009, 1676628, 1523970, 943972, 97426, 69666, 1296457, 1679693, 1902996, 1844992,
    1049289, 1252836, 1319836, 953277, 2067538, 675367, 853655, 1826027, 65731, 901489, 577243,
    466257, 369261,
];
const BENCH_CAPACITY: u64 = 6404180;
const BENCH_OPTIMUM: u64 = 13549094;

fn small_data(population_size: usize, generations: usize, selection: SelectionMethod) -> GeneticAlgorithmData {
    GeneticAlgorithmData {
        weights: vec![27, 10, 25, 25, 7],
        prices: vec![13, 19, 7, 16, 3],
        capacity: 66,
        population_size,
        generations,
        crossover_method: CrossoverMethod::SinglePoint,
        crossover_rate: Probability::new(1, 2),
        mutation_method: MutationMethod::BitFlip,
        mutation_rate: Probability::new(1, 20),
        selection_method: selection,
    }
}

fn weight_of(data: &GeneticAlgorithmData, genes: &[bool]) -> u64 {
    genes.iter().zip(data.weights.iter()).filter(|(g, _)| **g).map(|(_, w)| *w).sum()
}

fn score(data: &GeneticAlgorithmData, genes: &[bool]) -> u64 {
    calculate_fitness(data, &Individual { chromosome: genes.to_vec(), fitness_score: 0 })
}

#[test]
fn fitness_sums_prices_of_taken_items() {
    let data = small_data(2, 1, SelectionMethod::Roulette);
    assert_eq!(score(&data, &[true, true, true, false, false]), 39);
    assert_eq!(score(&data, &[false, true, false, true, true]), 38);
    assert_eq!(score(&data, &[false; 5]), 0);
}

#[test]
fn fitness_at_exact_capacity_counts() {
    let data = small_data(2, 1, SelectionMethod::Roulette);
    // 27 + 10 + 25 = 62; 62 + 7 = 69 > 66, but 27 + 25 + 7 = 59.
    assert_eq!(score(&data, &[true, false, true, false, true]), 23);
    let exact = GeneticAlgorithmData { capacity: 62, ..small_data(2, 1, SelectionMethod::Roulette) };
    assert_eq!(score(&exact, &[true, true, true, false, false]), 39);
}

#[test]
fn overweight_chromosome_scores_zero() {
    let data = small_data(2, 1, SelectionMethod::Roulette);
    assert_eq!(score(&data, &[true, true, true, true, false]), 0);
    assert_eq!(score(&data, &[true; 5]), 0);
}

#[test]
fn validation_rejects_odd_and_zero_population() {
    for size in [7, 0] {
        let data = small_data(size, 3, SelectionMethod::Tournament { size: 1 });
        assert_eq!(
            genetic_algorithm(&data).unwrap_err(),
            GeneticAlgorithmError::PopulationSizeError(size)
        );
    }
    let data = small_data(50, 3, SelectionMethod::Tournament { size: 10 });
    assert!(genetic_algorithm(&data).is_ok());
}

#[test]
fn validation_rejects_mismatched_dimensions() {
    let mut data = small_data(4, 3, SelectionMethod::Roulette);
    data.prices.push(1);
    data.population_size = 7;
    assert_eq!(genetic_algorithm(&data).unwrap_err(), GeneticAlgorithmError::DimensionsError(5, 6));
}

#[test]
fn validation_rejects_rates_outside_unit_interval() {
    let mut data = small_data(4, 3, SelectionMethod::Roulette);
    data.crossover_rate = Probability::new(3, 2);
    data.mutation_rate = Probability::new(1, 0);
    assert_eq!(
        genetic_algorithm(&data).unwrap_err(),
        GeneticAlgorithmError::ProbabilityRangeError(RateName::CrossoverRate, Probability::new(3, 2))
    );
    data.crossover_rate = Probability::new(1, 1);
    assert_eq!(
        genetic_algorithm(&data).unwrap_err(),
        GeneticAlgorithmError::ProbabilityRangeError(RateName::MutationRate, Probability::new(1, 0))
    );
}

#[test]
fn oversized_tournament_aborts_the_run() {
    let data = small_data(4, 3, SelectionMethod::Tournament { size: 6 });
    assert_eq!(
        genetic_algorithm(&data).unwrap_err(),
        GeneticAlgorithmError::Selection(SelectionError::PopulationSizeError(4, 6))
    );
}

#[test]
fn nested_elitism_aborts_the_run() {
    let data = small_data(
        4,
        2,
        SelectionMethod::Elitism {
            n_elites: 1,
            secondary_selection: Box::new(SelectionMethod::Elitism {
                n_elites: 1,
                secondary_selection: Box::new(SelectionMethod::Roulette),
            }),
        },
    );
    assert_eq!(
        genetic_algorithm(&data).unwrap_err(),
        GeneticAlgorithmError::Selection(SelectionError::InvalidSecondarySelectionError)
    );
}

#[test]
fn zero_generations_returns_empty_series() {
    let data = small_data(4, 0, SelectionMethod::Tournament { size: 9 });
    let result = genetic_algorithm(&data).unwrap();
    assert!(result.score_per_generation.is_empty());
    assert_eq!(result.best_individual.fitness_score, 0);
    assert_eq!(result.best_individual.chromosome.len(), 5);
}

#[test]
fn roulette_run_either_finishes_or_reports_roulette_error() {
    let data = small_data(10, 5, SelectionMethod::Roulette);
    match genetic_algorithm(&data) {
        Ok(result) => assert_eq!(result.score_per_generation.len(), 5),
        Err(e) => assert_eq!(e, GeneticAlgorithmError::Selection(SelectionError::RouletteError)),
    }
}

#[test]
fn small_instance_end_to_end() {
    let data = small_data(50, 10, SelectionMethod::Tournament { size: 10 });
    let result = genetic_algorithm(&data).unwrap();
    assert_eq!(result.score_per_generation.len(), 10);
    assert!(weight_of(&data, &result.best_individual.chromosome) <= 66);
    let best = result.best_individual.fitness_score;
    assert_eq!(best, score(&data, &result.best_individual.chromosome));
    assert_eq!(best, *result.score_per_generation.iter().max().unwrap());
}

#[test]
fn best_never_below_any_generation_score() {
    for _ in 0..5 {
        let data = small_data(6, 20, SelectionMethod::Tournament { size: 3 });
        let result = genetic_algorithm(&data).unwrap();
        assert_eq!(result.score_per_generation.len(), 20);
        for s in &result.score_per_generation {
            assert!(*s <= result.best_individual.fitness_score);
        }
    }
}

#[test]
fn benchmark_instance_stays_within_optimum() {
    let data = GeneticAlgorithmData {
        weights: BENCH_WEIGHTS.to_vec(),
        prices: BENCH_PRICES.to_vec(),
        capacity: BENCH_CAPACITY,
        population_size: 100,
        generations: 1000,
        crossover_method: CrossoverMethod::MultiPoint { n_points: 2 },
        crossover_rate: Probability::new(1, 2),
        mutation_method: MutationMethod::BitFlip,
        mutation_rate: Probability::new(1, 10),
        selection_method: SelectionMethod::Elitism {
            n_elites: 1,
            secondary_selection: Box::new(SelectionMethod::Tournament { size: 10 }),
        },
    };
    let result = genetic_algorithm(&data).unwrap();
    assert_eq!(result.score_per_generation.len(), 1000);
    let best = result.best_individual.fitness_score;
    assert!(best <= BENCH_OPTIMUM);
    assert!(best > 0);
    let mut running = 0;
    for s in &result.score_per_generation {
        assert!(*s <= BENCH_OPTIMUM);
        assert!(*s <= best);
        running = running.max(*s);
    }
    assert_eq!(running, best);
}

#[test]
fn record_generation_keeps_best_unless_beaten() {
    let mut result = GeneticAlgorithmResultData {
        best_individual: Individual { chromosome: vec![true, false], fitness_score: 10 },
        score_per_generation: vec![10],
    };
    let weaker = vec![
        Individual { chromosome: vec![false, false], fitness_score: 3 },
        Individual { chromosome: vec![false, true], fitness_score: 7 },
    ];
    record_generation(&mut result, &weaker);
    assert_eq!(result.score_per_generation, vec![10, 7]);
    assert_eq!(result.best_individual.chromosome, vec![true, false]);
    let stronger = vec![
        Individual { chromosome: vec![true, true], fitness_score: 12 },
        Individual { chromosome: vec![false, true], fitness_score: 5 },
    ];
    record_generation(&mut result, &stronger);
    assert_eq!(result.score_per_generation, vec![10, 7, 12]);
    assert_eq!(result.best_individual.chromosome, vec![true, true]);
    assert_eq!(result.best_individual.fitness_score, 12);
}

#[test]
fn zero_rates_and_full_tournament_breed_copies_of_the_fittest() {
    let mut data = small_data(8, 6, SelectionMethod::Tournament { size: 8 });
    data.crossover_rate = Probability::new(0, 1);
    data.mutation_rate = Probability::new(0, 1);
    let result = genetic_algorithm(&data).unwrap();
    let first = result.score_per_generation[0];
    assert!(result.score_per_generation.iter().all(|s| *s == first));
    assert_eq!(result.best_individual.fitness_score, first);
}

#[test]
fn zero_size_tournament_is_fine_when_validation_fails() {
    let data = small_data(3, 2, SelectionMethod::Tournament { size: 0 });
    assert_eq!(genetic_algorithm(&data).unwrap_err(), GeneticAlgorithmError::PopulationSizeError(3));
}
