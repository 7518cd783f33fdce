use crate::crossover_method::{crossover_method, crossover_outcome, CrossoverMethod};
use crate::individual::Individual;
use crate::mutation_method::{mutation_method, mutation_outcome, MutationMethod};
use crate::probability::Probability;
use crate::random::random_ratio;
use crate::selection_method::{
    drawn_from, drawn_indices, lemma_full_draw_covers, selection_error, selection_method,
    selection_outcome, wins_tournament, SelectionError, SelectionMethod,
};
use vstd::prelude::*;

verus! {

/// Which of the two rates of a run is meant.
#[derive(Clone, Copy, Debug, PartialEq, Eq, Structural)]
pub enum RateName {
    CrossoverRate,
    MutationRate,
}

/// Why a run did not produce a result.
#[derive(Clone, Copy, Debug, PartialEq, Eq, Structural)]
pub enum GeneticAlgorithmError {
    /// The numbers of weights and of prices differ.
    DimensionsError(usize, usize),
    /// The named rate is not a probability.
    ProbabilityRangeError(RateName, Probability),
    /// The population size is odd or zero.
    PopulationSizeError(usize),
    /// A parent could not be selected.
    Selection(SelectionError),
}

/// The problem (items and capacity) and the configuration of a run.
pub struct GeneticAlgorithmData {
    pub weights: Vec<u64>,
    pub prices: Vec<u64>,
    pub capacity: u64,
    pub population_size: usize,
    pub generations: usize,
    pub crossover_method: CrossoverMethod,
    pub crossover_rate: Probability,
    pub mutation_method: MutationMethod,
    pub mutation_rate: Probability,
    pub selection_method: SelectionMethod,
}

/// The best individual seen over a run and the best score of each generation.
#[derive(Debug)]
pub struct GeneticAlgorithmResultData {
    pub best_individual: Individual,
    pub score_per_generation: Vec<u64>,
}

/// `individual` is a copy of a member that no other member outscores.
pub open spec fn is_fittest_copy(population: Seq<Individual>, individual: Individual) -> bool {
    &&& exists|j: int| 0 <= j < population.len() && individual@ == population[j]@
    &&& forall|m: int| 0 <= m < population.len() ==> (#[trigger] population[m]).fitness_score
        <= individual.fitness_score
}

/// Children `2k` and `2k + 1` of `next` are bred from `population`.
pub open spec fn bred_pair(
    data: GeneticAlgorithmData,
    population: Seq<Individual>,
    next: Seq<Individual>,
    k: int,
) -> bool {
    data.bred_from(population, next[2 * k], next[2 * k + 1])
}

/// `score` is the highest fitness in `population`.
pub open spec fn is_best_score(population: Seq<Individual>, score: u64) -> bool {
    &&& exists|k: int| 0 <= k < population.len() && population[k].fitness_score == score
    &&& forall|k: int| 0 <= k < population.len() ==> (#[trigger] population[k]).fitness_score <= score
}

/// The sum of `values[i]` over the first `n` positions whose gene is taken.
pub open spec fn taken_total(genes: Seq<bool>, values: Seq<u64>, n: int) -> int
    decreases n,
{
    if n <= 0 {
        0
    } else {
        taken_total(genes, values, n - 1) + if genes[n - 1] {
            values[n - 1] as int
        } else {
            0
        }
    }
}

/// The sum of the first `n` values.
pub open spec fn value_total(values: Seq<u64>, n: int) -> int
    decreases n,
{
    if n <= 0 {
        0
    } else {
        value_total(values, n - 1) + values[n - 1]
    }
}

/// The price of the taken items, or zero when their weight exceeds the
/// capacity.
pub open spec fn fitness_value(
    genes: Seq<bool>,
    weights: Seq<u64>,
    prices: Seq<u64>,
    capacity: u64,
) -> int {
    if taken_total(genes, weights, genes.len() as int) > capacity {
        0
    } else {
        taken_total(genes, prices, genes.len() as int)
    }
}

impl GeneticAlgorithmData {
    /// The number of items.
    pub open spec fn item_count(&self) -> nat {
        self.weights@.len()
    }

    /// The fitness of a chromosome for these items and this capacity.
    pub open spec fn fitness_of(&self, genes: Seq<bool>) -> int {
        fitness_value(genes, self.weights@, self.prices@, self.capacity)
    }

    /// The total weight of the items a chromosome takes.
    pub open spec fn weight_of(&self, genes: Seq<bool>) -> int {
        taken_total(genes, self.weights@, genes.len() as int)
    }

    /// The price of all items together fits a fitness score.
    pub open spec fn prices_fit(&self) -> bool {
        value_total(self.prices@, self.prices@.len() as int) <= u64::MAX
    }

    /// Some chromosome of the right length scores `score`.
    pub open spec fn achievable(&self, score: u64) -> bool {
        exists|genes: Seq<bool>| genes.len() == self.item_count() && score == self.fitness_of(genes)
    }

    /// The error that every breeding step of a run with a population of
    /// `population_size` fails with, when it does not depend on fitness.
    pub open spec fn run_error(&self) -> Option<SelectionError> {
        match self.selection_method.drawing_method() {
            SelectionMethod::Tournament { size } => if self.population_size < size {
                Some(SelectionError::PopulationSizeError(self.population_size, size))
            } else {
                None
            },
            SelectionMethod::Elitism { .. } => Some(
                SelectionError::InvalidSecondarySelectionError,
            ),
            SelectionMethod::Roulette => None,
        }
    }

    /// Parents are drawn by roulette.
    pub open spec fn draws_by_roulette(&self) -> bool {
        self.selection_method.drawing_method() is Roulette
    }

    /// `population` is a full generation, every member scored afresh.
    pub open spec fn is_scored_generation(&self, population: Seq<Individual>) -> bool {
        &&& population.len() == self.population_size
        &&& forall|k: int|
            0 <= k < population.len() ==> (#[trigger] population[k]).chromosome@.len()
                == self.item_count() && population[k].fitness_score == self.fitness_of(
                population[k].chromosome@,
            )
    }

    /// `c1` and `c2` are possible children bred from `population`: two
    /// parents drawn with the selection method, crossed, and each child
    /// mutated.
    pub open spec fn bred_from(
        &self,
        population: Seq<Individual>,
        c1: Individual,
        c2: Individual,
    ) -> bool {
        exists|p: Individual, q: Individual, x1: Individual, x2: Individual|
            {
                &&& selection_outcome(self.selection_method, population, p)
                &&& selection_outcome(self.selection_method, population, q)
                &&& crossover_outcome(
                    p,
                    q,
                    self.crossover_method,
                    self.crossover_rate,
                    x1,
                    x2,
                )
                &&& mutation_outcome(x1, self.mutation_method, self.mutation_rate, c1)
                &&& mutation_outcome(x2, self.mutation_method, self.mutation_rate, c2)
            }
    }

    /// `history` holds one scored generation per recorded score, and each
    /// score is the best fitness of its generation.
    pub open spec fn is_history(&self, history: Seq<Seq<Individual>>, scores: Seq<u64>) -> bool {
        &&& history.len() == scores.len()
        &&& forall|i: int|
            0 <= i < history.len() ==> self.is_scored_generation(#[trigger] history[i])
                && is_best_score(history[i], scores[i])
    }

    /// What a finished run returns: one score per generation, each the best
    /// fitness of that generation's population, none above the best
    /// individual's. After at least one generation the best individual
    /// carries its true fitness, which is the best of the recorded scores;
    /// with none it is unscored.
    pub open spec fn is_run_result(&self, result: GeneticAlgorithmResultData) -> bool {
        let scores = result.score_per_generation@;
        let best = result.best_individual;
        &&& scores.len() == self.generations
        &&& exists|history: Seq<Seq<Individual>>| self.is_history(history, scores)
        &&& self.generations == 0 ==> best.fitness_score == 0
        &&& best.chromosome@.len() == self.item_count()
        &&& forall|i: int| 0 <= i < scores.len() ==> #[trigger] scores[i] <= best.fitness_score
        &&& forall|i: int| 0 <= i < scores.len() ==> self.achievable(#[trigger] scores[i])
        &&& self.generations > 0 ==> {
            &&& best.fitness_score == self.fitness_of(best.chromosome@)
            &&& exists|i: int| 0 <= i < scores.len() && scores[i] == best.fitness_score
        }
    }

    /// The first rule of a valid configuration that the data breaks.
    pub open spec fn validation_error(&self) -> Option<GeneticAlgorithmError> {
        if self.weights@.len() != self.prices@.len() {
            Some(
                GeneticAlgorithmError::DimensionsError(
                    self.weights@.len() as usize,
                    self.prices@.len() as usize,
                ),
            )
        } else if !self.crossover_rate.is_valid() {
            Some(
                GeneticAlgorithmError::ProbabilityRangeError(
                    RateName::CrossoverRate,
                    self.crossover_rate,
                ),
            )
        } else if !self.mutation_rate.is_valid() {
            Some(
                GeneticAlgorithmError::ProbabilityRangeError(
                    RateName::MutationRate,
                    self.mutation_rate,
                ),
            )
        } else if self.population_size % 2 != 0 || self.population_size == 0 {
            Some(GeneticAlgorithmError::PopulationSizeError(self.population_size))
        } else {
            None
        }
    }
}

proof fn lemma_taken_bounds(genes: Seq<bool>, values: Seq<u64>, n: int)
    requires
        0 <= n <= genes.len(),
        n <= values.len(),
    ensures
        0 <= taken_total(genes, values, n) <= value_total(values, n),
        value_total(values, n) <= n * 0xffff_ffff_ffff_ffff,
    decreases n,
{
    if n > 0 {
        lemma_taken_bounds(genes, values, n - 1);
    }
}

proof fn lemma_total_fits(genes: Seq<bool>, values: Seq<u64>, n: int)
    requires
        0 <= n <= genes.len(),
        n <= values.len(),
        n <= usize::MAX,
    ensures
        0 <= taken_total(genes, values, n) < 0xffff_ffff_ffff_ffff_0000_0000_0000_0000,
{
    lemma_taken_bounds(genes, values, n);
    assert(n * 0xffff_ffff_ffff_ffff <= 0xffff_ffff_ffff_ffff * 0xffff_ffff_ffff_ffff)
        by (nonlinear_arith)
        requires
            0 <= n <= 0xffff_ffff_ffff_ffff,
    ;
}

proof fn lemma_fitness_nonnegative(genes: Seq<bool>, weights: Seq<u64>, prices: Seq<u64>, capacity: u64)
    requires
        genes.len() <= prices.len(),
    ensures
        fitness_value(genes, weights, prices, capacity) >= 0,
{
    lemma_taken_bounds(genes, prices, genes.len() as int);
}

proof fn lemma_prices_monotone(values: Seq<u64>, n: int, m: int)
    requires
        0 <= n <= m <= values.len(),
    ensures
        value_total(values, n) <= value_total(values, m),
    decreases m - n,
{
    if n < m {
        lemma_prices_monotone(values, n, m - 1);
    }
}

/// A chromosome whose taken items weigh more than the capacity scores
/// exactly zero, and no chromosome scores below zero.
pub proof fn lemma_overweight_scores_zero(data: &GeneticAlgorithmData, genes: Seq<bool>)
    requires
        genes.len() == data.item_count(),
        data.prices@.len() == data.weights@.len(),
    ensures
        data.fitness_of(genes) >= 0,
        data.weight_of(genes) > data.capacity ==> data.fitness_of(genes) == 0,
{
    lemma_fitness_nonnegative(genes, data.weights@, data.prices@, data.capacity);
}

/// Scores `individual`: the price of the items it takes, or zero when their
/// weight exceeds the capacity.
pub fn calculate_fitness(data: &GeneticAlgorithmData, individual: &Individual) -> (r: u64)
    requires
        individual.chromosome@.len() == data.weights@.len(),
        data.prices@.len() == data.weights@.len(),
        data.prices_fit(),
    ensures
        r == data.fitness_of(individual.chromosome@),
{
    let genes = &individual.chromosome;
    let len = genes.len();
    let mut total_weight: u128 = 0;
    let mut total_price: u64 = 0;
    let mut i: usize = 0;
    while i < len
        invariant
            len == genes@.len(),
            len == data.weights@.len(),
            len == data.prices@.len(),
            data.prices_fit(),
            i <= len,
            total_weight == taken_total(genes@, data.weights@, i as int),
            total_price == taken_total(genes@, data.prices@, i as int),
        decreases len - i,
    {
        proof {
            lemma_total_fits(genes@, data.weights@, i + 1);
            lemma_taken_bounds(genes@, data.prices@, i + 1);
            lemma_prices_monotone(data.prices@, i + 1, len as int);
        }
        if genes[i] {
            total_weight = total_weight + data.weights[i] as u128;
            total_price = total_price + data.prices[i];
        }
        i = i + 1;
    }
    if total_weight > data.capacity as u128 {
        return 0;
    }
    total_price
}

/// Checks, in this order, that there are as many weights as prices, that
/// both rates are probabilities, and that the population size is even and
/// not zero.
fn validate_data(data: &GeneticAlgorithmData) -> (r: Result<(), GeneticAlgorithmError>)
    ensures
        r == match data.validation_error() {
            Some(e) => Err(e),
            None => Ok::<(), GeneticAlgorithmError>(()),
        },
{
    if data.weights.len() != data.prices.len() {
        return Err(GeneticAlgorithmError::DimensionsError(data.weights.len(), data.prices.len()));
    }
    if !data.crossover_rate.check_valid() {
        return Err(
            GeneticAlgorithmError::ProbabilityRangeError(RateName::CrossoverRate, data.crossover_rate),
        );
    }
    if !data.mutation_rate.check_valid() {
        return Err(
            GeneticAlgorithmError::ProbabilityRangeError(RateName::MutationRate, data.mutation_rate),
        );
    }
    if data.population_size % 2 != 0 || data.population_size == 0 {
        return Err(GeneticAlgorithmError::PopulationSizeError(data.population_size));
    }
    Ok(())
}

/// An unscored individual whose genes are fair coin flips.
fn generate_random_individual(data_length: usize) -> (r: Individual)
    ensures
        r.chromosome@.len() == data_length,
        r.fitness_score == 0,
{
    let mut chromosome: Vec<bool> = Vec::with_capacity(data_length);
    let mut i: usize = 0;
    while i < data_length
        invariant
            i <= data_length,
            chromosome@.len() == i,
        decreases data_length - i,
    {
        chromosome.push(random_ratio(1, 2));
        i = i + 1;
    }
    Individual { chromosome, fitness_score: 0 }
}

/// `population_size` unscored random individuals of `data_length` genes.
fn generate_random_population(data_length: usize, population_size: usize) -> (r: Vec<Individual>)
    ensures
        r@.len() == population_size,
        forall|k: int|
            0 <= k < r@.len() ==> (#[trigger] r@[k]).chromosome@.len() == data_length
                && r@[k].fitness_score == 0,
{
    let mut population: Vec<Individual> = Vec::with_capacity(population_size);
    let mut i: usize = 0;
    while i < population_size
        invariant
            i <= population_size,
            population@.len() == i,
            forall|k: int|
                0 <= k < i ==> (#[trigger] population@[k]).chromosome@.len() == data_length
                    && population@[k].fitness_score == 0,
        decreases population_size - i,
    {
        population.push(generate_random_individual(data_length));
        i = i + 1;
    }
    population
}

/// A fittest member of a non-empty population.
fn find_best_individual(population: &Vec<Individual>) -> (r: Individual)
    requires
        population@.len() > 0,
    ensures
        exists|k: int| 0 <= k < population@.len() && r@ == population@[k]@,
        forall|j: int|
            0 <= j < population@.len() ==> (#[trigger] population@[j]).fitness_score
                <= r.fitness_score,
{
    let mut best: usize = 0;
    let mut j: usize = 1;
    while j < population.len()
        invariant
            1 <= j <= population@.len(),
            best < j,
            forall|i: int|
                0 <= i < j ==> (#[trigger] population@[i]).fitness_score
                    <= population@[best as int].fitness_score,
        decreases population@.len() - j,
    {
        if population[j].fitness_score >= population[best].fitness_score {
            best = j;
        }
        j = j + 1;
    }
    population[best].duplicate()
}

/// The population with every member scored afresh.
fn evaluate_population(data: &GeneticAlgorithmData, population: &Vec<Individual>) -> (r: Vec<
    Individual,
>)
    requires
        data.prices@.len() == data.weights@.len(),
        data.prices_fit(),
        forall|k: int|
            0 <= k < population@.len() ==> (#[trigger] population@[k]).chromosome@.len()
                == data.item_count(),
    ensures
        r@.len() == population@.len(),
        forall|k: int|
            0 <= k < r@.len() ==> (#[trigger] r@[k]).chromosome@ == population@[k].chromosome@
                && r@[k].fitness_score == data.fitness_of(r@[k].chromosome@),
{
    let mut evaluated: Vec<Individual> = Vec::with_capacity(population.len());
    let mut i: usize = 0;
    while i < population.len()
        invariant
            data.prices@.len() == data.weights@.len(),
            data.prices_fit(),
            forall|k: int|
                0 <= k < population@.len() ==> (#[trigger] population@[k]).chromosome@.len()
                    == data.item_count(),
            i <= population@.len(),
            evaluated@.len() == i,
            forall|k: int|
                0 <= k < i ==> (#[trigger] evaluated@[k]).chromosome@ == population@[k].chromosome@
                    && evaluated@[k].fitness_score == data.fitness_of(evaluated@[k].chromosome@),
        decreases population@.len() - i,
    {
        let fitness = calculate_fitness(data, &population[i]);
        let mut individual = population[i].duplicate();
        individual.fitness_score = fitness;
        evaluated.push(individual);
        i = i + 1;
    }
    evaluated
}

/// Breeds the next population: pairs of parents are selected, crossed and
/// mutated until `population_size` children are there. Fails with the
/// selection's error, which depends on the population alone.
fn generate_new_population(data: &GeneticAlgorithmData, population: &Vec<Individual>) -> (r:
    Result<Vec<Individual>, SelectionError>)
    requires
        population@.len() > 0,
        forall|k: int|
            0 <= k < population@.len() ==> (#[trigger] population@[k]).chromosome@.len()
                == data.item_count(),
        data.crossover_rate.is_valid(),
        data.mutation_rate.is_valid(),
        data.population_size % 2 == 0,
        data.selection_method.well_formed(),
    ensures
        match r {
            Ok(next) => {
                &&& next@.len() == data.population_size
                &&& forall|k: int|
                    0 <= k < next@.len() ==> (#[trigger] next@[k]).chromosome@.len()
                        == data.item_count()
                &&& forall|k: int|
                    0 <= k < next@.len() / 2 ==> #[trigger] bred_pair(*data, population@, next@, k)
            },
            Err(e) => selection_error(data.selection_method, population@) == Some(e),
        },
        data.population_size > 0 ==> (r is Ok <==> selection_error(
            data.selection_method,
            population@,
        ) == None::<SelectionError>),
{
    let mut new_population: Vec<Individual> = Vec::with_capacity(data.population_size);
    while new_population.len() < data.population_size
        invariant
            population@.len() > 0,
            forall|k: int|
                0 <= k < population@.len() ==> (#[trigger] population@[k]).chromosome@.len()
                    == data.item_count(),
            data.crossover_rate.is_valid(),
            data.mutation_rate.is_valid(),
            data.population_size % 2 == 0,
            data.selection_method.well_formed(),
            new_population@.len() % 2 == 0,
            new_population@.len() <= data.population_size,
            new_population@.len() > 0 ==> selection_error(data.selection_method, population@)
                == None::<SelectionError>,
            forall|k: int|
                0 <= k < new_population@.len() ==> (#[trigger] new_population@[k]).chromosome@.len()
                    == data.item_count(),
            forall|k: int|
                0 <= k < new_population@.len() / 2 ==> #[trigger] bred_pair(
                    *data,
                    population@,
                    new_population@,
                    k,
                ),
        decreases data.population_size - new_population@.len(),
    {
        let first = match selection_method(population, &data.selection_method) {
            Ok(individual) => individual,
            Err(e) => return Err(e),
        };
        let second = match selection_method(population, &data.selection_method) {
            Ok(individual) => individual,
            Err(e) => return Err(e),
        };
        let children = crossover_method(
            (&first, &second),
            &data.crossover_method,
            data.crossover_rate,
        );
        let child1 = mutation_method(&children.0, &data.mutation_method, data.mutation_rate);
        let child2 = mutation_method(&children.1, &data.mutation_method, data.mutation_rate);
        let ghost before = new_population@;
        proof {
            assert(data.bred_from(population@, child1, child2)) by {
                assert(selection_outcome(data.selection_method, population@, first));
                assert(selection_outcome(data.selection_method, population@, second));
                assert(crossover_outcome(
                    first,
                    second,
                    data.crossover_method,
                    data.crossover_rate,
                    children.0,
                    children.1,
                ));
            }
        }
        new_population.push(child1);
        new_population.push(child2);
        proof {
            let after = new_population@;
            let half = (before.len() / 2) as int;
            assert(after[2 * half] == child1);
            assert(after[2 * half + 1] == child2);
            assert forall|k: int| 0 <= k < after.len() / 2 implies #[trigger] bred_pair(
                *data,
                population@,
                after,
                k,
            ) by {
                if k < half {
                    assert(bred_pair(*data, population@, before, k));
                    assert(after[2 * k] == before[2 * k]);
                    assert(after[2 * k + 1] == before[2 * k + 1]);
                }
            }
        }
    }
    Ok(new_population)
}

/// When no chromosome scores above `optimum`, neither does any recorded
/// generation score nor the best individual.
pub proof fn lemma_run_within_optimum(
    data: &GeneticAlgorithmData,
    result: GeneticAlgorithmResultData,
    optimum: u64,
)
    requires
        data.is_run_result(result),
        forall|genes: Seq<bool>|
            genes.len() == data.item_count() ==> #[trigger] data.fitness_of(genes) <= optimum,
    ensures
        forall|i: int|
            0 <= i < result.score_per_generation@.len()
                ==> #[trigger] result.score_per_generation@[i] <= optimum,
        result.best_individual.fitness_score <= optimum,
{
    assert forall|i: int| 0 <= i < result.score_per_generation@.len() implies
        #[trigger] result.score_per_generation@[i] <= optimum by {
        assert(data.achievable(result.score_per_generation@[i]));
        let genes = choose|genes: Seq<bool>|
            genes.len() == data.item_count() && result.score_per_generation@[i]
                == data.fitness_of(genes);
        assert(data.fitness_of(genes) <= optimum);
    }
}

/// With both rates zero and a tournament as large as the population, the
/// children bred are plain copies of fittest members.
pub proof fn lemma_zero_rates_copy_fittest(
    data: &GeneticAlgorithmData,
    population: Seq<Individual>,
    c1: Individual,
    c2: Individual,
)
    requires
        data.bred_from(population, c1, c2),
        data.crossover_rate.is_never(),
        data.mutation_rate.is_never(),
        data.selection_method matches SelectionMethod::Tournament { size } && size
            == population.len(),
    ensures
        is_fittest_copy(population, c1),
        is_fittest_copy(population, c2),
{
    let (p, q, x1, x2) = choose|p: Individual, q: Individual, x1: Individual, x2: Individual|
        {
            &&& selection_outcome(data.selection_method, population, p)
            &&& selection_outcome(data.selection_method, population, q)
            &&& crossover_outcome(p, q, data.crossover_method, data.crossover_rate, x1, x2)
            &&& mutation_outcome(x1, data.mutation_method, data.mutation_rate, c1)
            &&& mutation_outcome(x2, data.mutation_method, data.mutation_rate, c2)
        };
    lemma_tournament_winner_fittest(population, p);
    lemma_tournament_winner_fittest(population, q);
    assert(c1@ == p@);
    assert(c2@ == q@);
}

/// A tournament over the whole population is won by a fittest member.
proof fn lemma_tournament_winner_fittest(population: Seq<Individual>, winner: Individual)
    requires
        selection_outcome(
            SelectionMethod::Tournament { size: population.len() as usize },
            population,
            winner,
        ),
        population.len() <= usize::MAX,
    ensures
        is_fittest_copy(population, winner),
{
    let n = population.len() as int;
    let (indices, k) = choose|indices: Seq<usize>, k: int|
        drawn_indices(n, indices, n) && wins_tournament(population, indices, k, winner);
    assert forall|m: int| 0 <= m < n implies (#[trigger] population[m]).fitness_score
        <= winner.fitness_score by {
        lemma_full_draw_covers(indices, n, m);
        let i = choose|i: int| 0 <= i < n && indices[i] == m;
        assert(population[indices[i] as int].fitness_score <= winner.fitness_score);
    }
    assert(indices[k] < n);
    assert(winner@ == population[indices[k] as int]@);
}

/// Records one scored generation: appends its best fitness to the series,
/// and takes a copy of a fittest member as the best individual when that
/// fitness beats the best individual's.
pub fn record_generation(result: &mut GeneticAlgorithmResultData, population: &Vec<Individual>)
    requires
        population@.len() > 0,
    ensures
        ({
            let scores = final(result).score_per_generation@;
            let score = scores.last();
            &&& scores.len() == old(result).score_per_generation@.len() + 1
            &&& scores.drop_last() == old(result).score_per_generation@
            &&& is_best_score(population@, score)
            &&& score > old(result).best_individual.fitness_score ==> drawn_from(
                population@,
                final(result).best_individual,
            ) && final(result).best_individual.fitness_score == score
            &&& score <= old(result).best_individual.fitness_score
                ==> final(result).best_individual@ == old(result).best_individual@
        }),
{
    let current_best_individual = find_best_individual(population);
    if current_best_individual.fitness_score > result.best_individual.fitness_score {
        result.best_individual = current_best_individual.duplicate();
    }
    result.score_per_generation.push(current_best_individual.fitness_score);
    proof {
        assert(result.score_per_generation@.drop_last() =~= old(result).score_per_generation@);
    }
}

/// Runs the evolutionary search.
///
/// An invalid configuration is rejected with the first rule it breaks. Else
/// a random population is scored, recorded and bred for `generations`
/// rounds; the result holds the best individual seen and each generation's
/// best score. The next generation consists of bred children only: Elitism's
/// `n_elites` carries no one forward. A run fails only with a selection error: the one that the
/// configuration fixes (a tournament larger than the population, Elitism
/// over Elitism), or a roulette over a population of zero total fitness.
pub fn genetic_algorithm(data: &GeneticAlgorithmData) -> (r: Result<
    GeneticAlgorithmResultData,
    GeneticAlgorithmError,
>)
    requires
        data.prices_fit(),
        data.validation_error() is None && data.generations > 0
            ==> data.selection_method.well_formed(),
    ensures
        data.validation_error() matches Some(e) ==> r == Err::<
            GeneticAlgorithmResultData,
            GeneticAlgorithmError,
        >(e),
        data.validation_error() is None ==> match r {
            Ok(result) => data.is_run_result(result),
            Err(e) => data.generations > 0 && ((data.run_error() matches Some(s) && e
                == GeneticAlgorithmError::Selection(s)) || (data.draws_by_roulette() && e
                == GeneticAlgorithmError::Selection(SelectionError::RouletteError))),
        },
        data.validation_error() is None && data.generations > 0 ==> (data.run_error() matches Some(
            s,
        ) ==> r == Err::<GeneticAlgorithmResultData, GeneticAlgorithmError>(
            GeneticAlgorithmError::Selection(s),
        )),
        data.validation_error() is None && (data.generations == 0 || (data.run_error() is None
            && !data.draws_by_roulette())) ==> r is Ok,
{
    match validate_data(data) {
        Ok(()) => {},
        Err(e) => return Err(e),
    }
    let data_length = data.weights.len();
    let mut population = generate_random_population(data_length, data.population_size);
    let mut result = GeneticAlgorithmResultData {
        best_individual: find_best_individual(&population),
        score_per_generation: Vec::with_capacity(data.generations),
    };
    let mut generation: usize = 0;
    let ghost mut history: Seq<Seq<Individual>> = Seq::empty();
    while generation < data.generations
        invariant
            data.validation_error() is None,
            data.prices_fit(),
            data.generations > 0 ==> data.selection_method.well_formed(),
            data_length == data.item_count(),
            generation <= data.generations,
            population@.len() == data.population_size,
            forall|k: int|
                0 <= k < population@.len() ==> (#[trigger] population@[k]).chromosome@.len()
                    == data.item_count(),
            result.score_per_generation@.len() == generation,
            data.is_history(history, result.score_per_generation@),
            result.best_individual.chromosome@.len() == data.item_count(),
            forall|i: int|
                0 <= i < generation ==> #[trigger] result.score_per_generation@[i]
                    <= result.best_individual.fitness_score,
            forall|i: int|
                0 <= i < generation ==> data.achievable(#[trigger] result.score_per_generation@[i]),
            generation > 0 ==> result.best_individual.fitness_score == data.fitness_of(
                result.best_individual.chromosome@,
            ),
            generation > 0 ==> exists|i: int|
                0 <= i < generation && result.score_per_generation@[i]
                    == result.best_individual.fitness_score,
            generation > 0 ==> data.run_error() is None,
            generation == 0 ==> result.best_individual.fitness_score == 0,
            generation == 0 ==> exists|k: int|
                0 <= k < population@.len() && result.best_individual.chromosome@
                    == population@[k].chromosome@,
        decreases data.generations - generation,
    {
        let evaluated = evaluate_population(data, &population);
        let ghost old_best = result.best_individual;
        let ghost old_scores = result.score_per_generation@;
        record_generation(&mut result, &evaluated);
        proof {
            let scores = result.score_per_generation@;
            let score = scores[generation as int];
            assert(score == scores.last());
            assert forall|i: int| 0 <= i < generation implies scores[i] == old_scores[i] by {
                assert(scores.drop_last()[i] == scores[i]);
            }
            let k = choose|k: int| 0 <= k < evaluated@.len() && evaluated@[k].fitness_score == score;
            assert(data.achievable(score)) by {
                assert(evaluated@[k].chromosome@.len() == data.item_count());
            }
            if score > old_best.fitness_score {
                let j = choose|j: int|
                    0 <= j < evaluated@.len() && result.best_individual@ == evaluated@[j]@;
                assert(evaluated@[j].chromosome@.len() == data.item_count());
            }
            if generation == 0 {
                let k0 = choose|k: int|
                    0 <= k < population@.len() && old_best.chromosome@
                        == population@[k].chromosome@;
                assert(evaluated@[k0].chromosome@ == old_best.chromosome@);
                assert(evaluated@[k0].fitness_score <= score);
                lemma_fitness_nonnegative(
                    old_best.chromosome@,
                    data.weights@,
                    data.prices@,
                    data.capacity,
                );
            }
            assert forall|i: int| 0 <= i <= generation implies #[trigger] scores[i]
                <= result.best_individual.fitness_score by {}
            if generation > 0 && score <= old_best.fitness_score {
                let i = choose|i: int|
                    0 <= i < generation && old_scores[i] == old_best.fitness_score;
                assert(scores[i] == result.best_individual.fitness_score);
            } else {
                assert(scores[generation as int] == result.best_individual.fitness_score);
            }
            let old_history = history;
            history = history.push(evaluated@);
            assert(data.is_scored_generation(evaluated@));
            assert forall|i: int| 0 <= i < history.len() implies data.is_scored_generation(
                #[trigger] history[i],
            ) && is_best_score(history[i], scores[i]) by {
                if i < generation {
                    assert(history[i] == old_history[i]);
                    assert(scores[i] == old_scores[i]);
                }
            }
        }
        population = match generate_new_population(data, &evaluated) {
            Ok(next) => next,
            Err(e) => return Err(GeneticAlgorithmError::Selection(e)),
        };
        assert(selection_error(data.selection_method, evaluated@) == None::<SelectionError>);
        assert(data.run_error() is None);
        generation = generation + 1;
    }
    Ok(result)
}

} // verus!
