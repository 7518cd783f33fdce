use crate::individual::Individual;
use crate::random::{random_below, sample_indices};
use vstd::prelude::*;

verus! {

/// Why a parent could not be selected.
#[derive(Clone, Copy, Debug, PartialEq, Eq, Structural)]
pub enum SelectionError {
    /// The population (first number) is smaller than the tournament size or
    /// the number of elites asked for (second number).
    PopulationSizeError(usize, usize),
    /// No cumulative fitness reached the roulette's draw: the population's
    /// total fitness is zero.
    RouletteError,
    /// Elitism was given Elitism as its secondary method.
    InvalidSecondarySelectionError,
}

/// How a parent is drawn from a population.
#[derive(Debug)]
pub enum SelectionMethod {
    /// The fittest of `size` distinct individuals drawn uniformly.
    Tournament { size: usize },
    /// Delegates each draw to `secondary_selection`. `n_elites` is kept as
    /// configuration only: no individual is carried into the next generation
    /// unchanged. `select_elites` gives a caller the elites themselves.
    Elitism { n_elites: usize, secondary_selection: Box<SelectionMethod> },
    /// Fitness-proportionate draw.
    Roulette,
}

impl SelectionMethod {
    /// Every tournament that can be run draws at least one individual.
    pub open spec fn well_formed(&self) -> bool {
        match *self {
            SelectionMethod::Tournament { size } => size > 0,
            SelectionMethod::Roulette => true,
            SelectionMethod::Elitism { secondary_selection, .. } => match *secondary_selection {
                SelectionMethod::Tournament { size } => size > 0,
                _ => true,
            },
        }
    }

    /// The method that actually draws: the secondary method of Elitism.
    pub open spec fn drawing_method(&self) -> SelectionMethod {
        match *self {
            SelectionMethod::Elitism { secondary_selection, .. } => *secondary_selection,
            _ => *self,
        }
    }
}

/// The sum of the fitness scores of the first `k` individuals.
pub open spec fn prefix_fitness(population: Seq<Individual>, k: int) -> int
    decreases k,
{
    if k <= 0 {
        0
    } else {
        prefix_fitness(population, k - 1) + population[k - 1].fitness_score
    }
}

/// The sum of all fitness scores.
pub open spec fn total_fitness(population: Seq<Individual>) -> int {
    prefix_fitness(population, population.len() as int)
}

/// The error of a Tournament or Roulette draw from `population`, if any.
pub open spec fn direct_error(method: SelectionMethod, population: Seq<Individual>) -> Option<
    SelectionError,
> {
    match method {
        SelectionMethod::Tournament { size } => if population.len() < size {
            Some(SelectionError::PopulationSizeError(population.len() as usize, size))
        } else {
            None
        },
        SelectionMethod::Roulette => if total_fitness(population) == 0 {
            Some(SelectionError::RouletteError)
        } else {
            None
        },
        SelectionMethod::Elitism { .. } => Some(SelectionError::InvalidSecondarySelectionError),
    }
}

/// The error that a draw with `method` from `population` fails with, if any.
pub open spec fn selection_error(method: SelectionMethod, population: Seq<Individual>) -> Option<
    SelectionError,
> {
    direct_error(method.drawing_method(), population)
}

/// `individual` is a copy of some member of `population`.
pub open spec fn drawn_from(population: Seq<Individual>, individual: Individual) -> bool {
    exists|k: int| 0 <= k < population.len() && individual@ == population[k]@
}

/// `indices` are `size` distinct positions of a population of `len` members.
pub open spec fn drawn_indices(len: int, indices: Seq<usize>, size: int) -> bool {
    &&& indices.len() == size
    &&& forall|i: int| 0 <= i < indices.len() ==> #[trigger] indices[i] < len
    &&& forall|i: int, j: int| 0 <= i < j < indices.len() ==> indices[i] != indices[j]
}

/// `winner` is the member at `indices[k]`, and no contestant is fitter.
pub open spec fn wins_tournament(
    population: Seq<Individual>,
    indices: Seq<usize>,
    k: int,
    winner: Individual,
) -> bool {
    &&& 0 <= k < indices.len()
    &&& winner@ == population[indices[k] as int]@
    &&& forall|j: int|
        0 <= j < indices.len() ==> #[trigger] population[indices[j] as int].fitness_score
            <= winner.fitness_score
}

/// `individual` is a possible outcome of one draw with `method`: the winner
/// of a tournament between distinct members, or the member at which the
/// cumulative fitness first reaches a value below the total fitness.
pub open spec fn selection_outcome(
    method: SelectionMethod,
    population: Seq<Individual>,
    individual: Individual,
) -> bool {
    match method.drawing_method() {
        SelectionMethod::Tournament { size } => exists|indices: Seq<usize>, k: int|
            drawn_indices(population.len() as int, indices, size as int) && wins_tournament(
                population,
                indices,
                k,
                individual,
            ),
        SelectionMethod::Roulette => exists|target: int, k: int|
            0 <= target < total_fitness(population) && roulette_stop(population, target, k)
                && individual@ == population[k]@,
        SelectionMethod::Elitism { .. } => false,
    }
}

/// `k` is the first position whose cumulative fitness reaches `target`.
pub open spec fn roulette_stop(population: Seq<Individual>, target: int, k: int) -> bool {
    &&& 0 <= k < population.len()
    &&& prefix_fitness(population, k + 1) >= target
    &&& forall|j: int| 0 <= j < k ==> #[trigger] prefix_fitness(population, j + 1) < target
}

proof fn lemma_prefix_bound(population: Seq<Individual>, k: int)
    requires
        0 <= k <= population.len(),
    ensures
        0 <= prefix_fitness(population, k) <= k * 0xffff_ffff_ffff_ffff,
    decreases k,
{
    if k > 0 {
        lemma_prefix_bound(population, k - 1);
    }
}

proof fn lemma_prefix_fits(population: Seq<Individual>, k: int)
    requires
        0 <= k <= population.len(),
        population.len() <= usize::MAX,
    ensures
        0 <= prefix_fitness(population, k) < 0xffff_ffff_ffff_ffff_0000_0000_0000_0000,
{
    lemma_prefix_bound(population, k);
    assert(k * 0xffff_ffff_ffff_ffff <= 0xffff_ffff_ffff_ffff * 0xffff_ffff_ffff_ffff)
        by (nonlinear_arith)
        requires
            0 <= k <= 0xffff_ffff_ffff_ffff,
    ;
}

/// Member `i` comes before member `j` in the order in which elites are
/// picked: it is fitter, or as fit and later in the population.
spec fn ranks_before(population: Seq<Individual>, i: int, j: int) -> bool {
    population[i].fitness_score > population[j].fitness_score || (population[i].fitness_score
        == population[j].fitness_score && i > j)
}

/// `indices` are `n` distinct positions of members, fittest first, and no
/// member left out is fitter than one taken.
pub open spec fn elite_positions(population: Seq<Individual>, indices: Seq<int>, n: int) -> bool {
    &&& indices.len() == n
    &&& forall|k: int| 0 <= k < n ==> 0 <= #[trigger] indices[k] < population.len()
    &&& forall|k: int, l: int|
        0 <= k < l < n ==> #[trigger] indices[k] != #[trigger] indices[l]
            && population[indices[k]].fitness_score >= population[indices[l]].fitness_score
    &&& forall|j: int, k: int|
        #![trigger population[j], indices[k]]
        0 <= j < population.len() && !indices.contains(j) && 0 <= k < n
            ==> population[j].fitness_score <= population[indices[k]].fitness_score
}

proof fn lemma_some_unchosen(indices: Seq<int>, len: int)
    requires
        indices.len() < len,
    ensures
        exists|j: int| 0 <= j < len && !indices.contains(j),
{
    broadcast use vstd::seq_lib::seq_to_set_is_finite;

    if forall|j: int| 0 <= j < len ==> indices.contains(j) {
        let range = vstd::set_lib::set_int_range(0, len);
        assert(range.subset_of(indices.to_set())) by {
            assert forall|j: int| range.contains(j) implies indices.to_set().contains(j) by {
                assert(indices.contains(j));
            }
        }
        vstd::set_lib::lemma_int_range(0, len);
        vstd::set_lib::lemma_len_subset(range, indices.to_set());
        indices.lemma_cardinality_of_set();
    }
}

/// Copies of `n_elites` fittest members, fittest first. Fails when the population has
/// fewer members than asked for.
pub fn select_elites(population: &Vec<Individual>, n_elites: usize) -> (r: Result<
    Vec<Individual>,
    SelectionError,
>)
    ensures
        population@.len() < n_elites ==> r == Err::<Vec<Individual>, SelectionError>(
            SelectionError::PopulationSizeError(population@.len() as usize, n_elites),
        ),
        population@.len() >= n_elites ==> r is Ok && exists|indices: Seq<int>|
            elite_positions(population@, indices, n_elites as int) && r->Ok_0@.len() == n_elites
                && forall|k: int|
                0 <= k < n_elites ==> (#[trigger] r->Ok_0@[k])@ == population@[indices[k]]@,
{
    let len = population.len();
    if len < n_elites {
        return Err(SelectionError::PopulationSizeError(len, n_elites));
    }
    let mut chosen: Vec<bool> = Vec::with_capacity(len);
    let mut i: usize = 0;
    while i < len
        invariant
            i <= len,
            chosen@.len() == i,
            forall|j: int| 0 <= j < i ==> !chosen@[j],
        decreases len - i,
    {
        chosen.push(false);
        i = i + 1;
    }
    let mut elites: Vec<Individual> = Vec::with_capacity(n_elites);
    let ghost mut indices: Seq<int> = Seq::empty();
    let mut round: usize = 0;
    while round < n_elites
        invariant
            len == population@.len(),
            n_elites <= len,
            round <= n_elites,
            chosen@.len() == len,
            elites@.len() == round,
            indices.len() == round,
            forall|j: int| 0 <= j < len ==> (chosen@[j] <==> indices.contains(j)),
            forall|k: int| 0 <= k < round ==> 0 <= #[trigger] indices[k] < len,
            forall|k: int| 0 <= k < round ==> (#[trigger] elites@[k])@ == population@[indices[k]]@,
            forall|k: int, l: int|
                0 <= k < l < round ==> ranks_before(
                    population@,
                    #[trigger] indices[k],
                    #[trigger] indices[l],
                ),
            forall|j: int, k: int|
                0 <= j < len && !indices.contains(j) && 0 <= k < round ==> #[trigger] ranks_before(
                    population@,
                    indices[k],
                    j,
                ),
        decreases n_elites - round,
    {
        let mut best: usize = len;
        let mut j: usize = 0;
        while j < len
            invariant
                len == population@.len(),
                chosen@.len() == len,
                j <= len,
                best == len || (best < j && !chosen@[best as int]),
                forall|m: int|
                    0 <= m < j && !chosen@[m] ==> best < len && (m == best || ranks_before(
                        population@,
                        best as int,
                        m,
                    )),
            decreases len - j,
        {
            if !chosen[j] && (best == len || population[j].fitness_score
                >= population[best].fitness_score) {
                best = j;
            }
            j = j + 1;
        }
        proof {
            lemma_some_unchosen(indices, len as int);
            let m = choose|m: int| 0 <= m < len && !indices.contains(m);
            assert(!chosen@[m]);
        }
        chosen.set(best, true);
        elites.push(population[best].duplicate());
        let ghost before = indices;
        proof {
            indices = indices.push(best as int);
            assert forall|m: int| 0 <= m < len implies (chosen@[m] <==> indices.contains(m)) by {
                if m == best {
                    assert(indices[round as int] == m);
                } else if before.contains(m) {
                    let k = choose|k: int| 0 <= k < before.len() && before[k] == m;
                    assert(indices[k] == m);
                } else if indices.contains(m) {
                    let k = choose|k: int| 0 <= k < indices.len() && indices[k] == m;
                    assert(k < before.len());
                    assert(before[k] == m);
                }
            }
            assert forall|k: int, l: int| 0 <= k < l < round + 1 implies ranks_before(
                population@,
                #[trigger] indices[k],
                #[trigger] indices[l],
            ) by {
                assert(indices[k] == before[k]);
                if l < round {
                    assert(indices[l] == before[l]);
                } else {
                    assert(!before.contains(best as int));
                }
            }
            assert forall|m: int, k: int|
                0 <= m < len && !indices.contains(m) && 0 <= k < round + 1 implies #[trigger] ranks_before(
                population@,
                indices[k],
                m,
            ) by {
                assert(m != best) by {
                    assert(indices[round as int] == best);
                }
                if k < round {
                    assert(indices[k] == before[k]);
                    assert(!before.contains(m)) by {
                        if before.contains(m) {
                            let q = choose|q: int| 0 <= q < before.len() && before[q] == m;
                            assert(indices[q] == m);
                        }
                    }
                } else {
                    assert(!chosen@[m]);
                }
            }
        }
        round = round + 1;
    }
    proof {
        assert forall|k: int, l: int| 0 <= k < l < n_elites implies #[trigger] indices[k]
            != #[trigger] indices[l] && population@[indices[k]].fitness_score
            >= population@[indices[l]].fitness_score by {
            assert(ranks_before(population@, indices[k], indices[l]));
        }
        assert forall|j: int, k: int|
            #![trigger population@[j], indices[k]]
            0 <= j < len && !indices.contains(j) && 0 <= k < n_elites implies population@[j].fitness_score
            <= population@[indices[k]].fitness_score by {
            assert(ranks_before(population@, indices[k], j));
        }
        assert(elite_positions(population@, indices, n_elites as int));
    }
    Ok(elites)
}

/// A tournament larger than the population fails with
/// `PopulationSizeError`, naming both sizes; it is never cut down to fit.
pub proof fn lemma_oversized_tournament_fails(population: Seq<Individual>, size: usize)
    requires
        population.len() < size,
    ensures
        selection_error(SelectionMethod::Tournament { size }, population) == Some(
            SelectionError::PopulationSizeError(population.len() as usize, size),
        ),
{
}

/// Elitism over Elitism fails with `InvalidSecondarySelectionError`,
/// whatever the population.
pub proof fn lemma_nested_elitism_fails(method: SelectionMethod, population: Seq<Individual>)
    requires
        method matches SelectionMethod::Elitism { secondary_selection, .. }
            && *secondary_selection is Elitism,
    ensures
        selection_error(method, population) == Some(
            SelectionError::InvalidSecondarySelectionError,
        ),
{
}

/// The winner of a tournament between the members at `indices`: a fittest
/// one of them.
pub fn tournament_winner(population: &Vec<Individual>, indices: &Vec<usize>) -> (r: Individual)
    requires
        indices@.len() > 0,
        forall|j: int| 0 <= j < indices@.len() ==> indices@[j] < population@.len(),
    ensures
        exists|k: int| wins_tournament(population@, indices@, k, r),
{
    let mut best: usize = 0;
    let mut j: usize = 1;
    while j < indices.len()
        invariant
            1 <= j <= indices@.len(),
            best < j,
            forall|i: int| 0 <= i < indices@.len() ==> indices@[i] < population@.len(),
            forall|i: int|
                0 <= i < j ==> #[trigger] population@[indices@[i] as int].fitness_score
                    <= population@[indices@[best as int] as int].fitness_score,
            forall|i: int|
                best < i < j ==> #[trigger] population@[indices@[i] as int].fitness_score
                    < population@[indices@[best as int] as int].fitness_score,
        decreases indices@.len() - j,
    {
        if population[indices[j]].fitness_score >= population[indices[best]].fitness_score {
            best = j;
        }
        j = j + 1;
    }
    let r = population[indices[best]].duplicate();
    assert(wins_tournament(population@, indices@, best as int, r));
    r
}

/// A draw of as many distinct positions as the population has members
/// takes every member.
pub proof fn lemma_full_draw_covers(indices: Seq<usize>, n: int, m: int)
    requires
        drawn_indices(n, indices, n),
        0 <= m < n,
    ensures
        exists|i: int| 0 <= i < n && indices[i] == m,
{
    broadcast use vstd::set::group_set_axioms;

    let ints = indices.map_values(|x: usize| x as int);
    if forall|i: int| 0 <= i < n ==> indices[i] != m {
        assert(ints.no_duplicates()) by {
            assert forall|i: int, j: int| 0 <= i < ints.len() && 0 <= j < ints.len() && i != j
                implies ints[i] != ints[j] by {
                if i < j {
                    assert(indices[i] != indices[j]);
                } else {
                    assert(indices[j] != indices[i]);
                }
            }
        }
        ints.unique_seq_to_set();
        let range = vstd::set_lib::set_int_range(0, n);
        vstd::set_lib::lemma_int_range(0, n);
        assert(range.contains(m));
        let rest = range.remove(m);
        assert(ints.to_set().subset_of(rest)) by {
            assert forall|x: int| ints.to_set().contains(x) implies rest.contains(x) by {
                let i = choose|i: int| 0 <= i < ints.len() && ints[i] == x;
                assert(indices[i] < n);
                assert(indices[i] != m);
            }
        }
        vstd::set_lib::lemma_len_subset(ints.to_set(), rest);
    }
}

/// Draws `tournament_size` distinct members uniformly and returns the
/// fittest of them.
fn tournament_selection(population: &Vec<Individual>, tournament_size: usize) -> (r: Result<
    Individual,
    SelectionError,
>)
    requires
        tournament_size > 0,
    ensures
        population@.len() < tournament_size ==> r == Err::<Individual, SelectionError>(
            SelectionError::PopulationSizeError(population@.len() as usize, tournament_size),
        ),
        population@.len() >= tournament_size ==> r is Ok && exists|indices: Seq<usize>, k: int|
            drawn_indices(population@.len() as int, indices, tournament_size as int)
                && wins_tournament(population@, indices, k, r->Ok_0),
{
    if population.len() < tournament_size {
        return Err(SelectionError::PopulationSizeError(population.len(), tournament_size));
    }
    let indices = sample_indices(population.len(), tournament_size);
    let winner = tournament_winner(population, &indices);
    let r = Ok(winner);
    proof {
        let k = choose|k: int| wins_tournament(population@, indices@, k, winner);
        assert(r->Ok_0 == winner);
        assert(drawn_indices(population@.len() as int, indices@, tournament_size as int)
            && wins_tournament(population@, indices@, k, r->Ok_0));
    }
    r
}

/// Walks the population accumulating fitness and returns the first member
/// whose cumulative fitness reaches `target`.
pub fn roulette_pick(population: &Vec<Individual>, target: u128) -> (r: Result<
    Individual,
    SelectionError,
>)
    ensures
        match r {
            Ok(individual) => exists|k: int|
                roulette_stop(population@, target as int, k) && individual@ == population@[k]@,
            Err(e) => e == SelectionError::RouletteError && (population@.len() == 0
                || total_fitness(population@) < target),
        },
        population@.len() > 0 && total_fitness(population@) >= target ==> r is Ok,
{
    let mut cumulative: u128 = 0;
    let mut k: usize = 0;
    while k < population.len()
        invariant
            k <= population@.len(),
            cumulative == prefix_fitness(population@, k as int),
            forall|j: int| 0 <= j < k ==> #[trigger] prefix_fitness(population@, j + 1) < target,
        decreases population@.len() - k,
    {
        proof {
            lemma_prefix_fits(population@, k + 1);
        }
        cumulative = cumulative + population[k].fitness_score as u128;
        if cumulative >= target {
            let r = population[k].duplicate();
            assert(roulette_stop(population@, target as int, k as int) && r@
                == population@[k as int]@);
            return Ok(r);
        }
        k = k + 1;
    }
    proof {
        if population@.len() > 0 {
            let last = population@.len() - 1;
            assert(prefix_fitness(population@, last + 1) < target);
        }
    }
    Err(SelectionError::RouletteError)
}

/// Draws a value uniformly below the total fitness and returns the first
/// member whose cumulative fitness reaches it. A population whose total
/// fitness is zero leaves nothing to draw and fails.
fn roulette_selection(population: &Vec<Individual>) -> (r: Result<Individual, SelectionError>)
    ensures
        total_fitness(population@) == 0 ==> r == Err::<Individual, SelectionError>(
            SelectionError::RouletteError,
        ),
        total_fitness(population@) > 0 ==> r is Ok && exists|target: int, k: int|
            0 <= target < total_fitness(population@) && roulette_stop(population@, target, k)
                && r->Ok_0@ == population@[k]@,
{
    let mut total: u128 = 0;
    let mut k: usize = 0;
    while k < population.len()
        invariant
            k <= population@.len(),
            total == prefix_fitness(population@, k as int),
        decreases population@.len() - k,
    {
        proof {
            lemma_prefix_fits(population@, k + 1);
        }
        total = total + population[k].fitness_score as u128;
        k = k + 1;
    }
    if total == 0 {
        return Err(SelectionError::RouletteError);
    }
    proof {
        lemma_prefix_bound(population@, 0);
    }
    let target = random_below(total);
    roulette_pick(population, target)
}

/// Draws with Elitism's secondary method, which may not be Elitism itself.
fn handle_secondary_method(
    population: &Vec<Individual>,
    secondary_method: &Box<SelectionMethod>,
) -> (r: Result<Individual, SelectionError>)
    requires
        population@.len() > 0,
        match **secondary_method {
            SelectionMethod::Tournament { size } => size > 0,
            _ => true,
        },
    ensures
        match r {
            Ok(individual) => direct_error(**secondary_method, population@) == None::<
                SelectionError,
            > && selection_outcome(**secondary_method, population@, individual),
            Err(e) => direct_error(**secondary_method, population@) == Some(e),
        },
{
    match &**secondary_method {
        SelectionMethod::Elitism { .. } => Err(SelectionError::InvalidSecondarySelectionError),
        SelectionMethod::Tournament { size } => tournament_draw(population, *size),
        SelectionMethod::Roulette => roulette_draw(population),
    }
}

/// A tournament draw, stated as an outcome of the method or an error.
fn tournament_draw(population: &Vec<Individual>, size: usize) -> (r: Result<
    Individual,
    SelectionError,
>)
    requires
        size > 0,
    ensures
        match r {
            Ok(individual) => direct_error(SelectionMethod::Tournament { size }, population@)
                == None::<SelectionError> && selection_outcome(
                SelectionMethod::Tournament { size },
                population@,
                individual,
            ),
            Err(e) => direct_error(SelectionMethod::Tournament { size }, population@) == Some(e),
        },
{
    tournament_selection(population, size)
}

/// A roulette draw, stated as an outcome of the method or an error.
fn roulette_draw(population: &Vec<Individual>) -> (r: Result<Individual, SelectionError>)
    ensures
        match r {
            Ok(individual) => direct_error(SelectionMethod::Roulette, population@) == None::<
                SelectionError,
            > && selection_outcome(SelectionMethod::Roulette, population@, individual),
            Err(e) => direct_error(SelectionMethod::Roulette, population@) == Some(e),
        },
{
    let r = roulette_selection(population);
    proof {
        lemma_prefix_bound(population@, population@.len() as int);
    }
    r
}

/// A possible outcome is a copy of a member of the population.
pub proof fn lemma_outcome_drawn_from(
    method: SelectionMethod,
    population: Seq<Individual>,
    individual: Individual,
)
    requires
        selection_outcome(method, population, individual),
    ensures
        drawn_from(population, individual),
{
    match method.drawing_method() {
        SelectionMethod::Tournament { size } => {
            let (indices, k) = choose|indices: Seq<usize>, k: int|
                drawn_indices(population.len() as int, indices, size as int) && wins_tournament(
                    population,
                    indices,
                    k,
                    individual,
                );
            assert(indices[k] < population.len());
        },
        SelectionMethod::Roulette => {
            let (target, k) = choose|target: int, k: int|
                0 <= target < total_fitness(population) && roulette_stop(population, target, k)
                    && individual@ == population[k]@;
            assert(individual@ == population[k]@);
        },
        SelectionMethod::Elitism { .. } => {},
    }
}

/// Draws one parent from `population` with `method`, or fails with the
/// error that `selection_error` names. A tournament returns a fittest one of
/// distinct members drawn; a roulette the member at which the cumulative
/// fitness first reaches a value drawn below the total. The population is
/// not changed.
pub fn selection_method(population: &Vec<Individual>, method: &SelectionMethod) -> (r: Result<
    Individual,
    SelectionError,
>)
    requires
        population@.len() > 0,
        method.well_formed(),
    ensures
        match r {
            Ok(individual) => selection_error(*method, population@) == None::<SelectionError>
                && selection_outcome(*method, population@, individual) && drawn_from(
                population@,
                individual,
            ),
            Err(e) => selection_error(*method, population@) == Some(e),
        },
{
    let r = match method {
        SelectionMethod::Tournament { size } => tournament_draw(population, *size),
        SelectionMethod::Roulette => roulette_draw(population),
        SelectionMethod::Elitism { n_elites: _, secondary_selection } => handle_secondary_method(
            population,
            secondary_selection,
        ),
    };
    proof {
        if r is Ok {
            lemma_outcome_drawn_from(*method, population@, r->Ok_0);
        }
    }
    r
}

} // verus!
