use knapsack_genetic::individual::Individual;
use knapsack_genetic::selection_method::{
    roulette_pick, select_elites, selection_method, tournament_winner, SelectionError,
    SelectionMethod,
};

fn population(scores: &[u64]) -> Vec<Individual> {
    scores
        .iter()
        .enumerate()
        .map(|(i, s)| Individual { chromosome: vec![i % 2 == 0, i % 3 == 0, i >= 2], fitness_score: *s })
        .collect()
}

#[test]
fn tournament_larger_than_population_fails() {
    let pop = population(&[4, 8, 1]);
    let r = selection_method(&pop, &SelectionMethod::Tournament { size: 5 });
    assert_eq!(r.unwrap_err(), SelectionError::PopulationSizeError(3, 5));
}

#[test]
fn tournament_over_whole_population_returns_fittest() {
    let pop = population(&[4, 8, 1, 6]);
    for _ in 0..50 {
        let r = selection_method(&pop, &SelectionMethod::Tournament { size: 4 }).unwrap();
        assert_eq!(r.fitness_score, 8);
        assert_eq!(r.chromosome, pop[1].chromosome);
    }
}

#[test]
fn tournament_winner_is_a_fittest_contestant() {
    let pop = population(&[4, 8, 1, 8, 2]);
    let w = tournament_winner(&pop, &vec![2, 3, 1, 4]);
    assert_eq!(w.fitness_score, 8);
    assert!(w.chromosome == pop[1].chromosome || w.chromosome == pop[3].chromosome);
    let w = tournament_winner(&pop, &vec![2, 0, 4]);
    assert_eq!(w.fitness_score, 4);
    assert_eq!(w.chromosome, pop[0].chromosome);
}

#[test]
fn elitism_over_elitism_fails_for_every_population() {
    let method = SelectionMethod::Elitism {
        n_elites: 1,
        secondary_selection: Box::new(SelectionMethod::Elitism {
            n_elites: 1,
            secondary_selection: Box::new(SelectionMethod::Roulette),
        }),
    };
    for scores in [vec![0], vec![5, 6], vec![1, 2, 3, 4, 5, 6, 7]] {
        let r = selection_method(&population(&scores), &method);
        assert_eq!(r.unwrap_err(), SelectionError::InvalidSecondarySelectionError);
    }
}

#[test]
fn elitism_delegates_to_secondary() {
    let pop = population(&[4, 8, 1]);
    let method = SelectionMethod::Elitism {
        n_elites: 2,
        secondary_selection: Box::new(SelectionMethod::Tournament { size: 3 }),
    };
    assert_eq!(selection_method(&pop, &method).unwrap().fitness_score, 8);
    let too_big = SelectionMethod::Elitism {
        n_elites: 2,
        secondary_selection: Box::new(SelectionMethod::Tournament { size: 4 }),
    };
    assert_eq!(
        selection_method(&pop, &too_big).unwrap_err(),
        SelectionError::PopulationSizeError(3, 4)
    );
}

#[test]
fn roulette_over_zero_fitness_fails() {
    let pop = population(&[0, 0, 0]);
    let r = selection_method(&pop, &SelectionMethod::Roulette);
    assert_eq!(r.unwrap_err(), SelectionError::RouletteError);
}

#[test]
fn roulette_never_picks_a_zero_fitness_member_after_the_first() {
    let pop = population(&[0, 0, 7, 0]);
    for _ in 0..100 {
        let r = selection_method(&pop, &SelectionMethod::Roulette).unwrap();
        assert!(r.chromosome == pop[0].chromosome || r.chromosome == pop[2].chromosome);
    }
}

#[test]
fn roulette_pick_stops_at_first_crossing() {
    let pop = population(&[2, 0, 3]);
    assert_eq!(roulette_pick(&pop, 0).unwrap().chromosome, pop[0].chromosome);
    assert_eq!(roulette_pick(&pop, 2).unwrap().chromosome, pop[0].chromosome);
    assert_eq!(roulette_pick(&pop, 3).unwrap().chromosome, pop[2].chromosome);
    assert_eq!(roulette_pick(&pop, 5).unwrap().chromosome, pop[2].chromosome);
    assert_eq!(roulette_pick(&pop, 6).unwrap_err(), SelectionError::RouletteError);
}

#[test]
fn select_elites_ranks_fittest_first() {
    let pop = population(&[5, 9, 5, 1]);
    let elites = select_elites(&pop, 3).unwrap();
    let scores: Vec<u64> = elites.iter().map(|e| e.fitness_score).collect();
    assert_eq!(scores, vec![9, 5, 5]);
    assert_eq!(elites[0].chromosome, pop[1].chromosome);
    let tied = [elites[1].chromosome.clone(), elites[2].chromosome.clone()];
    assert!(tied.contains(&pop[0].chromosome));
    assert!(tied.contains(&pop[2].chromosome));
    assert!(select_elites(&pop, 0).unwrap().is_empty());
}

#[test]
fn select_elites_beyond_population_fails() {
    let pop = population(&[5, 9, 5, 1]);
    assert_eq!(select_elites(&pop, 5).unwrap_err(), SelectionError::PopulationSizeError(4, 5));
}
