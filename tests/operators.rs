use knapsack_genetic::crossover_method::{
    crossover_method, cut_crossover, uniform_crossover_with, CrossoverMethod,
};
use knapsack_genetic::individual::Individual;
use knapsack_genetic::mutation_method::{
    bit_flip_with, invert_range, mutation_method, swap_genes, MutationMethod,
};
use knapsack_genetic::probability::Probability;

fn individual(genes: &[bool], fitness_score: u64) -> Individual {
    Individual { chromosome: genes.to_vec(), fitness_score }
}

fn bits(text: &str) -> Vec<bool> {
    text.chars().map(|c| c == '1').collect()
}

#[test]
fn individuals_compare_by_fitness_only() {
    let a = individual(&bits("1100"), 7);
    let b = individual(&bits("0011"), 7);
    let c = individual(&bits("1100"), 9);
    assert!(a == b);
    assert!(a != c);
    assert!(a < c);
    assert!(c > b);
    assert_eq!(a.partial_cmp(&b), Some(std::cmp::Ordering::Equal));
}

#[test]
fn default_individual_is_empty_and_unscored() {
    let d = Individual::default();
    assert!(d.chromosome.is_empty());
    assert_eq!(d.fitness_score, 0);
}

#[test]
fn clone_keeps_chromosome_and_score() {
    let a = individual(&bits("10110"), 42);
    let b = a.clone();
    assert_eq!(b.chromosome, a.chromosome);
    assert_eq!(b.fitness_score, 42);
}

#[test]
fn cut_crossover_swaps_tails_from_first_cut() {
    let p1 = individual(&bits("111111"), 3);
    let p2 = individual(&bits("000000"), 5);
    let (c1, c2) = cut_crossover((&p1, &p2), &vec![5, 3]);
    assert_eq!(c1.chromosome, bits("111000"));
    assert_eq!(c2.chromosome, bits("000111"));
    assert_eq!(c1.fitness_score, 3);
    assert_eq!(c2.fitness_score, 5);
}

#[test]
fn cut_crossover_without_points_copies_parents() {
    let p1 = individual(&bits("1010"), 1);
    let p2 = individual(&bits("0110"), 2);
    let (c1, c2) = cut_crossover((&p1, &p2), &vec![]);
    assert_eq!(c1.chromosome, p1.chromosome);
    assert_eq!(c2.chromosome, p2.chromosome);
}

#[test]
fn cut_crossover_at_zero_exchanges_whole_chromosomes() {
    let p1 = individual(&bits("1010"), 1);
    let p2 = individual(&bits("0110"), 2);
    let (c1, c2) = cut_crossover((&p1, &p2), &vec![0]);
    assert_eq!(c1.chromosome, p2.chromosome);
    assert_eq!(c2.chromosome, p1.chromosome);
}

#[test]
fn uniform_crossover_follows_coins() {
    let p1 = individual(&bits("1111"), 3);
    let p2 = individual(&bits("0000"), 5);
    let (c1, c2) = uniform_crossover_with((&p1, &p2), &bits("1010"));
    assert_eq!(c1.chromosome, bits("1010"));
    assert_eq!(c2.chromosome, bits("0101"));
    assert_eq!(c1.fitness_score, 0);
    assert_eq!(c2.fitness_score, 0);
}

#[test]
fn crossover_with_zero_rate_returns_copies() {
    let p1 = individual(&bits("11001010"), 4);
    let p2 = individual(&bits("00110101"), 6);
    for method in [
        CrossoverMethod::SinglePoint,
        CrossoverMethod::MultiPoint { n_points: 3 },
        CrossoverMethod::Uniform,
    ] {
        for _ in 0..50 {
            let (c1, c2) = crossover_method((&p1, &p2), &method, Probability::new(0, 1));
            assert_eq!(c1.chromosome, p1.chromosome);
            assert_eq!(c2.chromosome, p2.chromosome);
            assert_eq!(c1.fitness_score, 4);
            assert_eq!(c2.fitness_score, 6);
        }
    }
}

#[test]
fn single_point_crossover_with_full_rate_alters_children() {
    let p1 = individual(&bits("11111111"), 0);
    let p2 = individual(&bits("00000000"), 0);
    for _ in 0..100 {
        let (c1, c2) =
            crossover_method((&p1, &p2), &CrossoverMethod::SinglePoint, Probability::new(1, 1));
        assert_ne!(c1.chromosome, p1.chromosome);
        assert_ne!(c2.chromosome, p2.chromosome);
        let cut = c1.chromosome.iter().position(|g| !*g).unwrap();
        assert!(c1.chromosome[cut..].iter().all(|g| !*g));
        assert!(c2.chromosome[..cut].iter().all(|g| !*g));
        assert!(c2.chromosome[cut..].iter().all(|g| *g));
    }
}

#[test]
fn multi_point_with_no_points_copies_parents() {
    let p1 = individual(&bits("1100"), 0);
    let p2 = individual(&bits("0011"), 0);
    let (c1, c2) = crossover_method(
        (&p1, &p2),
        &CrossoverMethod::MultiPoint { n_points: 0 },
        Probability::new(1, 1),
    );
    assert_eq!(c1.chromosome, p1.chromosome);
    assert_eq!(c2.chromosome, p2.chromosome);
}

#[test]
fn uniform_crossover_shares_every_gene() {
    let p1 = individual(&bits("1100110011"), 0);
    let p2 = individual(&bits("1010101010"), 0);
    for _ in 0..100 {
        let (c1, c2) =
            crossover_method((&p1, &p2), &CrossoverMethod::Uniform, Probability::new(1, 1));
        assert_eq!(c1.chromosome.len(), 10);
        assert_eq!(c2.chromosome.len(), 10);
        for i in 0..10 {
            let straight = c1.chromosome[i] == p1.chromosome[i] && c2.chromosome[i] == p2.chromosome[i];
            let crossed = c1.chromosome[i] == p2.chromosome[i] && c2.chromosome[i] == p1.chromosome[i];
            assert!(straight || crossed);
        }
    }
}

#[test]
fn bit_flip_with_flips_marked_genes() {
    let a = individual(&bits("1100"), 8);
    let r = bit_flip_with(&a, &bits("0110"));
    assert_eq!(r.chromosome, bits("1010"));
    assert_eq!(r.fitness_score, 8);
}

#[test]
fn swap_genes_exchanges_two_positions() {
    let a = individual(&bits("10000"), 2);
    let r = swap_genes(&a, 0, 3);
    assert_eq!(r.chromosome, bits("00010"));
    assert_eq!(r.fitness_score, 2);
    assert_eq!(swap_genes(&a, 2, 2).chromosome, a.chromosome);
}

#[test]
fn invert_range_reverses_stretch() {
    let a = individual(&bits("110100"), 1);
    let r = invert_range(&a, 1, 4);
    assert_eq!(r.chromosome, bits("101010"));
    assert_eq!(invert_range(&a, 2, 2).chromosome, a.chromosome);
}

#[test]
fn mutation_with_zero_rate_changes_nothing() {
    let a = individual(&bits("1011001110"), 13);
    for method in [MutationMethod::BitFlip, MutationMethod::Swap, MutationMethod::Inversion] {
        for _ in 0..50 {
            let r = mutation_method(&a, &method, Probability::new(0, 3));
            assert_eq!(r.chromosome, a.chromosome);
            assert_eq!(r.fitness_score, 13);
        }
    }
}

#[test]
fn bit_flip_with_full_rate_flips_every_gene() {
    let a = individual(&bits("1011001110"), 0);
    let r = mutation_method(&a, &MutationMethod::BitFlip, Probability::new(5, 5));
    assert_eq!(r.chromosome, bits("0100110001"));
}

#[test]
fn swap_mutation_with_full_rate_keeps_gene_counts() {
    let a = individual(&bits("1000000000"), 0);
    for _ in 0..100 {
        let r = mutation_method(&a, &MutationMethod::Swap, Probability::new(1, 1));
        assert_eq!(r.chromosome.len(), 10);
        assert_eq!(r.chromosome.iter().filter(|g| **g).count(), 1);
    }
}

#[test]
fn inversion_mutation_with_full_rate_reverses_some_stretch() {
    let a = individual(&bits("1101000111"), 0);
    for _ in 0..100 {
        let r = mutation_method(&a, &MutationMethod::Inversion, Probability::new(1, 1));
        let mut found = false;
        for b in 0..10 {
            for e in b..10 {
                let mut expected = a.chromosome.clone();
                expected[b..=e].reverse();
                if expected == r.chromosome {
                    found = true;
                }
            }
        }
        assert!(found);
    }
}

#[test]
fn operators_accept_empty_chromosomes() {
    let a = individual(&[], 0);
    let b = individual(&[], 0);
    let (c1, c2) =
        crossover_method((&a, &b), &CrossoverMethod::SinglePoint, Probability::new(1, 1));
    assert!(c1.chromosome.is_empty() && c2.chromosome.is_empty());
    let m = mutation_method(&a, &MutationMethod::Inversion, Probability::new(1, 1));
    assert!(m.chromosome.is_empty());
}

#[test]
fn multi_point_crossover_with_full_rate_always_cuts() {
    let p1 = individual(&bits("111111"), 2);
    let p2 = individual(&bits("000000"), 3);
    for _ in 0..100 {
        let (c1, c2) = crossover_method(
            (&p1, &p2),
            &CrossoverMethod::MultiPoint { n_points: 2 },
            Probability::new(1, 1),
        );
        assert!(!c1.chromosome[5]);
        assert!(c2.chromosome[5]);
        assert_eq!(c1.fitness_score, 2);
        assert_eq!(c2.fitness_score, 3);
    }
}

#[test]
fn uniform_crossover_with_full_rate_scores_zero() {
    let p1 = individual(&bits("1100"), 2);
    let p2 = individual(&bits("0011"), 3);
    let (c1, c2) = crossover_method((&p1, &p2), &CrossoverMethod::Uniform, Probability::new(2, 2));
    assert_eq!(c1.fitness_score, 0);
    assert_eq!(c2.fitness_score, 0);
}
