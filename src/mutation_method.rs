use crate::individual::Individual;
use crate::probability::Probability;
use crate::random::{random_below, random_ratio};
use vstd::prelude::*;

verus! {

/// How a child's chromosome is perturbed.
#[derive(Debug)]
pub enum MutationMethod {
    BitFlip,
    Swap,
    Inversion,
}

/// `genes` with the values at positions `i` and `j` exchanged.
pub open spec fn swapped(genes: Seq<bool>, i: int, j: int) -> Seq<bool> {
    genes.update(i, genes[j]).update(j, genes[i])
}

/// `genes` with the order of the positions `begin..=end` reversed.
pub open spec fn inverted(genes: Seq<bool>, begin: int, end: int) -> Seq<bool> {
    Seq::new(
        genes.len(),
        |k: int|
            if begin <= k <= end {
                genes[begin + end - k]
            } else {
                genes[k]
            },
    )
}

/// A copy of `individual` in which gene `i` is flipped wherever `flips[i]`
/// is true. The fitness score is carried over unchanged.
pub fn bit_flip_with(individual: &Individual, flips: &Vec<bool>) -> (r: Individual)
    requires
        flips@.len() == individual.chromosome@.len(),
    ensures
        r.chromosome@.len() == individual.chromosome@.len(),
        forall|i: int|
            0 <= i < flips@.len() ==> r.chromosome@[i] == (individual.chromosome@[i]
                != flips@[i]),
        r.fitness_score == individual.fitness_score,
{
    let mut new_individual = individual.duplicate();
    let len = new_individual.chromosome.len();
    let mut i: usize = 0;
    while i < len
        invariant
            len == individual.chromosome@.len(),
            len == flips@.len(),
            i <= len,
            new_individual.chromosome@.len() == len,
            new_individual.fitness_score == individual.fitness_score,
            forall|j: int|
                0 <= j < i ==> new_individual.chromosome@[j] == (individual.chromosome@[j]
                    != flips@[j]),
            forall|j: int|
                i <= j < len ==> new_individual.chromosome@[j] == individual.chromosome@[j],
        decreases len - i,
    {
        if flips[i] {
            let gene = new_individual.chromosome[i];
            new_individual.chromosome.set(i, !gene);
        }
        i = i + 1;
    }
    new_individual
}

/// Exchanges the genes at positions `i` and `j`.
fn exchange(genes: &mut Vec<bool>, i: usize, j: usize)
    requires
        i < old(genes)@.len(),
        j < old(genes)@.len(),
    ensures
        final(genes)@ == swapped(old(genes)@, i as int, j as int),
{
    let a = genes[i];
    let b = genes[j];
    genes.set(i, b);
    genes.set(j, a);
    proof {
        assert(genes@ =~= swapped(old(genes)@, i as int, j as int));
    }
}

/// A copy of `individual` with genes `i` and `j` exchanged.
pub fn swap_genes(individual: &Individual, i: usize, j: usize) -> (r: Individual)
    requires
        i < individual.chromosome@.len(),
        j < individual.chromosome@.len(),
    ensures
        r.chromosome@ == swapped(individual.chromosome@, i as int, j as int),
        r.fitness_score == individual.fitness_score,
{
    let mut new_individual = individual.duplicate();
    exchange(&mut new_individual.chromosome, i, j);
    proof {
        assert(new_individual.chromosome@ =~= swapped(individual.chromosome@, i as int, j as int));
    }
    new_individual
}

/// A copy of `individual` with the genes in `begin..=end` in reverse order.
pub fn invert_range(individual: &Individual, begin: usize, end: usize) -> (r: Individual)
    requires
        begin <= end < individual.chromosome@.len(),
    ensures
        r.chromosome@ == inverted(individual.chromosome@, begin as int, end as int),
        r.fitness_score == individual.fitness_score,
{
    let mut new_individual = individual.duplicate();
    let ghost genes = individual.chromosome@;
    let mut lo: usize = begin;
    let mut hi: usize = end;
    while lo < hi
        invariant
            begin <= lo,
            lo <= hi + 1,
            hi <= end,
            end < genes.len(),
            lo + hi == begin + end,
            genes == individual.chromosome@,
            new_individual.chromosome@.len() == genes.len(),
            new_individual.fitness_score == individual.fitness_score,
            forall|k: int|
                0 <= k < genes.len() ==> #[trigger] new_individual.chromosome@[k] == if (begin
                    <= k < lo || hi < k <= end) {
                    genes[begin + end - k]
                } else {
                    genes[k]
                },
        decreases hi + 1 - lo,
    {
        exchange(&mut new_individual.chromosome, lo, hi);
        lo = lo + 1;
        hi = hi - 1;
    }
    proof {
        assert(new_individual.chromosome@ =~= inverted(genes, begin as int, end as int));
    }
    new_individual
}

/// Flips each gene independently with chance `mutation_rate`.
fn bit_flip_mutation(individual: &Individual, mutation_rate: Probability) -> (r: Individual)
    requires
        mutation_rate.is_valid(),
    ensures
        r.chromosome@.len() == individual.chromosome@.len(),
        r.fitness_score == individual.fitness_score,
        mutation_rate.is_never() ==> r.chromosome@ == individual.chromosome@,
        mutation_rate.is_certain() ==> forall|i: int|
            0 <= i < r.chromosome@.len() ==> r.chromosome@[i] != individual.chromosome@[i],
{
    let len = individual.chromosome.len();
    let mut flips: Vec<bool> = Vec::with_capacity(len);
    let mut i: usize = 0;
    while i < len
        invariant
            i <= len,
            flips@.len() == i,
            mutation_rate.is_valid(),
            mutation_rate.is_never() ==> forall|j: int| 0 <= j < i ==> !flips@[j],
            mutation_rate.is_certain() ==> forall|j: int| 0 <= j < i ==> flips@[j],
        decreases len - i,
    {
        flips.push(random_ratio(mutation_rate.numerator, mutation_rate.denominator));
        i = i + 1;
    }
    let r = bit_flip_with(individual, &flips);
    proof {
        if mutation_rate.is_never() {
            assert forall|i: int| 0 <= i < len implies r.chromosome@[i]
                == individual.chromosome@[i] by {
                assert(!flips@[i]);
            }
            assert(r.chromosome@ =~= individual.chromosome@);
        }
        if mutation_rate.is_certain() {
            assert forall|i: int| 0 <= i < len implies r.chromosome@[i]
                != individual.chromosome@[i] by {
                assert(flips@[i]);
            }
        }
    }
    r
}

/// With chance `mutation_rate`, exchanges two genes at positions drawn
/// uniformly (possibly the same one); otherwise copies the individual.
fn swap_mutation(individual: &Individual, mutation_rate: Probability) -> (r: Individual)
    requires
        mutation_rate.is_valid(),
    ensures
        r.fitness_score == individual.fitness_score,
        r.chromosome@ == individual.chromosome@ || exists|i: int, j: int|
            0 <= i < individual.chromosome@.len() && 0 <= j < individual.chromosome@.len()
                && r.chromosome@ == swapped(individual.chromosome@, i, j),
        mutation_rate.is_never() ==> r.chromosome@ == individual.chromosome@,
{
    let len = individual.chromosome.len();
    if !random_ratio(mutation_rate.numerator, mutation_rate.denominator) || len == 0 {
        return individual.duplicate();
    }
    let i = random_below(len as u128) as usize;
    let j = random_below(len as u128) as usize;
    swap_genes(individual, i, j)
}

/// With chance `mutation_rate`, reverses a stretch `begin..=end` drawn
/// uniformly (`begin` first, then `end` from `begin` on); otherwise copies
/// the individual.
fn inversion_mutation(individual: &Individual, mutation_rate: Probability) -> (r: Individual)
    requires
        mutation_rate.is_valid(),
    ensures
        r.fitness_score == individual.fitness_score,
        r.chromosome@ == individual.chromosome@ || exists|b: int, e: int|
            0 <= b <= e < individual.chromosome@.len() && r.chromosome@ == inverted(
                individual.chromosome@,
                b,
                e,
            ),
        mutation_rate.is_never() ==> r.chromosome@ == individual.chromosome@,
{
    let len = individual.chromosome.len();
    if !random_ratio(mutation_rate.numerator, mutation_rate.denominator) || len == 0 {
        return individual.duplicate();
    }
    let begin = random_below(len as u128) as usize;
    let end = begin + random_below((len - begin) as u128) as usize;
    invert_range(individual, begin, end)
}

/// `r` is a possible result of mutating `individual`: same length, same
/// (stale) score, unchanged at a zero rate; a bit flip flips every gene at
/// rate one, a swap exchanges two genes or none, an inversion reverses a
/// stretch or nothing.
pub open spec fn mutation_outcome(
    individual: Individual,
    method: MutationMethod,
    rate: Probability,
    r: Individual,
) -> bool {
    let genes = individual.chromosome@;
    &&& r.chromosome@.len() == genes.len()
    &&& r.fitness_score == individual.fitness_score
    &&& rate.is_never() ==> r.chromosome@ == genes
    &&& method is BitFlip && rate.is_certain() ==> forall|i: int|
        0 <= i < genes.len() ==> r.chromosome@[i] != genes[i]
    &&& method is Swap ==> r.chromosome@ == genes || exists|i: int, j: int|
        0 <= i < genes.len() && 0 <= j < genes.len() && r.chromosome@ == swapped(genes, i, j)
    &&& method is Inversion ==> r.chromosome@ == genes || exists|b: int, e: int|
        0 <= b <= e < genes.len() && r.chromosome@ == inverted(genes, b, e)
}

/// Mutates a copy of `individual` with the given method; the input is left
/// as it is and the copy keeps its (now stale) fitness score.
pub fn mutation_method(
    individual: &Individual,
    method: &MutationMethod,
    mutation_rate: Probability,
) -> (r: Individual)
    requires
        mutation_rate.is_valid(),
    ensures
        mutation_outcome(*individual, *method, mutation_rate, r),
{
    match method {
        MutationMethod::BitFlip => bit_flip_mutation(individual, mutation_rate),
        MutationMethod::Swap => swap_mutation(individual, mutation_rate),
        MutationMethod::Inversion => inversion_mutation(individual, mutation_rate),
    }
}

} // verus!
