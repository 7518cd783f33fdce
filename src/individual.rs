use vstd::prelude::*;

verus! {

/// A candidate solution: gene `i` says whether item `i` is taken, and
/// `fitness_score` caches the last score computed for the chromosome.
///
/// Equality and ordering compare the fitness score alone.
#[derive(Debug)]
pub struct Individual {
    pub chromosome: Vec<bool>,
    pub fitness_score: u64,
}

impl View for Individual {
    type V = (Seq<bool>, u64);

    open spec fn view(&self) -> (Seq<bool>, u64) {
        (self.chromosome@, self.fitness_score)
    }
}

impl Individual {
    /// A copy of the individual, field for field.
    pub fn duplicate(&self) -> (r: Individual)
        ensures
            r@ == self@,
    {
        let chromosome = self.chromosome.clone();
        assert(chromosome@ =~= self.chromosome@);
        Individual { chromosome, fitness_score: self.fitness_score }
    }
}

impl Clone for Individual {
    fn clone(&self) -> (r: Individual)
        ensures
            r@ == self@,
    {
        self.duplicate()
    }
}

impl PartialEq for Individual {
    fn eq(&self, other: &Individual) -> (r: bool) {
        self.fitness_score == other.fitness_score
    }
}

impl vstd::std_specs::cmp::PartialEqSpecImpl for Individual {
    open spec fn obeys_eq_spec() -> bool {
        true
    }

    open spec fn eq_spec(&self, other: &Individual) -> bool {
        self.fitness_score == other.fitness_score
    }
}

impl Eq for Individual {
}

/// The ordering of two fitness scores.
pub open spec fn compare_scores(a: u64, b: u64) -> core::cmp::Ordering {
    if a < b {
        core::cmp::Ordering::Less
    } else if a > b {
        core::cmp::Ordering::Greater
    } else {
        core::cmp::Ordering::Equal
    }
}

impl PartialOrd for Individual {
    fn partial_cmp(&self, other: &Individual) -> (r: Option<core::cmp::Ordering>) {
        if self.fitness_score < other.fitness_score {
            Some(core::cmp::Ordering::Less)
        } else if self.fitness_score > other.fitness_score {
            Some(core::cmp::Ordering::Greater)
        } else {
            Some(core::cmp::Ordering::Equal)
        }
    }
}

impl vstd::std_specs::cmp::PartialOrdSpecImpl for Individual {
    open spec fn obeys_partial_cmp_spec() -> bool {
        true
    }

    open spec fn partial_cmp_spec(&self, other: &Individual) -> Option<core::cmp::Ordering> {
        Some(compare_scores(self.fitness_score, other.fitness_score))
    }
}

impl Default for Individual {
    fn default() -> (r: Individual)
        ensures
            r.chromosome@.len() == 0,
            r.fitness_score == 0,
    {
        Individual { chromosome: Vec::new(), fitness_score: 0 }
    }
}

} // verus!
