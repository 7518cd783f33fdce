use crate::individual::Individual;
use crate::probability::Probability;
use crate::random::{random_below, random_ratio};
use vstd::prelude::*;

verus! {

/// How two parents are recombined into two children.
#[derive(Debug)]
pub enum CrossoverMethod {
    SinglePoint,
    MultiPoint { n_points: usize },
    Uniform,
}

/// The child that takes `head`'s genes before `cut` and `tail`'s from `cut` on.
pub open spec fn spliced(head: Seq<bool>, tail: Seq<bool>, cut: int) -> Seq<bool> {
    head.subrange(0, cut) + tail.subrange(cut, tail.len() as int)
}

/// At every position each child holds one parent's gene and the other child
/// holds the other parent's gene.
pub open spec fn genes_shared(
    p1: Seq<bool>,
    p2: Seq<bool>,
    c1: Seq<bool>,
    c2: Seq<bool>,
) -> bool {
    &&& c1.len() == p1.len()
    &&& c2.len() == p1.len()
    &&& forall|i: int|
        0 <= i < p1.len() ==> ((c1[i] == p1[i] && c2[i] == p2[i]) || (c1[i] == p2[i] && c2[i]
            == p1[i]))
}

/// Whether some cut point lies at or before position `i`.
pub open spec fn cut_before(points: Seq<usize>, i: int) -> bool {
    exists|k: int| 0 <= k < points.len() && points[k] <= i
}

/// The smallest of the cut points, or `len` when there are none.
pub open spec fn first_cut(points: Seq<usize>, len: int) -> int
    decreases points.len(),
{
    if points.len() == 0 {
        len
    } else {
        let rest = first_cut(points.drop_last(), len);
        if (points.last() as int) < rest {
            points.last() as int
        } else {
            rest
        }
    }
}

proof fn lemma_first_cut(points: Seq<usize>, len: int)
    ensures
        first_cut(points, len) <= len,
        forall|k: int| 0 <= k < points.len() ==> first_cut(points, len) <= points[k],
        points.len() == 0 ==> first_cut(points, len) == len,
        first_cut(points, len) < len ==> exists|k: int|
            0 <= k < points.len() && first_cut(points, len) == points[k],
    decreases points.len(),
{
    if points.len() > 0 {
        let init = points.drop_last();
        lemma_first_cut(init, len);
        assert forall|k: int| 0 <= k < points.len() implies first_cut(points, len)
            <= points[k] by {
            if k < init.len() {
                assert(init[k] == points[k]);
            }
        }
        if first_cut(points, len) != points.last() && first_cut(points, len) < len {
            let k = choose|k: int| 0 <= k < init.len() && first_cut(init, len) == init[k];
            assert(points[k] == init[k]);
        }
        if first_cut(points, len) == points.last() {
            assert(points[points.len() - 1] == points.last());
        }
    }
}

/// Crosses two parents at the given cut points: from every cut point on, each
/// child takes the other parent's genes. The children keep their parents'
/// fitness scores.
///
/// A gene of the first child comes from the second parent exactly when some
/// cut point lies at or before it, so the outcome is a single cut at the
/// smallest point.
pub fn cut_crossover(parents: (&Individual, &Individual), points: &Vec<usize>) -> (r: (
    Individual,
    Individual,
))
    requires
        parents.0.chromosome@.len() == parents.1.chromosome@.len(),
    ensures
        forall|i: int|
            0 <= i < parents.0.chromosome@.len() ==> (r.0.chromosome@[i] == if cut_before(
                points@,
                i,
            ) {
                parents.1.chromosome@[i]
            } else {
                parents.0.chromosome@[i]
            }) && (r.1.chromosome@[i] == if cut_before(points@, i) {
                parents.0.chromosome@[i]
            } else {
                parents.1.chromosome@[i]
            }),
        ({
            let m = first_cut(points@, parents.0.chromosome@.len() as int);
            &&& r.0.chromosome@ == spliced(parents.0.chromosome@, parents.1.chromosome@, m)
            &&& r.1.chromosome@ == spliced(parents.1.chromosome@, parents.0.chromosome@, m)
        }),
        r.0.fitness_score == parents.0.fitness_score,
        r.1.fitness_score == parents.1.fitness_score,
{
    let p1 = parents.0;
    let p2 = parents.1;
    let len = p1.chromosome.len();
    let mut first: usize = len;
    let mut k: usize = 0;
    while k < points.len()
        invariant
            k <= points@.len(),
            first <= len,
            forall|j: int| 0 <= j < k ==> first <= points@[j],
            first < len ==> exists|j: int| 0 <= j < k && points@[j] == first,
        decreases points@.len() - k,
    {
        if points[k] < first {
            first = points[k];
        }
        k = k + 1;
    }
    let mut c1: Vec<bool> = Vec::new();
    let mut c2: Vec<bool> = Vec::new();
    let mut i: usize = 0;
    while i < len
        invariant
            len == p1.chromosome@.len(),
            len == p2.chromosome@.len(),
            i <= len,
            c1@.len() == i,
            c2@.len() == i,
            forall|j: int|
                0 <= j < i ==> c1@[j] == (if j >= first {
                    p2.chromosome@[j]
                } else {
                    p1.chromosome@[j]
                }) && c2@[j] == (if j >= first {
                    p1.chromosome@[j]
                } else {
                    p2.chromosome@[j]
                }),
        decreases len - i,
    {
        if i >= first {
            c1.push(p2.chromosome[i]);
            c2.push(p1.chromosome[i]);
        } else {
            c1.push(p1.chromosome[i]);
            c2.push(p2.chromosome[i]);
        }
        i = i + 1;
    }
    proof {
        lemma_first_cut(points@, len as int);
        let m = first_cut(points@, len as int);
        if first < len {
            let j = choose|j: int| 0 <= j < points@.len() && points@[j] == first;
            assert(m <= first);
        }
        if m < len {
            let j = choose|j: int| 0 <= j < points@.len() && m == points@[j];
            assert(first <= m);
        }
        assert(m == first);
        assert forall|j: int| 0 <= j < len implies cut_before(points@, j) == (j >= first) by {
            if j >= first && first < len {
                let w = choose|w: int| 0 <= w < points@.len() && points@[w] == first;
                assert(points@[w] <= j);
            }
        }
        assert(c1@ =~= spliced(p1.chromosome@, p2.chromosome@, m));
        assert(c2@ =~= spliced(p2.chromosome@, p1.chromosome@, m));
    }
    (
        Individual { chromosome: c1, fitness_score: p1.fitness_score },
        Individual { chromosome: c2, fitness_score: p2.fitness_score },
    )
}

/// Crosses two parents gene by gene: where `coins` holds true the first
/// child takes the first parent's gene and the second child the second
/// parent's, elsewhere the other way round. The children are new, with a
/// fitness score of zero.
pub fn uniform_crossover_with(parents: (&Individual, &Individual), coins: &Vec<bool>) -> (r: (
    Individual,
    Individual,
))
    requires
        parents.0.chromosome@.len() == parents.1.chromosome@.len(),
        coins@.len() == parents.0.chromosome@.len(),
    ensures
        r.0.chromosome@.len() == parents.0.chromosome@.len(),
        r.1.chromosome@.len() == parents.0.chromosome@.len(),
        forall|i: int|
            0 <= i < parents.0.chromosome@.len() ==> (r.0.chromosome@[i] == if coins@[i] {
                parents.0.chromosome@[i]
            } else {
                parents.1.chromosome@[i]
            }) && (r.1.chromosome@[i] == if coins@[i] {
                parents.1.chromosome@[i]
            } else {
                parents.0.chromosome@[i]
            }),
        r.0.fitness_score == 0,
        r.1.fitness_score == 0,
{
    let p1 = parents.0;
    let p2 = parents.1;
    let len = p1.chromosome.len();
    let mut c1: Vec<bool> = Vec::with_capacity(len);
    let mut c2: Vec<bool> = Vec::with_capacity(len);
    let mut i: usize = 0;
    while i < len
        invariant
            len == p1.chromosome@.len(),
            len == p2.chromosome@.len(),
            len == coins@.len(),
            i <= len,
            c1@.len() == i,
            c2@.len() == i,
            forall|j: int|
                0 <= j < i ==> c1@[j] == (if coins@[j] {
                    p1.chromosome@[j]
                } else {
                    p2.chromosome@[j]
                }) && c2@[j] == (if coins@[j] {
                    p2.chromosome@[j]
                } else {
                    p1.chromosome@[j]
                }),
        decreases len - i,
    {
        if coins[i] {
            c1.push(p1.chromosome[i]);
            c2.push(p2.chromosome[i]);
        } else {
            c1.push(p2.chromosome[i]);
            c2.push(p1.chromosome[i]);
        }
        i = i + 1;
    }
    (Individual { chromosome: c1, fitness_score: 0 }, Individual { chromosome: c2, fitness_score: 0 })
}

/// Crosses two parents at `n_points` cut points drawn uniformly from the
/// chromosome's positions (an empty chromosome offers none).
fn multi_point_crossover(parents: (&Individual, &Individual), n_points: usize) -> (r: (
    Individual,
    Individual,
))
    requires
        parents.0.chromosome@.len() == parents.1.chromosome@.len(),
    ensures
        exists|m: int|
            0 <= m <= parents.0.chromosome@.len() && (n_points == 0 ==> m
                == parents.0.chromosome@.len()) && (n_points > 0 && parents.0.chromosome@.len()
                > 0 ==> m < parents.0.chromosome@.len()) && r.0.chromosome@ == spliced(
                parents.0.chromosome@,
                parents.1.chromosome@,
                m,
            ) && r.1.chromosome@ == spliced(parents.1.chromosome@, parents.0.chromosome@, m),
        r.0.fitness_score == parents.0.fitness_score,
        r.1.fitness_score == parents.1.fitness_score,
{
    let len = parents.0.chromosome.len();
    let mut points: Vec<usize> = Vec::new();
    if len > 0 {
        let mut k: usize = 0;
        while k < n_points
            invariant
                len > 0,
                k <= n_points,
                points@.len() == k,
                forall|j: int| 0 <= j < k ==> points@[j] < len,
            decreases n_points - k,
        {
            let p = random_below(len as u128);
            points.push(p as usize);
            k = k + 1;
        }
    }
    let r = cut_crossover(parents, &points);
    proof {
        lemma_first_cut(points@, len as int);
        let m = first_cut(points@, len as int);
        if n_points > 0 && len > 0 {
            assert(m <= points@[0]);
        }
    }
    r
}

/// Crosses two parents with a fair coin for every gene.
fn uniform_crossover(parents: (&Individual, &Individual)) -> (r: (Individual, Individual))
    requires
        parents.0.chromosome@.len() == parents.1.chromosome@.len(),
    ensures
        genes_shared(
            parents.0.chromosome@,
            parents.1.chromosome@,
            r.0.chromosome@,
            r.1.chromosome@,
        ),
        r.0.fitness_score == 0,
        r.1.fitness_score == 0,
{
    let len = parents.0.chromosome.len();
    let mut coins: Vec<bool> = Vec::with_capacity(len);
    let mut i: usize = 0;
    while i < len
        invariant
            i <= len,
            coins@.len() == i,
        decreases len - i,
    {
        coins.push(random_ratio(1, 2));
        i = i + 1;
    }
    uniform_crossover_with(parents, &coins)
}

/// The method cuts the chromosome at least once.
pub open spec fn cuts(method: CrossoverMethod) -> bool {
    match method {
        CrossoverMethod::SinglePoint => true,
        CrossoverMethod::MultiPoint { n_points } => n_points > 0,
        CrossoverMethod::Uniform => false,
    }
}

/// `c1` and `c2` are possible children of `p1` and `p2`: at every position
/// each child holds one parent's gene and the other child the other's. A
/// zero rate gives plain copies. A cutting method makes one cut (at the end
/// of the chromosome: no cut), before the end when the rate is one, and the
/// children keep their parents' scores; uniform children are new, scored
/// zero, unless they are plain copies.
pub open spec fn crossover_outcome(
    p1: Individual,
    p2: Individual,
    method: CrossoverMethod,
    rate: Probability,
    c1: Individual,
    c2: Individual,
) -> bool {
    let len = p1.chromosome@.len();
    &&& genes_shared(p1.chromosome@, p2.chromosome@, c1.chromosome@, c2.chromosome@)
    &&& rate.is_never() ==> c1@ == p1@ && c2@ == p2@
    &&& !(method is Uniform) ==> {
        &&& c1.fitness_score == p1.fitness_score
        &&& c2.fitness_score == p2.fitness_score
        &&& exists|m: int|
            0 <= m <= len && c1.chromosome@ == spliced(p1.chromosome@, p2.chromosome@, m)
                && c2.chromosome@ == spliced(p2.chromosome@, p1.chromosome@, m)
    }
    &&& rate.is_certain() && cuts(method) && len > 0 ==> exists|m: int|
        0 <= m < len && c1.chromosome@ == spliced(p1.chromosome@, p2.chromosome@, m)
            && c2.chromosome@ == spliced(p2.chromosome@, p1.chromosome@, m)
    &&& method is Uniform ==> (c1@ == p1@ && c2@ == p2@) || (c1.fitness_score == 0
        && c2.fitness_score == 0)
    &&& method is Uniform && rate.is_certain() ==> c1.fitness_score == 0 && c2.fitness_score == 0
}

/// Recombines two parents with the given method. With chance
/// `1 - crossover_rate` the children are plain copies of the parents.
pub fn crossover_method(
    parents: (&Individual, &Individual),
    method: &CrossoverMethod,
    crossover_rate: Probability,
) -> (r: (Individual, Individual))
    requires
        parents.0.chromosome@.len() == parents.1.chromosome@.len(),
        crossover_rate.is_valid(),
    ensures
        crossover_outcome(*parents.0, *parents.1, *method, crossover_rate, r.0, r.1),
{
    if !random_ratio(crossover_rate.numerator, crossover_rate.denominator) {
        let r = (parents.0.duplicate(), parents.1.duplicate());
        proof {
            let len = parents.0.chromosome@.len() as int;
            assert(r.0.chromosome@ =~= spliced(parents.0.chromosome@, parents.1.chromosome@, len));
            assert(r.1.chromosome@ =~= spliced(parents.1.chromosome@, parents.0.chromosome@, len));
            lemma_spliced_shares(parents.0.chromosome@, parents.1.chromosome@, len);
        }
        return r;
    }
    let r = match method {
        CrossoverMethod::SinglePoint => multi_point_crossover(parents, 1),
        CrossoverMethod::MultiPoint { n_points } => multi_point_crossover(parents, *n_points),
        CrossoverMethod::Uniform => uniform_crossover(parents),
    };
    proof {
        if !(method is Uniform) {
            let m = choose|m: int|
                0 <= m <= parents.0.chromosome@.len() && r.0.chromosome@ == spliced(
                    parents.0.chromosome@,
                    parents.1.chromosome@,
                    m,
                ) && r.1.chromosome@ == spliced(parents.1.chromosome@, parents.0.chromosome@, m);
            lemma_spliced_shares(parents.0.chromosome@, parents.1.chromosome@, m);
        }
    }
    r
}

/// A cut changes both children whenever the parents differ at or after it:
/// the first child is then not the first parent, nor the second child the
/// second parent.
pub proof fn lemma_single_cut_alters(p1: Seq<bool>, p2: Seq<bool>, m: int)
    requires
        p1.len() == p2.len(),
        0 <= m <= p1.len(),
        exists|i: int| m <= i < p1.len() && p1[i] != p2[i],
    ensures
        spliced(p1, p2, m) != p1,
        spliced(p2, p1, m) != p2,
{
    let i = choose|i: int| m <= i < p1.len() && p1[i] != p2[i];
    assert(spliced(p1, p2, m)[i] == p2[i]);
    assert(spliced(p2, p1, m)[i] == p1[i]);
}

/// The two children of one cut share out the parents' genes.
pub proof fn lemma_spliced_shares(p1: Seq<bool>, p2: Seq<bool>, m: int)
    requires
        p1.len() == p2.len(),
        0 <= m <= p1.len(),
    ensures
        genes_shared(p1, p2, spliced(p1, p2, m), spliced(p2, p1, m)),
{
    let c1 = spliced(p1, p2, m);
    let c2 = spliced(p2, p1, m);
    assert forall|i: int| 0 <= i < p1.len() implies (c1[i] == p1[i] && c2[i] == p2[i]) || (c1[i]
        == p2[i] && c2[i] == p1[i]) by {
        if i < m {
            assert(c1[i] == p1[i]);
            assert(c2[i] == p2[i]);
        } else {
            assert(c1[i] == p2[i]);
            assert(c2[i] == p1[i]);
        }
    }
}

} // verus!
