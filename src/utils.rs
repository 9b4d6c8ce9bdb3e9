use crate::bits::{copy_candidate, schedule_of};
use crate::data::OptimizationData;
use crate::random::random_below;
use crate::score::{
    less_than, lemma_score_le_refl, lemma_score_le_trans, lemma_score_total, score_le, score_lt, Score,
};
use bit_vec::BitVec;
use vstd::prelude::*;

verus! {

/// Every score of `values` is well formed.
pub open spec fn all_wf(values: Seq<Score>) -> bool {
    forall|i: int| 0 <= i < values.len() ==> (#[trigger] values[i]).wf()
}

/// `i` is the first index of a highest score.
pub open spec fn is_first_best(values: Seq<Score>, i: int) -> bool {
    &&& 0 <= i < values.len()
    &&& forall|j: int| 0 <= j < values.len() ==> score_le(#[trigger] values[j], values[i])
    &&& forall|j: int| 0 <= j < i ==> score_lt(#[trigger] values[j], values[i])
}

/// `i` is the first index of a lowest score.
pub open spec fn is_first_worst(values: Seq<Score>, i: int) -> bool {
    &&& 0 <= i < values.len()
    &&& forall|j: int| 0 <= j < values.len() ==> score_le(values[i], #[trigger] values[j])
    &&& forall|j: int| 0 <= j < i ==> score_lt(values[i], #[trigger] values[j])
}

/// A score at most another is below every score that one is below.
proof fn lemma_score_le_lt_trans(a: Score, b: Score, c: Score)
    requires
        a.wf(),
        b.wf(),
        c.wf(),
        score_le(a, b),
        score_lt(b, c),
    ensures
        score_lt(a, c),
{
    let (an, ad, bn, bd, cn, cd) = (
        a.numerator as int,
        a.denominator as int,
        b.numerator as int,
        b.denominator as int,
        c.numerator as int,
        c.denominator as int,
    );
    if bd == 0 {
        assert(cn * bd == 0) by (nonlinear_arith)
            requires
                bd == 0,
        ;
        assert(bn * cd >= 0) by (nonlinear_arith)
            requires
                bn == 1,
                cd >= 0,
        ;
    } else if cd == 0 {
        assert(an * cd == 0) by (nonlinear_arith)
            requires
                cd == 0,
        ;
        if ad == 0 {
            assert(bn * ad == 0) by (nonlinear_arith)
                requires
                    ad == 0,
            ;
            assert(an * bd > 0) by (nonlinear_arith)
                requires
                    an == 1,
                    bd > 0,
            ;
        }
        assert(cn * ad > 0) by (nonlinear_arith)
            requires
                cn == 1,
                ad > 0,
        ;
    } else if ad == 0 {
        assert(bn * ad == 0) by (nonlinear_arith)
            requires
                ad == 0,
        ;
        assert(an * bd > 0) by (nonlinear_arith)
            requires
                an == 1,
                bd > 0,
        ;
    } else {
        assert(an * cd < cn * ad) by (nonlinear_arith)
            requires
                an * bd <= bn * ad,
                bn * cd < cn * bd,
                ad > 0,
                bd > 0,
                cd > 0,
        {
            assert(an * bd * cd <= bn * ad * cd);
            assert(bn * cd * ad < cn * bd * ad);
            assert((an * cd) * bd < (cn * ad) * bd);
        }
    }
}

/// The first index of a highest score and the first index of a lowest one.
fn best_and_worst_index(values: &Vec<Score>) -> (r: (usize, usize))
    requires
        values@.len() > 0,
        all_wf(values@),
    ensures
        is_first_best(values@, r.0 as int),
        is_first_worst(values@, r.1 as int),
{
    let mut highest_index: usize = 0;
    let mut lowest_index: usize = 0;
    for i in 0..values.len()
        invariant
            values@.len() > 0,
            all_wf(values@),
            highest_index < values@.len(),
            lowest_index < values@.len(),
            highest_index <= i,
            lowest_index <= i,
            forall|j: int| 0 <= j < i ==> score_le(#[trigger] values@[j], values@[highest_index as int]),
            forall|j: int| 0 <= j < highest_index ==> score_lt(#[trigger] values@[j], values@[highest_index as int]),
            forall|j: int| 0 <= j < i ==> score_le(values@[lowest_index as int], #[trigger] values@[j]),
            forall|j: int| 0 <= j < lowest_index ==> score_lt(values@[lowest_index as int], #[trigger] values@[j]),
    {
        let ghost (h, l) = (highest_index as int, lowest_index as int);
        if less_than(&values[highest_index], &values[i]) {
            proof {
                assert forall|j: int| 0 <= j < i implies score_lt(#[trigger] values@[j], values@[i as int]) by {
                    lemma_score_le_lt_trans(values@[j], values@[h], values@[i as int]);
                }
                lemma_score_total(values@[h], values@[i as int]);
            }
            highest_index = i;
        } else {
            proof {
                lemma_score_total(values@[h], values@[i as int]);
            }
        }
        if less_than(&values[i], &values[lowest_index]) {
            proof {
                assert forall|j: int| 0 <= j < i implies score_lt(values@[i as int], #[trigger] values@[j]) by {
                    lemma_score_total(values@[i as int], values@[l]);
                    lemma_score_le_lt_trans_rev(values@[i as int], values@[l], values@[j]);
                }
                lemma_score_total(values@[i as int], values@[l]);
            }
            lowest_index = i;
        } else {
            proof {
                lemma_score_total(values@[i as int], values@[l]);
            }
        }
    }
    (highest_index, lowest_index)
}

/// A score below another is below every score that one is at most.
proof fn lemma_score_le_lt_trans_rev(a: Score, b: Score, c: Score)
    requires
        a.wf(),
        b.wf(),
        c.wf(),
        score_lt(a, b),
        score_le(b, c),
    ensures
        score_lt(a, c),
{
    lemma_score_total(a, c);
    if !score_lt(a, c) {
        lemma_score_le_trans(b, c, a);
        lemma_score_total(b, a);
        assert(false) by (nonlinear_arith)
            requires
                a.numerator * b.denominator < b.numerator * a.denominator,
                b.numerator * a.denominator <= a.numerator * b.denominator,
        ;
    }
}

/// A copy of the first schedule with the highest score, that score, and the lowest score.
pub fn get_best_and_worst_candidate(population: &Vec<Vec<BitVec>>, values: &Vec<Score>) -> (r: (
    Vec<BitVec>,
    Score,
    Score,
))
    requires
        values@.len() == population@.len(),
        values@.len() > 0,
        all_wf(values@),
    ensures
        exists|i: int|
            #[trigger] is_first_best(values@, i) && r.1 == values@[i] && schedule_of(r.0@)
                == schedule_of(population@[i]@),
        exists|i: int| #[trigger] is_first_worst(values@, i) && r.2 == values@[i],
{
    let (highest_index, lowest_index) = best_and_worst_index(values);
    let best = copy_candidate(&population[highest_index]);
    assert(is_first_best(values@, highest_index as int));
    assert(is_first_worst(values@, lowest_index as int));
    (best, values[highest_index], values[lowest_index])
}


/// Moves `count` values, drawn uniformly without replacement, to the front of `pool`.
fn shuffle_prefix(pool: &mut Vec<usize>, count: usize)
    requires
        count <= old(pool)@.len(),
        old(pool)@.no_duplicates(),
    ensures
        final(pool)@.len() == old(pool)@.len(),
        final(pool)@.no_duplicates(),
        forall|i: int| 0 <= i < final(pool)@.len() ==> old(pool)@.contains(#[trigger] final(pool)@[i]),
{
    let ghost original = pool@;
    let len = pool.len();
    for k in 0..count
        invariant
            len == pool@.len(),
            len == original.len(),
            count <= len,
            pool@.no_duplicates(),
            forall|i: int| 0 <= i < len ==> original.contains(#[trigger] pool@[i]),
    {
        let j = random_below(k, len);
        let a = pool[k];
        let b = pool[j];
        let ghost before = pool@;
        assert(original.contains(before[k as int]));
        assert(original.contains(before[j as int]));
        pool[k] = b;
        pool[j] = a;
        assert(forall|i: int| 0 <= i < len ==> #[trigger] pool@[i] == (if i == j {
            before[k as int]
        } else if i == k {
            before[j as int]
        } else {
            before[i]
        }));
        assert forall|i: int| 0 <= i < len implies original.contains(#[trigger] pool@[i]) by {
            if i != j && i != k {
                assert(original.contains(before[i]));
            }
        }
    }
}

/// `count` distinct values drawn uniformly from `min..max`.
pub fn distinct_random(min: usize, max: usize, count: usize) -> (r: Vec<usize>)
    requires
        min <= max,
        count <= max - min,
    ensures
        r@.len() == count,
        r@.no_duplicates(),
        forall|k: int| 0 <= k < count ==> min <= #[trigger] r@[k] < max,
{
    let mut pool: Vec<usize> = Vec::with_capacity(max - min);
    for v in min..max
        invariant
            min <= v <= max,
            pool@.len() == v - min,
            forall|k: int| 0 <= k < pool@.len() ==> #[trigger] pool@[k] == min + k,
    {
        pool.push(v);
    }
    let ghost original = pool@;
    assert(original.no_duplicates());
    shuffle_prefix(&mut pool, count);
    let mut random_values: Vec<usize> = Vec::with_capacity(count);
    for k in 0..count
        invariant
            count <= pool@.len(),
            pool@.no_duplicates(),
            original.len() == pool@.len(),
            forall|i: int| 0 <= i < pool@.len() ==> original.contains(#[trigger] pool@[i]),
            forall|i: int| 0 <= i < original.len() ==> #[trigger] original[i] == min + i,
            random_values@ == pool@.take(k as int),
    {
        random_values.push(pool[k]);
        assert(random_values@ =~= pool@.take(k + 1));
    }
    assert forall|k: int| 0 <= k < count implies min <= #[trigger] random_values@[k] < max by {
        assert(original.contains(pool@[k]));
    }
    random_values
}

/// Position `p` of the sample `s` holds its first highest score: no score in `s` is above
/// it, and every score before it is below it.
pub open spec fn is_first_highest(values: Seq<Score>, s: Seq<usize>, p: int) -> bool {
    &&& 0 <= p < s.len()
    &&& forall|q: int|
        0 <= q < s.len() ==> score_le(values[(#[trigger] s[q]) as int], values[s[p] as int])
    &&& forall|q: int| 0 <= q < p ==> score_lt(values[(#[trigger] s[q]) as int], values[s[p] as int])
}

/// `s` is a tournament of `size` distinct indices of `values` in the order they were
/// drawn, none of them among `earlier`, that `w` wins: `w` is its first highest entry.
pub open spec fn is_tournament(
    values: Seq<Score>,
    earlier: Seq<usize>,
    size: int,
    s: Seq<usize>,
    w: usize,
) -> bool {
    &&& s.len() == size
    &&& s.no_duplicates()
    &&& forall|k: int|
        0 <= k < s.len() ==> {
            &&& #[trigger] s[k] < values.len()
            &&& !earlier.contains(s[k])
        }
    &&& exists|p: int| #[trigger] is_first_highest(values, s, p) && s[p] == w
}

/// The position in `sample`, which lists indices of `values` in the order they were drawn,
/// of its first highest score.
pub fn tournament_winner(values: &Vec<Score>, sample: &Vec<usize>) -> (r: usize)
    requires
        0 < sample@.len(),
        all_wf(values@),
        forall|q: int| 0 <= q < sample@.len() ==> #[trigger] sample@[q] < values@.len(),
    ensures
        is_first_highest(values@, sample@, r as int),
{
    let ghost v = values@;
    let mut best_pos: usize = 0;
    proof {
        lemma_score_le_refl(v[sample@[0] as int]);
    }
    for p in 1..sample.len()
        invariant
            0 < sample@.len(),
            v == values@,
            all_wf(v),
            forall|q: int| 0 <= q < sample@.len() ==> #[trigger] sample@[q] < v.len(),
            best_pos < p,
            forall|q: int|
                0 <= q < p ==> score_le(v[(#[trigger] sample@[q]) as int], v[sample@[best_pos as int] as int]),
            forall|q: int|
                0 <= q < best_pos ==> score_lt(v[(#[trigger] sample@[q]) as int], v[sample@[best_pos as int] as int]),
    {
        let ghost old_best = sample@[best_pos as int];
        let ghost cand = sample@[p as int];
        assert(sample@[0] < v.len());
        if less_than(&values[sample[best_pos]], &values[sample[p]]) {
            proof {
                assert forall|q: int| 0 <= q < p implies score_lt(
                    v[(#[trigger] sample@[q]) as int],
                    v[cand as int],
                ) by {
                    lemma_score_le_lt_trans(v[sample@[q] as int], v[old_best as int], v[cand as int]);
                }
                lemma_score_le_refl(v[cand as int]);
                assert forall|q: int| 0 <= q < p + 1 implies score_le(
                    v[(#[trigger] sample@[q]) as int],
                    v[cand as int],
                ) by {
                    if q < p {
                        lemma_score_total(v[sample@[q] as int], v[cand as int]);
                    }
                }
            }
            best_pos = p;
        } else {
            proof {
                lemma_score_total(v[old_best as int], v[cand as int]);
            }
        }
    }
    best_pos
}

/// `w` wins some tournament of `size` indices of `values`, none of them among `earlier`.
pub open spec fn wins_tournament(values: Seq<Score>, earlier: Seq<usize>, size: int, w: usize) -> bool {
    exists|s: Seq<usize>| #[trigger] is_tournament(values, earlier, size, s, w)
}

/// `w` is what a call of `tournament` may return: `parents_size` distinct indices of
/// `values`, each the winner of a tournament among the indices not chosen before it.
pub open spec fn tournament_result(values: Seq<Score>, opt: OptimizationData, w: Seq<usize>) -> bool {
    &&& w.len() == opt.parents_size
    &&& w.no_duplicates()
    &&& forall|k: int| 0 <= k < w.len() ==> #[trigger] w[k] < values.len()
    &&& forall|k: int|
        0 <= k < w.len() ==> #[trigger] wins_tournament(
            values,
            w.take(k),
            opt.tournament_size as int,
            w[k],
        )
}

/// `parents_size` distinct indices of `population_values`, each the winner of a tournament
/// of `tournament_size` indices drawn uniformly among those not chosen before.
pub fn tournament(population_values: &Vec<Score>, optimization_data: &OptimizationData) -> (r: Vec<
    usize,
>)
    requires
        all_wf(population_values@),
        optimization_data.parents_size > 0 ==> 1 <= optimization_data.tournament_size
            && optimization_data.parents_size - 1 + optimization_data.tournament_size
            <= population_values@.len(),
    ensures
        r@.len() == optimization_data.parents_size,
        r@.no_duplicates(),
        forall|k: int| 0 <= k < r@.len() ==> #[trigger] r@[k] < population_values@.len(),
        forall|k: int|
            0 <= k < r@.len() ==> #[trigger] wins_tournament(
                population_values@,
                r@.take(k),
                optimization_data.tournament_size as int,
                r@[k],
            ),
        tournament_result(population_values@, *optimization_data, r@),
{
    let n = population_values.len();
    let size = optimization_data.tournament_size;
    let ghost values = population_values@;
    let mut available: Vec<usize> = Vec::with_capacity(n);
    for v in 0..n
        invariant
            available@.len() == v,
            forall|k: int| 0 <= k < available@.len() ==> #[trigger] available@[k] == k,
    {
        available.push(v);
    }
    let mut winners: Vec<usize> = Vec::with_capacity(optimization_data.parents_size);
    for round in 0..optimization_data.parents_size
        invariant
            values == population_values@,
            n == values.len(),
            size == optimization_data.tournament_size,
            all_wf(values),
            optimization_data.parents_size > 0 ==> 1 <= size && optimization_data.parents_size - 1
                + size <= n,
            available@.len() == n - round,
            winners@.len() == round,
            available@.no_duplicates(),
            winners@.no_duplicates(),
            forall|a: int| 0 <= a < available@.len() ==> #[trigger] available@[a] < n,
            forall|b: int| 0 <= b < winners@.len() ==> #[trigger] winners@[b] < n,
            forall|a: int, b: int|
                0 <= a < available@.len() && 0 <= b < winners@.len() ==> #[trigger] available@[a]
                    != #[trigger] winners@[b],
            forall|k: int|
                0 <= k < winners@.len() ==> #[trigger] wins_tournament(
                    values,
                    winners@.take(k),
                    size as int,
                    winners@[k],
                ),
    {
        let ghost before = available@;
        shuffle_prefix(&mut available, size);
        assert forall|a: int| 0 <= a < available@.len() implies #[trigger] available@[a] < n
            && forall|b: int| 0 <= b < winners@.len() ==> available@[a] != #[trigger] winners@[b] by {
            assert(before.contains(available@[a]));
        }
        let mut sample: Vec<usize> = Vec::with_capacity(size);
        for q in 0..size
            invariant
                size <= available@.len(),
                sample@ == available@.take(q as int),
        {
            sample.push(available[q]);
            assert(sample@ =~= available@.take(q + 1));
        }
        assert forall|q: int| 0 <= q < sample@.len() implies #[trigger] sample@[q] < values.len() by {
            assert(sample@[q] == available@[q]);
        }
        let best_pos = tournament_winner(population_values, &sample);
        let w = sample[best_pos];
        proof {
            let s = sample@;
            assert(winners@.take(round as int) =~= winners@);
            assert forall|k: int| 0 <= k < s.len() implies {
                &&& #[trigger] s[k] < values.len()
                &&& !winners@.take(round as int).contains(s[k])
            } by {
                assert(s[k] == available@[k]);
            }
            assert(s.no_duplicates()) by {
                assert forall|x: int, y: int| 0 <= x < y < s.len() implies s[x] != s[y] by {
                    assert(s[x] == available@[x] && s[y] == available@[y]);
                }
            }
            assert(is_first_highest(values, s, best_pos as int) && s[best_pos as int] == w);
            assert(is_tournament(values, winners@.take(round as int), size as int, s, w));
        }
        let ghost old_winners = winners@;
        let ghost shuffled = available@;
        winners.push(w);
        available.remove(best_pos);
        proof {
            assert forall|k: int| 0 <= k < winners@.len() implies #[trigger] wins_tournament(
                values,
                winners@.take(k),
                size as int,
                winners@[k],
            ) by {
                assert(winners@.take(k) =~= old_winners.take(k));
                if k < round {
                    assert(winners@[k] == old_winners[k]);
                    assert(wins_tournament(values, old_winners.take(k), size as int, old_winners[k]));
                } else {
                    assert(winners@.take(k) =~= winners@.take(round as int));
                }
            }
            assert(forall|a: int|
                0 <= a < available@.len() ==> #[trigger] available@[a] == (if a < best_pos {
                    shuffled[a]
                } else {
                    shuffled[a + 1]
                }));
        }
    }
    winners
}

} // verus!
