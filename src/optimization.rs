use crate::bits::{
    bit_at, bits_len, bits_of, bits_with_capacity, copy_bits, copy_candidate, has_shape, push_bit,
    schedule_of, set_bit,
};
use crate::data::{
    generate_candidate, generate_population, Fraction, Mutation, Optimization, OptimizationData,
    Recombination, SimulationData,
};
use crate::score::{
    less_than, lemma_score_le_refl, lemma_score_le_trans, lemma_score_total, score_le, score_lt, Score,
};
use crate::simulation::{
    population_fits, simulate, simulate_population, simulated_score, traffic_within_limits,
};
use crate::random::{random_below, random_chance};
use crate::utils::{
    all_wf, distinct_random, get_best_and_worst_candidate, is_first_best, tournament,
    tournament_result,
};
use bit_vec::BitVec;
use vstd::prelude::*;

verus! {

/// Each row of `s` has the length of the same row of `t`.
pub open spec fn same_shape(s: Seq<Seq<bool>>, t: Seq<Seq<bool>>) -> bool {
    &&& s.len() == t.len()
    &&& forall|i: int| 0 <= i < s.len() ==> (#[trigger] s[i]).len() == t[i].len()
}

/// `s` with the bit at row `i`, column `j` flipped.
pub open spec fn flip_at(s: Seq<Seq<bool>>, i: int, j: int) -> Seq<Seq<bool>> {
    s.update(i, s[i].update(j, !s[i][j]))
}

/// `s` with every bit flipped.
pub open spec fn complement(s: Seq<Seq<bool>>) -> Seq<Seq<bool>> {
    Seq::new(s.len(), |i: int| Seq::new(s[i].len(), |j: int| !s[i][j]))
}

/// A schedule holds at least one bit, and every row does.
pub open spec fn has_bits(s: Seq<Seq<bool>>) -> bool {
    &&& s.len() > 0
    &&& forall|i: int| 0 <= i < s.len() ==> (#[trigger] s[i]).len() > 0
}

/// A copy of `input` with one bit, drawn uniformly, flipped.
fn bitflip(input: &Vec<BitVec>) -> (r: Vec<BitVec>)
    requires
        has_bits(schedule_of(input@)),
    ensures
        exists|i: int, j: int|
            0 <= i < input@.len() && 0 <= j < bits_of(input@[i]).len() && #[trigger] flip_at(
                schedule_of(input@),
                i,
                j,
            ) == schedule_of(r@),
{
    let mut modified = copy_candidate(input);
    let index1 = random_below(0, input.len());
    assert(schedule_of(input@)[index1 as int] == bits_of(input@[index1 as int]));
    let len = bits_len(&input[index1]);
    let index2 = random_below(0, len);
    let mut row = copy_bits(&input[index1]);
    let prev = bit_at(&row, index2);
    set_bit(&mut row, index2, !prev);
    let ghost before = modified@;
    modified[index1] = row;
    assert(schedule_of(modified@) =~= flip_at(schedule_of(input@), index1 as int, index2 as int)) by {
        assert(schedule_of(before) == schedule_of(input@));
        assert forall|k: int| 0 <= k < modified@.len() && k != index1 implies bits_of(
            #[trigger] modified@[k],
        ) == bits_of(input@[k]) by {
            assert(schedule_of(before)[k] == bits_of(before[k]));
        }
    }
    modified
}

/// The flip decisions as rows of bits.
pub open spec fn mask_of(mask: Seq<Vec<bool>>) -> Seq<Seq<bool>> {
    mask.map_values(|row: Vec<bool>| row@)
}

/// `s` with the bits flipped where `mask` is set.
pub open spec fn flipped_where(s: Seq<Seq<bool>>, mask: Seq<Seq<bool>>) -> Seq<Seq<bool>> {
    Seq::new(s.len(), |i: int| Seq::new(s[i].len(), |j: int| s[i][j] != mask[i][j]))
}

/// A copy of `row` with the bits flipped where `mask` is set.
fn flip_row_where(row: &BitVec, mask: &Vec<bool>) -> (r: BitVec)
    requires
        mask@.len() == bits_of(*row).len(),
    ensures
        bits_of(r) == Seq::new(bits_of(*row).len(), |j: int| bits_of(*row)[j] != mask@[j]),
{
    let mut modified = copy_bits(row);
    let len = bits_len(row);
    for index2 in 0..len
        invariant
            len == bits_of(*row).len(),
            mask@.len() == len,
            bits_of(modified).len() == len,
            forall|j: int|
                0 <= j < len ==> #[trigger] bits_of(modified)[j] == (if j < index2 {
                    bits_of(*row)[j] != mask@[j]
                } else {
                    bits_of(*row)[j]
                }),
    {
        if mask[index2] {
            let prev = bit_at(&modified, index2);
            set_bit(&mut modified, index2, !prev);
        }
    }
    assert(bits_of(modified) =~= Seq::new(len as nat, |j: int| bits_of(*row)[j] != mask@[j]));
    modified
}

/// A copy of `input` with the bits flipped where `mask`, of the same shape, is set.
pub fn flip_where(input: &Vec<BitVec>, mask: &Vec<Vec<bool>>) -> (r: Vec<BitVec>)
    requires
        same_shape(mask_of(mask@), schedule_of(input@)),
    ensures
        schedule_of(r@) == flipped_where(schedule_of(input@), mask_of(mask@)),
{
    let ghost (s, m) = (schedule_of(input@), mask_of(mask@));
    let mut modified: Vec<BitVec> = Vec::with_capacity(input.len());
    for index1 in 0..input.len()
        invariant
            s == schedule_of(input@),
            m == mask_of(mask@),
            same_shape(m, s),
            modified@.len() == index1,
            forall|k: int|
                0 <= k < index1 ==> bits_of(#[trigger] modified@[k]) == flipped_where(s, m)[k],
    {
        assert(s[index1 as int] == bits_of(input@[index1 as int]));
        assert(m[index1 as int] == mask@[index1 as int]@);
        let row = flip_row_where(&input[index1], &mask[index1]);
        assert(bits_of(row) =~= flipped_where(s, m)[index1 as int]);
        modified.push(row);
    }
    assert(schedule_of(modified@) =~= flipped_where(s, m));
    modified
}

/// Flip decisions of the shape of `input`, each drawn independently with probability
/// `probability`: none when it is 0, all when it is 1.
fn draw_flips(input: &Vec<BitVec>, probability: Fraction) -> (r: Vec<Vec<bool>>)
    requires
        probability.wf(),
    ensures
        same_shape(mask_of(r@), schedule_of(input@)),
        probability.numerator == 0 ==> forall|i: int, j: int|
            0 <= i < r@.len() && 0 <= j < r@[i]@.len() ==> !#[trigger] r@[i]@[j],
        probability.numerator == probability.denominator ==> forall|i: int, j: int|
            0 <= i < r@.len() && 0 <= j < r@[i]@.len() ==> #[trigger] r@[i]@[j],
{
    let mut mask: Vec<Vec<bool>> = Vec::with_capacity(input.len());
    for index1 in 0..input.len()
        invariant
            probability.wf(),
            mask@.len() == index1,
            forall|k: int|
                0 <= k < index1 ==> (#[trigger] mask@[k])@.len() == bits_of(input@[k]).len(),
            probability.numerator == 0 ==> forall|i: int, j: int|
                0 <= i < index1 && 0 <= j < mask@[i]@.len() ==> !#[trigger] mask@[i]@[j],
            probability.numerator == probability.denominator ==> forall|i: int, j: int|
                0 <= i < index1 && 0 <= j < mask@[i]@.len() ==> #[trigger] mask@[i]@[j],
    {
        let len = bits_len(&input[index1]);
        let mut row: Vec<bool> = Vec::with_capacity(len);
        for index2 in 0..len
            invariant
                probability.wf(),
                row@.len() == index2,
                probability.numerator == 0 ==> forall|j: int| 0 <= j < index2 ==> !#[trigger] row@[j],
                probability.numerator == probability.denominator ==> forall|j: int|
                    0 <= j < index2 ==> #[trigger] row@[j],
        {
            row.push(random_chance(probability.numerator, probability.denominator));
        }
        let ghost before = mask@;
        mask.push(row);
        assert forall|k: int| 0 <= k < index1 + 1 implies (#[trigger] mask@[k])@.len() == bits_of(
            input@[k],
        ).len() by {
            if k < index1 {
                assert(mask@[k] == before[k]);
            }
        }
        assert(forall|k: int| 0 <= k < index1 ==> mask@[k] == before[k]);
    }
    assert forall|i: int| 0 <= i < mask@.len() implies (#[trigger] mask_of(mask@)[i]).len()
        == schedule_of(input@)[i].len() by {
        assert(mask_of(mask@)[i] == mask@[i]@);
        assert(schedule_of(input@)[i] == bits_of(input@[i]));
    }
    mask
}

/// A copy of `input` in which each bit is flipped, independently, with probability
/// `probability`.
fn probability_bitflip(input: &Vec<BitVec>, probability: Fraction) -> (r: Vec<BitVec>)
    requires
        probability.wf(),
    ensures
        same_shape(schedule_of(r@), schedule_of(input@)),
        probability.numerator == 0 ==> schedule_of(r@) == schedule_of(input@),
        probability.numerator == probability.denominator ==> schedule_of(r@) == complement(
            schedule_of(input@),
        ),
{
    let mask = draw_flips(input, probability);
    let r = flip_where(input, &mask);
    proof {
        let (s, m) = (schedule_of(input@), mask_of(mask@));
        assert forall|i: int| 0 <= i < s.len() implies #[trigger] m[i] == mask@[i]@ && m[i].len()
            == s[i].len() by {}
        if probability.numerator == 0 {
            assert forall|i: int| 0 <= i < s.len() implies #[trigger] flipped_where(s, m)[i] =~= s[i] by {
                assert(m[i] == mask@[i]@);
            }
            assert(flipped_where(s, m) =~= s);
        }
        if probability.numerator == probability.denominator {
            assert forall|i: int| 0 <= i < s.len() implies #[trigger] flipped_where(s, m)[i]
                =~= complement(s)[i] by {
                assert(m[i] == mask@[i]@);
            }
            assert(flipped_where(s, m) =~= complement(s));
        }
    }
    r
}

/// What `mutation` may return for `input`: `input` itself, `input` with one bit flipped,
/// or `input` with each bit flipped with the configured probability, by the variant.
pub open spec fn mutated(opt: OptimizationData, input: Seq<Seq<bool>>, r: Seq<Seq<bool>>) -> bool {
    match opt.mutation {
        Mutation::Unchanged => r == input,
        Mutation::Bitflip => exists|i: int, j: int|
            0 <= i < input.len() && 0 <= j < input[i].len() && #[trigger] flip_at(input, i, j)
                == r,
        Mutation::ProbBitflip => {
            &&& same_shape(r, input)
            &&& opt.probability_bitflip.numerator == 0 ==> r == input
            &&& opt.probability_bitflip.numerator == opt.probability_bitflip.denominator ==> r
                == complement(input)
        },
    }
}

/// What a mutation needs of the configuration and of the schedule.
pub open spec fn can_mutate(opt: OptimizationData, input: Seq<Seq<bool>>) -> bool {
    &&& opt.mutation == Mutation::Bitflip ==> has_bits(input)
    &&& opt.mutation == Mutation::ProbBitflip ==> opt.probability_bitflip.wf()
}

/// A mutant of `candidate` by the configured variant.
pub fn mutation(candidate: &Vec<BitVec>, optimization_data: &OptimizationData) -> (r: Vec<BitVec>)
    requires
        can_mutate(*optimization_data, schedule_of(candidate@)),
    ensures
        mutated(*optimization_data, schedule_of(candidate@), schedule_of(r@)),
        same_shape(schedule_of(r@), schedule_of(candidate@)),
{
    match optimization_data.mutation {
        Mutation::ProbBitflip => probability_bitflip(candidate, optimization_data.probability_bitflip),
        Mutation::Bitflip => {
            let r = bitflip(candidate);
            proof {
                let (i, j) = choose|i: int, j: int|
                    0 <= i < candidate@.len() && 0 <= j < bits_of(candidate@[i]).len()
                        && #[trigger] flip_at(schedule_of(candidate@), i, j) == schedule_of(r@);
                assert(schedule_of(candidate@)[i] == bits_of(candidate@[i]));
                assert(flip_at(schedule_of(candidate@), i, j) == schedule_of(r@));
            }
            r
        },
        Mutation::Unchanged => copy_candidate(candidate),
    }
}


/// Each row of `a` up to column `cut`, followed by the same row of `b` from `cut` on.
pub open spec fn spliced(a: Seq<Seq<bool>>, b: Seq<Seq<bool>>, cut: int) -> Seq<Seq<bool>> {
    Seq::new(a.len(), |i: int| a[i].take(cut) + b[i].skip(cut))
}

/// The rows of `a`, but those strictly between rows `lo` and `hi`, taken from `b`.
pub open spec fn rows_swapped(a: Seq<Seq<bool>>, b: Seq<Seq<bool>>, lo: int, hi: int) -> Seq<
    Seq<bool>,
> {
    Seq::new(a.len(), |i: int| if lo < i < hi { b[i] } else { a[i] })
}

/// Row `head` up to column `cut`, followed by row `tail` from `cut` on.
fn splice_row(head: &BitVec, tail: &BitVec, cut: usize) -> (r: BitVec)
    requires
        cut <= bits_of(*head).len(),
        cut <= bits_of(*tail).len(),
    ensures
        bits_of(r) == bits_of(*head).take(cut as int) + bits_of(*tail).skip(cut as int),
{
    let len = bits_len(tail);
    let mut row = bits_with_capacity(len);
    for j in 0..cut
        invariant
            cut <= bits_of(*head).len(),
            cut <= len,
            len == bits_of(*tail).len(),
            bits_of(row) == bits_of(*head).take(j as int),
    {
        push_bit(&mut row, bit_at(head, j));
        assert(bits_of(row) =~= bits_of(*head).take(j + 1));
    }
    for j in cut..len
        invariant
            cut <= bits_of(*head).len(),
            len == bits_of(*tail).len(),
            bits_of(row) == bits_of(*head).take(cut as int) + bits_of(*tail).subrange(cut as int, j as int),
    {
        push_bit(&mut row, bit_at(tail, j));
        assert(bits_of(row) =~= bits_of(*head).take(cut as int) + bits_of(*tail).subrange(cut as int, j + 1));
    }
    assert(bits_of(*tail).subrange(cut as int, len as int) =~= bits_of(*tail).skip(cut as int));
    row
}

/// The two children of a one-point crossover of `input1` and `input2` at column `cut`:
/// every row of each parent is cut there and the tails are swapped.
pub fn crossover_at(input1: &Vec<BitVec>, input2: &Vec<BitVec>, cut: usize) -> (r: (
    Vec<BitVec>,
    Vec<BitVec>,
))
    requires
        input1@.len() == input2@.len(),
        forall|i: int|
            0 <= i < input1@.len() ==> cut <= bits_of(#[trigger] input1@[i]).len() && cut
                <= bits_of(input2@[i]).len(),
    ensures
        schedule_of(r.0@) == spliced(schedule_of(input1@), schedule_of(input2@), cut as int),
        schedule_of(r.1@) == spliced(schedule_of(input2@), schedule_of(input1@), cut as int),
{
    let ghost (a, b) = (schedule_of(input1@), schedule_of(input2@));
    let mut crossover1: Vec<BitVec> = Vec::with_capacity(input1.len());
    let mut crossover2: Vec<BitVec> = Vec::with_capacity(input1.len());
    for index in 0..input1.len()
        invariant
            input1@.len() == input2@.len(),
            a == schedule_of(input1@),
            b == schedule_of(input2@),
            forall|i: int|
                0 <= i < input1@.len() ==> cut <= bits_of(#[trigger] input1@[i]).len() && cut
                    <= bits_of(input2@[i]).len(),
            crossover1@.len() == index,
            crossover2@.len() == index,
            forall|k: int|
                0 <= k < index ==> bits_of(#[trigger] crossover1@[k]) == a[k].take(cut as int)
                    + b[k].skip(cut as int),
            forall|k: int|
                0 <= k < index ==> bits_of(#[trigger] crossover2@[k]) == b[k].take(cut as int)
                    + a[k].skip(cut as int),
    {
        assert(a[index as int] == bits_of(input1@[index as int]));
        assert(b[index as int] == bits_of(input2@[index as int]));
        crossover1.push(splice_row(&input1[index], &input2[index], cut));
        crossover2.push(splice_row(&input2[index], &input1[index], cut));
    }
    assert(schedule_of(crossover1@) =~= spliced(a, b, cut as int));
    assert(schedule_of(crossover2@) =~= spliced(b, a, cut as int));
    (crossover1, crossover2)
}

/// The two children of a two-point crossover of `input1` and `input2` between rows `lo`
/// and `hi`: the rows strictly between them are swapped.
pub fn crossover_between(input1: &Vec<BitVec>, input2: &Vec<BitVec>, lo: usize, hi: usize) -> (r: (
    Vec<BitVec>,
    Vec<BitVec>,
))
    requires
        input1@.len() == input2@.len(),
    ensures
        schedule_of(r.0@) == rows_swapped(schedule_of(input1@), schedule_of(input2@), lo as int, hi as int),
        schedule_of(r.1@) == rows_swapped(schedule_of(input2@), schedule_of(input1@), lo as int, hi as int),
{
    let ghost (a, b) = (schedule_of(input1@), schedule_of(input2@));
    let mut crossover1: Vec<BitVec> = Vec::with_capacity(input1.len());
    let mut crossover2: Vec<BitVec> = Vec::with_capacity(input1.len());
    for index in 0..input1.len()
        invariant
            input1@.len() == input2@.len(),
            a == schedule_of(input1@),
            b == schedule_of(input2@),
            crossover1@.len() == index,
            crossover2@.len() == index,
            forall|k: int|
                0 <= k < index ==> bits_of(#[trigger] crossover1@[k]) == (if lo < k < hi {
                    b[k]
                } else {
                    a[k]
                }),
            forall|k: int|
                0 <= k < index ==> bits_of(#[trigger] crossover2@[k]) == (if lo < k < hi {
                    a[k]
                } else {
                    b[k]
                }),
    {
        assert(a[index as int] == bits_of(input1@[index as int]));
        assert(b[index as int] == bits_of(input2@[index as int]));
        if lo < index && index < hi {
            crossover1.push(copy_bits(&input2[index]));
            crossover2.push(copy_bits(&input1[index]));
        } else {
            crossover1.push(copy_bits(&input1[index]));
            crossover2.push(copy_bits(&input2[index]));
        }
    }
    assert(schedule_of(crossover1@) =~= rows_swapped(a, b, lo as int, hi as int));
    assert(schedule_of(crossover2@) =~= rows_swapped(b, a, lo as int, hi as int));
    (crossover1, crossover2)
}

/// A one-point crossover of two schedules of the road's shape, at a column drawn
/// uniformly from `1..timesteps`.
fn one_point_crossover(
    input1: &Vec<BitVec>,
    input2: &Vec<BitVec>,
    simulation_data: &SimulationData,
) -> (r: (Vec<BitVec>, Vec<BitVec>))
    requires
        has_shape(schedule_of(input1@), simulation_data.intersections as int, simulation_data.timesteps as int),
        has_shape(schedule_of(input2@), simulation_data.intersections as int, simulation_data.timesteps as int),
        2 <= simulation_data.timesteps,
    ensures
        exists|cut: int|
            1 <= cut < simulation_data.timesteps && #[trigger] spliced(
                schedule_of(input1@),
                schedule_of(input2@),
                cut,
            ) == schedule_of(r.0@) && spliced(schedule_of(input2@), schedule_of(input1@), cut)
                == schedule_of(r.1@),
{
    let random_index = random_below(1, simulation_data.timesteps);
    assert forall|i: int| 0 <= i < input1@.len() implies random_index <= bits_of(
        #[trigger] input1@[i],
    ).len() && random_index <= bits_of(input2@[i]).len() by {
        assert(schedule_of(input1@)[i] == bits_of(input1@[i]));
        assert(schedule_of(input2@)[i] == bits_of(input2@[i]));
    }
    let r = crossover_at(input1, input2, random_index);
    assert(spliced(schedule_of(input1@), schedule_of(input2@), random_index as int) == schedule_of(r.0@));
    r
}

/// A two-point crossover of two schedules of the road's shape, between two distinct rows
/// drawn uniformly.
fn two_point_crossover(
    input1: &Vec<BitVec>,
    input2: &Vec<BitVec>,
    simulation_data: &SimulationData,
) -> (r: (Vec<BitVec>, Vec<BitVec>))
    requires
        input1@.len() == simulation_data.intersections,
        input2@.len() == simulation_data.intersections,
        2 <= simulation_data.intersections,
    ensures
        exists|lo: int, hi: int|
            0 <= lo < hi < simulation_data.intersections && #[trigger] rows_swapped(
                schedule_of(input1@),
                schedule_of(input2@),
                lo,
                hi,
            ) == schedule_of(r.0@) && rows_swapped(schedule_of(input2@), schedule_of(input1@), lo, hi)
                == schedule_of(r.1@),
{
    let randoms = distinct_random(0, simulation_data.intersections, 2);
    let (lo, hi) = if randoms[0] < randoms[1] {
        (randoms[0], randoms[1])
    } else {
        (randoms[1], randoms[0])
    };
    let r = crossover_between(input1, input2, lo, hi);
    assert(rows_swapped(schedule_of(input1@), schedule_of(input2@), lo as int, hi as int) == schedule_of(r.0@));
    r
}


/// Crossovers keep the shape: the children of two schedules of one shape, cut at a
/// column within the rows or swapped between any two rows, have that shape too.
pub proof fn lemma_crossover_keeps_shape(
    a: Seq<Seq<bool>>,
    b: Seq<Seq<bool>>,
    intersections: int,
    timesteps: int,
    cut: int,
    lo: int,
    hi: int,
)
    requires
        has_shape(a, intersections, timesteps),
        has_shape(b, intersections, timesteps),
        0 <= cut <= timesteps,
    ensures
        has_shape(spliced(a, b, cut), intersections, timesteps),
        has_shape(spliced(b, a, cut), intersections, timesteps),
        has_shape(rows_swapped(a, b, lo, hi), intersections, timesteps),
        has_shape(rows_swapped(b, a, lo, hi), intersections, timesteps),
{
    assert forall|i: int| 0 <= i < intersections implies (#[trigger] spliced(a, b, cut)[i]).len()
        == timesteps && spliced(b, a, cut)[i].len() == timesteps && rows_swapped(a, b, lo, hi)[i].len()
        == timesteps && rows_swapped(b, a, lo, hi)[i].len() == timesteps by {
        assert(a[i].len() == timesteps && b[i].len() == timesteps);
    }
}

/// `r0` and `r1` are the children of a crossover of `a` and `b` by the configured variant:
/// at a column in `1..timesteps`, or between two distinct rows.
pub open spec fn crossed(
    opt: OptimizationData,
    a: Seq<Seq<bool>>,
    b: Seq<Seq<bool>>,
    timesteps: int,
    r0: Seq<Seq<bool>>,
    r1: Seq<Seq<bool>>,
) -> bool {
    match opt.recombination {
        Recombination::OnePoint => exists|cut: int|
            1 <= cut < timesteps && #[trigger] spliced(a, b, cut) == r0 && spliced(b, a, cut)
                == r1,
        Recombination::TwoPoint => exists|lo: int, hi: int|
            0 <= lo < hi < a.len() && #[trigger] rows_swapped(a, b, lo, hi) == r0 && rows_swapped(
                b,
                a,
                lo,
                hi,
            ) == r1,
    }
}

/// What `recombination` may return for the parents `a` and `b`: the parents themselves,
/// or the children of a crossover of the configured variant; the parents always when the
/// probability of recombination is 0, children always when it is 1.
pub open spec fn recombined(
    opt: OptimizationData,
    a: Seq<Seq<bool>>,
    b: Seq<Seq<bool>>,
    timesteps: int,
    r0: Seq<Seq<bool>>,
    r1: Seq<Seq<bool>>,
) -> bool {
    let kept = r0 == a && r1 == b;
    let crossed = crossed(opt, a, b, timesteps, r0, r1);
    &&& kept || crossed
    &&& opt.probability_recombination.numerator == 0 ==> kept
    &&& opt.probability_recombination.numerator == opt.probability_recombination.denominator
        ==> crossed
}

/// What a recombination needs of the configuration and of the road.
pub open spec fn can_recombine(opt: OptimizationData, sim: SimulationData) -> bool {
    &&& opt.probability_recombination.wf()
    &&& opt.recombination == Recombination::OnePoint ==> 2 <= sim.timesteps
    &&& opt.recombination == Recombination::TwoPoint ==> 2 <= sim.intersections
}

/// The children of a crossover of the two parents by the configured variant where the
/// draw `recombine` says so; otherwise copies of the parents.
pub fn recombine_if(
    candidate1: &Vec<BitVec>,
    candidate2: &Vec<BitVec>,
    recombine: bool,
    optimization_data: &OptimizationData,
    simulation_data: &SimulationData,
) -> (r: (Vec<BitVec>, Vec<BitVec>))
    requires
        can_recombine(*optimization_data, *simulation_data),
        has_shape(schedule_of(candidate1@), simulation_data.intersections as int, simulation_data.timesteps as int),
        has_shape(schedule_of(candidate2@), simulation_data.intersections as int, simulation_data.timesteps as int),
    ensures
        !recombine ==> schedule_of(r.0@) == schedule_of(candidate1@) && schedule_of(r.1@)
            == schedule_of(candidate2@),
        recombine ==> crossed(
            *optimization_data,
            schedule_of(candidate1@),
            schedule_of(candidate2@),
            simulation_data.timesteps as int,
            schedule_of(r.0@),
            schedule_of(r.1@),
        ),
        has_shape(schedule_of(r.0@), simulation_data.intersections as int, simulation_data.timesteps as int),
        has_shape(schedule_of(r.1@), simulation_data.intersections as int, simulation_data.timesteps as int),
{
    let ghost (a, b) = (schedule_of(candidate1@), schedule_of(candidate2@));
    let ghost (n, tt) = (simulation_data.intersections as int, simulation_data.timesteps as int);
    if recombine {
        match optimization_data.recombination {
            Recombination::OnePoint => {
                let r = one_point_crossover(candidate1, candidate2, simulation_data);
                proof {
                    let cut = choose|cut: int|
                        1 <= cut < tt && #[trigger] spliced(a, b, cut) == schedule_of(r.0@)
                            && spliced(b, a, cut) == schedule_of(r.1@);
                    assert(spliced(a, b, cut) == schedule_of(r.0@));
                    lemma_crossover_keeps_shape(a, b, n, tt, cut, 0, 0);
                }
                r
            },
            Recombination::TwoPoint => {
                let r = two_point_crossover(candidate1, candidate2, simulation_data);
                proof {
                    let (lo, hi) = choose|lo: int, hi: int|
                        0 <= lo < hi < n && #[trigger] rows_swapped(a, b, lo, hi) == schedule_of(r.0@)
                            && rows_swapped(b, a, lo, hi) == schedule_of(r.1@);
                    assert(rows_swapped(a, b, lo, hi) == schedule_of(r.0@));
                    lemma_crossover_keeps_shape(a, b, n, tt, 0, lo, hi);
                }
                r
            },
        }
    } else {
        (copy_candidate(candidate1), copy_candidate(candidate2))
    }
}

/// With the configured probability, the children of a crossover of the two parents by the
/// configured variant; otherwise copies of the parents.
pub fn recombination(
    candidate1: &Vec<BitVec>,
    candidate2: &Vec<BitVec>,
    optimization_data: &OptimizationData,
    simulation_data: &SimulationData,
) -> (r: (Vec<BitVec>, Vec<BitVec>))
    requires
        can_recombine(*optimization_data, *simulation_data),
        has_shape(schedule_of(candidate1@), simulation_data.intersections as int, simulation_data.timesteps as int),
        has_shape(schedule_of(candidate2@), simulation_data.intersections as int, simulation_data.timesteps as int),
    ensures
        recombined(
            *optimization_data,
            schedule_of(candidate1@),
            schedule_of(candidate2@),
            simulation_data.timesteps as int,
            schedule_of(r.0@),
            schedule_of(r.1@),
        ),
        has_shape(schedule_of(r.0@), simulation_data.intersections as int, simulation_data.timesteps as int),
        has_shape(schedule_of(r.1@), simulation_data.intersections as int, simulation_data.timesteps as int),
{
    let p = optimization_data.probability_recombination;
    let recombine = random_chance(p.numerator, p.denominator);
    recombine_if(candidate1, candidate2, recombine, optimization_data, simulation_data)
}

/// A configuration that a search cannot run on.
#[derive(Clone, Copy, Debug, PartialEq, Eq, Structural)]
pub enum ConfigError {
    /// The traffic table does not have one row per intersection and one cell per timestep.
    InvalidTable,
    /// The passthrough cap is negative, or a fraction is not between 0 and 1.
    InvalidParameter,
    /// The table holds more cars than the counters of a simulation can hold.
    TooMuchTraffic,
    /// A bit is to be flipped in a schedule that has none.
    NothingToFlip,
    /// The genetic strategy pairs its population, which must have an even size.
    OddPopulation,
    /// Fewer than two parents are to be selected.
    TooFewParents,
    /// As many parents as candidates, or more, are to be selected.
    TooManyParents,
    /// A tournament is to hold no candidate.
    TournamentTooSmall,
    /// A tournament is to hold more candidates than remain unchosen.
    TournamentTooLarge,
    /// The crossover has no place to cut: one timestep, or one intersection.
    NoCrossoverPoint,
}

/// The first thing, in a fixed order, that stops a search on this configuration.
pub open spec fn config_error(sim: SimulationData, opt: OptimizationData) -> Option<ConfigError> {
    if !sim.table_shaped() {
        Some(ConfigError::InvalidTable)
    } else if !(0 <= sim.max_passthrough && sim.main_percentage.wf() && sim.side_percentage.wf()
        && opt.probability_bitflip.wf() && opt.probability_recombination.wf()) {
        Some(ConfigError::InvalidParameter)
    } else if !sim.within_limits() {
        Some(ConfigError::TooMuchTraffic)
    } else if opt.mutation == Mutation::Bitflip && (sim.intersections == 0 || sim.timesteps == 0) {
        Some(ConfigError::NothingToFlip)
    } else if opt.optimization == Optimization::Hillclimb {
        None
    } else if opt.population_size % 2 != 0 {
        Some(ConfigError::OddPopulation)
    } else if opt.parents_size < 2 {
        Some(ConfigError::TooFewParents)
    } else if opt.parents_size >= opt.population_size {
        Some(ConfigError::TooManyParents)
    } else if opt.tournament_size == 0 {
        Some(ConfigError::TournamentTooSmall)
    } else if opt.parents_size - 1 + opt.tournament_size > opt.population_size {
        Some(ConfigError::TournamentTooLarge)
    } else if (opt.recombination == Recombination::OnePoint && sim.timesteps < 2) || (
    opt.recombination == Recombination::TwoPoint && sim.intersections < 2) {
        Some(ConfigError::NoCrossoverPoint)
    } else {
        None
    }
}

/// Checks a configuration before a search: the first thing that stops it, if any.
pub fn check_configuration(
    simulation_data: &SimulationData,
    optimization_data: &OptimizationData,
) -> (r: Result<(), ConfigError>)
    ensures
        match config_error(*simulation_data, *optimization_data) {
            None => r is Ok,
            Some(e) => r == Err::<(), ConfigError>(e),
        },
{
    let sim = simulation_data;
    let opt = optimization_data;
    if sim.traffic_data.len() != sim.intersections {
        return Err(ConfigError::InvalidTable);
    }
    for i in 0..sim.intersections
        invariant
            sim == simulation_data,
            opt == optimization_data,
            sim.traffic_data@.len() == sim.intersections,
            forall|k: int| 0 <= k < i ==> (#[trigger] sim.traffic_data@[k])@.len() == sim.timesteps,
    {
        if sim.traffic_data[i].len() != sim.timesteps {
            assert(!sim.table_shaped()) by {
                if sim.table_shaped() {
                    assert(sim.traffic_data@[i as int]@.len() == sim.timesteps);
                }
            }
            return Err(ConfigError::InvalidTable);
        }
    }
    if !(0 <= sim.max_passthrough && valid_fraction(sim.main_percentage) && valid_fraction(
        sim.side_percentage,
    ) && valid_fraction(opt.probability_bitflip) && valid_fraction(opt.probability_recombination)) {
        return Err(ConfigError::InvalidParameter);
    }
    if !traffic_within_limits(sim) {
        return Err(ConfigError::TooMuchTraffic);
    }
    if opt.mutation == Mutation::Bitflip && (sim.intersections == 0 || sim.timesteps == 0) {
        return Err(ConfigError::NothingToFlip);
    }
    if opt.optimization == Optimization::Hillclimb {
        return Ok(());
    }
    if opt.population_size % 2 != 0 {
        return Err(ConfigError::OddPopulation);
    }
    if opt.parents_size < 2 {
        return Err(ConfigError::TooFewParents);
    }
    if opt.parents_size >= opt.population_size {
        return Err(ConfigError::TooManyParents);
    }
    if opt.tournament_size == 0 {
        return Err(ConfigError::TournamentTooSmall);
    }
    if opt.tournament_size > opt.population_size - (opt.parents_size - 1) {
        return Err(ConfigError::TournamentTooLarge);
    }
    if (opt.recombination == Recombination::OnePoint && sim.timesteps < 2) || (opt.recombination
        == Recombination::TwoPoint && sim.intersections < 2) {
        return Err(ConfigError::NoCrossoverPoint);
    }
    Ok(())
}

/// Whether a fraction lies between 0 and 1 with a positive denominator.
fn valid_fraction(f: Fraction) -> (r: bool)
    ensures
        r == f.wf(),
{
    0 < f.denominator && f.numerator <= f.denominator
}


/// A mutant of a schedule of the road's shape has that shape, and holds a bit where the
/// road does.
proof fn lemma_shape_kept(r: Seq<Seq<bool>>, s: Seq<Seq<bool>>, n: int, t: int)
    requires
        same_shape(r, s),
        has_shape(s, n, t),
    ensures
        has_shape(r, n, t),
        0 < n && 0 < t ==> has_bits(r),
{
    assert forall|i: int| 0 <= i < n implies (#[trigger] r[i]).len() == t by {
        assert(s[i].len() == t);
    }
}

/// A schedule with at least one row and one column holds a bit in every row.
proof fn lemma_has_bits(s: Seq<Seq<bool>>, n: int, t: int)
    requires
        has_shape(s, n, t),
        0 < n,
        0 < t,
    ensures
        has_bits(s),
{
    assert forall|i: int| 0 <= i < s.len() implies (#[trigger] s[i]).len() > 0 by {
        assert(s[i].len() == t);
    }
}

/// `child0` and `child1` are two children that `selection` may build from `population`:
/// the two distinct entries `a` and `b` of the tournament result `w` pick the parents,
/// `c0` and `c1` are what their recombination gave, and each child is a mutant of one.
pub open spec fn offspring_from(
    opt: OptimizationData,
    sim: SimulationData,
    population: Seq<Seq<Seq<bool>>>,
    values: Seq<Score>,
    w: Seq<usize>,
    a: int,
    b: int,
    c0: Seq<Seq<bool>>,
    c1: Seq<Seq<bool>>,
    child0: Seq<Seq<bool>>,
    child1: Seq<Seq<bool>>,
) -> bool {
    &&& tournament_result(values, opt, w)
    &&& 0 <= a < w.len()
    &&& 0 <= b < w.len()
    &&& a != b
    &&& recombined(
        opt,
        population[w[a] as int],
        population[w[b] as int],
        sim.timesteps as int,
        c0,
        c1,
    )
    &&& mutated(opt, c0, child0)
    &&& mutated(opt, c1, child1)
}

/// Places `2 * k` and `2 * k + 1` of `next` hold two children built from `population`.
pub open spec fn offspring_at(
    opt: OptimizationData,
    sim: SimulationData,
    population: Seq<Seq<Seq<bool>>>,
    values: Seq<Score>,
    next: Seq<Seq<Seq<bool>>>,
    k: int,
) -> bool {
    exists|w: Seq<usize>, a: int, b: int, c0: Seq<Seq<bool>>, c1: Seq<Seq<bool>>|
        #[trigger] offspring_from(opt, sim, population, values, w, a, b, c0, c1, next[2 * k], next[2 * k + 1])
}

/// What `selection` needs of the configuration: an even population, at least two parents
/// and fewer than the population, tournaments that can be filled, and what recombination
/// and mutation need of the road.
pub open spec fn selection_ready(opt: OptimizationData, sim: SimulationData) -> bool {
    &&& opt.population_size % 2 == 0
    &&& 2 <= opt.parents_size
    &&& 1 <= opt.tournament_size
    &&& opt.parents_size - 1 + opt.tournament_size <= opt.population_size
    &&& can_recombine(opt, sim)
    &&& opt.mutation == Mutation::Bitflip ==> 0 < sim.intersections && 0 < sim.timesteps
    &&& opt.mutation == Mutation::ProbBitflip ==> opt.probability_bitflip.wf()
}

/// The next generation: for each pair of its places, two parents chosen among the winners
/// of fresh tournaments, recombined, and their children mutated.
pub fn selection(
    population: &Vec<Vec<BitVec>>,
    population_values: &Vec<Score>,
    optimization_data: &OptimizationData,
    simulation_data: &SimulationData,
) -> (r: Vec<Vec<BitVec>>)
    requires
        selection_ready(*optimization_data, *simulation_data),
        population@.len() == optimization_data.population_size,
        population_fits(population@, simulation_data.intersections as int, simulation_data.timesteps as int),
        population_values@.len() == population@.len(),
        all_wf(population_values@),
    ensures
        r@.len() == optimization_data.population_size,
        population_fits(r@, simulation_data.intersections as int, simulation_data.timesteps as int),
        forall|k: int|
            0 <= k < optimization_data.population_size / 2 ==> #[trigger] offspring_at(
                *optimization_data,
                *simulation_data,
                schedules_of(population@),
                population_values@,
                schedules_of(r@),
                k,
            ),
{
    let ghost (n, tt) = (simulation_data.intersections as int, simulation_data.timesteps as int);
    let mut next_population: Vec<Vec<BitVec>> = Vec::with_capacity(optimization_data.population_size);
    for k in 0..optimization_data.population_size / 2
        invariant
            selection_ready(*optimization_data, *simulation_data),
            n == simulation_data.intersections,
            tt == simulation_data.timesteps,
            population@.len() == optimization_data.population_size,
            population_fits(population@, n, tt),
            population_values@.len() == population@.len(),
            all_wf(population_values@),
            next_population@.len() == 2 * k,
            population_fits(next_population@, n, tt),
            forall|j: int|
                0 <= j < k ==> #[trigger] offspring_at(
                    *optimization_data,
                    *simulation_data,
                    schedules_of(population@),
                    population_values@,
                    schedules_of(next_population@),
                    j,
                ),
    {
        let selected = tournament(population_values, optimization_data);
        let randoms = distinct_random(0, selected.len(), 2);
        let first = selected[randoms[0]];
        let second = selected[randoms[1]];
        assert(has_shape(schedule_of(population@[first as int]@), n, tt));
        assert(has_shape(schedule_of(population@[second as int]@), n, tt));
        let (recomb1, recomb2) = recombination(
            &population[first],
            &population[second],
            optimization_data,
            simulation_data,
        );
        proof {
            if n > 0 && tt > 0 {
                lemma_has_bits(schedule_of(recomb1@), n, tt);
                lemma_has_bits(schedule_of(recomb2@), n, tt);
            }
        }
        let child1 = mutation(&recomb1, optimization_data);
        let child2 = mutation(&recomb2, optimization_data);
        proof {
            lemma_shape_kept(schedule_of(child1@), schedule_of(recomb1@), n, tt);
            lemma_shape_kept(schedule_of(child2@), schedule_of(recomb2@), n, tt);
        }
        let ghost before = next_population@;
        next_population.push(child1);
        next_population.push(child2);
        proof {
            let (o, sd) = (*optimization_data, *simulation_data);
            let (pop, nx, old_nx) = (schedules_of(population@), schedules_of(next_population@), schedules_of(before));
            assert(pop[first as int] == schedule_of(population@[first as int]@));
            assert(pop[second as int] == schedule_of(population@[second as int]@));
            assert(offspring_from(
                o,
                sd,
                pop,
                population_values@,
                selected@,
                randoms@[0] as int,
                randoms@[1] as int,
                schedule_of(recomb1@),
                schedule_of(recomb2@),
                nx[2 * k],
                nx[2 * k + 1],
            ));
            assert forall|j: int| 0 <= j < k + 1 implies #[trigger] offspring_at(
                o,
                sd,
                pop,
                population_values@,
                nx,
                j,
            ) by {
                if j < k {
                    assert(offspring_at(o, sd, pop, population_values@, old_nx, j));
                    assert(nx[2 * j] == old_nx[2 * j]);
                    assert(nx[2 * j + 1] == old_nx[2 * j + 1]);
                }
            }
        }
        assert forall|i: int| 0 <= i < next_population@.len() implies has_shape(
            schedule_of(#[trigger] next_population@[i]@),
            n,
            tt,
        ) by {
            if i < before.len() {
                assert(next_population@[i] == before[i]);
            }
        }
    }
    next_population
}

/// A schedule found better than all before it during a search.
pub struct Improvement {
    /// The iteration that found it; 0 for the start.
    pub iteration: usize,
    pub candidate: Vec<BitVec>,
    pub value: Score,
    /// The scores of the whole population at that iteration, for the genetic strategy.
    pub population_values: Vec<Score>,
}

/// What a search returns.
pub struct SearchOutcome {
    /// The best schedule found and its score.
    pub best: Vec<BitVec>,
    pub best_value: Score,
    /// The best score found so far, at the start and after each iteration.
    pub history: Vec<Score>,
    /// The start and each iteration that improved on the best score.
    pub improvements: Vec<Improvement>,
    /// The schedules kept at the end: the population of the genetic strategy, the one
    /// schedule of the hill climb.
    pub population: Vec<Vec<BitVec>>,
    /// The schedules scored at the start and at each iteration: each generation of the
    /// genetic strategy, the schedule held by the hill climb.
    pub populations: Ghost<Seq<Seq<Seq<Seq<bool>>>>>,
    /// The mutant that the hill climb scored at each iteration.
    pub mutants: Ghost<Seq<Seq<Seq<bool>>>>,
}

/// A population as schedules.
pub open spec fn schedules_of(population: Seq<Vec<BitVec>>) -> Seq<Seq<Seq<bool>>> {
    population.map_values(|c: Vec<BitVec>| schedule_of(c@))
}

/// The improvements match the history: the first is the start, each is scored as a
/// simulation scores its schedule, stands at an iteration whose best score it is, and
/// comes later than the one before; every iteration that raised the best score has one.
pub open spec fn improvements_match(sim: SimulationData, opt: OptimizationData, out: SearchOutcome) -> bool {
    record_matches(sim, opt, out.history@, out.improvements@, opt.iterations as int)
}

/// The hill climb's record: it holds one schedule of the road's shape at the start and
/// after each iteration, the best score then is that schedule's score, and each iteration
/// scores a mutant of the schedule held, which replaces it exactly when it scores strictly
/// higher.
pub open spec fn climbed(sim: SimulationData, opt: OptimizationData, out: SearchOutcome) -> bool {
    let p = out.populations@;
    let m = out.mutants@;
    let h = out.history@;
    &&& p.len() == opt.iterations + 1
    &&& m.len() == opt.iterations
    &&& forall|k: int|
        0 <= k <= opt.iterations ==> {
            &&& (#[trigger] p[k]).len() == 1
            &&& has_shape(p[k][0], sim.intersections as int, sim.timesteps as int)
            &&& h[k] == simulated_score(sim, opt, p[k][0])
        }
    &&& p[opt.iterations as int][0] == schedule_of(out.best@)
    &&& schedule_of(out.improvements@[0].candidate@) == p[0][0]
    &&& forall|k: int|
        0 <= k < opt.iterations ==> {
            &&& mutated(opt, p[k][0], #[trigger] m[k])
            &&& if score_lt(h[k], simulated_score(sim, opt, m[k])) {
                p[k + 1][0] == m[k]
            } else {
                p[k + 1][0] == p[k][0]
            }
        }
}

/// The best score so far never goes down from one iteration to the next.
pub open spec fn non_decreasing(history: Seq<Score>) -> bool {
    forall|k: int| 0 <= k && k + 1 < history.len() ==> score_le(#[trigger] history[k], history[k + 1])
}

/// The outcome of a search on a configuration: its best schedule has the road's shape and
/// the score that a simulation gives it, which is the last of a non-decreasing history of
/// one score per iteration and one for the start.
pub open spec fn valid_outcome(sim: SimulationData, opt: OptimizationData, out: SearchOutcome) -> bool {
    &&& has_shape(schedule_of(out.best@), sim.intersections as int, sim.timesteps as int)
    &&& out.best_value == simulated_score(sim, opt, schedule_of(out.best@))
    &&& out.history@.len() == opt.iterations + 1
    &&& out.history@[opt.iterations as int] == out.best_value
    &&& non_decreasing(out.history@)
    &&& all_wf(out.history@)
    &&& population_fits(out.population@, sim.intersections as int, sim.timesteps as int)
}

/// The improvements recorded during the first `it` iterations match their history.
pub open spec fn record_matches(
    sim: SimulationData,
    opt: OptimizationData,
    history: Seq<Score>,
    m: Seq<Improvement>,
    it: int,
) -> bool {
    &&& m.len() > 0
    &&& m[0].iteration == 0
    &&& m[m.len() - 1].iteration <= it
    &&& forall|j: int|
        0 <= j < m.len() ==> {
            &&& (#[trigger] m[j]).iteration <= it
            &&& m[j].value == history[m[j].iteration as int]
            &&& m[j].value == simulated_score(sim, opt, schedule_of(m[j].candidate@))
        }
    &&& forall|j: int|
        0 < j < m.len() ==> m[j - 1].iteration < (#[trigger] m[j]).iteration && score_lt(
            history[m[j].iteration - 1],
            history[m[j].iteration as int],
        )
    &&& forall|k: int|
        0 <= k < it && #[trigger] score_lt(history[k], history[k + 1]) ==> exists|j: int|
            0 <= j < m.len() && #[trigger] m[j].iteration == k + 1
}

/// One more iteration keeps the record matching: its best score is added to the history,
/// and an improvement is recorded exactly when that score is above the one before.
#[verifier::rlimit(100)]
#[verifier::spinoff_prover]
proof fn lemma_record_step(
    sim: SimulationData,
    opt: OptimizationData,
    history: Seq<Score>,
    m: Seq<Improvement>,
    it: int,
    value: Score,
    new_m: Seq<Improvement>,
)
    requires
        0 <= it,
        history.len() == it + 1,
        record_matches(sim, opt, history, m, it),
        score_lt(history[it], value) ==> new_m.len() == m.len() + 1 && new_m.take(m.len() as int)
            == m && new_m[m.len() as int].iteration == it + 1 && new_m[m.len() as int].value == value
            && new_m[m.len() as int].value == simulated_score(
            sim,
            opt,
            schedule_of(new_m[m.len() as int].candidate@),
        ),
        !score_lt(history[it], value) ==> new_m == m,
    ensures
        record_matches(sim, opt, history.push(value), new_m, it + 1),
{
    let h2 = history.push(value);
    assert forall|k: int| 0 <= k <= it implies #[trigger] h2[k] == history[k] by {}
    if score_lt(history[it], value) {
        assert forall|j: int| 0 <= j < m.len() implies #[trigger] new_m[j] == m[j] by {
            assert(new_m.take(m.len() as int)[j] == new_m[j]);
        }
        assert forall|k: int|
            0 <= k < it + 1 && #[trigger] score_lt(h2[k], h2[k + 1]) implies exists|j: int|
                0 <= j < new_m.len() && #[trigger] new_m[j].iteration == k + 1 by {
            if k < it {
                assert(h2[k + 1] == history[k + 1]);
                let j = choose|j: int| 0 <= j < m.len() && #[trigger] m[j].iteration == k + 1;
                assert(new_m[j] == m[j]);
            } else {
                assert(new_m[m.len() as int].iteration == k + 1);
            }
        }
        assert forall|j: int| 0 < j < new_m.len() implies new_m[j - 1].iteration < (
        #[trigger] new_m[j]).iteration && score_lt(
            h2[new_m[j].iteration - 1],
            h2[new_m[j].iteration as int],
        ) by {
            if j < m.len() {
                assert(new_m[j - 1] == m[j - 1]);
            }
        }
    } else {
        assert forall|k: int|
            0 <= k < it + 1 && #[trigger] score_lt(h2[k], h2[k + 1]) implies exists|j: int|
                0 <= j < new_m.len() && #[trigger] new_m[j].iteration == k + 1 by {
            if k < it {
                assert(h2[k + 1] == history[k + 1]);
            }
        }
    }
}

/// Hill climbing: from a random schedule, each iteration mutates the current one and keeps
/// the mutant where it scores strictly higher. With no mutation the score stays the first.
#[verifier::rlimit(100)]
#[verifier::spinoff_prover]
pub fn hillclimb(optimization_data: &OptimizationData, simulation_data: &SimulationData) -> (r:
    SearchOutcome)
    requires
        config_error(*simulation_data, *optimization_data) is None,
    ensures
        valid_outcome(*simulation_data, *optimization_data, r),
        improvements_match(*simulation_data, *optimization_data, r),
        climbed(*simulation_data, *optimization_data, r),
        optimization_data.mutation == Mutation::Unchanged ==> forall|k: int|
            0 <= k <= optimization_data.iterations ==> #[trigger] r.history@[k] == r.history@[0],
        r.population@.len() == 1,
{
    let ghost (n, tt) = (simulation_data.intersections as int, simulation_data.timesteps as int);
    let ghost sim = *simulation_data;
    let ghost opt = *optimization_data;
    let mut candidate = generate_candidate(simulation_data.intersections, simulation_data.timesteps);
    let mut candidate_value = simulate(&candidate, simulation_data, optimization_data);
    let ghost mut path: Seq<Seq<Seq<Seq<bool>>>> = seq![seq![schedule_of(candidate@)]];
    let ghost mut mutants: Seq<Seq<Seq<bool>>> = Seq::empty();
    let mut history: Vec<Score> = Vec::with_capacity(optimization_data.iterations);
    history.push(candidate_value);
    let mut improvements: Vec<Improvement> = Vec::new();
    improvements.push(
        Improvement {
            iteration: 0,
            candidate: copy_candidate(&candidate),
            value: candidate_value,
            population_values: Vec::new(),
        },
    );
    let ghost start = schedule_of(candidate@);
    for it in 0..optimization_data.iterations
        invariant
            config_error(*simulation_data, *optimization_data) is None,
            sim == *simulation_data,
            opt == *optimization_data,
            n == simulation_data.intersections,
            tt == simulation_data.timesteps,
            has_shape(schedule_of(candidate@), n, tt),
            candidate_value == simulated_score(sim, opt, schedule_of(candidate@)),
            candidate_value.wf(),
            history@.len() == it + 1,
            history@[it as int] == candidate_value,
            non_decreasing(history@),
            all_wf(history@),
            path.len() == it + 1,
            path[it as int][0] == schedule_of(candidate@),
            path[0][0] == start,
            forall|k: int|
                0 <= k <= it ==> {
                    &&& (#[trigger] path[k]).len() == 1
                    &&& has_shape(path[k][0], n, tt)
                    &&& history@[k] == simulated_score(sim, opt, path[k][0])
                },
            mutants.len() == it,
            forall|k: int|
                0 <= k < it ==> {
                    &&& mutated(opt, path[k][0], #[trigger] mutants[k])
                    &&& if score_lt(history@[k], simulated_score(sim, opt, mutants[k])) {
                        path[k + 1][0] == mutants[k]
                    } else {
                        path[k + 1][0] == path[k][0]
                    }
                },
            opt.mutation == Mutation::Unchanged ==> forall|k: int|
                0 <= k <= it ==> #[trigger] history@[k] == history@[0],
            schedule_of(improvements@[0].candidate@) == start,
            record_matches(sim, opt, history@, improvements@, it as int),
    {
        proof {
            if n > 0 && tt > 0 {
                lemma_has_bits(schedule_of(candidate@), n, tt);
            }
        }
        let mutated_candidate = mutation(&candidate, optimization_data);
        proof {
            lemma_shape_kept(schedule_of(mutated_candidate@), schedule_of(candidate@), n, tt);
        }
        let mutated_candidate_value = simulate(&mutated_candidate, simulation_data, optimization_data);
        let ghost previous = candidate_value;
        let ghost previous_schedule = schedule_of(candidate@);
        let ghost old_improvements = improvements@;
        let improved = less_than(&candidate_value, &mutated_candidate_value);
        if improved {
            candidate = mutated_candidate;
            candidate_value = mutated_candidate_value;
            improvements.push(
                Improvement {
                    iteration: it + 1,
                    candidate: copy_candidate(&candidate),
                    value: candidate_value,
                    population_values: Vec::new(),
                },
            );
        }
        proof {
            lemma_score_total(previous, candidate_value);
            lemma_score_le_refl(previous);
            if opt.mutation == Mutation::Unchanged && improved {
                assert(schedule_of(mutated_candidate@) == previous_schedule);
                assert(false);
            }
        }
        let ghost before = history@;
        history.push(candidate_value);
        proof {
            let old_path = path;
            path = path.push(seq![schedule_of(candidate@)]);
            assert forall|k: int| 0 <= k && k + 1 < history@.len() implies score_le(
                #[trigger] history@[k],
                history@[k + 1],
            ) by {
                if k + 1 < before.len() {
                    assert(history@[k] == before[k] && history@[k + 1] == before[k + 1]);
                }
            }
            assert forall|k: int| 0 <= k <= it + 1 implies {
                &&& (#[trigger] path[k]).len() == 1
                &&& has_shape(path[k][0], n, tt)
                &&& history@[k] == simulated_score(sim, opt, path[k][0])
            } by {
                if k <= it {
                    assert(path[k] == old_path[k]);
                    assert(history@[k] == before[k]);
                }
            }
            let old_mutants = mutants;
            mutants = mutants.push(schedule_of(mutated_candidate@));
            assert forall|k: int| 0 <= k < it + 1 implies {
                &&& mutated(opt, path[k][0], #[trigger] mutants[k])
                &&& if score_lt(history@[k], simulated_score(sim, opt, mutants[k])) {
                    path[k + 1][0] == mutants[k]
                } else {
                    path[k + 1][0] == path[k][0]
                }
            } by {
                if k < it {
                    assert(path[k] == old_path[k] && path[k + 1] == old_path[k + 1]);
                    assert(history@[k] == before[k]);
                    assert(mutants[k] == old_mutants[k]);
                } else {
                    assert(path[k][0] == previous_schedule);
                    assert(history@[k] == previous);
                }
            }
            if opt.mutation == Mutation::Unchanged {
                assert forall|k: int| 0 <= k <= it + 1 implies #[trigger] history@[k] == history@[0] by {
                    if k <= it {
                        assert(history@[k] == before[k]);
                    }
                }
            }
            if improved {
                assert(improvements@.take(old_improvements.len() as int) =~= old_improvements);
            }
            lemma_record_step(sim, opt, before, old_improvements, it as int, history@[it + 1], improvements@);
            assert(history@ == before.push(history@[it + 1]));
            assert(improvements@[0] == old_improvements[0]);
        }
    }
    let population = vec![copy_candidate(&candidate)];
    SearchOutcome {
        best: candidate,
        best_value: candidate_value,
        history,
        improvements,
        population,
        populations: Ghost(path),
        mutants: Ghost(mutants),
    }
}

/// The scores that a simulation gives the schedules of a population.
pub open spec fn scores_of(sim: SimulationData, opt: OptimizationData, population: Seq<Seq<Seq<bool>>>) -> Seq<Score> {
    population.map_values(|c: Seq<Seq<bool>>| simulated_score(sim, opt, c))
}

/// Places `2 * k` and `2 * k + 1` of generation `g + 1` of `p` hold two children built
/// from generation `g` and its scores.
pub open spec fn bred(
    sim: SimulationData,
    opt: OptimizationData,
    p: Seq<Seq<Seq<Seq<bool>>>>,
    g: int,
    k: int,
) -> bool {
    offspring_at(opt, sim, p[g], scores_of(sim, opt, p[g]), p[g + 1], k)
}

/// The genetic strategy's record: every generation scored, the first and each one
/// `selection` built, has `population_size` schedules of the road's shape; the last is the
/// population returned; each generation after the first is bred from the one before; no
/// schedule of a generation scores above the best score at that point, nor above the best
/// score found, which is the score of one of them.
pub open spec fn evolved(sim: SimulationData, opt: OptimizationData, out: SearchOutcome) -> bool {
    let p = out.populations@;
    let h = out.history@;
    let (n, tt) = (sim.intersections as int, sim.timesteps as int);
    &&& p.len() == opt.iterations + 1
    &&& forall|g: int| 0 <= g <= opt.iterations ==> (#[trigger] p[g]).len() == opt.population_size
    &&& forall|g: int, k: int|
        0 <= g <= opt.iterations && 0 <= k < opt.population_size ==> {
            &&& has_shape(#[trigger] p[g][k], n, tt)
            &&& score_le(simulated_score(sim, opt, p[g][k]), h[g])
            &&& score_le(simulated_score(sim, opt, p[g][k]), out.best_value)
        }
    &&& exists|g: int, k: int|
        0 <= g <= opt.iterations && 0 <= k < opt.population_size && #[trigger] p[g][k]
            == schedule_of(out.best@)
    &&& p[opt.iterations as int] == schedules_of(out.population@)
    &&& forall|g: int, k: int|
        0 <= g < opt.iterations && 0 <= k < opt.population_size / 2 ==> #[trigger] bred(
            sim,
            opt,
            p,
            g,
            k,
        )
}

/// The genetic strategy: from a random population, each generation is replaced by the one
/// `selection` builds; the best schedule of any generation is kept aside.
#[verifier::rlimit(100)]
#[verifier::spinoff_prover]
pub fn genetic_algorithm(optimization_data: &OptimizationData, simulation_data: &SimulationData) -> (r:
    SearchOutcome)
    requires
        config_error(*simulation_data, *optimization_data) is None,
        optimization_data.optimization == Optimization::Genetic,
    ensures
        valid_outcome(*simulation_data, *optimization_data, r),
        improvements_match(*simulation_data, *optimization_data, r),
        evolved(*simulation_data, *optimization_data, r),
        r.population@.len() == optimization_data.population_size,
{
    let ghost (n, tt) = (simulation_data.intersections as int, simulation_data.timesteps as int);
    let ghost sim = *simulation_data;
    let ghost opt = *optimization_data;
    let ghost ps = optimization_data.population_size as int;
    let mut population = generate_population(
        optimization_data.population_size,
        simulation_data.intersections,
        simulation_data.timesteps,
    );
    let mut population_values = simulate_population(&population, simulation_data, optimization_data);
    let (mut best, mut best_value, _) = get_best_and_worst_candidate(&population, &population_values);
    let ghost mut gens: Seq<Seq<Seq<Seq<bool>>>> = seq![schedules_of(population@)];
    let ghost mut best_at: (int, int) = (0, 0);
    proof {
        let i = choose|i: int|
            #[trigger] is_first_best(population_values@, i) && best_value == population_values@[i]
                && schedule_of(best@) == schedule_of(population@[i]@);
        assert(has_shape(schedule_of(population@[i]@), n, tt));
        best_at = (0, i);
        assert forall|g: int, k: int| 0 <= g <= 0 && 0 <= k < ps implies {
            &&& has_shape(#[trigger] gens[g][k], n, tt)
            &&& score_le(simulated_score(sim, opt, gens[g][k]), best_value)
            &&& simulated_score(sim, opt, gens[g][k]).wf()
        } by {
            assert(gens[g][k] == schedule_of(population@[k]@));
            assert(population_values@[k] == simulated_score(sim, opt, schedule_of(population@[k]@)));
        }
    }
    let mut history: Vec<Score> = Vec::with_capacity(optimization_data.iterations);
    history.push(best_value);
    let mut improvements: Vec<Improvement> = Vec::new();
    improvements.push(
        Improvement {
            iteration: 0,
            candidate: copy_candidate(&best),
            value: best_value,
            population_values: population_values.clone(),
        },
    );
    for it in 0..optimization_data.iterations
        invariant
            config_error(*simulation_data, *optimization_data) is None,
            optimization_data.optimization == Optimization::Genetic,
            sim == *simulation_data,
            opt == *optimization_data,
            ps == optimization_data.population_size,
            n == simulation_data.intersections,
            tt == simulation_data.timesteps,
            population@.len() == optimization_data.population_size,
            population_fits(population@, n, tt),
            population_values@.len() == population@.len(),
            all_wf(population_values@),
            has_shape(schedule_of(best@), n, tt),
            best_value == simulated_score(sim, opt, schedule_of(best@)),
            best_value.wf(),
            history@.len() == it + 1,
            history@[it as int] == best_value,
            non_decreasing(history@),
            all_wf(history@),
            gens.len() == it + 1,
            gens[it as int] == schedules_of(population@),
            forall|g: int| 0 <= g <= it ==> (#[trigger] gens[g]).len() == ps,
            forall|g: int, k: int|
                0 <= g <= it && 0 <= k < ps ==> {
                    &&& has_shape(#[trigger] gens[g][k], n, tt)
                    &&& score_le(simulated_score(sim, opt, gens[g][k]), history@[g])
                    &&& score_le(simulated_score(sim, opt, gens[g][k]), best_value)
                    &&& simulated_score(sim, opt, gens[g][k]).wf()
                },
            0 <= best_at.0 <= it,
            0 <= best_at.1 < ps,
            gens[best_at.0][best_at.1] == schedule_of(best@),
            record_matches(sim, opt, history@, improvements@, it as int),
            forall|g: int, k: int| 0 <= g < it && 0 <= k < ps / 2 ==> #[trigger] bred(sim, opt, gens, g, k),
            forall|k: int|
                0 <= k < ps ==> #[trigger] population_values@[k] == simulated_score(
                    sim,
                    opt,
                    schedule_of(population@[k]@),
                ),
    {
        let ghost old_values = population_values@;
        proof {
            assert forall|k: int| 0 <= k < ps implies #[trigger] scores_of(sim, opt, gens[it as int])[k]
                == old_values[k] by {
                assert(gens[it as int][k] == schedule_of(population@[k]@));
            }
            assert(old_values =~= scores_of(sim, opt, gens[it as int]));
        }
        let next_population = selection(&population, &population_values, optimization_data, simulation_data);
        let next_population_values = simulate_population(
            &next_population,
            simulation_data,
            optimization_data,
        );

        population = next_population;
        population_values = next_population_values;

        let (next_best, next_best_value, _) = get_best_and_worst_candidate(&population, &population_values);
        let ghost i = choose|i: int|
            #[trigger] is_first_best(population_values@, i) && next_best_value == population_values@[i]
                && schedule_of(next_best@) == schedule_of(population@[i]@);
        proof {
            assert(has_shape(schedule_of(population@[i]@), n, tt));
            assert(next_best_value.wf());
        }
        let ghost previous = best_value;
        let ghost old_improvements = improvements@;
        let ghost old_gens = gens;
        let improved = less_than(&best_value, &next_best_value);
        if improved {
            best = next_best;
            best_value = next_best_value;
            improvements.push(
                Improvement {
                    iteration: it + 1,
                    candidate: copy_candidate(&best),
                    value: best_value,
                    population_values: population_values.clone(),
                },
            );
        }
        proof {
            lemma_score_total(previous, best_value);
            lemma_score_total(next_best_value, best_value);
            lemma_score_le_refl(previous);
            lemma_score_le_refl(best_value);
            gens = gens.push(schedules_of(population@));
            assert forall|g: int, k: int| 0 <= g < it + 1 && 0 <= k < ps / 2 implies #[trigger] bred(
                sim,
                opt,
                gens,
                g,
                k,
            ) by {
                assert(gens[g] == old_gens[g]);
                if g < it {
                    assert(gens[g + 1] == old_gens[g + 1]);
                    assert(bred(sim, opt, old_gens, g, k));
                } else {
                    assert(offspring_at(opt, sim, old_gens[g], old_values, gens[g + 1], k));
                }
            }
            if improved {
                best_at = (it + 1, i);
            }
        }
        let ghost before = history@;
        history.push(best_value);
        proof {
            assert forall|k: int| 0 <= k && k + 1 < history@.len() implies score_le(
                #[trigger] history@[k],
                history@[k + 1],
            ) by {
                if k + 1 < before.len() {
                    assert(history@[k] == before[k] && history@[k + 1] == before[k + 1]);
                }
            }
            assert forall|g: int| 0 <= g <= it + 1 implies (#[trigger] gens[g]).len() == ps by {
                if g <= it {
                    assert(gens[g] == old_gens[g]);
                }
            }
            assert forall|g: int, k: int| 0 <= g <= it + 1 && 0 <= k < ps implies {
                &&& has_shape(#[trigger] gens[g][k], n, tt)
                &&& score_le(simulated_score(sim, opt, gens[g][k]), history@[g])
                &&& score_le(simulated_score(sim, opt, gens[g][k]), best_value)
                &&& simulated_score(sim, opt, gens[g][k]).wf()
            } by {
                let v = simulated_score(sim, opt, gens[g][k]);
                if g <= it {
                    assert(gens[g] == old_gens[g]);
                    assert(history@[g] == before[g]);
                    lemma_score_le_trans(v, previous, best_value);
                } else {
                    assert(gens[g][k] == schedule_of(population@[k]@));
                    assert(population_values@[k] == v);
                    assert(score_le(v, next_best_value));
                    lemma_score_le_trans(v, next_best_value, best_value);
                }
            }
            if improved {
                assert(gens[it + 1][i] == schedule_of(population@[i]@));
            } else {
                assert(gens[best_at.0] == old_gens[best_at.0]);
            }
            if improved {
                assert(improvements@.take(old_improvements.len() as int) =~= old_improvements);
            }
            lemma_record_step(sim, opt, before, old_improvements, it as int, history@[it + 1], improvements@);
            assert(history@ == before.push(history@[it + 1]));
            assert(improvements@[0] == old_improvements[0]);
        }
    }
    proof {
        assert(gens[best_at.0][best_at.1] == schedule_of(best@));
    }
    SearchOutcome {
        best,
        best_value,
        history,
        improvements,
        population,
        populations: Ghost(gens),
        mutants: Ghost(Seq::empty()),
    }
}

/// Runs the configured strategy, once the configuration has been checked: an error is
/// returned exactly when `config_error` names one.
pub fn optimize(optimization_data: &OptimizationData, simulation_data: &SimulationData) -> (r: Result<
    SearchOutcome,
    ConfigError,
>)
    ensures
        match config_error(*simulation_data, *optimization_data) {
            None => r matches Ok(out) && valid_outcome(*simulation_data, *optimization_data, out)
                && improvements_match(*simulation_data, *optimization_data, out) && (
            optimization_data.optimization == Optimization::Hillclimb ==> climbed(
                *simulation_data,
                *optimization_data,
                out,
            )) && (optimization_data.optimization == Optimization::Genetic ==> evolved(
                *simulation_data,
                *optimization_data,
                out,
            )),
            Some(e) => r matches Err(x) && x == e,
        },
{
    match check_configuration(simulation_data, optimization_data) {
        Err(e) => Err(e),
        Ok(()) => match optimization_data.optimization {
            Optimization::Genetic => Ok(genetic_algorithm(optimization_data, simulation_data)),
            Optimization::Hillclimb => Ok(hillclimb(optimization_data, simulation_data)),
        },
    }
}

} // verus!
