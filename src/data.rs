use crate::bits::{bits_of, bits_with_capacity, has_shape, push_bit, schedule_of};
use crate::random::{random_below, random_bit};
use bit_vec::BitVec;
use vstd::prelude::*;

verus! {

/// Settings of a run that concern only its output and where its traffic comes from.
#[derive(Debug)]
pub struct ConfigurationData {
    pub silent: bool,
    pub print_final_simulation: bool,
    pub benchmark: bool,
    pub benchmark_iterations: i32,
    pub plot: bool,
    pub data: String,
}

/// The shape of a road and the ranges from which synthetic traffic is drawn.
#[derive(Debug)]
pub struct GenerationData {
    pub intersections: usize,
    pub timesteps: usize,
    pub main_max_count: i32,
    pub side_max_count: i32,
    pub main_min_count: i32,
    pub side_min_count: i32,
}

/// A fraction `numerator / denominator` between 0 and 1.
#[derive(Clone, Copy, Debug, PartialEq, Eq, Structural)]
pub struct Fraction {
    pub numerator: u32,
    pub denominator: u32,
}

impl Fraction {
    pub open spec fn wf(self) -> bool {
        0 < self.denominator && self.numerator <= self.denominator
    }

    pub fn new(numerator: u32, denominator: u32) -> (r: Fraction)
        requires
            0 < denominator,
            numerator <= denominator,
        ensures
            r.wf(),
            r.numerator == numerator,
            r.denominator == denominator,
    {
        Fraction { numerator, denominator }
    }
}

/// Cars at one intersection in one timestep: approaching on the through road from the
/// previous intersection, from the next one, and waiting on the side road.
#[derive(Clone, Copy, Debug, PartialEq, Eq, Structural)]
pub struct TrafficState {
    pub main_from_prev: u32,
    pub main_from_next: u32,
    pub side: u32,
}

/// Parameters of the traffic simulation, with the traffic table it replays.
#[derive(Debug)]
pub struct SimulationData {
    pub traffic_data: Vec<Vec<TrafficState>>,
    pub intersections: usize,
    pub timesteps: usize,
    pub disable_increasing_passthrough: bool,
    pub disable_max_passthrough: bool,
    pub max_passthrough: i32,
    pub main_percentage: Fraction,
    pub side_percentage: Fraction,
}

/// The search strategy.
#[derive(Clone, Copy, Debug, PartialEq, Eq, Structural)]
pub enum Optimization {
    Genetic,
    Hillclimb,
}

/// How a candidate is mutated.
#[derive(Clone, Copy, Debug, PartialEq, Eq, Structural)]
pub enum Mutation {
    Unchanged,
    Bitflip,
    ProbBitflip,
}

/// How two parents are recombined.
#[derive(Clone, Copy, Debug, PartialEq, Eq, Structural)]
pub enum Recombination {
    OnePoint,
    TwoPoint,
}

/// How the driving and waiting counts of a simulation become a score.
#[derive(Clone, Copy, Debug, PartialEq, Eq, Structural)]
pub enum FitnessValue {
    Difference,
    Ratio,
    DrivingCars,
    WaitingCars,
}

/// Parameters of the search.
#[derive(Debug)]
pub struct OptimizationData {
    pub iterations: usize,
    pub optimization: Optimization,
    pub mutation: Mutation,
    pub recombination: Recombination,
    pub probability_bitflip: Fraction,
    pub probability_recombination: Fraction,
    pub population_size: usize,
    pub parents_size: usize,
    pub tournament_size: usize,
    pub fitness_value: FitnessValue,
}

/// The integer nearest to `p / q`, for `q > 0`, where `p / q` is never half-way between
/// two integers.
pub open spec fn nearest(p: int, q: int) -> int {
    (2 * p + q) / (2 * q)
}

/// `x` held within the range of `i32`.
pub open spec fn saturate_i32(x: int) -> int {
    if x < i32::MIN {
        i32::MIN as int
    } else if x > i32::MAX {
        i32::MAX as int
    } else {
        x
    }
}

/// The passthrough cap awarded to a light that keeps its phase: 1.4 times the base cap,
/// rounded.
pub open spec fn increased_cap(max: int) -> int {
    saturate_i32(nearest(7 * max, 5))
}

/// `n / d` rounded down, for `d > 0`.
fn floor_div(n: i64, d: i64) -> (r: i64)
    requires
        0 < d,
        -i64::MAX <= n,
    ensures
        r == n / d,
        d * r <= n < d * r + d,
{
    if n >= 0 {
        proof {
            vstd::arithmetic::div_mod::lemma_fundamental_div_mod(n as int, d as int);
        }
        n / d
    } else {
        let m: i64 = -n;
        let up: i64 = (m - 1) / d + 1;
        proof {
            let (ni, di, mi) = (n as int, d as int, m as int);
            let q = ni / di;
            let s = (mi - 1) / di;
            let (rn, rm) = (ni % di, (mi - 1) % di);
            vstd::arithmetic::div_mod::lemma_fundamental_div_mod(ni, di);
            vstd::arithmetic::div_mod::lemma_fundamental_div_mod(mi - 1, di);
            assert(q == -(s + 1)) by (nonlinear_arith)
                requires
                    ni == di * q + rn,
                    mi - 1 == di * s + rm,
                    0 <= rn < di,
                    0 <= rm < di,
                    mi == -ni,
                    mi >= 1,
            {
                if q < -(s + 1) {
                    assert((q + s + 1) * di <= -di);
                } else if q > -(s + 1) {
                    assert((q + s + 1) * di >= di);
                }
            }
        }
        -up
    }
}

/// The integer nearest to a third of `max`.
pub fn calculate_min_count(max: i32) -> (r: i32)
    ensures
        r == nearest(max as int, 3),
{
    let n: i64 = 2 * (max as i64) + 3;
    let r: i64 = floor_div(n, 6);
    r as i32
}

/// The integer nearest to 0.8 times `max`.
pub fn calculate_max_passthrough(max: i32) -> (r: i32)
    ensures
        r == nearest(4 * max, 5),
{
    let n: i64 = 8 * (max as i64) + 5;
    let r: i64 = floor_div(n, 10);
    r as i32
}

/// The integer nearest to 1.4 times `max`, held within the range of `i32`.
pub fn calculate_increased_max_passthrough(max: i32) -> (r: i32)
    ensures
        r == increased_cap(max as int),
{
    let n: i64 = 14 * (max as i64) + 5;
    let r: i64 = floor_div(n, 10);
    if r < i32::MIN as i64 {
        i32::MIN
    } else if r > i32::MAX as i64 {
        i32::MAX
    } else {
        r as i32
    }
}

/// A cell with no cars.
pub fn build_empty_traffic_state() -> (r: TrafficState)
    ensures
        r == (TrafficState { main_from_prev: 0, main_from_next: 0, side: 0 }),
{
    TrafficState { main_from_prev: 0, main_from_next: 0, side: 0 }
}


impl GenerationData {
    /// Both ranges of counts are non-empty and hold no negative count.
    pub open spec fn wf(&self) -> bool {
        &&& 0 <= self.main_min_count < self.main_max_count
        &&& 0 <= self.side_min_count < self.side_max_count
    }
}

/// `count` lies in the range of main-road counts (`main`) or of side-road counts.
pub open spec fn in_range(generation_data: GenerationData, main: bool, count: u32) -> bool {
    if main {
        generation_data.main_min_count <= count < generation_data.main_max_count
    } else {
        generation_data.side_min_count <= count < generation_data.side_max_count
    }
}

/// A count drawn uniformly from the range of main-road counts (`main`) or of side-road
/// counts.
fn random_traffic_value(generation_data: &GenerationData, main: bool) -> (r: u32)
    requires
        generation_data.wf(),
    ensures
        in_range(*generation_data, main, r),
{
    if main {
        return random_below(
            generation_data.main_min_count as usize,
            generation_data.main_max_count as usize,
        ) as u32;
    }
    random_below(generation_data.side_min_count as usize, generation_data.side_max_count as usize) as u32
}

/// A first-timestep cell of an inner intersection: cars on every approach.
fn build_traffic_state_initial(generation_data: &GenerationData) -> (r: TrafficState)
    requires
        generation_data.wf(),
    ensures
        in_range(*generation_data, true, r.main_from_prev),
        in_range(*generation_data, true, r.main_from_next),
        in_range(*generation_data, false, r.side),
{
    TrafficState {
        main_from_prev: random_traffic_value(generation_data, true),
        main_from_next: random_traffic_value(generation_data, true),
        side: random_traffic_value(generation_data, false),
    }
}

/// A later cell of an inner intersection, or any cell of a road of one intersection: new
/// cars only on the side road.
fn build_traffic_state_base(generation_data: &GenerationData) -> (r: TrafficState)
    requires
        generation_data.wf(),
    ensures
        r.main_from_prev == 0,
        r.main_from_next == 0,
        in_range(*generation_data, false, r.side),
{
    TrafficState {
        main_from_prev: 0,
        main_from_next: 0,
        side: random_traffic_value(generation_data, false),
    }
}

/// A cell of the first intersection: new cars enter the road from before it.
fn build_traffic_state_first_intersection(generation_data: &GenerationData) -> (r: TrafficState)
    requires
        generation_data.wf(),
    ensures
        in_range(*generation_data, true, r.main_from_prev),
        r.main_from_next == 0,
        in_range(*generation_data, false, r.side),
{
    TrafficState {
        main_from_prev: random_traffic_value(generation_data, true),
        main_from_next: 0,
        side: random_traffic_value(generation_data, false),
    }
}

/// A cell of the last intersection: new cars enter the road from beyond it.
fn build_traffic_state_last_intersection(generation_data: &GenerationData) -> (r: TrafficState)
    requires
        generation_data.wf(),
    ensures
        r.main_from_prev == 0,
        in_range(*generation_data, true, r.main_from_next),
        in_range(*generation_data, false, r.side),
{
    TrafficState {
        main_from_prev: 0,
        main_from_next: random_traffic_value(generation_data, true),
        side: random_traffic_value(generation_data, false),
    }
}

/// Cell `c` may stand at intersection `i`, timestep `t` of a generated table: the side
/// road has cars; no car comes from beyond either end of the road; at the first timestep
/// every other approach has cars, and later only the road's two ends let cars in.
pub open spec fn generated_cell(g: GenerationData, i: int, t: int, c: TrafficState) -> bool {
    &&& in_range(g, false, c.side)
    &&& if i == g.intersections - 1 {
        c.main_from_prev == 0
    } else if t == 0 || i == 0 {
        in_range(g, true, c.main_from_prev)
    } else {
        c.main_from_prev == 0
    }
    &&& if i == 0 {
        c.main_from_next == 0
    } else if t == 0 || i == g.intersections - 1 {
        in_range(g, true, c.main_from_next)
    } else {
        c.main_from_next == 0
    }
}

/// A random traffic table: one row per intersection, one cell per timestep.
pub fn generate_data(generation_data: &GenerationData) -> (r: Vec<Vec<TrafficState>>)
    requires
        generation_data.wf(),
    ensures
        r@.len() == generation_data.intersections,
        forall|i: int|
            0 <= i < r@.len() ==> (#[trigger] r@[i])@.len() == generation_data.timesteps,
        forall|i: int, t: int|
            0 <= i < r@.len() && 0 <= t < generation_data.timesteps ==> generated_cell(
                *generation_data,
                i,
                t,
                #[trigger] r@[i]@[t],
            ),
{
    let mut data: Vec<Vec<TrafficState>> = Vec::with_capacity(generation_data.intersections);
    for index in 0..generation_data.intersections
        invariant
            generation_data.wf(),
            data@.len() == index,
            forall|i: int|
                0 <= i < index ==> (#[trigger] data@[i])@.len() == generation_data.timesteps,
            forall|i: int, t: int|
                0 <= i < index && 0 <= t < generation_data.timesteps ==> generated_cell(
                    *generation_data,
                    i,
                    t,
                    #[trigger] data@[i]@[t],
                ),
    {
        let mut traffic_data: Vec<TrafficState> = Vec::with_capacity(generation_data.timesteps);
        for t in 0..generation_data.timesteps
            invariant
                generation_data.wf(),
                index < generation_data.intersections,
                traffic_data@.len() == t,
                forall|k: int|
                    0 <= k < t ==> generated_cell(
                        *generation_data,
                        index as int,
                        k,
                        #[trigger] traffic_data@[k],
                    ),
        {
            if generation_data.intersections == 1 {
                traffic_data.push(build_traffic_state_base(generation_data));
            } else if index == 0 {
                traffic_data.push(build_traffic_state_first_intersection(generation_data));
            } else if index == generation_data.intersections - 1 {
                traffic_data.push(build_traffic_state_last_intersection(generation_data));
            } else if t == 0 {
                traffic_data.push(build_traffic_state_initial(generation_data));
            } else {
                traffic_data.push(build_traffic_state_base(generation_data));
            }
        }
        data.push(traffic_data);
    }
    data
}

/// A random schedule: every bit drawn independently.
pub fn generate_candidate(intersections: usize, timesteps: usize) -> (r: Vec<BitVec>)
    ensures
        has_shape(schedule_of(r@), intersections as int, timesteps as int),
{
    let mut candidate: Vec<BitVec> = Vec::with_capacity(intersections);
    for i in 0..intersections
        invariant
            candidate@.len() == i,
            forall|k: int| 0 <= k < i ==> bits_of(#[trigger] candidate@[k]).len() == timesteps,
    {
        let mut data = bits_with_capacity(timesteps);
        for j in 0..timesteps
            invariant
                bits_of(data).len() == j,
        {
            push_bit(&mut data, random_bit());
        }
        candidate.push(data);
    }
    assert forall|k: int| 0 <= k < intersections implies (#[trigger] schedule_of(candidate@)[k]).len()
        == timesteps by {
        assert(schedule_of(candidate@)[k] == bits_of(candidate@[k]));
    }
    candidate
}

/// `population_size` random schedules.
pub fn generate_population(population_size: usize, intersections: usize, timesteps: usize) -> (r: Vec<
    Vec<BitVec>,
>)
    ensures
        r@.len() == population_size,
        forall|k: int|
            0 <= k < population_size ==> has_shape(
                schedule_of(#[trigger] r@[k]@),
                intersections as int,
                timesteps as int,
            ),
{
    let mut population: Vec<Vec<BitVec>> = Vec::with_capacity(population_size);
    for i in 0..population_size
        invariant
            population@.len() == i,
            forall|k: int|
                0 <= k < i ==> has_shape(
                    schedule_of(#[trigger] population@[k]@),
                    intersections as int,
                    timesteps as int,
                ),
    {
        population.push(generate_candidate(intersections, timesteps));
    }
    population
}


/// The cells of the fixed traffic table, one row per intersection.
pub open spec fn fixed_table() -> Seq<Seq<TrafficState>> {
    seq![
        seq![
            TrafficState { main_from_prev: 7, main_from_next: 17, side: 8 },
            TrafficState { main_from_prev: 18, main_from_next: 0, side: 4 },
            TrafficState { main_from_prev: 12, main_from_next: 0, side: 6 },
            TrafficState { main_from_prev: 8, main_from_next: 0, side: 6 },
            TrafficState { main_from_prev: 9, main_from_next: 0, side: 8 },
            TrafficState { main_from_prev: 18, main_from_next: 0, side: 9 },
            TrafficState { main_from_prev: 8, main_from_next: 0, side: 5 },
            TrafficState { main_from_prev: 13, main_from_next: 0, side: 7 },
            TrafficState { main_from_prev: 17, main_from_next: 0, side: 7 },
            TrafficState { main_from_prev: 9, main_from_next: 0, side: 5 },
            TrafficState { main_from_prev: 15, main_from_next: 0, side: 8 },
            TrafficState { main_from_prev: 13, main_from_next: 0, side: 9 },
            TrafficState { main_from_prev: 16, main_from_next: 0, side: 3 },
            TrafficState { main_from_prev: 10, main_from_next: 0, side: 6 },
            TrafficState { main_from_prev: 17, main_from_next: 0, side: 6 },
            TrafficState { main_from_prev: 9, main_from_next: 0, side: 8 },
        ],
        seq![
            TrafficState { main_from_prev: 18, main_from_next: 8, side: 6 },
            TrafficState { main_from_prev: 0, main_from_next: 0, side: 8 },
            TrafficState { main_from_prev: 0, main_from_next: 0, side: 9 },
            TrafficState { main_from_prev: 0, main_from_next: 0, side: 8 },
            TrafficState { main_from_prev: 0, main_from_next: 0, side: 3 },
            TrafficState { main_from_prev: 0, main_from_next: 0, side: 9 },
            TrafficState { main_from_prev: 0, main_from_next: 0, side: 6 },
            TrafficState { main_from_prev: 0, main_from_next: 0, side: 9 },
            TrafficState { main_from_prev: 0, main_from_next: 0, side: 6 },
            TrafficState { main_from_prev: 0, main_from_next: 0, side: 8 },
            TrafficState { main_from_prev: 0, main_from_next: 0, side: 3 },
            TrafficState { main_from_prev: 0, main_from_next: 0, side: 4 },
            TrafficState { main_from_prev: 0, main_from_next: 0, side: 3 },
            TrafficState { main_from_prev: 0, main_from_next: 0, side: 7 },
            TrafficState { main_from_prev: 0, main_from_next: 0, side: 6 },
            TrafficState { main_from_prev: 0, main_from_next: 0, side: 7 },
        ],
        seq![
            TrafficState { main_from_prev: 18, main_from_next: 13, side: 4 },
            TrafficState { main_from_prev: 0, main_from_next: 0, side: 5 },
            TrafficState { main_from_prev: 0, main_from_next: 0, side: 4 },
            TrafficState { main_from_prev: 0, main_from_next: 0, side: 6 },
            TrafficState { main_from_prev: 0, main_from_next: 0, side: 3 },
            TrafficState { main_from_prev: 0, main_from_next: 0, side: 8 },
            TrafficState { main_from_prev: 0, main_from_next: 0, side: 5 },
            TrafficState { main_from_prev: 0, main_from_next: 0, side: 5 },
            TrafficState { main_from_prev: 0, main_from_next: 0, side: 6 },
            TrafficState { main_from_prev: 0, main_from_next: 0, side: 6 },
            TrafficState { main_from_prev: 0, main_from_next: 0, side: 9 },
            TrafficState { main_from_prev: 0, main_from_next: 0, side: 3 },
            TrafficState { main_from_prev: 0, main_from_next: 0, side: 7 },
            TrafficState { main_from_prev: 0, main_from_next: 0, side: 8 },
            TrafficState { main_from_prev: 0, main_from_next: 0, side: 5 },
            TrafficState { main_from_prev: 0, main_from_next: 0, side: 9 },
        ],
        seq![
            TrafficState { main_from_prev: 15, main_from_next: 9, side: 4 },
            TrafficState { main_from_prev: 0, main_from_next: 0, side: 7 },
            TrafficState { main_from_prev: 0, main_from_next: 0, side: 7 },
            TrafficState { main_from_prev: 0, main_from_next: 0, side: 6 },
            TrafficState { main_from_prev: 0, main_from_next: 0, side: 6 },
            TrafficState { main_from_prev: 0, main_from_next: 0, side: 4 },
            TrafficState { main_from_prev: 0, main_from_next: 0, side: 8 },
            TrafficState { main_from_prev: 0, main_from_next: 0, side: 9 },
            TrafficState { main_from_prev: 0, main_from_next: 0, side: 7 },
            TrafficState { main_from_prev: 0, main_from_next: 0, side: 5 },
            TrafficState { main_from_prev: 0, main_from_next: 0, side: 4 },
            TrafficState { main_from_prev: 0, main_from_next: 0, side: 5 },
            TrafficState { main_from_prev: 0, main_from_next: 0, side: 7 },
            TrafficState { main_from_prev: 0, main_from_next: 0, side: 3 },
            TrafficState { main_from_prev: 0, main_from_next: 0, side: 4 },
            TrafficState { main_from_prev: 0, main_from_next: 0, side: 6 },
        ],
        seq![
            TrafficState { main_from_prev: 17, main_from_next: 11, side: 3 },
            TrafficState { main_from_prev: 0, main_from_next: 0, side: 6 },
            TrafficState { main_from_prev: 0, main_from_next: 0, side: 8 },
            TrafficState { main_from_prev: 0, main_from_next: 0, side: 3 },
            TrafficState { main_from_prev: 0, main_from_next: 0, side: 4 },
            TrafficState { main_from_prev: 0, main_from_next: 0, side: 6 },
            TrafficState { main_from_prev: 0, main_from_next: 0, side: 3 },
            TrafficState { main_from_prev: 0, main_from_next: 0, side: 7 },
            TrafficState { main_from_prev: 0, main_from_next: 0, side: 7 },
            TrafficState { main_from_prev: 0, main_from_next: 0, side: 3 },
            TrafficState { main_from_prev: 0, main_from_next: 0, side: 7 },
            TrafficState { main_from_prev: 0, main_from_next: 0, side: 3 },
            TrafficState { main_from_prev: 0, main_from_next: 0, side: 5 },
            TrafficState { main_from_prev: 0, main_from_next: 0, side: 7 },
            TrafficState { main_from_prev: 0, main_from_next: 0, side: 5 },
            TrafficState { main_from_prev: 0, main_from_next: 0, side: 3 },
        ],
        seq![
            TrafficState { main_from_prev: 10, main_from_next: 10, side: 6 },
            TrafficState { main_from_prev: 0, main_from_next: 0, side: 9 },
            TrafficState { main_from_prev: 0, main_from_next: 0, side: 4 },
            TrafficState { main_from_prev: 0, main_from_next: 0, side: 4 },
            TrafficState { main_from_prev: 0, main_from_next: 0, side: 7 },
            TrafficState { main_from_prev: 0, main_from_next: 0, side: 9 },
            TrafficState { main_from_prev: 0, main_from_next: 0, side: 9 },
            TrafficState { main_from_prev: 0, main_from_next: 0, side: 9 },
            TrafficState { main_from_prev: 0, main_from_next: 0, side: 6 },
            TrafficState { main_from_prev: 0, main_from_next: 0, side: 4 },
            TrafficState { main_from_prev: 0, main_from_next: 0, side: 5 },
            TrafficState { main_from_prev: 0, main_from_next: 0, side: 3 },
            TrafficState { main_from_prev: 0, main_from_next: 0, side: 5 },
            TrafficState { main_from_prev: 0, main_from_next: 0, side: 6 },
            TrafficState { main_from_prev: 0, main_from_next: 0, side: 3 },
            TrafficState { main_from_prev: 0, main_from_next: 0, side: 8 },
        ],
        seq![
            TrafficState { main_from_prev: 7, main_from_next: 14, side: 5 },
            TrafficState { main_from_prev: 0, main_from_next: 0, side: 5 },
            TrafficState { main_from_prev: 0, main_from_next: 0, side: 7 },
            TrafficState { main_from_prev: 0, main_from_next: 0, side: 9 },
            TrafficState { main_from_prev: 0, main_from_next: 0, side: 4 },
            TrafficState { main_from_prev: 0, main_from_next: 0, side: 8 },
            TrafficState { main_from_prev: 0, main_from_next: 0, side: 7 },
            TrafficState { main_from_prev: 0, main_from_next: 0, side: 3 },
            TrafficState { main_from_prev: 0, main_from_next: 0, side: 8 },
            TrafficState { main_from_prev: 0, main_from_next: 0, side: 7 },
            TrafficState { main_from_prev: 0, main_from_next: 0, side: 5 },
            TrafficState { main_from_prev: 0, main_from_next: 0, side: 4 },
            TrafficState { main_from_prev: 0, main_from_next: 0, side: 4 },
            TrafficState { main_from_prev: 0, main_from_next: 0, side: 4 },
            TrafficState { main_from_prev: 0, main_from_next: 0, side: 5 },
            TrafficState { main_from_prev: 0, main_from_next: 0, side: 9 },
        ],
        seq![
            TrafficState { main_from_prev: 7, main_from_next: 16, side: 9 },
            TrafficState { main_from_prev: 0, main_from_next: 16, side: 7 },
            TrafficState { main_from_prev: 0, main_from_next: 8, side: 9 },
            TrafficState { main_from_prev: 0, main_from_next: 8, side: 4 },
            TrafficState { main_from_prev: 0, main_from_next: 9, side: 6 },
            TrafficState { main_from_prev: 0, main_from_next: 13, side: 4 },
            TrafficState { main_from_prev: 0, main_from_next: 15, side: 6 },
            TrafficState { main_from_prev: 0, main_from_next: 16, side: 6 },
            TrafficState { main_from_prev: 0, main_from_next: 15, side: 3 },
            TrafficState { main_from_prev: 0, main_from_next: 13, side: 3 },
            TrafficState { main_from_prev: 0, main_from_next: 11, side: 7 },
            TrafficState { main_from_prev: 0, main_from_next: 7, side: 4 },
            TrafficState { main_from_prev: 0, main_from_next: 17, side: 6 },
            TrafficState { main_from_prev: 0, main_from_next: 13, side: 7 },
            TrafficState { main_from_prev: 0, main_from_next: 10, side: 7 },
            TrafficState { main_from_prev: 0, main_from_next: 11, side: 9 },
        ],
    ]
}

/// A fixed traffic table of 8 intersections and 16 timesteps, with fewer than 20 cars on
/// each main-road approach and fewer than 10 on each side road.
pub fn fixed_data() -> (r: Vec<Vec<TrafficState>>)
    ensures
        r@.len() == 8,
        forall|i: int| 0 <= i < 8 ==> (#[trigger] r@[i])@ == fixed_table()[i],
        forall|i: int| 0 <= i < 8 ==> (#[trigger] r@[i])@.len() == 16,
        forall|i: int, t: int|
            0 <= i < 8 && 0 <= t < 16 ==> (#[trigger] r@[i]@[t]).main_from_prev < 20
                && r@[i]@[t].main_from_next < 20 && r@[i]@[t].side < 10,
        forall|t: int| 1 <= t < 16 ==> (#[trigger] r@[0]@[t]).main_from_next == 0,
        forall|t: int| 1 <= t < 16 ==> (#[trigger] r@[7]@[t]).main_from_prev == 0,
        forall|i: int, t: int|
            1 <= i < 7 && 1 <= t < 16 ==> (#[trigger] r@[i]@[t]).main_from_prev == 0
                && r@[i]@[t].main_from_next == 0,
{
    let traffic_data: Vec<Vec<TrafficState>> = vec![
        vec![
            TrafficState { main_from_prev: 7, main_from_next: 17, side: 8 },
            TrafficState { main_from_prev: 18, main_from_next: 0, side: 4 },
            TrafficState { main_from_prev: 12, main_from_next: 0, side: 6 },
            TrafficState { main_from_prev: 8, main_from_next: 0, side: 6 },
            TrafficState { main_from_prev: 9, main_from_next: 0, side: 8 },
            TrafficState { main_from_prev: 18, main_from_next: 0, side: 9 },
            TrafficState { main_from_prev: 8, main_from_next: 0, side: 5 },
            TrafficState { main_from_prev: 13, main_from_next: 0, side: 7 },
            TrafficState { main_from_prev: 17, main_from_next: 0, side: 7 },
            TrafficState { main_from_prev: 9, main_from_next: 0, side: 5 },
            TrafficState { main_from_prev: 15, main_from_next: 0, side: 8 },
            TrafficState { main_from_prev: 13, main_from_next: 0, side: 9 },
            TrafficState { main_from_prev: 16, main_from_next: 0, side: 3 },
            TrafficState { main_from_prev: 10, main_from_next: 0, side: 6 },
            TrafficState { main_from_prev: 17, main_from_next: 0, side: 6 },
            TrafficState { main_from_prev: 9, main_from_next: 0, side: 8 },
        ],
        vec![
            TrafficState { main_from_prev: 18, main_from_next: 8, side: 6 },
            TrafficState { main_from_prev: 0, main_from_next: 0, side: 8 },
            TrafficState { main_from_prev: 0, main_from_next: 0, side: 9 },
            TrafficState { main_from_prev: 0, main_from_next: 0, side: 8 },
            TrafficState { main_from_prev: 0, main_from_next: 0, side: 3 },
            TrafficState { main_from_prev: 0, main_from_next: 0, side: 9 },
            TrafficState { main_from_prev: 0, main_from_next: 0, side: 6 },
            TrafficState { main_from_prev: 0, main_from_next: 0, side: 9 },
            TrafficState { main_from_prev: 0, main_from_next: 0, side: 6 },
            TrafficState { main_from_prev: 0, main_from_next: 0, side: 8 },
            TrafficState { main_from_prev: 0, main_from_next: 0, side: 3 },
            TrafficState { main_from_prev: 0, main_from_next: 0, side: 4 },
            TrafficState { main_from_prev: 0, main_from_next: 0, side: 3 },
            TrafficState { main_from_prev: 0, main_from_next: 0, side: 7 },
            TrafficState { main_from_prev: 0, main_from_next: 0, side: 6 },
            TrafficState { main_from_prev: 0, main_from_next: 0, side: 7 },
        ],
        vec![
            TrafficState { main_from_prev: 18, main_from_next: 13, side: 4 },
            TrafficState { main_from_prev: 0, main_from_next: 0, side: 5 },
            TrafficState { main_from_prev: 0, main_from_next: 0, side: 4 },
            TrafficState { main_from_prev: 0, main_from_next: 0, side: 6 },
            TrafficState { main_from_prev: 0, main_from_next: 0, side: 3 },
            TrafficState { main_from_prev: 0, main_from_next: 0, side: 8 },
            TrafficState { main_from_prev: 0, main_from_next: 0, side: 5 },
            TrafficState { main_from_prev: 0, main_from_next: 0, side: 5 },
            TrafficState { main_from_prev: 0, main_from_next: 0, side: 6 },
            TrafficState { main_from_prev: 0, main_from_next: 0, side: 6 },
            TrafficState { main_from_prev: 0, main_from_next: 0, side: 9 },
            TrafficState { main_from_prev: 0, main_from_next: 0, side: 3 },
            TrafficState { main_from_prev: 0, main_from_next: 0, side: 7 },
            TrafficState { main_from_prev: 0, main_from_next: 0, side: 8 },
            TrafficState { main_from_prev: 0, main_from_next: 0, side: 5 },
            TrafficState { main_from_prev: 0, main_from_next: 0, side: 9 },
        ],
        vec![
            TrafficState { main_from_prev: 15, main_from_next: 9, side: 4 },
            TrafficState { main_from_prev: 0, main_from_next: 0, side: 7 },
            TrafficState { main_from_prev: 0, main_from_next: 0, side: 7 },
            TrafficState { main_from_prev: 0, main_from_next: 0, side: 6 },
            TrafficState { main_from_prev: 0, main_from_next: 0, side: 6 },
            TrafficState { main_from_prev: 0, main_from_next: 0, side: 4 },
            TrafficState { main_from_prev: 0, main_from_next: 0, side: 8 },
            TrafficState { main_from_prev: 0, main_from_next: 0, side: 9 },
            TrafficState { main_from_prev: 0, main_from_next: 0, side: 7 },
            TrafficState { main_from_prev: 0, main_from_next: 0, side: 5 },
            TrafficState { main_from_prev: 0, main_from_next: 0, side: 4 },
            TrafficState { main_from_prev: 0, main_from_next: 0, side: 5 },
            TrafficState { main_from_prev: 0, main_from_next: 0, side: 7 },
            TrafficState { main_from_prev: 0, main_from_next: 0, side: 3 },
            TrafficState { main_from_prev: 0, main_from_next: 0, side: 4 },
            TrafficState { main_from_prev: 0, main_from_next: 0, side: 6 },
        ],
        vec![
            TrafficState { main_from_prev: 17, main_from_next: 11, side: 3 },
            TrafficState { main_from_prev: 0, main_from_next: 0, side: 6 },
            TrafficState { main_from_prev: 0, main_from_next: 0, side: 8 },
            TrafficState { main_from_prev: 0, main_from_next: 0, side: 3 },
            TrafficState { main_from_prev: 0, main_from_next: 0, side: 4 },
            TrafficState { main_from_prev: 0, main_from_next: 0, side: 6 },
            TrafficState { main_from_prev: 0, main_from_next: 0, side: 3 },
            TrafficState { main_from_prev: 0, main_from_next: 0, side: 7 },
            TrafficState { main_from_prev: 0, main_from_next: 0, side: 7 },
            TrafficState { main_from_prev: 0, main_from_next: 0, side: 3 },
            TrafficState { main_from_prev: 0, main_from_next: 0, side: 7 },
            TrafficState { main_from_prev: 0, main_from_next: 0, side: 3 },
            TrafficState { main_from_prev: 0, main_from_next: 0, side: 5 },
            TrafficState { main_from_prev: 0, main_from_next: 0, side: 7 },
            TrafficState { main_from_prev: 0, main_from_next: 0, side: 5 },
            TrafficState { main_from_prev: 0, main_from_next: 0, side: 3 },
        ],
        vec![
            TrafficState { main_from_prev: 10, main_from_next: 10, side: 6 },
            TrafficState { main_from_prev: 0, main_from_next: 0, side: 9 },
            TrafficState { main_from_prev: 0, main_from_next: 0, side: 4 },
            TrafficState { main_from_prev: 0, main_from_next: 0, side: 4 },
            TrafficState { main_from_prev: 0, main_from_next: 0, side: 7 },
            TrafficState { main_from_prev: 0, main_from_next: 0, side: 9 },
            TrafficState { main_from_prev: 0, main_from_next: 0, side: 9 },
            TrafficState { main_from_prev: 0, main_from_next: 0, side: 9 },
            TrafficState { main_from_prev: 0, main_from_next: 0, side: 6 },
            TrafficState { main_from_prev: 0, main_from_next: 0, side: 4 },
            TrafficState { main_from_prev: 0, main_from_next: 0, side: 5 },
            TrafficState { main_from_prev: 0, main_from_next: 0, side: 3 },
            TrafficState { main_from_prev: 0, main_from_next: 0, side: 5 },
            TrafficState { main_from_prev: 0, main_from_next: 0, side: 6 },
            TrafficState { main_from_prev: 0, main_from_next: 0, side: 3 },
            TrafficState { main_from_prev: 0, main_from_next: 0, side: 8 },
        ],
        vec![
            TrafficState { main_from_prev: 7, main_from_next: 14, side: 5 },
            TrafficState { main_from_prev: 0, main_from_next: 0, side: 5 },
            TrafficState { main_from_prev: 0, main_from_next: 0, side: 7 },
            TrafficState { main_from_prev: 0, main_from_next: 0, side: 9 },
            TrafficState { main_from_prev: 0, main_from_next: 0, side: 4 },
            TrafficState { main_from_prev: 0, main_from_next: 0, side: 8 },
            TrafficState { main_from_prev: 0, main_from_next: 0, side: 7 },
            TrafficState { main_from_prev: 0, main_from_next: 0, side: 3 },
            TrafficState { main_from_prev: 0, main_from_next: 0, side: 8 },
            TrafficState { main_from_prev: 0, main_from_next: 0, side: 7 },
            TrafficState { main_from_prev: 0, main_from_next: 0, side: 5 },
            TrafficState { main_from_prev: 0, main_from_next: 0, side: 4 },
            TrafficState { main_from_prev: 0, main_from_next: 0, side: 4 },
            TrafficState { main_from_prev: 0, main_from_next: 0, side: 4 },
            TrafficState { main_from_prev: 0, main_from_next: 0, side: 5 },
            TrafficState { main_from_prev: 0, main_from_next: 0, side: 9 },
        ],
        vec![
            TrafficState { main_from_prev: 7, main_from_next: 16, side: 9 },
            TrafficState { main_from_prev: 0, main_from_next: 16, side: 7 },
            TrafficState { main_from_prev: 0, main_from_next: 8, side: 9 },
            TrafficState { main_from_prev: 0, main_from_next: 8, side: 4 },
            TrafficState { main_from_prev: 0, main_from_next: 9, side: 6 },
            TrafficState { main_from_prev: 0, main_from_next: 13, side: 4 },
            TrafficState { main_from_prev: 0, main_from_next: 15, side: 6 },
            TrafficState { main_from_prev: 0, main_from_next: 16, side: 6 },
            TrafficState { main_from_prev: 0, main_from_next: 15, side: 3 },
            TrafficState { main_from_prev: 0, main_from_next: 13, side: 3 },
            TrafficState { main_from_prev: 0, main_from_next: 11, side: 7 },
            TrafficState { main_from_prev: 0, main_from_next: 7, side: 4 },
            TrafficState { main_from_prev: 0, main_from_next: 17, side: 6 },
            TrafficState { main_from_prev: 0, main_from_next: 13, side: 7 },
            TrafficState { main_from_prev: 0, main_from_next: 10, side: 7 },
            TrafficState { main_from_prev: 0, main_from_next: 11, side: 9 },
        ],
    ];
    traffic_data
}

} // verus!
