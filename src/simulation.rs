use crate::bits::{bit_at, bits_of, has_shape, schedule_of};
use crate::data::{
    build_empty_traffic_state, calculate_increased_max_passthrough, increased_cap, Fraction,
    OptimizationData, SimulationData, TrafficState,
};
use crate::score::{fitness, fitness_score, Score};
use bit_vec::BitVec;
use vstd::prelude::*;

verus! {

/// All cars in a cell.
pub open spec fn cell_total(c: TrafficState) -> int {
    c.main_from_prev + c.main_from_next + c.side
}

/// All cars in the first `k` cells of `s`.
pub open spec fn mass_upto(s: Seq<TrafficState>, k: int) -> int
    decreases k,
{
    if k <= 0 || k > s.len() {
        0
    } else {
        mass_upto(s, k - 1) + cell_total(s[k - 1])
    }
}

/// All cars in a row of cells.
pub open spec fn mass(s: Seq<TrafficState>) -> int {
    mass_upto(s, s.len() as int)
}

/// The cells of timestep `t` in a traffic table, one per intersection; an intersection
/// whose row ends before `t` has none there.
pub open spec fn column(table: Seq<Seq<TrafficState>>, t: int) -> Seq<TrafficState> {
    Seq::new(
        table.len(),
        |i: int|
            if 0 <= t < table[i].len() {
                table[i][t]
            } else {
                TrafficState { main_from_prev: 0, main_from_next: 0, side: 0 }
            },
    )
}

/// All cars that a traffic table brings in during its first `t` timesteps.
pub open spec fn cars_upto(table: Seq<Seq<TrafficState>>, t: int) -> int
    decreases t,
{
    if t <= 0 {
        0
    } else {
        cars_upto(table, t - 1) + mass(column(table, t - 1))
    }
}

/// `count` times a fraction, rounded down.
pub open spec fn fraction_of(count: int, f: Fraction) -> int {
    count * f.numerator / (f.denominator as int)
}

/// `count` times half a fraction, rounded down.
pub open spec fn half_fraction_of(count: int, f: Fraction) -> int {
    count * f.numerator / (2 * f.denominator)
}

/// A table held as vectors, as rows of cells.
pub open spec fn rows_of(v: Seq<Vec<TrafficState>>) -> Seq<Seq<TrafficState>> {
    v.map_values(|row: Vec<TrafficState>| row@)
}

impl SimulationData {
    /// The traffic table, as rows of cells.
    pub open spec fn table(&self) -> Seq<Seq<TrafficState>> {
        rows_of(self.traffic_data@)
    }

    /// The table has one row per intersection and one cell per timestep in each.
    pub open spec fn table_shaped(&self) -> bool {
        &&& self.traffic_data@.len() == self.intersections
        &&& forall|i: int|
            0 <= i < self.intersections ==> (#[trigger] self.traffic_data@[i])@.len()
                == self.timesteps
    }

    /// The table has one row per intersection and one cell per timestep in each, the cap
    /// is not negative, and the fractions lie between 0 and 1.
    pub open spec fn wf(&self) -> bool {
        &&& self.table_shaped()
        &&& 0 <= self.max_passthrough
        &&& self.main_percentage.wf()
        &&& self.side_percentage.wf()
    }

    /// All cars fit in a cell's counter, and all cars of every timestep in a 63-bit sum.
    pub open spec fn within_limits(&self) -> bool {
        &&& cars_upto(self.table(), self.timesteps as int) <= u32::MAX
        &&& self.timesteps * cars_upto(self.table(), self.timesteps as int) <= i64::MAX
    }
}

/// The cap on cars passing intersection `i` at timestep `t`: raised when the light keeps
/// the phase it had at the timestep before, unless that is switched off.
pub open spec fn cap_at(sim: SimulationData, lights: Seq<Seq<bool>>, i: int, t: int) -> int {
    if !sim.disable_increasing_passthrough && t > 0 && lights[i][t - 1] == lights[i][t] {
        increased_cap(sim.max_passthrough as int)
    } else {
        sim.max_passthrough as int
    }
}

/// How many of `count` cars may pass under `cap`.
pub open spec fn admitted(sim: SimulationData, cap: int, count: int) -> int {
    if sim.disable_max_passthrough || count <= cap {
        count
    } else {
        cap
    }
}

/// Cars from the previous intersection that pass, when the main road has green.
pub open spec fn passing_prev(sim: SimulationData, c: TrafficState, cap: int, green: bool) -> int {
    if green {
        admitted(sim, cap, c.main_from_prev as int)
    } else {
        0
    }
}

/// Cars from the next intersection that pass, when the main road has green.
pub open spec fn passing_next(sim: SimulationData, c: TrafficState, cap: int, green: bool) -> int {
    if green {
        admitted(sim, cap, c.main_from_next as int)
    } else {
        0
    }
}

/// Cars from the side road that pass, when the side road has green.
pub open spec fn passing_side(sim: SimulationData, c: TrafficState, cap: int, green: bool) -> int {
    if green {
        0
    } else {
        admitted(sim, cap, c.side as int)
    }
}

/// All cars that pass an intersection.
pub open spec fn passing(sim: SimulationData, c: TrafficState, cap: int, green: bool) -> int {
    passing_prev(sim, c, cap, green) + passing_next(sim, c, cap, green) + passing_side(
        sim,
        c,
        cap,
        green,
    )
}

/// Cars that go on to the next intersection, arriving there from their previous one.
pub open spec fn forward_out(sim: SimulationData, c: TrafficState, cap: int, green: bool) -> int {
    if green {
        fraction_of(passing_prev(sim, c, cap, green), sim.main_percentage)
    } else {
        half_fraction_of(passing_side(sim, c, cap, green), sim.side_percentage)
    }
}

/// Cars that go on to the previous intersection, arriving there from their next one.
pub open spec fn backward_out(sim: SimulationData, c: TrafficState, cap: int, green: bool) -> int {
    if green {
        fraction_of(passing_next(sim, c, cap, green), sim.main_percentage)
    } else {
        half_fraction_of(passing_side(sim, c, cap, green), sim.side_percentage)
    }
}

/// What intersection `i`, holding `c`, adds to the `main_from_prev` count of cell `j` of
/// the next timestep: the cars it holds back, or those it sends on to `i + 1`.
pub open spec fn inflow_prev(
    sim: SimulationData,
    c: TrafficState,
    cap: int,
    green: bool,
    i: int,
    j: int,
) -> int {
    if j == i {
        c.main_from_prev - passing_prev(sim, c, cap, green)
    } else if j == i + 1 {
        forward_out(sim, c, cap, green)
    } else {
        0
    }
}

/// What intersection `i` adds to the `main_from_next` count of cell `j` of the next
/// timestep: the cars it holds back, or those it sends on to `i - 1`.
pub open spec fn inflow_next(
    sim: SimulationData,
    c: TrafficState,
    cap: int,
    green: bool,
    i: int,
    j: int,
) -> int {
    if j == i {
        c.main_from_next - passing_next(sim, c, cap, green)
    } else if j + 1 == i {
        backward_out(sim, c, cap, green)
    } else {
        0
    }
}

/// What intersection `i` adds to the `side` count of cell `j` of the next timestep.
pub open spec fn inflow_side(
    sim: SimulationData,
    c: TrafficState,
    cap: int,
    green: bool,
    i: int,
    j: int,
) -> int {
    if j == i {
        c.side - passing_side(sim, c, cap, green)
    } else {
        0
    }
}

/// The phase of intersection `i` at timestep `t`.
pub open spec fn green_at(lights: Seq<Seq<bool>>, i: int, t: int) -> bool {
    lights[i][t]
}

/// The `main_from_prev` count of cell `j` after timestep `t`, once the first `k`
/// intersections have sent their cars: the arrivals of the table, the cars that
/// intersection `j` held back, and those that `j - 1` sent on.
pub open spec fn arrived_prev(
    sim: SimulationData,
    lights: Seq<Seq<bool>>,
    cur: Seq<TrafficState>,
    t: int,
    k: int,
    j: int,
) -> int {
    column(sim.table(), t + 1)[j].main_from_prev + (if j < k {
        inflow_prev(sim, cur[j], cap_at(sim, lights, j, t), green_at(lights, j, t), j, j)
    } else {
        0
    }) + (if 1 <= j <= k {
        inflow_prev(sim, cur[j - 1], cap_at(sim, lights, j - 1, t), green_at(lights, j - 1, t), j - 1, j)
    } else {
        0
    })
}

/// The `main_from_next` count of cell `j` after timestep `t`, once the first `k`
/// intersections have sent their cars.
pub open spec fn arrived_next(
    sim: SimulationData,
    lights: Seq<Seq<bool>>,
    cur: Seq<TrafficState>,
    t: int,
    k: int,
    j: int,
) -> int {
    column(sim.table(), t + 1)[j].main_from_next + (if j < k {
        inflow_next(sim, cur[j], cap_at(sim, lights, j, t), green_at(lights, j, t), j, j)
    } else {
        0
    }) + (if j + 1 < k {
        inflow_next(sim, cur[j + 1], cap_at(sim, lights, j + 1, t), green_at(lights, j + 1, t), j + 1, j)
    } else {
        0
    })
}

/// The `side` count of cell `j` after timestep `t`, once the first `k` intersections have
/// sent their cars.
pub open spec fn arrived_side(
    sim: SimulationData,
    lights: Seq<Seq<bool>>,
    cur: Seq<TrafficState>,
    t: int,
    k: int,
    j: int,
) -> int {
    column(sim.table(), t + 1)[j].side + (if j < k {
        inflow_side(sim, cur[j], cap_at(sim, lights, j, t), green_at(lights, j, t), j, j)
    } else {
        0
    })
}

/// The cells after timestep `t`, from the cells `cur` before it.
pub open spec fn next_state(
    sim: SimulationData,
    lights: Seq<Seq<bool>>,
    cur: Seq<TrafficState>,
    t: int,
) -> Seq<TrafficState> {
    Seq::new(
        cur.len(),
        |j: int|
            TrafficState {
                main_from_prev: arrived_prev(sim, lights, cur, t, cur.len() as int, j) as u32,
                main_from_next: arrived_next(sim, lights, cur, t, cur.len() as int, j) as u32,
                side: arrived_side(sim, lights, cur, t, cur.len() as int, j) as u32,
            },
    )
}

/// Cars that pass the first `k` intersections at timestep `t`.
pub open spec fn driving_upto(
    sim: SimulationData,
    lights: Seq<Seq<bool>>,
    cur: Seq<TrafficState>,
    t: int,
    k: int,
) -> int
    decreases k,
{
    if k <= 0 {
        0
    } else {
        driving_upto(sim, lights, cur, t, k - 1) + passing(
            sim,
            cur[k - 1],
            cap_at(sim, lights, k - 1, t),
            green_at(lights, k - 1, t),
        )
    }
}

/// Cars that wait at the first `k` intersections at timestep `t`.
pub open spec fn waiting_upto(
    sim: SimulationData,
    lights: Seq<Seq<bool>>,
    cur: Seq<TrafficState>,
    t: int,
    k: int,
) -> int
    decreases k,
{
    if k <= 0 {
        0
    } else {
        waiting_upto(sim, lights, cur, t, k - 1) + cell_total(cur[k - 1]) - passing(
            sim,
            cur[k - 1],
            cap_at(sim, lights, k - 1, t),
            green_at(lights, k - 1, t),
        )
    }
}

/// The cells at timestep `t` of a simulation of the schedule `lights`.
pub open spec fn state_at(sim: SimulationData, lights: Seq<Seq<bool>>, t: nat) -> Seq<TrafficState>
    decreases t,
{
    if t == 0 {
        column(sim.table(), 0)
    } else {
        next_state(sim, lights, state_at(sim, lights, (t - 1) as nat), t - 1)
    }
}

/// Cars that passed an intersection during the first `t` timesteps.
pub open spec fn driving_total(sim: SimulationData, lights: Seq<Seq<bool>>, t: nat) -> int
    decreases t,
{
    if t == 0 {
        0
    } else {
        let before = state_at(sim, lights, (t - 1) as nat);
        driving_total(sim, lights, (t - 1) as nat) + driving_upto(
            sim,
            lights,
            before,
            t - 1,
            before.len() as int,
        )
    }
}

/// Cars that waited at an intersection during the first `t` timesteps.
pub open spec fn waiting_total(sim: SimulationData, lights: Seq<Seq<bool>>, t: nat) -> int
    decreases t,
{
    if t == 0 {
        0
    } else {
        let before = state_at(sim, lights, (t - 1) as nat);
        waiting_total(sim, lights, (t - 1) as nat) + waiting_upto(
            sim,
            lights,
            before,
            t - 1,
            before.len() as int,
        )
    }
}

/// The score of the schedule `lights` over all timesteps of the simulation.
pub open spec fn simulated_score(
    sim: SimulationData,
    opt: OptimizationData,
    lights: Seq<Seq<bool>>,
) -> Score {
    fitness_score(
        opt.fitness_value,
        driving_total(sim, lights, sim.timesteps as nat),
        waiting_total(sim, lights, sim.timesteps as nat),
    )
}


/// The cap at every intersection and timestep is not negative.
proof fn lemma_cap_nonneg(sim: SimulationData, lights: Seq<Seq<bool>>, i: int, t: int)
    requires
        sim.wf(),
    ensures
        0 <= cap_at(sim, lights, i, t),
{
    let m = sim.max_passthrough as int;
    assert(0 <= (2 * (7 * m) + 5) / 10) by (nonlinear_arith)
        requires
            m >= 0,
    ;
}

/// A share of `count` cars is between none and all of them; two halves of a share are
/// together at most all of them.
proof fn lemma_fraction_bounds(count: int, f: Fraction)
    requires
        f.wf(),
        0 <= count,
    ensures
        0 <= fraction_of(count, f) <= count,
        0 <= half_fraction_of(count, f),
        2 * half_fraction_of(count, f) <= count,
{
    let (n, d) = (f.numerator as int, f.denominator as int);
    assert(0 <= count * n <= count * d) by (nonlinear_arith)
        requires
            0 <= count,
            0 <= n <= d,
    ;
    let p = count * n;
    vstd::arithmetic::div_mod::lemma_fundamental_div_mod(p, d);
    vstd::arithmetic::div_mod::lemma_fundamental_div_mod(p, 2 * d);
    let (q1, r1, q2, r2) = (p / d, p % d, p / (2 * d), p % (2 * d));
    assert(0 <= q1 <= count && 0 <= q2 && 2 * q2 <= count) by (nonlinear_arith)
        requires
            p == d * q1 + r1,
            0 <= r1 < d,
            p == (2 * d) * q2 + r2,
            0 <= r2 < 2 * d,
            0 <= p <= count * d,
            d > 0,
    {
        if q1 < 0 {
            assert(d * q1 <= -d);
        }
        if q1 > count {
            assert(d * q1 >= d * (count + 1));
        }
        if q2 < 0 {
            assert((2 * d) * q2 <= -2 * d);
        }
        if 2 * q2 > count {
            assert(2 * q2 >= count + 1);
            assert(d * (2 * q2) >= d * (count + 1));
        }
    }
}

/// What passes an intersection is part of what waits there, and what it sends on to its
/// neighbours is part of what passes.
proof fn lemma_flows(sim: SimulationData, c: TrafficState, cap: int, green: bool)
    requires
        sim.wf(),
        0 <= cap,
    ensures
        0 <= passing_prev(sim, c, cap, green) <= c.main_from_prev,
        0 <= passing_next(sim, c, cap, green) <= c.main_from_next,
        0 <= passing_side(sim, c, cap, green) <= c.side,
        0 <= forward_out(sim, c, cap, green),
        0 <= backward_out(sim, c, cap, green),
        forward_out(sim, c, cap, green) + backward_out(sim, c, cap, green) <= passing(
            sim,
            c,
            cap,
            green,
        ),
{
    lemma_fraction_bounds(passing_prev(sim, c, cap, green), sim.main_percentage);
    lemma_fraction_bounds(passing_next(sim, c, cap, green), sim.main_percentage);
    lemma_fraction_bounds(passing_side(sim, c, cap, green), sim.side_percentage);
}

/// Cars counted in the first `m` cells are not negative and grow with `m`.
proof fn lemma_mass_upto_grows(s: Seq<TrafficState>, m: int, k: int)
    requires
        0 <= m <= k <= s.len(),
    ensures
        0 <= mass_upto(s, m) <= mass_upto(s, k),
    decreases k,
{
    if m < k {
        lemma_mass_upto_grows(s, m, k - 1);
    } else if m > 0 {
        lemma_mass_upto_grows(s, m - 1, k - 1);
    }
}

/// All that cell `j` holds after the step at timestep `t`.
spec fn arrived_total(
    sim: SimulationData,
    lights: Seq<Seq<bool>>,
    cur: Seq<TrafficState>,
    t: int,
    j: int,
) -> int {
    let n = cur.len() as int;
    arrived_prev(sim, lights, cur, t, n, j) + arrived_next(sim, lights, cur, t, n, j)
        + arrived_side(sim, lights, cur, t, n, j)
}

/// All that the first `m` cells hold after the step at timestep `t`.
spec fn arrivals_upto(
    sim: SimulationData,
    lights: Seq<Seq<bool>>,
    cur: Seq<TrafficState>,
    t: int,
    m: int,
) -> int
    decreases m,
{
    if m <= 0 {
        0
    } else {
        arrivals_upto(sim, lights, cur, t, m - 1) + arrived_total(sim, lights, cur, t, m - 1)
    }
}

/// Cars sent on from intersection `i` to `i + 1`, where there is such an intersection.
spec fn sent_forward(sim: SimulationData, lights: Seq<Seq<bool>>, cur: Seq<TrafficState>, t: int, i: int) -> int {
    if 0 <= i && i + 1 < cur.len() {
        forward_out(sim, cur[i], cap_at(sim, lights, i, t), green_at(lights, i, t))
    } else {
        0
    }
}

/// Cars sent on from intersection `i` to `i - 1`, where there is such an intersection.
spec fn sent_backward(sim: SimulationData, lights: Seq<Seq<bool>>, cur: Seq<TrafficState>, t: int, i: int) -> int {
    if 1 <= i < cur.len() {
        backward_out(sim, cur[i], cap_at(sim, lights, i, t), green_at(lights, i, t))
    } else {
        0
    }
}

/// All that intersection `i` keeps or sends to an existing neighbour.
spec fn kept_or_sent(sim: SimulationData, lights: Seq<Seq<bool>>, cur: Seq<TrafficState>, t: int, i: int) -> int {
    let cap = cap_at(sim, lights, i, t);
    let green = green_at(lights, i, t);
    cell_total(cur[i]) - passing(sim, cur[i], cap, green) + sent_forward(sim, lights, cur, t, i)
        + sent_backward(sim, lights, cur, t, i)
}

/// All that the first `m` intersections keep or send on.
spec fn sent_upto(sim: SimulationData, lights: Seq<Seq<bool>>, cur: Seq<TrafficState>, t: int, m: int) -> int
    decreases m,
{
    if m <= 0 {
        0
    } else {
        sent_upto(sim, lights, cur, t, m - 1) + kept_or_sent(sim, lights, cur, t, m - 1)
    }
}

/// Cars counted at the receiving end equal those counted at the sending end, up to the
/// one car flow that crosses the boundary after cell `m`.
proof fn lemma_arrivals_telescope(
    sim: SimulationData,
    lights: Seq<Seq<bool>>,
    cur: Seq<TrafficState>,
    t: int,
    m: int,
)
    requires
        sim.wf(),
        cur.len() == sim.intersections,
        0 <= m <= cur.len(),
    ensures
        arrivals_upto(sim, lights, cur, t, m) + (if 1 <= m < cur.len() {
            sent_forward(sim, lights, cur, t, m - 1)
        } else {
            0
        }) == mass_upto(column(sim.table(), t + 1), m) + sent_upto(sim, lights, cur, t, m) + (
        if 1 <= m < cur.len() {
            sent_backward(sim, lights, cur, t, m)
        } else {
            0
        }),
    decreases m,
{
    if m > 0 {
        lemma_arrivals_telescope(sim, lights, cur, t, m - 1);
    }
}

/// What an intersection keeps or sends is at most what it holds, and the sums follow.
proof fn lemma_sent_bounded(
    sim: SimulationData,
    lights: Seq<Seq<bool>>,
    cur: Seq<TrafficState>,
    t: int,
    m: int,
)
    requires
        sim.wf(),
        0 <= m <= cur.len(),
    ensures
        0 <= sent_upto(sim, lights, cur, t, m) <= mass_upto(cur, m),
    decreases m,
{
    if m > 0 {
        lemma_sent_bounded(sim, lights, cur, t, m - 1);
        let i = m - 1;
        lemma_cap_nonneg(sim, lights, i, t);
        lemma_flows(sim, cur[i], cap_at(sim, lights, i, t), green_at(lights, i, t));
    }
}

/// Every count that a cell receives is not negative.
proof fn lemma_arrived_nonneg(
    sim: SimulationData,
    lights: Seq<Seq<bool>>,
    cur: Seq<TrafficState>,
    t: int,
    k: int,
    j: int,
)
    requires
        sim.wf(),
        cur.len() == sim.intersections,
        0 <= j < cur.len(),
        0 <= k <= cur.len(),
    ensures
        0 <= arrived_prev(sim, lights, cur, t, k, j) <= arrived_prev(sim, lights, cur, t, cur.len() as int, j),
        0 <= arrived_next(sim, lights, cur, t, k, j) <= arrived_next(sim, lights, cur, t, cur.len() as int, j),
        0 <= arrived_side(sim, lights, cur, t, k, j) <= arrived_side(sim, lights, cur, t, cur.len() as int, j),
{
    lemma_cap_nonneg(sim, lights, j, t);
    lemma_flows(sim, cur[j], cap_at(sim, lights, j, t), green_at(lights, j, t));
    if j >= 1 {
        lemma_cap_nonneg(sim, lights, j - 1, t);
        lemma_flows(sim, cur[j - 1], cap_at(sim, lights, j - 1, t), green_at(lights, j - 1, t));
    }
    if j + 1 < cur.len() {
        lemma_cap_nonneg(sim, lights, j + 1, t);
        lemma_flows(sim, cur[j + 1], cap_at(sim, lights, j + 1, t), green_at(lights, j + 1, t));
    }
}


/// Each cell's arrivals are part of the arrivals of all cells before some bound.
proof fn lemma_arrivals_dominate(
    sim: SimulationData,
    lights: Seq<Seq<bool>>,
    cur: Seq<TrafficState>,
    t: int,
    m: int,
)
    requires
        sim.wf(),
        cur.len() == sim.intersections,
        0 <= m <= cur.len(),
    ensures
        0 <= arrivals_upto(sim, lights, cur, t, m),
        forall|j: int|
            0 <= j < m ==> 0 <= #[trigger] arrived_total(sim, lights, cur, t, j) <= arrivals_upto(
                sim,
                lights,
                cur,
                t,
                m,
            ),
    decreases m,
{
    if m > 0 {
        lemma_arrivals_dominate(sim, lights, cur, t, m - 1);
        lemma_arrived_nonneg(sim, lights, cur, t, cur.len() as int, m - 1);
    }
}

/// Where every cell's arrivals fit in its counters, the cells after the step hold exactly
/// the arrivals.
proof fn lemma_next_mass(
    sim: SimulationData,
    lights: Seq<Seq<bool>>,
    cur: Seq<TrafficState>,
    t: int,
    m: int,
)
    requires
        sim.wf(),
        cur.len() == sim.intersections,
        0 <= m <= cur.len(),
        forall|j: int|
            0 <= j < cur.len() ==> #[trigger] arrived_total(sim, lights, cur, t, j) <= u32::MAX,
    ensures
        mass_upto(next_state(sim, lights, cur, t), m) == arrivals_upto(sim, lights, cur, t, m),
    decreases m,
{
    if m > 0 {
        lemma_next_mass(sim, lights, cur, t, m - 1);
        lemma_arrived_nonneg(sim, lights, cur, t, cur.len() as int, m - 1);
        assert(arrived_total(sim, lights, cur, t, m - 1) <= u32::MAX);
    }
}

/// A step keeps no more cars than the table brings in at the next timestep and the cells
/// held before it; so each count after it fits where those together fit.
proof fn lemma_step_bounded(
    sim: SimulationData,
    lights: Seq<Seq<bool>>,
    cur: Seq<TrafficState>,
    t: int,
)
    requires
        sim.wf(),
        cur.len() == sim.intersections,
        mass(column(sim.table(), t + 1)) + mass(cur) <= u32::MAX,
    ensures
        forall|j: int|
            0 <= j < cur.len() ==> #[trigger] arrived_total(sim, lights, cur, t, j) <= mass(
                column(sim.table(), t + 1),
            ) + mass(cur),
        forall|j: int|
            #![trigger next_state(sim, lights, cur, t)[j]]
            0 <= j < cur.len() ==> {
                &&& next_state(sim, lights, cur, t)[j].main_from_prev == arrived_prev(sim, lights, cur, t, cur.len() as int, j)
                &&& next_state(sim, lights, cur, t)[j].main_from_next == arrived_next(sim, lights, cur, t, cur.len() as int, j)
                &&& next_state(sim, lights, cur, t)[j].side == arrived_side(sim, lights, cur, t, cur.len() as int, j)
            },
        mass(next_state(sim, lights, cur, t)) <= mass(column(sim.table(), t + 1)) + mass(cur),
{
    let n = cur.len() as int;
    lemma_arrivals_telescope(sim, lights, cur, t, n);
    lemma_sent_bounded(sim, lights, cur, t, n);
    lemma_arrivals_dominate(sim, lights, cur, t, n);
    assert forall|j: int| 0 <= j < n implies {
        &&& next_state(sim, lights, cur, t)[j].main_from_prev == arrived_prev(sim, lights, cur, t, n, j)
        &&& next_state(sim, lights, cur, t)[j].main_from_next == arrived_next(sim, lights, cur, t, n, j)
        &&& next_state(sim, lights, cur, t)[j].side == arrived_side(sim, lights, cur, t, n, j)
    } by {
        lemma_arrived_nonneg(sim, lights, cur, t, n, j);
        assert(arrived_total(sim, lights, cur, t, j) <= u32::MAX);
    }
    lemma_next_mass(sim, lights, cur, t, n);
}


/// Cars counted over the first `a` timesteps of a table are not negative and grow with
/// `a`.
proof fn lemma_cars_grow(table: Seq<Seq<TrafficState>>, a: int, b: int)
    requires
        0 <= a <= b,
    ensures
        0 <= cars_upto(table, a) <= cars_upto(table, b),
    decreases b,
{
    if b > 0 {
        let col = column(table, b - 1);
        lemma_mass_upto_grows(col, 0, col.len() as int);
        if a < b {
            lemma_cars_grow(table, a, b - 1);
        } else {
            lemma_cars_grow(table, a - 1, b - 1);
        }
    }
}

/// Past the end of every row, a column holds no cars.
proof fn lemma_column_empty(table: Seq<Seq<TrafficState>>, t: int, m: int)
    requires
        forall|i: int| 0 <= i < table.len() ==> (#[trigger] table[i]).len() <= t,
        0 <= m <= table.len(),
    ensures
        mass_upto(column(table, t), m) == 0,
    decreases m,
{
    if m > 0 {
        lemma_column_empty(table, t, m - 1);
    }
}

/// At every timestep the cells hold no more cars than the table has brought in so far.
proof fn lemma_run_bounded(sim: SimulationData, lights: Seq<Seq<bool>>, t: nat)
    requires
        sim.wf(),
        sim.within_limits(),
        t <= sim.timesteps,
    ensures
        state_at(sim, lights, t).len() == sim.intersections,
        mass(state_at(sim, lights, t)) <= cars_upto(sim.table(), t + 1 as int),
        cars_upto(sim.table(), t + 1 as int) <= cars_upto(sim.table(), sim.timesteps as int),
    decreases t,
{
    let table = sim.table();
    let tt = sim.timesteps as int;
    assert forall|i: int| 0 <= i < table.len() implies (#[trigger] table[i]).len() <= tt by {
        assert(table[i] == sim.traffic_data@[i]@);
    }
    lemma_column_empty(table, tt, table.len() as int);
    lemma_cars_grow(table, t as int + 1, tt + 1);
    assert(mass(column(table, tt)) == 0);
    assert(cars_upto(table, tt + 1) == cars_upto(table, tt));
    if t > 0 {
        let before = state_at(sim, lights, (t - 1) as nat);
        lemma_run_bounded(sim, lights, (t - 1) as nat);
        assert(cars_upto(table, t as int + 1) == cars_upto(table, t as int) + mass(column(table, t as int)));
        lemma_step_bounded(sim, lights, before, t - 1);
        assert(state_at(sim, lights, t) == next_state(sim, lights, before, t - 1));
    } else {
        assert(cars_upto(table, 0) == 0);
        assert(cars_upto(table, 1) == mass(column(table, 0)));
    }
}

/// The cells of timestep `t` of a table, one per intersection, empty past a row's end.
fn extract_step(traffic_data: &Vec<Vec<TrafficState>>, t: usize) -> (r: Vec<TrafficState>)
    ensures
        r@ == column(rows_of(traffic_data@), t as int),
{
    let mut step_data: Vec<TrafficState> = Vec::with_capacity(traffic_data.len());
    for i in 0..traffic_data.len()
        invariant
            step_data@ == column(rows_of(traffic_data@), t as int).take(i as int),
    {
        let row = &traffic_data[i];
        if t < row.len() {
            step_data.push(row[t]);
        } else {
            step_data.push(build_empty_traffic_state());
        }
        assert(step_data@ =~= column(rows_of(traffic_data@), t as int).take(i + 1));
    }
    assert(step_data@ =~= column(rows_of(traffic_data@), t as int));
    step_data
}

/// `val` times `numerator / denominator`, rounded down.
fn calc_next(val: u32, numerator: u32, denominator: u64) -> (r: u32)
    requires
        0 < denominator,
        numerator <= denominator,
    ensures
        r == val * numerator / (denominator as int),
{
    assert((val as int) * (numerator as int) <= 0xffff_ffff * 0xffff_ffff) by (nonlinear_arith)
        requires
            0 <= val <= 0xffff_ffff,
            0 <= numerator <= 0xffff_ffff,
    ;
    let p: u64 = (val as u64) * (numerator as u64);
    proof {
        let (v, n, d) = (val as int, numerator as int, denominator as int);
        assert(0 <= v * n <= v * d) by (nonlinear_arith)
            requires
                0 <= v,
                0 <= n <= d,
        ;
        vstd::arithmetic::div_mod::lemma_fundamental_div_mod(v * n, d);
        let (q, rem) = ((v * n) / d, (v * n) % d);
        assert(q <= v) by (nonlinear_arith)
            requires
                v * n == d * q + rem,
                0 <= rem,
                v * n <= v * d,
                d > 0,
        {
            if q > v {
                assert(d * q >= d * (v + 1));
            }
        }
    }
    (p / denominator) as u32
}


/// Lets the through road's cars pass an intersection whose main road has green: up to the
/// cap from each direction, a share of them going on to each neighbour; the rest stay.
fn apply_main(
    traffic_to_update: &mut Vec<TrafficState>,
    current_traffic: &TrafficState,
    index: usize,
    driving_cars: &mut u64,
    waiting_cars: &mut u64,
    max_passthrough: i32,
    simulation_data: &SimulationData,
)
    requires
        simulation_data.wf(),
        0 <= max_passthrough,
        index < old(traffic_to_update)@.len(),
        forall|j: int|
            0 <= j < old(traffic_to_update)@.len() ==> {
                &&& (#[trigger] old(traffic_to_update)@[j]).main_from_prev + inflow_prev(
                    *simulation_data,
                    *current_traffic,
                    max_passthrough as int,
                    true,
                    index as int,
                    j,
                ) <= u32::MAX
                &&& old(traffic_to_update)@[j].main_from_next + inflow_next(
                    *simulation_data,
                    *current_traffic,
                    max_passthrough as int,
                    true,
                    index as int,
                    j,
                ) <= u32::MAX
                &&& old(traffic_to_update)@[j].side + inflow_side(
                    *simulation_data,
                    *current_traffic,
                    max_passthrough as int,
                    true,
                    index as int,
                    j,
                ) <= u32::MAX
            },
        *old(driving_cars) + *old(waiting_cars) + cell_total(*current_traffic) <= u64::MAX,
    ensures
        final(traffic_to_update)@.len() == old(traffic_to_update)@.len(),
        forall|j: int|
            0 <= j < old(traffic_to_update)@.len() ==> {
                &&& (#[trigger] final(traffic_to_update)@[j]).main_from_prev == old(
                    traffic_to_update,
                )@[j].main_from_prev + inflow_prev(
                    *simulation_data,
                    *current_traffic,
                    max_passthrough as int,
                    true,
                    index as int,
                    j,
                )
                &&& final(traffic_to_update)@[j].main_from_next == old(
                    traffic_to_update,
                )@[j].main_from_next + inflow_next(
                    *simulation_data,
                    *current_traffic,
                    max_passthrough as int,
                    true,
                    index as int,
                    j,
                )
                &&& final(traffic_to_update)@[j].side == old(traffic_to_update)@[j].side
                    + inflow_side(
                    *simulation_data,
                    *current_traffic,
                    max_passthrough as int,
                    true,
                    index as int,
                    j,
                )
            },
        *final(driving_cars) == *old(driving_cars) + passing(
            *simulation_data,
            *current_traffic,
            max_passthrough as int,
            true,
        ),
        *final(waiting_cars) == *old(waiting_cars) + cell_total(*current_traffic) - passing(
            *simulation_data,
            *current_traffic,
            max_passthrough as int,
            true,
        ),
{
    proof {
        lemma_flows(*simulation_data, *current_traffic, max_passthrough as int, true);
    }
    let cap: u32 = max_passthrough as u32;
    let main_from_prev: u32;
    let main_from_next: u32;
    if !simulation_data.disable_max_passthrough {
        main_from_prev = if cap < current_traffic.main_from_prev {
            cap
        } else {
            current_traffic.main_from_prev
        };
        main_from_next = if cap < current_traffic.main_from_next {
            cap
        } else {
            current_traffic.main_from_next
        };
    } else {
        main_from_prev = current_traffic.main_from_prev;
        main_from_next = current_traffic.main_from_next;
    }

    *driving_cars = *driving_cars + main_from_prev as u64;
    *driving_cars = *driving_cars + main_from_next as u64;

    *waiting_cars = *waiting_cars + (current_traffic.main_from_prev - main_from_prev) as u64;
    *waiting_cars = *waiting_cars + (current_traffic.main_from_next - main_from_next) as u64;
    *waiting_cars = *waiting_cars + current_traffic.side as u64;

    let ghost before = traffic_to_update@;
    let n = traffic_to_update.len();
    let mut own = traffic_to_update[index];
    assert(own == before[index as int]);
    own.side = own.side + current_traffic.side;
    own.main_from_prev = own.main_from_prev + (current_traffic.main_from_prev - main_from_prev);
    own.main_from_next = own.main_from_next + (current_traffic.main_from_next - main_from_next);
    traffic_to_update[index] = own;
    let percentage = simulation_data.main_percentage;
    if index + 1 < n {
        let mut next = traffic_to_update[index + 1];
        assert(next == before[index + 1]);
        next.main_from_prev = next.main_from_prev + calc_next(
            main_from_prev,
            percentage.numerator,
            percentage.denominator as u64,
        );
        traffic_to_update[index + 1] = next;
    }
    if index > 0 {
        let mut prev = traffic_to_update[index - 1];
        assert(prev == before[index - 1]);
        prev.main_from_next = prev.main_from_next + calc_next(
            main_from_next,
            percentage.numerator,
            percentage.denominator as u64,
        );
        traffic_to_update[index - 1] = prev;
    }
}

/// Lets the side road's cars pass an intersection whose side road has green: up to the
/// cap, half a share of them going on to each neighbour; the rest stay.
fn apply_side(
    traffic_to_update: &mut Vec<TrafficState>,
    current_traffic: &TrafficState,
    index: usize,
    driving_cars: &mut u64,
    waiting_cars: &mut u64,
    max_passthrough: i32,
    simulation_data: &SimulationData,
)
    requires
        simulation_data.wf(),
        0 <= max_passthrough,
        index < old(traffic_to_update)@.len(),
        forall|j: int|
            0 <= j < old(traffic_to_update)@.len() ==> {
                &&& (#[trigger] old(traffic_to_update)@[j]).main_from_prev + inflow_prev(
                    *simulation_data,
                    *current_traffic,
                    max_passthrough as int,
                    false,
                    index as int,
                    j,
                ) <= u32::MAX
                &&& old(traffic_to_update)@[j].main_from_next + inflow_next(
                    *simulation_data,
                    *current_traffic,
                    max_passthrough as int,
                    false,
                    index as int,
                    j,
                ) <= u32::MAX
                &&& old(traffic_to_update)@[j].side + inflow_side(
                    *simulation_data,
                    *current_traffic,
                    max_passthrough as int,
                    false,
                    index as int,
                    j,
                ) <= u32::MAX
            },
        *old(driving_cars) + *old(waiting_cars) + cell_total(*current_traffic) <= u64::MAX,
    ensures
        final(traffic_to_update)@.len() == old(traffic_to_update)@.len(),
        forall|j: int|
            0 <= j < old(traffic_to_update)@.len() ==> {
                &&& (#[trigger] final(traffic_to_update)@[j]).main_from_prev == old(
                    traffic_to_update,
                )@[j].main_from_prev + inflow_prev(
                    *simulation_data,
                    *current_traffic,
                    max_passthrough as int,
                    false,
                    index as int,
                    j,
                )
                &&& final(traffic_to_update)@[j].main_from_next == old(
                    traffic_to_update,
                )@[j].main_from_next + inflow_next(
                    *simulation_data,
                    *current_traffic,
                    max_passthrough as int,
                    false,
                    index as int,
                    j,
                )
                &&& final(traffic_to_update)@[j].side == old(traffic_to_update)@[j].side
                    + inflow_side(
                    *simulation_data,
                    *current_traffic,
                    max_passthrough as int,
                    false,
                    index as int,
                    j,
                )
            },
        *final(driving_cars) == *old(driving_cars) + passing(
            *simulation_data,
            *current_traffic,
            max_passthrough as int,
            false,
        ),
        *final(waiting_cars) == *old(waiting_cars) + cell_total(*current_traffic) - passing(
            *simulation_data,
            *current_traffic,
            max_passthrough as int,
            false,
        ),
{
    proof {
        lemma_flows(*simulation_data, *current_traffic, max_passthrough as int, false);
    }
    let cap: u32 = max_passthrough as u32;
    let side: u32;
    if !simulation_data.disable_max_passthrough {
        side = if cap < current_traffic.side {
            cap
        } else {
            current_traffic.side
        };
    } else {
        side = current_traffic.side;
    }

    *driving_cars = *driving_cars + side as u64;

    *waiting_cars = *waiting_cars + (current_traffic.side - side) as u64;
    *waiting_cars = *waiting_cars + current_traffic.main_from_prev as u64;
    *waiting_cars = *waiting_cars + current_traffic.main_from_next as u64;

    let ghost before = traffic_to_update@;
    let n = traffic_to_update.len();
    let mut own = traffic_to_update[index];
    assert(own == before[index as int]);
    own.side = own.side + (current_traffic.side - side);
    own.main_from_prev = own.main_from_prev + current_traffic.main_from_prev;
    own.main_from_next = own.main_from_next + current_traffic.main_from_next;
    traffic_to_update[index] = own;
    let percentage = simulation_data.side_percentage;
    if index + 1 < n {
        let mut next = traffic_to_update[index + 1];
        assert(next == before[index + 1]);
        next.main_from_prev = next.main_from_prev + calc_next(
            side,
            percentage.numerator,
            2 * (percentage.denominator as u64),
        );
        traffic_to_update[index + 1] = next;
    }
    if index > 0 {
        let mut prev = traffic_to_update[index - 1];
        assert(prev == before[index - 1]);
        prev.main_from_next = prev.main_from_next + calc_next(
            side,
            percentage.numerator,
            2 * (percentage.denominator as u64),
        );
        traffic_to_update[index - 1] = prev;
    }
}


/// Advances the traffic by timestep `t` under the schedule `traffic_lights`, adding the
/// cars that passed to `driving_cars` and those that waited to `waiting_cars`.
fn step(
    simulation_data: &SimulationData,
    traffic_lights: &Vec<BitVec>,
    current_traffic: &Vec<TrafficState>,
    t: usize,
    driving_cars: &mut u64,
    waiting_cars: &mut u64,
) -> (r: Vec<TrafficState>)
    requires
        simulation_data.wf(),
        has_shape(
            schedule_of(traffic_lights@),
            simulation_data.intersections as int,
            simulation_data.timesteps as int,
        ),
        current_traffic@.len() == simulation_data.intersections,
        t < simulation_data.timesteps,
        mass(column(simulation_data.table(), t + 1)) + mass(current_traffic@) <= u32::MAX,
        *old(driving_cars) + *old(waiting_cars) + mass(current_traffic@) <= u64::MAX,
    ensures
        r@ == next_state(*simulation_data, schedule_of(traffic_lights@), current_traffic@, t as int),
        *final(driving_cars) == *old(driving_cars) + driving_upto(
            *simulation_data,
            schedule_of(traffic_lights@),
            current_traffic@,
            t as int,
            current_traffic@.len() as int,
        ),
        *final(waiting_cars) == *old(waiting_cars) + waiting_upto(
            *simulation_data,
            schedule_of(traffic_lights@),
            current_traffic@,
            t as int,
            current_traffic@.len() as int,
        ),
        *final(driving_cars) + *final(waiting_cars) == *old(driving_cars) + *old(waiting_cars)
            + mass(current_traffic@),
{
    let ghost sim = *simulation_data;
    let ghost lights = schedule_of(traffic_lights@);
    let ghost cur = current_traffic@;
    let ghost (driving_before, waiting_before) = (*driving_cars as int, *waiting_cars as int);
    let n = current_traffic.len();
    let mut next_traffic = extract_step(&simulation_data.traffic_data, t + 1);
    proof {
        lemma_step_bounded(sim, lights, cur, t as int);
    }
    for index in 0..n
        invariant
            simulation_data.wf(),
            sim == *simulation_data,
            lights == schedule_of(traffic_lights@),
            cur == current_traffic@,
            n == cur.len(),
            n == simulation_data.intersections,
            has_shape(lights, simulation_data.intersections as int, simulation_data.timesteps as int),
            t < simulation_data.timesteps,
            mass(column(sim.table(), t + 1)) + mass(cur) <= u32::MAX,
            driving_before + waiting_before + mass(cur) <= u64::MAX,
            forall|j: int|
                0 <= j < n ==> #[trigger] arrived_total(sim, lights, cur, t as int, j) <= mass(
                    column(sim.table(), t + 1),
                ) + mass(cur),
            next_traffic@.len() == n,
            forall|j: int|
                0 <= j < n ==> {
                    &&& (#[trigger] next_traffic@[j]).main_from_prev == arrived_prev(sim, lights, cur, t as int, index as int, j)
                    &&& next_traffic@[j].main_from_next == arrived_next(sim, lights, cur, t as int, index as int, j)
                    &&& next_traffic@[j].side == arrived_side(sim, lights, cur, t as int, index as int, j)
                },
            *driving_cars == driving_before + driving_upto(sim, lights, cur, t as int, index as int),
            *waiting_cars == waiting_before + waiting_upto(sim, lights, cur, t as int, index as int),
            *driving_cars + *waiting_cars == driving_before + waiting_before + mass_upto(cur, index as int),
    {
        let mut max_passthrough = simulation_data.max_passthrough;
        assert(lights[index as int] == bits_of(traffic_lights@[index as int]));
        assert(lights[index as int].len() == simulation_data.timesteps);
        let green = bit_at(&traffic_lights[index], t);
        if !simulation_data.disable_increasing_passthrough && t > 0 && bit_at(
            &traffic_lights[index],
            t - 1,
        ) == green {
            max_passthrough = calculate_increased_max_passthrough(simulation_data.max_passthrough);
        }
        let ghost cap = cap_at(sim, lights, index as int, t as int);
        assert(max_passthrough == cap);
        assert(green == green_at(lights, index as int, t as int));
        proof {
            lemma_cap_nonneg(sim, lights, index as int, t as int);
            lemma_mass_upto_grows(cur, index + 1, n as int);
            assert forall|j: int| 0 <= j < n implies {
                &&& arrived_prev(sim, lights, cur, t as int, index + 1, j) == arrived_prev(sim, lights, cur, t as int, index as int, j)
                    + inflow_prev(sim, cur[index as int], cap, green, index as int, j)
                &&& arrived_next(sim, lights, cur, t as int, index + 1, j) == arrived_next(sim, lights, cur, t as int, index as int, j)
                    + inflow_next(sim, cur[index as int], cap, green, index as int, j)
                &&& arrived_side(sim, lights, cur, t as int, index + 1, j) == arrived_side(sim, lights, cur, t as int, index as int, j)
                    + inflow_side(sim, cur[index as int], cap, green, index as int, j)
                &&& arrived_prev(sim, lights, cur, t as int, index + 1, j) <= u32::MAX
                &&& arrived_next(sim, lights, cur, t as int, index + 1, j) <= u32::MAX
                &&& arrived_side(sim, lights, cur, t as int, index + 1, j) <= u32::MAX
            } by {
                lemma_arrived_nonneg(sim, lights, cur, t as int, index + 1, j);
                assert(arrived_total(sim, lights, cur, t as int, j) <= u32::MAX);
            }
        }
        if green {
            apply_main(
                &mut next_traffic,
                &current_traffic[index],
                index,
                driving_cars,
                waiting_cars,
                max_passthrough,
                simulation_data,
            );
        } else {
            apply_side(
                &mut next_traffic,
                &current_traffic[index],
                index,
                driving_cars,
                waiting_cars,
                max_passthrough,
                simulation_data,
            );
        }
    }
    proof {
        assert forall|j: int| 0 <= j < n implies #[trigger] next_traffic@[j] == next_state(sim, lights, cur, t as int)[j] by {
        }
        assert(next_traffic@ =~= next_state(sim, lights, cur, t as int));
    }
    next_traffic
}


/// Every schedule of a population has the road's shape.
pub open spec fn population_fits(
    population: Seq<Vec<BitVec>>,
    intersections: int,
    timesteps: int,
) -> bool {
    forall|i: int|
        0 <= i < population.len() ==> has_shape(
            schedule_of(#[trigger] population[i]@),
            intersections,
            timesteps,
        )
}

proof fn lemma_steps_fit(sim: SimulationData, lights: Seq<Seq<bool>>, t: int)
    requires
        sim.wf(),
        sim.within_limits(),
        0 <= t < sim.timesteps,
    ensures
        mass(column(sim.table(), t + 1)) + mass(state_at(sim, lights, t as nat)) <= cars_upto(
            sim.table(),
            sim.timesteps as int,
        ),
        (t + 1) * cars_upto(sim.table(), sim.timesteps as int) <= i64::MAX,
        t * cars_upto(sim.table(), sim.timesteps as int) + cars_upto(sim.table(), sim.timesteps as int)
            == (t + 1) * cars_upto(sim.table(), sim.timesteps as int),
        mass(state_at(sim, lights, t as nat)) <= cars_upto(sim.table(), sim.timesteps as int),
        state_at(sim, lights, t as nat).len() == sim.intersections,
{
    let c = cars_upto(sim.table(), sim.timesteps as int);
    let tt = sim.timesteps as int;
    lemma_run_bounded(sim, lights, t as nat);
    lemma_run_bounded(sim, lights, (t + 1) as nat);
    assert(cars_upto(sim.table(), t + 2) == cars_upto(sim.table(), t + 1) + mass(
        column(sim.table(), t + 1),
    ));
    lemma_cars_grow(sim.table(), 0, tt);
    assert((t + 1) * c <= tt * c) by (nonlinear_arith)
        requires
            t + 1 <= tt,
            0 <= c,
    ;
    assert(t * c + c == (t + 1) * c) by (nonlinear_arith);
}

/// Replays the schedule `candidate` over every timestep of the traffic table and scores
/// the cars that passed and waited.
pub fn simulate(
    candidate: &Vec<BitVec>,
    simulation_data: &SimulationData,
    optimization_data: &OptimizationData,
) -> (r: Score)
    requires
        simulation_data.wf(),
        simulation_data.within_limits(),
        has_shape(
            schedule_of(candidate@),
            simulation_data.intersections as int,
            simulation_data.timesteps as int,
        ),
    ensures
        r == simulated_score(*simulation_data, *optimization_data, schedule_of(candidate@)),
        r.wf(),
        0 <= driving_total(*simulation_data, schedule_of(candidate@), simulation_data.timesteps as nat)
            <= i64::MAX,
        0 <= waiting_total(*simulation_data, schedule_of(candidate@), simulation_data.timesteps as nat)
            <= i64::MAX,
{
    let ghost sim = *simulation_data;
    let ghost lights = schedule_of(candidate@);
    let ghost c = cars_upto(sim.table(), sim.timesteps as int);
    let mut driving_cars: u64 = 0;
    let mut waiting_cars: u64 = 0;
    let mut current_step = extract_step(&simulation_data.traffic_data, 0);
    for t in 0..simulation_data.timesteps
        invariant
            sim == *simulation_data,
            lights == schedule_of(candidate@),
            c == cars_upto(sim.table(), sim.timesteps as int),
            simulation_data.wf(),
            simulation_data.within_limits(),
            has_shape(lights, sim.intersections as int, sim.timesteps as int),
            current_step@ == state_at(sim, lights, t as nat),
            driving_cars == driving_total(sim, lights, t as nat),
            waiting_cars == waiting_total(sim, lights, t as nat),
            driving_cars + waiting_cars <= t * c,
    {
        proof {
            lemma_steps_fit(sim, lights, t as int);
        }
        current_step = step(
            simulation_data,
            candidate,
            &current_step,
            t,
            &mut driving_cars,
            &mut waiting_cars,
        );
    }
    proof {
        let tt = sim.timesteps as int;
        lemma_cars_grow(sim.table(), 0, tt);
        assert(tt * c <= i64::MAX);
    }
    fitness(optimization_data.fitness_value, driving_cars, waiting_cars)
}

/// The score of every schedule of a population, in order.
pub fn simulate_population(
    population: &Vec<Vec<BitVec>>,
    simulation_data: &SimulationData,
    optimization_data: &OptimizationData,
) -> (r: Vec<Score>)
    requires
        simulation_data.wf(),
        simulation_data.within_limits(),
        population_fits(
            population@,
            simulation_data.intersections as int,
            simulation_data.timesteps as int,
        ),
    ensures
        r@.len() == population@.len(),
        forall|i: int|
            0 <= i < r@.len() ==> #[trigger] r@[i] == simulated_score(
                *simulation_data,
                *optimization_data,
                schedule_of(population@[i]@),
            ) && r@[i].wf(),
{
    let mut values: Vec<Score> = Vec::with_capacity(population.len());
    for i in 0..population.len()
        invariant
            simulation_data.wf(),
            simulation_data.within_limits(),
            population_fits(
                population@,
                simulation_data.intersections as int,
                simulation_data.timesteps as int,
            ),
            values@.len() == i,
            forall|k: int|
                0 <= k < i ==> #[trigger] values@[k] == simulated_score(
                    *simulation_data,
                    *optimization_data,
                    schedule_of(population@[k]@),
                ) && values@[k].wf(),
    {
        values.push(simulate(&population[i], simulation_data, optimization_data));
    }
    values
}

/// The cells of every timestep of a replay of `candidate`, from the table's first
/// timestep to the state after the last step.
pub fn simulation_steps(candidate: &Vec<BitVec>, simulation_data: &SimulationData) -> (r: Vec<
    Vec<TrafficState>,
>)
    requires
        simulation_data.wf(),
        simulation_data.within_limits(),
        has_shape(
            schedule_of(candidate@),
            simulation_data.intersections as int,
            simulation_data.timesteps as int,
        ),
    ensures
        r@.len() == simulation_data.timesteps + 1,
        forall|t: int|
            0 <= t < r@.len() ==> (#[trigger] r@[t])@ == state_at(
                *simulation_data,
                schedule_of(candidate@),
                t as nat,
            ),
{
    let ghost sim = *simulation_data;
    let ghost lights = schedule_of(candidate@);
    let ghost c = cars_upto(sim.table(), sim.timesteps as int);
    let mut driving_cars: u64 = 0;
    let mut waiting_cars: u64 = 0;
    let mut current_step = extract_step(&simulation_data.traffic_data, 0);
    let mut steps: Vec<Vec<TrafficState>> = Vec::new();
    steps.push(current_step.clone());
    for t in 0..simulation_data.timesteps
        invariant
            sim == *simulation_data,
            lights == schedule_of(candidate@),
            c == cars_upto(sim.table(), sim.timesteps as int),
            simulation_data.wf(),
            simulation_data.within_limits(),
            has_shape(lights, sim.intersections as int, sim.timesteps as int),
            current_step@ == state_at(sim, lights, t as nat),
            driving_cars + waiting_cars <= t * c,
            steps@.len() == t + 1,
            forall|k: int| 0 <= k < steps@.len() ==> (#[trigger] steps@[k])@ == state_at(sim, lights, k as nat),
    {
        proof {
            lemma_steps_fit(sim, lights, t as int);
        }
        current_step = step(
            simulation_data,
            candidate,
            &current_step,
            t,
            &mut driving_cars,
            &mut waiting_cars,
        );
        steps.push(current_step.clone());
    }
    steps
}


/// Whether the table's cars fit the counters of a simulation: all of them in a cell, and
/// all of them once per timestep in a 63-bit sum.
pub fn traffic_within_limits(simulation_data: &SimulationData) -> (r: bool)
    requires
        simulation_data.wf(),
    ensures
        r == simulation_data.within_limits(),
{
    let ghost table = simulation_data.table();
    let n = simulation_data.intersections;
    let timesteps = simulation_data.timesteps;
    let mut total: u64 = 0;
    for t in 0..timesteps
        invariant
            simulation_data.wf(),
            table == simulation_data.table(),
            n == simulation_data.intersections,
            timesteps == simulation_data.timesteps,
            total == cars_upto(table, t as int),
            total <= u32::MAX,
    {
        let ghost col = column(table, t as int);
        let mut i: usize = 0;
        while i < n
            invariant
                simulation_data.wf(),
                table == simulation_data.table(),
                n == simulation_data.intersections,
                timesteps == simulation_data.timesteps,
                t < timesteps,
                col == column(table, t as int),
                0 <= i <= n,
                total == cars_upto(table, t as int) + mass_upto(col, i as int),
                total <= u32::MAX,
            decreases n - i,
        {
            assert(table[i as int] == simulation_data.traffic_data@[i as int]@);
            let cell = simulation_data.traffic_data[i][t];
            let cell_cars: u64 = cell.main_from_prev as u64 + cell.main_from_next as u64 + cell.side as u64;
            if total + cell_cars > u32::MAX as u64 {
                proof {
                    lemma_mass_upto_grows(col, i + 1, n as int);
                    lemma_cars_grow(table, t + 1, timesteps as int);
                }
                return false;
            }
            total = total + cell_cars;
            i = i + 1;
        }
    }
    assert((timesteps as int) * (total as int) <= 0xffff_ffff_ffff_ffff * 0xffff_ffff) by (nonlinear_arith)
        requires
            0 <= timesteps <= 0xffff_ffff_ffff_ffff,
            0 <= total <= 0xffff_ffff,
    ;
    (timesteps as u128) * (total as u128) <= i64::MAX as u128
}


/// Simulation is deterministic: on one table and configuration, two schedules with the
/// same bits get the same score, so two calls of `simulate` on one schedule agree.
pub proof fn lemma_simulate_deterministic(
    sim: SimulationData,
    opt: OptimizationData,
    candidate1: Seq<BitVec>,
    candidate2: Seq<BitVec>,
    score1: Score,
    score2: Score,
)
    requires
        schedule_of(candidate1) == schedule_of(candidate2),
        score1 == simulated_score(sim, opt, schedule_of(candidate1)),
        score2 == simulated_score(sim, opt, schedule_of(candidate2)),
    ensures
        score1 == score2,
{
}

} // verus!
