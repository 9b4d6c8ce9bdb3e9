use bit_vec::BitVec;
use traffic_lights::data::{
    build_empty_traffic_state, calculate_increased_max_passthrough, calculate_max_passthrough,
    calculate_min_count, fixed_data, generate_candidate, generate_data, generate_population,
    FitnessValue, Fraction, GenerationData, Mutation, Optimization, OptimizationData,
    Recombination, SimulationData, TrafficState,
};
use traffic_lights::score::{fitness, less_than, Score};
use traffic_lights::simulation::{
    simulate, simulate_population, simulation_steps, traffic_within_limits,
};

fn cell(main_from_prev: u32, main_from_next: u32, side: u32) -> TrafficState {
    TrafficState { main_from_prev, main_from_next, side }
}

fn schedule(rows: &[&[bool]]) -> Vec<BitVec> {
    rows.iter()
        .map(|row| {
            let mut bits = BitVec::new();
            for b in row.iter() {
                bits.push(*b);
            }
            bits
        })
        .collect()
}

fn options(fitness_value: FitnessValue) -> OptimizationData {
    OptimizationData {
        iterations: 10,
        optimization: Optimization::Genetic,
        mutation: Mutation::ProbBitflip,
        recombination: Recombination::OnePoint,
        probability_bitflip: Fraction::new(1, 128),
        probability_recombination: Fraction::new(3, 4),
        population_size: 10,
        parents_size: 4,
        tournament_size: 3,
        fitness_value,
    }
}

fn two_by_two() -> SimulationData {
    SimulationData {
        traffic_data: vec![
            vec![cell(10, 0, 4), cell(0, 0, 2)],
            vec![cell(0, 6, 3), cell(0, 0, 1)],
        ],
        intersections: 2,
        timesteps: 2,
        disable_increasing_passthrough: false,
        disable_max_passthrough: true,
        max_passthrough: 16,
        main_percentage: Fraction::new(1, 2),
        side_percentage: Fraction::new(2, 5),
    }
}

#[test]
fn scenario_two_by_two_counts() {
    let sim = two_by_two();
    let lights = schedule(&[&[true, false], &[false, true]]);
    assert!(traffic_within_limits(&sim));
    let driving = simulate(&lights, &sim, &options(FitnessValue::DrivingCars));
    assert_eq!(driving, Score { numerator: 30, denominator: 1 });
    let waiting = simulate(&lights, &sim, &options(FitnessValue::WaitingCars));
    assert_eq!(waiting, Score { numerator: -11, denominator: 1 });
    let difference = simulate(&lights, &sim, &options(FitnessValue::Difference));
    assert_eq!(difference, Score { numerator: 19, denominator: 1 });
    let ratio = simulate(&lights, &sim, &options(FitnessValue::Ratio));
    assert_eq!(ratio, Score { numerator: 30, denominator: 11 });
}

#[test]
fn scenario_two_by_two_steps() {
    let sim = two_by_two();
    let lights = schedule(&[&[true, false], &[false, true]]);
    let steps = simulation_steps(&lights, &sim);
    assert_eq!(steps.len(), 3);
    assert_eq!(steps[0], vec![cell(10, 0, 4), cell(0, 6, 3)]);
    assert_eq!(steps[1], vec![cell(0, 0, 6), cell(5, 6, 1)]);
    assert_eq!(steps[2], vec![cell(0, 3, 0), cell(1, 0, 1)]);
}

#[test]
fn cap_limits_what_passes() {
    // One intersection, main road green twice: the cap of 4 lets 4 of 10 pass, then the
    // kept phase raises the cap to 6 (1.4 times 4, rounded).
    let sim = SimulationData {
        traffic_data: vec![vec![cell(10, 0, 0), cell(0, 0, 0)]],
        intersections: 1,
        timesteps: 2,
        disable_increasing_passthrough: false,
        disable_max_passthrough: false,
        max_passthrough: 4,
        main_percentage: Fraction::new(1, 1),
        side_percentage: Fraction::new(1, 1),
    };
    let lights = schedule(&[&[true, true]]);
    let steps = simulation_steps(&lights, &sim);
    assert_eq!(steps[1], vec![cell(6, 0, 0)]);
    assert_eq!(steps[2], vec![cell(0, 0, 0)]);
    let driving = simulate(&lights, &sim, &options(FitnessValue::DrivingCars));
    assert_eq!(driving, Score { numerator: 10, denominator: 1 });
    let waiting = simulate(&lights, &sim, &options(FitnessValue::WaitingCars));
    assert_eq!(waiting, Score { numerator: -6, denominator: 1 });

    let mut flat = sim;
    flat.disable_increasing_passthrough = true;
    let steps = simulation_steps(&lights, &flat);
    assert_eq!(steps[2], vec![cell(2, 0, 0)]);
}

#[test]
fn ratio_without_waiting_is_top_score() {
    let score = fitness(FitnessValue::Ratio, 5, 0);
    assert_eq!(score, Score { numerator: 1, denominator: 0 });
    let finite = Score { numerator: 1_000_000, denominator: 1 };
    assert!(less_than(&finite, &score));
    assert!(!less_than(&score, &finite));
    assert!(!less_than(&score, &score));
}

#[test]
fn fitness_formulas() {
    assert_eq!(fitness(FitnessValue::Difference, 7, 9), Score { numerator: -2, denominator: 1 });
    assert_eq!(fitness(FitnessValue::Ratio, 7, 9), Score { numerator: 7, denominator: 9 });
    assert_eq!(fitness(FitnessValue::DrivingCars, 7, 9), Score { numerator: 7, denominator: 1 });
    assert_eq!(fitness(FitnessValue::WaitingCars, 7, 9), Score { numerator: -9, denominator: 1 });
    assert!(less_than(
        &Score { numerator: 2, denominator: 3 },
        &Score { numerator: 3, denominator: 4 }
    ));
    assert!(!less_than(
        &Score { numerator: 2, denominator: 4 },
        &Score { numerator: 1, denominator: 2 }
    ));
}

#[test]
fn simulation_is_deterministic() {
    let table = fixed_data();
    let sim = SimulationData {
        traffic_data: table,
        intersections: 8,
        timesteps: 16,
        disable_increasing_passthrough: false,
        disable_max_passthrough: false,
        max_passthrough: calculate_max_passthrough(20),
        main_percentage: Fraction::new(4, 5),
        side_percentage: Fraction::new(3, 5),
    };
    assert!(traffic_within_limits(&sim));
    let candidate = generate_candidate(8, 16);
    let opt = options(FitnessValue::Ratio);
    let first = simulate(&candidate, &sim, &opt);
    let second = simulate(&candidate, &sim, &opt);
    assert_eq!(first, second);
    let population = vec![candidate.clone(), candidate];
    let values = simulate_population(&population, &sim, &opt);
    assert_eq!(values, vec![first, first]);
}

#[test]
fn too_much_traffic_is_detected() {
    let sim = SimulationData {
        traffic_data: vec![vec![cell(u32::MAX, 0, 0)], vec![cell(0, 0, 1)]],
        intersections: 2,
        timesteps: 1,
        disable_increasing_passthrough: false,
        disable_max_passthrough: false,
        max_passthrough: 4,
        main_percentage: Fraction::new(1, 2),
        side_percentage: Fraction::new(1, 2),
    };
    assert!(!traffic_within_limits(&sim));
}

#[test]
fn rounded_counts() {
    assert_eq!(calculate_min_count(20), 7);
    assert_eq!(calculate_min_count(10), 3);
    assert_eq!(calculate_min_count(-2), -1);
    assert_eq!(calculate_min_count(-1), 0);
    assert_eq!(calculate_max_passthrough(20), 16);
    assert_eq!(calculate_max_passthrough(3), 2);
    assert_eq!(calculate_max_passthrough(-3), -2);
    assert_eq!(calculate_increased_max_passthrough(16), 22);
    assert_eq!(calculate_increased_max_passthrough(4), 6);
    assert_eq!(calculate_increased_max_passthrough(i32::MAX), i32::MAX);
    assert_eq!(calculate_increased_max_passthrough(i32::MIN), i32::MIN);
}

#[test]
fn empty_cell() {
    assert_eq!(build_empty_traffic_state(), cell(0, 0, 0));
}

#[test]
fn fixed_table_shape() {
    let table = fixed_data();
    assert_eq!(table.len(), 8);
    assert!(table.iter().all(|row| row.len() == 16));
    assert_eq!(table[0][0], cell(7, 17, 8));
    assert_eq!(table[0][1], cell(18, 0, 4));
    assert_eq!(table[1][0], cell(18, 8, 6));
    assert_eq!(table[7][15], cell(0, 11, 9));
    assert!(table.iter().flatten().all(|c| c.main_from_prev < 20 && c.main_from_next < 20 && c.side < 10));
}

#[test]
fn generated_table_follows_ranges() {
    let g = GenerationData {
        intersections: 4,
        timesteps: 5,
        main_max_count: 20,
        side_max_count: 10,
        main_min_count: calculate_min_count(20),
        side_min_count: calculate_min_count(10),
    };
    let table = generate_data(&g);
    assert_eq!(table.len(), 4);
    for (i, row) in table.iter().enumerate() {
        assert_eq!(row.len(), 5);
        for (t, c) in row.iter().enumerate() {
            assert!((3..10).contains(&c.side));
            if i == 0 {
                assert!((7..20).contains(&c.main_from_prev));
                assert_eq!(c.main_from_next, 0);
            } else if i == 3 {
                assert_eq!(c.main_from_prev, 0);
                assert!((7..20).contains(&c.main_from_next));
            } else if t == 0 {
                assert!((7..20).contains(&c.main_from_prev));
                assert!((7..20).contains(&c.main_from_next));
            } else {
                assert_eq!(c.main_from_prev, 0);
                assert_eq!(c.main_from_next, 0);
            }
        }
    }
}

#[test]
fn generated_single_intersection_has_no_through_traffic() {
    let g = GenerationData {
        intersections: 1,
        timesteps: 4,
        main_max_count: 20,
        side_max_count: 10,
        main_min_count: 7,
        side_min_count: 3,
    };
    let table = generate_data(&g);
    assert_eq!(table.len(), 1);
    for c in table[0].iter() {
        assert_eq!(c.main_from_prev, 0);
        assert_eq!(c.main_from_next, 0);
        assert!((3..10).contains(&c.side));
    }
}

#[test]
fn generated_schedules_have_the_road_shape() {
    let population = generate_population(6, 3, 7);
    assert_eq!(population.len(), 6);
    for candidate in population.iter() {
        assert_eq!(candidate.len(), 3);
        assert!(candidate.iter().all(|row| row.len() == 7));
    }
}
