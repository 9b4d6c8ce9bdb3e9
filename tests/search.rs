use bit_vec::BitVec;
use traffic_lights::bits::copy_candidate;
use traffic_lights::data::{
    fixed_data, generate_candidate, generate_population, FitnessValue, Fraction, Mutation,
    Optimization, OptimizationData, Recombination, SimulationData, TrafficState,
};
use traffic_lights::optimization::{
    check_configuration, crossover_at, crossover_between, flip_where, genetic_algorithm, hillclimb,
    mutation, optimize, recombination, recombine_if, selection, ConfigError,
};
use traffic_lights::score::{less_than, Score};
use traffic_lights::simulation::{simulate, simulate_population};
use traffic_lights::utils::{
    distinct_random, get_best_and_worst_candidate, tournament, tournament_winner,
};

fn schedule(rows: &[&[bool]]) -> Vec<BitVec> {
    rows.iter()
        .map(|row| {
            let mut bits = BitVec::new();
            for b in row.iter() {
                bits.push(*b);
            }
            bits
        })
        .collect()
}

fn bits(c: &[BitVec]) -> Vec<Vec<bool>> {
    c.iter().map(|row| row.iter().collect()).collect()
}

fn fixed_road() -> SimulationData {
    SimulationData {
        traffic_data: fixed_data(),
        intersections: 8,
        timesteps: 16,
        disable_increasing_passthrough: false,
        disable_max_passthrough: false,
        max_passthrough: 16,
        main_percentage: Fraction::new(4, 5),
        side_percentage: Fraction::new(3, 5),
    }
}

fn genetic_options() -> OptimizationData {
    OptimizationData {
        iterations: 15,
        optimization: Optimization::Genetic,
        mutation: Mutation::ProbBitflip,
        recombination: Recombination::TwoPoint,
        probability_bitflip: Fraction::new(1, 128),
        probability_recombination: Fraction::new(3, 4),
        population_size: 12,
        parents_size: 4,
        tournament_size: 3,
        fitness_value: FitnessValue::Ratio,
    }
}

fn hillclimb_options() -> OptimizationData {
    OptimizationData {
        iterations: 40,
        optimization: Optimization::Hillclimb,
        mutation: Mutation::Bitflip,
        recombination: Recombination::OnePoint,
        probability_bitflip: Fraction::new(1, 128),
        probability_recombination: Fraction::new(3, 4),
        population_size: 2,
        parents_size: 0,
        tournament_size: 0,
        fitness_value: FitnessValue::Difference,
    }
}

fn not_above(a: &Score, b: &Score) -> bool {
    !less_than(b, a)
}

#[test]
fn mutation_none_is_identity() {
    let c = schedule(&[&[true, false, true], &[false, false, true]]);
    let mut opt = genetic_options();
    opt.mutation = Mutation::Unchanged;
    assert_eq!(bits(&mutation(&c, &opt)), bits(&c));
}

#[test]
fn mutation_probability_zero_and_one() {
    let c = schedule(&[&[true, false, true], &[false, false, true]]);
    let mut opt = genetic_options();
    opt.probability_bitflip = Fraction::new(0, 5);
    assert_eq!(bits(&mutation(&c, &opt)), bits(&c));
    opt.probability_bitflip = Fraction::new(5, 5);
    assert_eq!(
        bits(&mutation(&c, &opt)),
        vec![vec![false, true, false], vec![true, true, false]]
    );
}

#[test]
fn bitflip_flips_exactly_one_bit() {
    let c = schedule(&[&[true, false, true], &[false, false, true]]);
    let mut opt = genetic_options();
    opt.mutation = Mutation::Bitflip;
    for _ in 0..20 {
        let m = mutation(&c, &opt);
        let before = bits(&c);
        let after = bits(&m);
        assert_eq!(after.len(), 2);
        let differing: usize = before
            .iter()
            .zip(after.iter())
            .map(|(a, b)| {
                assert_eq!(a.len(), b.len());
                a.iter().zip(b.iter()).filter(|(x, y)| x != y).count()
            })
            .sum();
        assert_eq!(differing, 1);
    }
}

#[test]
fn one_point_crossover_at_a_column() {
    let a = schedule(&[&[true, true, true, true], &[false, false, false, false]]);
    let b = schedule(&[&[false, false, false, false], &[true, false, true, false]]);
    let (c1, c2) = crossover_at(&a, &b, 1);
    assert_eq!(bits(&c1), vec![vec![true, false, false, false], vec![false, false, true, false]]);
    assert_eq!(bits(&c2), vec![vec![false, true, true, true], vec![true, false, false, false]]);
    assert_eq!(bits(&a), vec![vec![true, true, true, true], vec![false, false, false, false]]);
}

#[test]
fn two_point_crossover_between_rows() {
    let a = schedule(&[&[true, true], &[true, true], &[true, true], &[true, true]]);
    let b = schedule(&[&[false, false], &[false, true], &[true, false], &[false, false]]);
    let (c1, c2) = crossover_between(&a, &b, 0, 3);
    assert_eq!(
        bits(&c1),
        vec![vec![true, true], vec![false, true], vec![true, false], vec![true, true]]
    );
    assert_eq!(
        bits(&c2),
        vec![vec![false, false], vec![true, true], vec![true, true], vec![false, false]]
    );
    let (d1, _) = crossover_between(&a, &b, 1, 2);
    assert_eq!(bits(&d1), bits(&a));
}

#[test]
fn recombination_keeps_shape() {
    let sim = fixed_road();
    let a = generate_candidate(8, 16);
    let b = generate_candidate(8, 16);
    for variant in [Recombination::OnePoint, Recombination::TwoPoint] {
        let mut opt = genetic_options();
        opt.recombination = variant;
        opt.probability_recombination = Fraction::new(1, 1);
        let (c1, c2) = recombination(&a, &b, &opt, &sim);
        for child in [&c1, &c2] {
            assert_eq!(child.len(), 8);
            assert!(child.iter().all(|row| row.len() == 16));
        }
        // Each column holds the parents' bits, possibly swapped between the children.
        for i in 0..8 {
            for t in 0..16 {
                let pair = (c1[i][t], c2[i][t]);
                assert!(pair == (a[i][t], b[i][t]) || pair == (b[i][t], a[i][t]));
            }
        }
    }
}

#[test]
fn recombination_probability_zero_keeps_parents() {
    let sim = fixed_road();
    let a = generate_candidate(8, 16);
    let b = generate_candidate(8, 16);
    let mut opt = genetic_options();
    opt.probability_recombination = Fraction::new(0, 1);
    let (c1, c2) = recombination(&a, &b, &opt, &sim);
    assert_eq!(bits(&c1), bits(&a));
    assert_eq!(bits(&c2), bits(&b));
}

#[test]
fn tournament_winners_are_distinct_and_in_range() {
    let values: Vec<Score> = (0..10).map(|v| Score { numerator: v % 4, denominator: 1 }).collect();
    let mut opt = genetic_options();
    opt.parents_size = 6;
    opt.tournament_size = 5;
    for _ in 0..20 {
        let winners = tournament(&values, &opt);
        assert_eq!(winners.len(), 6);
        for (k, w) in winners.iter().enumerate() {
            assert!(*w < 10);
            assert!(!winners[..k].contains(w));
        }
    }
}

#[test]
fn tournament_of_everyone_picks_the_best() {
    let values = vec![
        Score { numerator: 1, denominator: 2 },
        Score { numerator: 3, denominator: 4 },
        Score { numerator: 1, denominator: 3 },
    ];
    let mut opt = genetic_options();
    opt.parents_size = 1;
    opt.tournament_size = 3;
    assert_eq!(tournament(&values, &opt), vec![1]);
}

#[test]
fn distinct_random_covers_range() {
    let mut all = distinct_random(3, 8, 5);
    all.sort();
    assert_eq!(all, vec![3, 4, 5, 6, 7]);
    let some = distinct_random(0, 100, 7);
    assert_eq!(some.len(), 7);
    for (k, v) in some.iter().enumerate() {
        assert!(*v < 100);
        assert!(!some[..k].contains(v));
    }
}

#[test]
fn best_and_worst_take_first_on_ties() {
    let population = vec![
        schedule(&[&[true]]),
        schedule(&[&[false]]),
        schedule(&[&[true]]),
        schedule(&[&[false]]),
    ];
    let values = vec![
        Score { numerator: 1, denominator: 1 },
        Score { numerator: 4, denominator: 2 },
        Score { numerator: 2, denominator: 1 },
        Score { numerator: 0, denominator: 3 },
    ];
    let (best, best_value, worst_value) = get_best_and_worst_candidate(&population, &values);
    assert_eq!(bits(&best), vec![vec![false]]);
    assert_eq!(best_value, Score { numerator: 4, denominator: 2 });
    assert_eq!(worst_value, Score { numerator: 0, denominator: 3 });
}

#[test]
fn selection_keeps_population_size() {
    let sim = fixed_road();
    let opt = genetic_options();
    let population = generate_population(12, 8, 16);
    let values = simulate_population(&population, &sim, &opt);
    let next = selection(&population, &values, &opt, &sim);
    assert_eq!(next.len(), 12);
    assert!(next.iter().all(|c| c.len() == 8 && c.iter().all(|row| row.len() == 16)));
}

#[test]
fn genetic_algorithm_keeps_population_and_best() {
    let sim = fixed_road();
    let opt = genetic_options();
    let out = genetic_algorithm(&opt, &sim);
    assert_eq!(out.population.len(), 12);
    assert_eq!(out.history.len(), 16);
    for k in 0..15 {
        assert!(not_above(&out.history[k], &out.history[k + 1]));
    }
    assert_eq!(out.history[15], out.best_value);
    assert_eq!(simulate(&out.best, &sim, &opt), out.best_value);
}

#[test]
fn hillclimb_never_worsens() {
    let sim = fixed_road();
    let opt = hillclimb_options();
    let out = hillclimb(&opt, &sim);
    assert_eq!(out.history.len(), 41);
    for k in 0..40 {
        assert!(not_above(&out.history[k], &out.history[k + 1]));
    }
    assert_eq!(out.history[40], out.best_value);
    assert_eq!(simulate(&out.best, &sim, &opt), out.best_value);
    assert_eq!(out.population.len(), 1);
    assert_eq!(bits(&out.population[0]), bits(&out.best));
    for improvement in out.improvements.iter() {
        assert_eq!(simulate(&improvement.candidate, &sim, &opt), improvement.value);
    }
}

#[test]
fn optimize_runs_the_chosen_strategy() {
    let sim = fixed_road();
    let out = optimize(&hillclimb_options(), &sim).ok().unwrap();
    assert_eq!(out.history.len(), 41);
    let out = optimize(&genetic_options(), &sim).ok().unwrap();
    assert_eq!(out.population.len(), 12);
}

#[test]
fn configuration_errors() {
    let sim = fixed_road();
    assert_eq!(check_configuration(&sim, &genetic_options()), Ok(()));

    let mut opt = genetic_options();
    opt.population_size = 11;
    assert_eq!(check_configuration(&sim, &opt), Err(ConfigError::OddPopulation));
    assert!(matches!(optimize(&opt, &sim), Err(ConfigError::OddPopulation)));

    let mut opt = genetic_options();
    opt.parents_size = 1;
    assert_eq!(check_configuration(&sim, &opt), Err(ConfigError::TooFewParents));

    let mut opt = genetic_options();
    opt.parents_size = 12;
    assert_eq!(check_configuration(&sim, &opt), Err(ConfigError::TooManyParents));

    let mut opt = genetic_options();
    opt.tournament_size = 0;
    assert_eq!(check_configuration(&sim, &opt), Err(ConfigError::TournamentTooSmall));

    let mut opt = genetic_options();
    opt.tournament_size = 10;
    assert_eq!(check_configuration(&sim, &opt), Err(ConfigError::TournamentTooLarge));
    opt.tournament_size = 9;
    assert_eq!(check_configuration(&sim, &opt), Ok(()));

    let mut opt = genetic_options();
    opt.probability_bitflip = Fraction { numerator: 3, denominator: 2 };
    assert_eq!(check_configuration(&sim, &opt), Err(ConfigError::InvalidParameter));

    let mut bad_cap = fixed_road();
    bad_cap.max_passthrough = -1;
    assert_eq!(check_configuration(&bad_cap, &genetic_options()), Err(ConfigError::InvalidParameter));

    let mut short = fixed_road();
    short.timesteps = 15;
    assert_eq!(check_configuration(&short, &genetic_options()), Err(ConfigError::InvalidTable));

    let crowded = SimulationData {
        traffic_data: vec![vec![TrafficState { main_from_prev: u32::MAX, main_from_next: 1, side: 0 }]],
        intersections: 1,
        timesteps: 1,
        disable_increasing_passthrough: false,
        disable_max_passthrough: false,
        max_passthrough: 16,
        main_percentage: Fraction::new(1, 2),
        side_percentage: Fraction::new(1, 2),
    };
    assert_eq!(check_configuration(&crowded, &hillclimb_options()), Err(ConfigError::TooMuchTraffic));

    let empty = SimulationData {
        traffic_data: vec![],
        intersections: 0,
        timesteps: 3,
        disable_increasing_passthrough: false,
        disable_max_passthrough: false,
        max_passthrough: 16,
        main_percentage: Fraction::new(1, 2),
        side_percentage: Fraction::new(1, 2),
    };
    assert_eq!(check_configuration(&empty, &hillclimb_options()), Err(ConfigError::NothingToFlip));

    let single = SimulationData {
        traffic_data: vec![vec![TrafficState { main_from_prev: 1, main_from_next: 1, side: 1 }; 4]],
        intersections: 1,
        timesteps: 4,
        disable_increasing_passthrough: false,
        disable_max_passthrough: false,
        max_passthrough: 16,
        main_percentage: Fraction::new(1, 2),
        side_percentage: Fraction::new(1, 2),
    };
    assert_eq!(check_configuration(&single, &genetic_options()), Err(ConfigError::NoCrossoverPoint));
    let mut opt = genetic_options();
    opt.recombination = Recombination::OnePoint;
    assert_eq!(check_configuration(&single, &opt), Ok(()));
}

#[test]
fn copies_are_independent() {
    let a = schedule(&[&[true, false]]);
    let mut b = copy_candidate(&a);
    b[0].set(0, false);
    assert_eq!(bits(&a), vec![vec![true, false]]);
    assert_eq!(bits(&b), vec![vec![false, false]]);
}

#[test]
fn tournament_winner_takes_first_highest_in_draw_order() {
    let values = vec![
        Score { numerator: 1, denominator: 1 },
        Score { numerator: 6, denominator: 2 },
        Score { numerator: 3, denominator: 1 },
        Score { numerator: 0, denominator: 1 },
    ];
    assert_eq!(tournament_winner(&values, &vec![3, 2, 1, 0]), 1);
    assert_eq!(tournament_winner(&values, &vec![1, 2]), 0);
    assert_eq!(tournament_winner(&values, &vec![3, 0]), 1);
    assert_eq!(tournament_winner(&values, &vec![3]), 0);
}

#[test]
fn flip_where_flips_the_marked_bits() {
    let c = schedule(&[&[true, false, true], &[false, false, true]]);
    let mask = vec![vec![false, true, true], vec![false, false, false]];
    assert_eq!(
        bits(&flip_where(&c, &mask)),
        vec![vec![true, true, false], vec![false, false, true]]
    );
}

#[test]
fn recombine_if_follows_the_draw() {
    let sim = fixed_road();
    let a = generate_candidate(8, 16);
    let b = generate_candidate(8, 16);
    let opt = genetic_options();
    let (c1, c2) = recombine_if(&a, &b, false, &opt, &sim);
    assert_eq!(bits(&c1), bits(&a));
    assert_eq!(bits(&c2), bits(&b));
    // Two-point crossover swaps whole rows, at least none of the two end rows.
    let (d1, d2) = recombine_if(&a, &b, true, &opt, &sim);
    for i in 0..8 {
        let row = (bits(&d1)[i].clone(), bits(&d2)[i].clone());
        let same = (bits(&a)[i].clone(), bits(&b)[i].clone());
        let swapped = (bits(&b)[i].clone(), bits(&a)[i].clone());
        assert!(row == same || row == swapped);
    }
    assert_eq!(bits(&d1)[0], bits(&a)[0]);
    assert_eq!(bits(&d1)[7], bits(&a)[7]);
}

#[test]
fn selection_without_mutation_mixes_two_parents() {
    let sim = fixed_road();
    let mut opt = genetic_options();
    opt.mutation = Mutation::Unchanged;
    opt.recombination = Recombination::OnePoint;
    let population = generate_population(12, 8, 16);
    let values = simulate_population(&population, &sim, &opt);
    let next = selection(&population, &values, &opt, &sim);
    for k in 0..6 {
        let (c0, c1) = (bits(&next[2 * k]), bits(&next[2 * k + 1]));
        let found = (0..12).any(|a| {
            (0..12).any(|b| {
                a != b && {
                    let (pa, pb) = (bits(&population[a]), bits(&population[b]));
                    (0..8).all(|i| {
                        (0..16).all(|t| {
                            let pair = (c0[i][t], c1[i][t]);
                            pair == (pa[i][t], pb[i][t]) || pair == (pb[i][t], pa[i][t])
                        })
                    })
                }
            })
        });
        assert!(found);
    }
}

#[test]
fn hillclimb_without_mutation_keeps_the_first_score() {
    let sim = fixed_road();
    let mut opt = hillclimb_options();
    opt.mutation = Mutation::Unchanged;
    let out = hillclimb(&opt, &sim);
    assert!(out.history.iter().all(|h| *h == out.history[0]));
    assert_eq!(out.improvements.len(), 1);
    assert_eq!(bits(&out.improvements[0].candidate), bits(&out.best));
}

#[test]
fn genetic_best_is_not_below_the_final_population() {
    let sim = fixed_road();
    let opt = genetic_options();
    let out = genetic_algorithm(&opt, &sim);
    for candidate in out.population.iter() {
        assert!(not_above(&simulate(candidate, &sim, &opt), &out.best_value));
    }
    assert_eq!(out.improvements[0].iteration, 0);
    for improvement in out.improvements.iter() {
        assert_eq!(out.history[improvement.iteration], improvement.value);
    }
    for k in 0..15 {
        if less_than(&out.history[k], &out.history[k + 1]) {
            assert!(out.improvements.iter().any(|m| m.iteration == k + 1));
        }
    }
}

#[test]
fn crossover_of_a_row_with_spare_storage() {
    // A row cut off another keeps more storage than its bits need.
    let mut long = BitVec::from_elem(40, true);
    let tail = long.split_off(9);
    assert_eq!(tail.len(), 31);
    let other = BitVec::from_elem(64, false);
    let (c1, c2) = crossover_at(&vec![tail.clone()], &vec![other.clone()], 31);
    let mut expected1 = vec![true; 31];
    expected1.extend(vec![false; 33]);
    assert_eq!(bits(&c1), vec![expected1]);
    assert_eq!(bits(&c2), vec![vec![false; 31]]);
    let (d1, _) = crossover_at(&c1, &vec![BitVec::from_elem(70, true)], 64);
    let mut expected2 = vec![true; 31];
    expected2.extend(vec![false; 33]);
    expected2.extend(vec![true; 6]);
    assert_eq!(bits(&d1), vec![expected2]);
}
