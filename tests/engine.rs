use vrp_engine::construction::{best_position, construct};
use vrp_engine::initial::{from_routes, PlannedRoute};
use vrp_engine::evaluator::{choose_window, schedule_plan, tour_cost_of, Rejection};
use vrp_engine::model::{
    Actor, Costs, Driver, Job, Matrix, Place, Problem, ProblemError, TimeWindow, Vehicle,
    VehicleDetail,
};
use vrp_engine::operators::{crossover, ruin_route, swap_visits};
use vrp_engine::population::{Individual, Population};
use vrp_engine::ranking::{fitness_of, is_better, Fitness};
use vrp_engine::solution::{Fleet, Solution};
use vrp_engine::solver::{
    should_stop, validate_config, validate_rules, Config, ConfigError, SolveError, Solver,
};
use vrp_engine::termination::{rule_holds, rules_hold, VariationRule};
use vrp_engine::validate::validate_problem;

fn costs(fixed: u64, per_distance: u64, per_driving_time: u64) -> Costs {
    Costs { fixed, per_distance, per_driving_time, per_waiting_time: 0, per_service_time: 0 }
}

fn zero_costs() -> Costs {
    costs(0, 0, 0)
}

/// Locations on a line: travel time and distance are the gap between indices, times `scale`.
fn line_matrix(size: usize, scale: u64) -> Matrix {
    let mut durations = Vec::new();
    for from in 0..size {
        for to in 0..size {
            let gap = if from > to { from - to } else { to - from };
            durations.push(gap as u64 * scale);
        }
    }
    Matrix { size, distances: durations.clone(), durations }
}

fn job(location: usize, duration: u64, window: (u64, u64), pickup: u64) -> Job {
    Job {
        places: vec![Place {
            location,
            duration,
            times: vec![TimeWindow { start: window.0, end: window.1 }],
        }],
        pickup: vec![pickup],
        delivery: vec![0],
    }
}

fn vehicle(capacity: u64, fixed: u64) -> Vehicle {
    Vehicle {
        profile: 0,
        costs: costs(fixed, 1, 0),
        details: vec![VehicleDetail {
            start_location: 0,
            start_time: 0,
            end_location: Some(0),
            end_time: 1000,
            capacity: vec![capacity],
        }],
    }
}

fn problem(jobs: Vec<Job>, vehicles: Vec<Vehicle>, matrix: Matrix) -> Problem {
    Problem { dims: 1, jobs, vehicles, drivers: vec![Driver { costs: zero_costs() }], matrices: vec![matrix] }
}

fn config(max_generations: Option<usize>) -> Config {
    Config { minimize_routes: true, max_generations, max_time_ms: None, population_size: 4 }
}

fn two_job_problem() -> Problem {
    problem(
        vec![job(1, 0, (0, 1000), 4), job(2, 0, (0, 1000), 4)],
        vec![vehicle(10, 100)],
        line_matrix(3, 1),
    )
}

#[test]
fn two_jobs_share_one_route() {
    let solver = Solver::start(two_job_problem(), config(Some(5)), Vec::new(), Vec::new(), 7).unwrap().unwrap();
    let best = solver.best();
    assert_eq!(best.solution.routes.len(), 1);
    assert!(best.solution.unassigned.is_empty());
    let tour = &best.solution.routes[0].tour;
    assert_eq!(tour.len(), 2);
    let mut load = 0u64;
    for act in tour.iter() {
        load += solver.problem.jobs[act.job].pickup[0];
        assert!(load <= 10);
    }
    assert_eq!(load, 8);
    // 0 -> 1 -> 2 -> 0 on the line: distance 4, fixed cost 100.
    assert_eq!(best.fitness, Fitness { routes: 1, cost: 104 });
}

#[test]
fn oversized_demand_gives_no_solution() {
    let p = problem(vec![job(1, 0, (0, 1000), 10)], vec![vehicle(5, 100)], line_matrix(2, 1));
    let r = Solver::start(p, config(Some(5)), Vec::new(), Vec::new(), 1).unwrap();
    assert!(r.is_none());
}

#[test]
fn oversized_demand_leaves_job_unassigned() {
    let p = problem(vec![job(1, 0, (0, 1000), 10)], vec![vehicle(5, 100)], line_matrix(2, 1));
    let fleet = Fleet::from_problem(&p);
    let s = construct(&p, &fleet, Solution::empty(&p));
    assert!(s.routes.is_empty());
    assert_eq!(s.unassigned, vec![0]);
}

#[test]
fn late_arrival_misses_window() {
    // Travel time 8 to the job: service would end at 13, after the window closes at 10.
    let p = problem(vec![job(1, 5, (0, 10), 1)], vec![vehicle(10, 0)], line_matrix(2, 8));
    let actor = Actor { vehicle: 0, driver: 0, detail: 0 };
    assert_eq!(schedule_plan(&p, actor, &vec![(0, 0)]), Err(Rejection::TimeWindow));
}

#[test]
fn early_arrival_fits_window() {
    // Travel time 3: service from 3 to 8 lies within [0, 10].
    let p = problem(vec![job(1, 5, (0, 10), 1)], vec![vehicle(10, 0)], line_matrix(2, 3));
    let actor = Actor { vehicle: 0, driver: 0, detail: 0 };
    let tour = schedule_plan(&p, actor, &vec![(0, 0)]).unwrap();
    assert_eq!(tour.len(), 1);
    assert_eq!(tour[0].arrival, 3);
    assert_eq!(tour[0].departure, 8);
}

#[test]
fn fewer_routes_rank_better() {
    let two = Fitness { routes: 2, cost: 500 };
    let three = Fitness { routes: 3, cost: 100 };
    assert!(is_better(&two, &three, true));
    assert!(!is_better(&three, &two, true));
    assert!(is_better(&three, &two, false));
}

#[test]
fn construction_is_repeatable() {
    let p = problem(
        vec![job(1, 0, (0, 1000), 4), job(2, 0, (0, 1000), 4), job(3, 0, (0, 1000), 4)],
        vec![vehicle(8, 100), vehicle(8, 100)],
        line_matrix(4, 1),
    );
    let fleet = Fleet::from_problem(&p);
    let a = construct(&p, &fleet, Solution::empty(&p));
    let b = construct(&p, &fleet, Solution::empty(&p));
    assert_eq!(format!("{:?}", a), format!("{:?}", b));
    assert_eq!(a.routes.len(), 2);
    assert!(a.unassigned.is_empty());
}

#[test]
fn best_fitness_never_worsens() {
    let p = problem(
        vec![job(1, 0, (0, 1000), 4), job(2, 0, (0, 1000), 4), job(3, 0, (0, 1000), 4)],
        vec![vehicle(8, 100), vehicle(12, 100)],
        line_matrix(4, 1),
    );
    let mut solver = Solver::start(p, config(Some(30)), Vec::new(), Vec::new(), 42).unwrap().unwrap();
    let mut last = solver.best().fitness;
    while solver.step(0) {
        let now = solver.best().fitness;
        assert!(!is_better(&last, &now, true));
        last = now;
    }
    assert_eq!(solver.generation, 30);
}

#[test]
fn generation_limit_stops_the_loop() {
    let mut solver = Solver::start(two_job_problem(), config(Some(3)), Vec::new(), Vec::new(), 3).unwrap().unwrap();
    assert!(solver.step(0));
    assert!(solver.step(0));
    assert!(solver.step(0));
    assert!(!solver.step(0));
    assert_eq!(solver.generation, 3);
}

#[test]
fn time_limit_stops_the_loop() {
    let c = Config { minimize_routes: false, max_generations: None, max_time_ms: Some(500), population_size: 2 };
    let mut solver = Solver::start(two_job_problem(), c, Vec::new(), Vec::new(), 3).unwrap().unwrap();
    assert!(solver.step(499));
    assert!(!solver.step(500));
    assert_eq!(solver.generation, 1);
    assert!(should_stop(&c, 0, 501));
    assert!(!should_stop(&c, 1_000_000, 0));
}

#[test]
fn dimension_mismatch_is_refused() {
    let mut p = two_job_problem();
    p.jobs[1].pickup = vec![1, 2];
    assert_eq!(validate_problem(&p), Err(ProblemError::DimensionMismatch));
    assert_eq!(
        Solver::start(p, config(None), Vec::new(), Vec::new(), 0).err(),
        Some(SolveError::Problem(ProblemError::DimensionMismatch))
    );
}

#[test]
fn unknown_location_is_refused() {
    let mut p = two_job_problem();
    p.jobs[0].places[0].location = 3;
    assert_eq!(validate_problem(&p), Err(ProblemError::UnknownLocation));
    let mut q = two_job_problem();
    q.matrices.clear();
    assert_eq!(validate_problem(&q), Err(ProblemError::UnknownLocation));
}

#[test]
fn oversized_value_is_refused() {
    let mut p = two_job_problem();
    p.jobs[0].places[0].times[0].end = u64::MAX;
    assert_eq!(validate_problem(&p), Err(ProblemError::ValueTooLarge));
    assert_eq!(validate_problem(&two_job_problem()), Ok(()));
}

#[test]
fn bad_settings_are_refused() {
    assert_eq!(validate_config(&config(Some(0))), Err(ConfigError::ZeroGenerations));
    let c = Config { minimize_routes: true, max_generations: None, max_time_ms: Some(0), population_size: 1 };
    assert_eq!(validate_config(&c), Err(ConfigError::ZeroTime));
    let c = Config { minimize_routes: true, max_generations: None, max_time_ms: None, population_size: 0 };
    assert_eq!(validate_config(&c), Err(ConfigError::ZeroPopulation));
    assert_eq!(
        Solver::start(two_job_problem(), c, Vec::new(), Vec::new(), 0).err(),
        Some(SolveError::Config(ConfigError::ZeroPopulation))
    );
    assert_eq!(validate_config(&config(None)), Ok(()));
}

#[test]
fn window_choice_ends_service_earliest() {
    let pl = Place {
        location: 0,
        duration: 2,
        times: vec![
            TimeWindow { start: 50, end: 60 },
            TimeWindow { start: 0, end: 4 },
            TimeWindow { start: 10, end: 20 },
        ],
    };
    assert_eq!(choose_window(&pl, 1), Some((1, 3)));
    assert_eq!(choose_window(&pl, 5), Some((2, 12)));
    assert_eq!(choose_window(&pl, 70), None);
}

#[test]
fn tour_cost_counts_every_rate() {
    let mut p = problem(vec![job(2, 3, (5, 100), 1)], vec![vehicle(10, 7)], line_matrix(3, 1));
    p.vehicles[0].costs = Costs { fixed: 7, per_distance: 2, per_driving_time: 3, per_waiting_time: 5, per_service_time: 11 };
    p.drivers[0].costs = Costs { fixed: 1, per_distance: 0, per_driving_time: 0, per_waiting_time: 0, per_service_time: 0 };
    let actor = Actor { vehicle: 0, driver: 0, detail: 0 };
    let tour = schedule_plan(&p, actor, &vec![(0, 0)]).unwrap();
    // Arrive at 2, wait until 5, serve 3, drive 2 back.
    assert_eq!(tour[0].arrival, 2);
    assert_eq!(tour[0].departure, 8);
    let expected = 8 + (2 * 2 + 3 * 2 + 5 * 3 + 11 * 3) + (2 * 2 + 3 * 2);
    assert_eq!(tour_cost_of(&p, actor, &tour), expected);
}

#[test]
fn insertion_prefers_cheapest_position() {
    let p = problem(
        vec![job(1, 0, (0, 1000), 1), job(3, 0, (0, 1000), 1), job(2, 0, (0, 1000), 1)],
        vec![vehicle(10, 0)],
        line_matrix(4, 1),
    );
    let actor = Actor { vehicle: 0, driver: 0, detail: 0 };
    let tour = schedule_plan(&p, actor, &vec![(0, 0), (1, 0)]).unwrap();
    let (pos, t, cost) = best_position(&p, actor, &tour, 2, 0).unwrap();
    assert_eq!(pos, 1);
    assert_eq!(t.len(), 3);
    assert_eq!(cost, 6);
}

#[test]
fn fleet_combines_vehicles_drivers_and_shifts() {
    let mut p = two_job_problem();
    p.vehicles.push(vehicle(3, 1));
    let shift = p.vehicles[1].details[0].clone();
    p.vehicles[1].details.push(shift);
    p.drivers.push(Driver { costs: zero_costs() });
    let fleet = Fleet::from_problem(&p);
    assert_eq!(fleet.actors.len(), 6);
    assert_eq!(fleet.actors[0], Actor { vehicle: 0, driver: 0, detail: 0 });
    assert_eq!(fleet.actors[5], Actor { vehicle: 1, driver: 1, detail: 1 });
}

#[test]
fn fitness_sums_route_costs() {
    let p = two_job_problem();
    let fleet = Fleet::from_problem(&p);
    let s = construct(&p, &fleet, Solution::empty(&p));
    assert_eq!(fitness_of(&p, &fleet, &s), Fitness { routes: 1, cost: 104 });
    let empty = Solution::empty(&p);
    assert_eq!(fitness_of(&p, &fleet, &empty), Fitness { routes: 0, cost: 0 });
}

#[test]
fn flat_history_is_stagnant() {
    let rule = VariationRule { sample: 3, threshold_per_mille: 10 };
    assert!(rule_holds(&vec![500, 100, 100, 100], &rule));
    assert!(!rule_holds(&vec![100, 100], &rule));
    // Values 90, 100, 110: standard deviation 8.16, mean 100, coefficient 0.0816.
    assert!(!rule_holds(&vec![90, 100, 110], &rule));
    assert!(rule_holds(&vec![90, 100, 110], &VariationRule { sample: 3, threshold_per_mille: 82 }));
    assert!(!rule_holds(&vec![90, 100, 110], &VariationRule { sample: 3, threshold_per_mille: 81 }));
    assert!(rule_holds(&vec![0, 0], &VariationRule { sample: 2, threshold_per_mille: 1 }));
    assert!(!rule_holds(&vec![1u64 << 40, 1u64 << 40], &VariationRule { sample: 2, threshold_per_mille: 1 }));
}

#[test]
fn every_rule_must_hold() {
    let history = vec![90, 100, 100, 100];
    let tight = VariationRule { sample: 3, threshold_per_mille: 1 };
    let wide = VariationRule { sample: 4, threshold_per_mille: 1 };
    assert!(rules_hold(&history, &vec![tight]));
    assert!(!rules_hold(&history, &vec![tight, wide]));
    assert!(!rules_hold(&history, &vec![]));
}

#[test]
fn stagnation_stops_the_loop() {
    let rules = vec![VariationRule { sample: 2, threshold_per_mille: 1 }];
    let mut solver = Solver::start(two_job_problem(), config(None), rules, Vec::new(), 5).unwrap().unwrap();
    assert_eq!(solver.history.len(), 1);
    assert!(solver.step(0));
    assert_eq!(solver.history, vec![104, 104]);
    assert!(!solver.step(0));
    assert_eq!(solver.generation, 1);
}

#[test]
fn bad_variation_rule_is_refused() {
    let bad = vec![VariationRule { sample: 1, threshold_per_mille: 10 }];
    assert_eq!(validate_rules(&bad), Err(ConfigError::BadVariationRule));
    let zero = vec![VariationRule { sample: 5, threshold_per_mille: 0 }];
    assert_eq!(
        Solver::start(two_job_problem(), config(None), zero, Vec::new(), 0).err(),
        Some(SolveError::Config(ConfigError::BadVariationRule))
    );
    assert_eq!(validate_rules(&vec![VariationRule { sample: 5, threshold_per_mille: 1000 }]), Ok(()));
}

#[test]
fn initial_routes_are_kept_and_completed() {
    let p = problem(
        vec![job(1, 0, (0, 1000), 4), job(2, 0, (0, 1000), 4), job(3, 0, (0, 1000), 4)],
        vec![vehicle(12, 100)],
        line_matrix(4, 1),
    );
    let fleet = Fleet::from_problem(&p);
    let given = from_routes(&p, &fleet, &vec![PlannedRoute { actor: 0, visits: vec![(2, 0)] }]).unwrap();
    assert_eq!(given.unassigned, vec![0, 1]);
    assert_eq!(given.routes[0].tour[0].arrival, 3);
    let init = vec![PlannedRoute { actor: 0, visits: vec![(2, 0)] }];
    let solver = Solver::start(p, config(Some(1)), Vec::new(), init, 0).unwrap().unwrap();
    let best = solver.best();
    assert!(best.solution.unassigned.is_empty());
    assert_eq!(best.solution.routes.len(), 1);
    assert_eq!(best.solution.routes[0].tour.len(), 3);
}

#[test]
fn invalid_initial_routes_are_refused() {
    let p = two_job_problem();
    let fleet = Fleet::from_problem(&p);
    let twice = vec![PlannedRoute { actor: 0, visits: vec![(0, 0), (0, 0)] }];
    assert!(from_routes(&p, &fleet, &twice).is_none());
    let unknown_actor = vec![PlannedRoute { actor: 1, visits: vec![(0, 0)] }];
    assert!(from_routes(&p, &fleet, &unknown_actor).is_none());
    let same_actor = vec![
        PlannedRoute { actor: 0, visits: vec![(0, 0)] },
        PlannedRoute { actor: 0, visits: vec![(1, 0)] },
    ];
    assert!(from_routes(&p, &fleet, &same_actor).is_none());
    assert_eq!(
        Solver::start(p, config(None), Vec::new(), twice, 0).err(),
        Some(SolveError::InvalidInitial)
    );
}

#[test]
fn swap_exchanges_two_visits() {
    let p = two_job_problem();
    let fleet = Fleet::from_problem(&p);
    let s = from_routes(&p, &fleet, &vec![PlannedRoute { actor: 0, visits: vec![(0, 0), (1, 0)] }]).unwrap();
    let m = swap_visits(&p, &fleet, &s, 0, 0, 0, 1).unwrap();
    assert_eq!(m.routes[0].tour[0].job, 1);
    assert_eq!(m.routes[0].tour[1].job, 0);
    assert_eq!(m.routes[0].tour[0].arrival, 2);
    assert_eq!(m.routes[0].tour[1].arrival, 3);
}

#[test]
fn swap_that_breaks_a_window_is_discarded() {
    let p = problem(
        vec![job(1, 0, (0, 1), 1), job(2, 0, (0, 1000), 1)],
        vec![vehicle(10, 0)],
        line_matrix(3, 1),
    );
    let fleet = Fleet::from_problem(&p);
    let s = from_routes(&p, &fleet, &vec![PlannedRoute { actor: 0, visits: vec![(0, 0), (1, 0)] }]).unwrap();
    assert!(swap_visits(&p, &fleet, &s, 0, 0, 0, 1).is_none());
}

#[test]
fn ruin_frees_the_jobs_of_a_route() {
    let p = two_job_problem();
    let fleet = Fleet::from_problem(&p);
    let s = from_routes(&p, &fleet, &vec![PlannedRoute { actor: 0, visits: vec![(1, 0), (0, 0)] }]).unwrap();
    let c = ruin_route(&p, &fleet, &s, 0);
    assert!(c.routes.is_empty());
    assert_eq!(c.unassigned, vec![1, 0]);
}

#[test]
fn crossover_keeps_a_route_and_drops_duplicates() {
    let p = problem(
        vec![job(1, 0, (0, 1000), 1), job(2, 0, (0, 1000), 1), job(3, 0, (0, 1000), 1)],
        vec![vehicle(10, 0), vehicle(10, 0)],
        line_matrix(4, 1),
    );
    let fleet = Fleet::from_problem(&p);
    let a = from_routes(&p, &fleet, &vec![PlannedRoute { actor: 0, visits: vec![(0, 0), (2, 0)] }]).unwrap();
    let b = from_routes(&p, &fleet, &vec![PlannedRoute { actor: 1, visits: vec![(0, 0), (1, 0)] }]).unwrap();
    let c = crossover(&p, &fleet, &a, &b, 0).unwrap();
    assert_eq!(c.routes.len(), 2);
    assert_eq!(c.routes[0].actor, 0);
    assert_eq!(c.routes[0].tour.len(), 2);
    assert_eq!(c.routes[1].actor, 1);
    assert_eq!(c.routes[1].tour.len(), 1);
    assert_eq!(c.routes[1].tour[0].job, 1);
    assert!(c.unassigned.is_empty());
}

#[test]
fn rejections_name_the_constraint() {
    let actor = Actor { vehicle: 0, driver: 0, detail: 0 };
    let heavy = problem(vec![job(1, 0, (0, 1000), 11)], vec![vehicle(10, 0)], line_matrix(2, 1));
    assert_eq!(schedule_plan(&heavy, actor, &vec![(0, 0)]), Err(Rejection::Capacity));
    let mut late = problem(vec![job(1, 0, (0, 1000), 1)], vec![vehicle(10, 0)], line_matrix(2, 5));
    late.vehicles[0].details[0].end_time = 9;
    assert_eq!(schedule_plan(&late, actor, &vec![(0, 0)]), Err(Rejection::ShiftEnd));
    late.vehicles[0].details[0].end_time = 10;
    assert!(schedule_plan(&late, actor, &vec![(0, 0)]).is_ok());
}

#[test]
fn population_ranks_newcomers_and_trims_the_worst() {
    let p = two_job_problem();
    let fleet = Fleet::from_problem(&p);
    let full = construct(&p, &fleet, Solution::empty(&p));
    let empty = Solution::empty(&p);
    let worse = Individual { fitness: fitness_of(&p, &fleet, &empty), solution: empty };
    let better = Individual { fitness: fitness_of(&p, &fleet, &full), solution: full };
    // Without route minimisation the empty solution costs 0 and ranks first.
    let mut pop = Population::new(better.clone(), 2, false);
    pop.add(worse.clone(), &p, &fleet);
    assert_eq!(pop.members.len(), 2);
    assert_eq!(pop.members[0].fitness, Fitness { routes: 0, cost: 0 });
    assert_eq!(pop.members[1].fitness, Fitness { routes: 1, cost: 104 });
    pop.add(better.clone(), &p, &fleet);
    assert_eq!(pop.members.len(), 2);
    assert_eq!(pop.members[1].fitness, Fitness { routes: 1, cost: 104 });
}
