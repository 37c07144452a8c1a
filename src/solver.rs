use vstd::prelude::*;
use crate::construction::{
    keeps_routes, actor_used, cannot_insert, cannot_insert_at, cannot_place, construct, no_insertion,
};
use crate::tour::Activity;
use crate::model::{Actor, Problem, ProblemError};
use crate::operators::{crossover, follows_crossover, ruin_route, ruined, swap_visits};
use crate::population::{individual_ok, Individual, Population};
use crate::ranking::{fitness_less, fitness_of, fitness_spec, lemma_ranking_order};
use crate::solution::{all_actors, in_tours, jobs_assigned_once, solution_valid, Fleet, Solution};
use crate::termination::{all_rules_met, rule_ok, rules_hold, VariationRule, VARIATION_SAMPLE_LIMIT};
use crate::initial::{follows_routes, from_routes, PlannedRoute};
use crate::validate::validate_problem;

verus! {

/// Search settings. Times are in milliseconds.
#[derive(Clone, Copy, Debug, PartialEq, Eq, Structural)]
pub struct Config {
    pub minimize_routes: bool,
    pub max_generations: Option<usize>,
    pub max_time_ms: Option<u64>,
    pub population_size: usize,
}

#[derive(Clone, Copy, Debug, PartialEq, Eq, Structural)]
pub enum ConfigError {
    ZeroGenerations,
    ZeroTime,
    ZeroPopulation,
    BadVariationRule,
}

#[derive(Clone, Copy, Debug, PartialEq, Eq, Structural)]
pub enum SolveError {
    Problem(ProblemError),
    Config(ConfigError),
    /// The initial routes do not form a valid solution.
    InvalidInitial,
}

pub open spec fn config_ok(c: Config) -> bool {
    &&& !(c.max_generations == Some(0usize))
    &&& !(c.max_time_ms == Some(0u64))
    &&& c.population_size > 0
}

/// Refuses a limit of zero generations, zero time, or an empty population.
pub fn validate_config(c: &Config) -> (r: Result<(), ConfigError>)
    ensures
        r is Ok <==> config_ok(*c),
        r == Err::<(), ConfigError>(ConfigError::ZeroGenerations) <==> c.max_generations == Some(
            0usize,
        ),
        r == Err::<(), ConfigError>(ConfigError::ZeroTime) <==> c.max_generations != Some(0usize)
            && c.max_time_ms == Some(0u64),
        r == Err::<(), ConfigError>(ConfigError::ZeroPopulation) <==> c.max_generations != Some(
            0usize,
        ) && c.max_time_ms != Some(0u64) && c.population_size == 0,
{
    match c.max_generations {
        Some(n) => {
            if n == 0 {
                return Err(ConfigError::ZeroGenerations);
            }
        },
        None => {},
    }
    match c.max_time_ms {
        Some(t) => {
            if t == 0 {
                return Err(ConfigError::ZeroTime);
            }
        },
        None => {},
    }
    if c.population_size == 0 {
        return Err(ConfigError::ZeroPopulation);
    }
    Ok(())
}

pub open spec fn rules_ok(rules: Seq<VariationRule>) -> bool {
    forall|k: int| 0 <= k < rules.len() ==> rule_ok(#[trigger] rules[k])
}

/// Refuses a variation rule with a window under two generations or over the limit, or a
/// threshold of zero or over one.
pub fn validate_rules(rules: &Vec<VariationRule>) -> (r: Result<(), ConfigError>)
    ensures
        r is Ok <==> rules_ok(rules@),
        r is Err ==> r == Err::<(), ConfigError>(ConfigError::BadVariationRule),
{
    let mut k: usize = 0;
    while k < rules.len()
        invariant
            k <= rules@.len(),
            forall|x: int| 0 <= x < k ==> rule_ok(#[trigger] rules@[x]),
        decreases rules@.len() - k,
    {
        let r = rules[k];
        if r.sample < 2 || r.sample > VARIATION_SAMPLE_LIMIT || r.threshold_per_mille == 0 || r.threshold_per_mille
            > 1000 {
            return Err(ConfigError::BadVariationRule);
        }
        k = k + 1;
    }
    Ok(())
}

/// The search stops once the generation limit is reached or the time is up.
pub open spec fn stop_due(c: Config, generation: int, elapsed_ms: int) -> bool {
    ||| (c.max_generations matches Some(n) && generation >= n)
    ||| (c.max_time_ms matches Some(t) && elapsed_ms >= t)
}

pub fn should_stop(c: &Config, generation: usize, elapsed_ms: u64) -> (r: bool)
    ensures
        r == stop_due(*c, generation as int, elapsed_ms as int),
{
    let by_generations = match c.max_generations {
        Some(n) => generation >= n,
        None => false,
    };
    let by_time = match c.max_time_ms {
        Some(t) => elapsed_ms >= t,
        None => false,
    };
    by_generations || by_time
}

/// Next state of the generator that drives parent selection and ruin.
pub fn next_random(state: u64) -> (r: u64)
    ensures
        r == state.wrapping_mul(6364136223846793005u64).wrapping_add(1442695040888963407u64),
{
    state.wrapping_mul(6364136223846793005u64).wrapping_add(1442695040888963407u64)
}

/// No actor can serve the job alone, at any of its places.
pub open spec fn job_unservable(p: &Problem, j: usize) -> bool {
    forall|a: Actor, pl: usize|
        p.actor_valid(a) && pl < p.jobs@[j as int].places@.len() ==> #[trigger] cannot_insert_at(
            p,
            a,
            Seq::<Activity>::empty(),
            j,
            pl,
        )
}

/// The generator's next state, as `next_random` computes it.
pub open spec fn draw(state: u64) -> u64 {
    state.wrapping_mul(6364136223846793005u64).wrapping_add(1442695040888963407u64)
}

/// The rank that a tournament of two picks among `n` members, as `Population::select` does.
pub open spec fn pick(n: nat, d1: u64, d2: u64) -> int {
    let a = d1 % (n as u64);
    let b = d2 % (n as u64);
    if a <= b {
        a as int
    } else {
        b as int
    }
}

/// What construction makes of `start`: a valid solution, with nothing left to insert,
/// that keeps the routes of `start`.
pub open spec fn completes(p: &Problem, fleet: &Fleet, start: &Solution, result: &Solution) -> bool {
    &&& solution_valid(p, fleet, result)
    &&& no_insertion(p, fleet, result)
    &&& keeps_routes(start, result)
}

/// `child` is `parent` with route `r` ruined, then completed by construction.
pub open spec fn recreated(p: &Problem, fleet: &Fleet, parent: &Solution, r: int, child: &Solution) -> bool {
    exists|x: Solution| #[trigger] ruined(parent, &x, r) && completes(p, fleet, &x, child)
}

/// `child` is a crossover of route `r` of `a` with `b`, completed by construction.
pub open spec fn crossed(
    p: &Problem,
    fleet: &Fleet,
    a: &Solution,
    b: &Solution,
    r: int,
    child: &Solution,
) -> bool {
    exists|x: Solution|
        #[trigger] follows_crossover(&x, a, b, r) && solution_valid(p, fleet, &x) && completes(
            p,
            fleet,
            &x,
            child,
        )
}

/// The recreated child of route `r` of `parent`, and the crossover child of `parent` and
/// `other` when one exists, rank no better than `best`.
pub open spec fn offspring_ranked(
    p: &Problem,
    fleet: &Fleet,
    parent: &Solution,
    other: &Solution,
    r: int,
    mr: bool,
    best: crate::ranking::Fitness,
) -> bool {
    &&& exists|child: Solution|
        #[trigger] recreated(p, fleet, parent, r, &child) && !fitness_less(
            fitness_spec(p, fleet, &child),
            best,
            mr,
        )
    &&& (exists|x: Solution|
        #[trigger] follows_crossover(&x, parent, other, r) && solution_valid(p, fleet, &x))
        ==> exists|child: Solution|
        #[trigger] crossed(p, fleet, parent, other, r, &child) && !fitness_less(
            fitness_spec(p, fleet, &child),
            best,
            mr,
        )
}

/// The whole search state between two generations.
pub struct Solver {
    pub problem: Problem,
    pub fleet: Fleet,
    pub config: Config,
    pub population: Population,
    pub generation: usize,
    pub rng: u64,
    pub rules: Vec<VariationRule>,
    /// Best cost after construction and after each generation.
    pub history: Vec<u64>,
}

impl Solver {
    pub open spec fn wf(&self) -> bool {
        &&& self.problem.wf()
        &&& self.fleet.wf(&self.problem)
        &&& config_ok(self.config)
        &&& self.population.wf(&self.problem, &self.fleet)
        &&& self.population.minimize_routes == self.config.minimize_routes
        &&& self.population.bound == self.config.population_size
        &&& (self.config.max_generations matches Some(n) ==> self.generation <= n)
        &&& rules_ok(self.rules@)
    }

    /// The search is over: a limit is reached, or every variation rule finds it stagnant.
    pub open spec fn over(&self, elapsed_ms: int) -> bool {
        stop_due(self.config, self.generation as int, elapsed_ms) || all_rules_met(
            self.history@,
            self.rules@,
        )
    }

    /// Validates the problem and the settings, builds the fleet and the first solution:
    /// the initial routes, if any are given, completed by construction. No solver comes
    /// back when jobs exist and none of them could be assigned.
    pub fn start(
        problem: Problem,
        config: Config,
        rules: Vec<VariationRule>,
        initial: Vec<PlannedRoute>,
        seed: u64,
    ) -> (r: Result<Option<Solver>, SolveError>)
        ensures
            r == Err::<Option<Solver>, SolveError>(SolveError::Problem(ProblemError::DimensionMismatch))
                <==> !problem.dims_ok(),
            r == Err::<Option<Solver>, SolveError>(SolveError::Problem(ProblemError::UnknownLocation))
                <==> problem.dims_ok() && !problem.locations_ok(),
            r == Err::<Option<Solver>, SolveError>(SolveError::Problem(ProblemError::ValueTooLarge))
                <==> problem.dims_ok() && problem.locations_ok() && !problem.values_ok(),
            r matches Err(SolveError::Config(e)) <==> problem.wf() && !(config_ok(config)
                && rules_ok(rules@)),
            r matches Ok(Some(s)) ==> {
                &&& s.wf()
                &&& s.generation == 0
                &&& s.problem == problem
                &&& s.config == config
                &&& s.rules@ == rules@
                &&& s.history@ == seq![s.population.members@[0].fitness.cost]
                &&& s.population.members@.len() == 1
                &&& s.fleet.actors@ == all_actors(&problem)
                &&& no_insertion(&s.problem, &s.fleet, &s.population.members@[0].solution)
                &&& initial@.len() > 0 ==> exists|given: Solution|
                    follows_routes(&given, initial@) && solution_valid(&problem, &s.fleet, &given)
                        && #[trigger] keeps_routes(&given, &s.population.members@[0].solution)
            },
            r is Ok ==> problem.wf() && config_ok(config) && rules_ok(rules@),
            r == Err::<Option<Solver>, SolveError>(SolveError::InvalidInitial) <==> problem.wf()
                && config_ok(config) && rules_ok(rules@) && initial@.len() > 0 && forall|
                f: Fleet,
                c: Solution,
            |
                f.actors@ == all_actors(&problem) && follows_routes(&c, initial@)
                    ==> !#[trigger] solution_valid(&problem, &f, &c),
            r matches Ok(None) <==> problem.wf() && config_ok(config) && rules_ok(rules@)
                && initial@.len() == 0 && problem.jobs@.len() > 0 && forall|j: usize|
                j < problem.jobs@.len() ==> job_unservable(&problem, j),
    {
        match validate_problem(&problem) {
            Err(e) => {
                return Err(SolveError::Problem(e));
            },
            Ok(()) => {},
        }
        match validate_config(&config) {
            Err(e) => {
                return Err(SolveError::Config(e));
            },
            Ok(()) => {},
        }
        match validate_rules(&rules) {
            Err(e) => {
                return Err(SolveError::Config(e));
            },
            Ok(()) => {},
        }
        let fleet = Fleet::from_problem(&problem);
        let first = if initial.len() == 0 {
            Solution::empty(&problem)
        } else {
            match from_routes(&problem, &fleet, &initial) {
                Some(given) => given,
                None => {
                    proof {
                        assert forall|f: Fleet, c: Solution|
                            f.actors@ == all_actors(&problem) && follows_routes(&c, initial@)
                                implies !#[trigger] solution_valid(&problem, &f, &c) by {
                            assert(f.actors@ == fleet.actors@);
                            assert(!solution_valid(&problem, &fleet, &c));
                        }
                    }
                    return Err(SolveError::InvalidInitial);
                },
            }
        };
        proof {
            if initial@.len() > 0 {
                assert(follows_routes(&first, initial@));
            }
            if initial@.len() == 0 && (forall|j: usize|
                j < problem.jobs@.len() ==> job_unservable(&problem, j)) {
                assert forall|k: int| 0 <= k < first.unassigned@.len() implies cannot_insert(
                    &problem,
                    &fleet,
                    &first,
                    #[trigger] first.unassigned@[k],
                ) by {
                    let j = first.unassigned@[k];
                    assert(j < problem.jobs@.len());
                    assert forall|pl: usize| pl < problem.jobs@[j as int].places@.len() implies #[trigger] cannot_place(
                        &problem,
                        &fleet,
                        &first,
                        j,
                        pl,
                    ) by {
                        assert forall|x: usize|
                            x < fleet.actors@.len() && !actor_used(&first, x) implies #[trigger] cannot_insert_at(
                            &problem,
                            fleet.actors@[x as int],
                            Seq::empty(),
                            j,
                            pl,
                        ) by {
                            assert(problem.actor_valid(fleet.actors@[x as int]));
                            assert(job_unservable(&problem, j));
                        }
                    }
                }
                assert(no_insertion(&problem, &fleet, &first));
            }
        }
        let ghost first_g = first;
        let s = construct(&problem, &fleet, first);
        if s.routes.len() == 0 && s.unassigned.len() > 0 {
            assert(initial@.len() == 0) by {
                if initial@.len() > 0 {
                    assert(keeps_routes(&first_g, &s));
                }
            }
            assert(problem.jobs@.len() > 0) by {
                let j = s.unassigned@[0];
                assert(j < problem.jobs@.len());
            }
            assert forall|j: usize| j < problem.jobs@.len() implies job_unservable(&problem, j) by {
                assert(!in_tours(&s, j));
                assert(jobs_assigned_once(&problem, &s));
                assert(s.unassigned@.contains(j));
                let k = choose|k: int| 0 <= k < s.unassigned@.len() && s.unassigned@[k] == j;
                assert(cannot_insert(&problem, &fleet, &s, s.unassigned@[k]));
                assert forall|a: Actor, pl: usize|
                    problem.actor_valid(a) && pl < problem.jobs@[j as int].places@.len()
                        implies #[trigger] cannot_insert_at(
                        &problem,
                        a,
                        Seq::<Activity>::empty(),
                        j,
                        pl,
                    ) by {
                    assert(fleet.actors@.contains(a));
                    let x = choose|x: int| 0 <= x < fleet.actors@.len() && fleet.actors@[x] == a;
                    assert(fleet.actors@.len() == fleet.actors.len());
                    let xu = x as usize;
                    assert(fleet.actors@[xu as int] == a);
                    assert(cannot_place(&problem, &fleet, &s, j, pl));
                    assert(!actor_used(&s, xu));
                    assert(cannot_insert_at(&problem, fleet.actors@[xu as int], Seq::empty(), j, pl));
                }
            }
            return Ok(None);
        }
        proof {
            if initial@.len() == 0 && problem.jobs@.len() > 0 && (forall|j: usize|
                j < problem.jobs@.len() ==> job_unservable(&problem, j)) {
                assert(s == first_g);
                assert(first_g.unassigned@[0] == 0usize);
            }
            if initial@.len() > 0 {
                assert(keeps_routes(&first_g, &s));
            }
        }
        let ghost s_g = s;
        let fitness = fitness_of(&problem, &fleet, &s);
        let mut history: Vec<u64> = Vec::new();
        history.push(fitness.cost);
        let first = Individual { solution: s, fitness };
        let population = Population::new(first, config.population_size, config.minimize_routes);
        proof {
            assert(population.members@[0].solution == s_g);
            if initial@.len() > 0 {
                assert(keeps_routes(&first_g, &population.members@[0].solution));
                assert(follows_routes(&first_g, initial@));
                assert(solution_valid(&problem, &fleet, &first_g));
                assert(fleet.actors@ == all_actors(&problem));
                assert(!(forall|f: Fleet, c: Solution|
                    f.actors@ == all_actors(&problem) && follows_routes(&c, initial@)
                        ==> !#[trigger] solution_valid(&problem, &f, &c)));
            }
            if initial@.len() == 0 && problem.jobs@.len() > 0 {
                assert(!(forall|j: usize|
                    j < problem.jobs@.len() ==> job_unservable(&problem, j)));
            }
        }
        Ok(Some(Solver { problem, fleet, config, population, generation: 0, rng: seed, rules, history }))
    }

    /// One generation, unless the search is over: picks a parent by tournament, removes
    /// one of its routes and reinserts the freed jobs by construction; tries an exchange
    /// of two visits on that child, and a crossover of the parent with a second one; ranks
    /// every valid offspring in. Returns whether a generation was run.
    pub fn step(&mut self, elapsed_ms: u64) -> (ran: bool)
        requires
            old(self).wf(),
        ensures
            final(self).wf(),
            ran == !old(self).over(elapsed_ms as int),
            ran ==> final(self).generation == (if old(self).generation < usize::MAX {
                old(self).generation + 1
            } else {
                old(self).generation as int
            }),
            !ran ==> final(self).generation == old(self).generation,
            final(self).problem == old(self).problem,
            final(self).config == old(self).config,
            final(self).rules@ == old(self).rules@,
            ran ==> final(self).history@ == old(self).history@.push(
                final(self).population.best_fitness().cost,
            ),
            !ran ==> final(self).history@ == old(self).history@,
            !fitness_less(
                old(self).population.best_fitness(),
                final(self).population.best_fitness(),
                old(self).config.minimize_routes,
            ),
            ran ==> {
                let d3 = draw(draw(draw(old(self).rng)));
                let members = old(self).population.members@;
                let idx = pick(members.len(), draw(old(self).rng), draw(draw(old(self).rng)));
                let parent = members[idx].solution;
                let r = (d3 % (parent.routes@.len() as u64)) as int;
                let d7 = draw(draw(draw(draw(d3))));
                let idx2 = pick(members.len(), draw(draw(draw(d3))), d7);
                if parent.routes@.len() > 0 {
                    &&& final(self).rng == d7
                    &&& offspring_ranked(
                        &old(self).problem,
                        &old(self).fleet,
                        &parent,
                        &members[idx2].solution,
                        r,
                        old(self).config.minimize_routes,
                        final(self).population.best_fitness(),
                    )
                } else {
                    final(self).rng == d3
                }
            },
    {
        if should_stop(&self.config, self.generation, elapsed_ms) || rules_hold(
            &self.history,
            &self.rules,
        ) {
            return false;
        }
        let d1 = next_random(self.rng);
        let d2 = next_random(d1);
        let d3 = next_random(d2);
        self.rng = d3;
        let idx = self.population.select(d1, d2);
        let parent = &self.population.members[idx].solution;
        assert(individual_ok(&self.problem, &self.fleet, &self.population.members@[idx as int]));
        if parent.routes.len() > 0 {
            let r = (d3 % (parent.routes.len() as u64)) as usize;
            let d4 = next_random(d3);
            let d5 = next_random(d4);
            let d6 = next_random(d5);
            let d7 = next_random(d6);
            let idx2 = self.population.select(d6, d7);
            self.breed(idx, idx2, r, d4, d5);
            self.rng = d7;
        }
        let best_cost = self.population.members[0].fitness.cost;
        self.history.push(best_cost);
        if self.generation < usize::MAX {
            self.generation = self.generation + 1;
        }
        true
    }

    /// The offspring of one generation: the parent at rank `idx` with route `r` ruined and
    /// rebuilt, a mutant of that child (drawn by `d4` and `d5`), and a crossover with the
    /// parent at rank `idx2`; each valid one is ranked in.
    #[verifier::rlimit(100)]
    #[verifier::spinoff_prover]
    fn breed(&mut self, idx: usize, idx2: usize, r: usize, d4: u64, d5: u64)
        requires
            old(self).wf(),
            idx < old(self).population.members@.len(),
            idx2 < old(self).population.members@.len(),
            r < old(self).population.members@[idx as int].solution.routes@.len(),
        ensures
            final(self).wf(),
            final(self).problem == old(self).problem,
            final(self).fleet == old(self).fleet,
            final(self).config == old(self).config,
            final(self).rules == old(self).rules,
            final(self).history == old(self).history,
            final(self).generation == old(self).generation,
            final(self).rng == old(self).rng,
            !fitness_less(
                old(self).population.best_fitness(),
                final(self).population.best_fitness(),
                old(self).config.minimize_routes,
            ),
            offspring_ranked(
                &old(self).problem,
                &old(self).fleet,
                &old(self).population.members@[idx as int].solution,
                &old(self).population.members@[idx2 as int].solution,
                r as int,
                old(self).config.minimize_routes,
                final(self).population.best_fitness(),
            ),
    {
        let child = self.recreate(idx, r);
        let ghost child_g = child;
        let mutant = self.mutate(&child, d4, d5);
        let offspring = self.cross(idx, idx2, r);
        let ghost offspring_g = offspring;
        let ghost p = self.problem;
        let ghost fleet = self.fleet;
        let ghost mr = self.config.minimize_routes;
        let ghost parent_g = self.population.members@[idx as int].solution;
        let ghost other_g = self.population.members@[idx2 as int].solution;
        let ghost b0 = self.population.best_fitness();
        self.offer(child);
        let ghost b1 = self.population.best_fitness();
        match mutant {
            Some(m) => {
                self.offer(m);
            },
            None => {},
        }
        let ghost b2 = self.population.best_fitness();
        match offspring {
            Some(o) => {
                self.offer(o);
            },
            None => {},
        }
        proof {
            let b3 = self.population.best_fitness();
            lemma_ranking_order(b0, b1, b2, mr);
            lemma_ranking_order(b0, b2, b3, mr);
            let fc = fitness_spec(&p, &fleet, &child_g);
            lemma_ranking_order(b2, b1, fc, mr);
            lemma_ranking_order(b3, b2, fc, mr);
            assert(recreated(&p, &fleet, &parent_g, r as int, &child_g));
            assert(!fitness_less(fc, b3, mr));
            if offspring_g is Some {
                let o = offspring_g->Some_0;
                assert(crossed(&p, &fleet, &parent_g, &other_g, r as int, &o));
                assert(!fitness_less(fitness_spec(&p, &fleet, &o), b3, mr));
            }
        }
    }

    /// The parent at rank `idx` with route `r` ruined, then completed by construction.
    fn recreate(&self, idx: usize, r: usize) -> (c: Solution)
        requires
            self.wf(),
            idx < self.population.members@.len(),
            r < self.population.members@[idx as int].solution.routes@.len(),
        ensures
            solution_valid(&self.problem, &self.fleet, &c),
            recreated(&self.problem, &self.fleet, &self.population.members@[idx as int].solution, r as int, &c),
    {
        let parent = &self.population.members[idx].solution;
        assert(individual_ok(&self.problem, &self.fleet, &self.population.members@[idx as int]));
        let ruined_parent = ruin_route(&self.problem, &self.fleet, parent, r);
        let ghost x_g = ruined_parent;
        let child = construct(&self.problem, &self.fleet, ruined_parent);
        assert(ruined(parent, &x_g, r as int));
        child
    }

    /// The crossover of route `r` of the parent at rank `idx` with the parent at rank
    /// `idx2`, completed by construction; nothing when no valid child has those routes.
    fn cross(&self, idx: usize, idx2: usize, r: usize) -> (c: Option<Solution>)
        requires
            self.wf(),
            idx < self.population.members@.len(),
            idx2 < self.population.members@.len(),
            r < self.population.members@[idx as int].solution.routes@.len(),
        ensures
            ({
                let a = self.population.members@[idx as int].solution;
                let b = self.population.members@[idx2 as int].solution;
                &&& c matches Some(o) ==> solution_valid(&self.problem, &self.fleet, &o) && crossed(
                    &self.problem,
                    &self.fleet,
                    &a,
                    &b,
                    r as int,
                    &o,
                )
                &&& c is None ==> forall|x: Solution|
                    #[trigger] follows_crossover(&x, &a, &b, r as int) ==> !solution_valid(
                        &self.problem,
                        &self.fleet,
                        &x,
                    )
            }),
    {
        let parent = &self.population.members[idx].solution;
        let other = &self.population.members[idx2].solution;
        match crossover(&self.problem, &self.fleet, parent, other, r) {
            Some(x) => {
                let ghost x_g = x;
                let o = construct(&self.problem, &self.fleet, x);
                assert(follows_crossover(&x_g, parent, other, r as int));
                Some(o)
            },
            None => None,
        }
    }

    /// Ranks a valid solution into the population.
    fn offer(&mut self, s: Solution)
        requires
            old(self).wf(),
            solution_valid(&old(self).problem, &old(self).fleet, &s),
        ensures
            final(self).wf(),
            final(self).problem == old(self).problem,
            final(self).fleet == old(self).fleet,
            final(self).config == old(self).config,
            final(self).rules == old(self).rules,
            final(self).history == old(self).history,
            final(self).generation == old(self).generation,
            final(self).rng == old(self).rng,
            !fitness_less(
                old(self).population.best_fitness(),
                final(self).population.best_fitness(),
                old(self).config.minimize_routes,
            ),
            !fitness_less(
                fitness_spec(&old(self).problem, &old(self).fleet, &s),
                final(self).population.best_fitness(),
                old(self).config.minimize_routes,
            ),
    {
        let fitness = fitness_of(&self.problem, &self.fleet, &s);
        self.population.add(Individual { solution: s, fitness }, &self.problem, &self.fleet);
    }

    /// Exchanges two visits of a solution, chosen by two draws, and completes the result
    /// by construction; nothing when the exchange breaks a route.
    fn mutate(&self, s: &Solution, draw1: u64, draw2: u64) -> (r: Option<Solution>)
        requires
            self.wf(),
            solution_valid(&self.problem, &self.fleet, s),
        ensures
            r matches Some(m) ==> solution_valid(&self.problem, &self.fleet, &m),
    {
        let n = s.routes.len();
        if n == 0 {
            return None;
        }
        let r1 = (draw1 % (n as u64)) as usize;
        let r2 = (draw2 % (n as u64)) as usize;
        let len1 = s.routes[r1].tour.len();
        let len2 = s.routes[r2].tour.len();
        if len1 == 0 || len2 == 0 {
            return None;
        }
        let i1 = ((draw1 / 7) % (len1 as u64)) as usize;
        let i2 = ((draw2 / 7) % (len2 as u64)) as usize;
        match swap_visits(&self.problem, &self.fleet, s, r1, i1, r2, i2) {
            Some(m) => Some(construct(&self.problem, &self.fleet, m)),
            None => None,
        }
    }

    /// The best solution found so far.
    pub fn best(&self) -> (r: &Individual)
        requires
            self.wf(),
        ensures
            *r == self.population.members@[0],
            solution_valid(&self.problem, &self.fleet, &r.solution),
    {
        assert(individual_ok(&self.problem, &self.fleet, &self.population.members@[0]));
        self.population.best()
    }
}

/// Every solution that a well-formed solver holds, at any generation boundary, keeps all
/// invariants: feasible tours, one route per actor, each job served once or unassigned.
pub proof fn lemma_held_solutions_valid(s: &Solver, i: int)
    requires
        s.wf(),
        0 <= i < s.population.members@.len(),
    ensures
        solution_valid(&s.problem, &s.fleet, &s.population.members@[i].solution),
{
    assert(individual_ok(&s.problem, &s.fleet, &s.population.members@[i]));
}

/// With a generation limit of `n`, a well-formed solver has run at most `n` generations,
/// and at `n` it runs no more.
pub proof fn lemma_generation_limit(s: &Solver, elapsed_ms: int)
    requires
        s.wf(),
        s.config.max_generations is Some,
    ensures
        s.generation <= s.config.max_generations->Some_0,
        s.generation == s.config.max_generations->Some_0 ==> s.over(elapsed_ms),
{
}

} // verus!
