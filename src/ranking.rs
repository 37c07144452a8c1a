use vstd::prelude::*;
use crate::evaluator::tour_cost_of;
use crate::model::Problem;
use crate::solution::{route_actor, routes_feasible, solution_valid, Fleet, Solution};
use crate::tour::{saturate, tour_cost};

verus! {

/// The objective vector of a solution: how many routes it uses and what they cost.
#[derive(Clone, Copy, Debug, PartialEq, Eq, Structural)]
pub struct Fitness {
    pub routes: usize,
    pub cost: u64,
}

/// Strict ranking: with route minimisation, fewer routes win and cost breaks ties;
/// otherwise cost alone decides.
pub open spec fn fitness_less(a: Fitness, b: Fitness, minimize_routes: bool) -> bool {
    if minimize_routes {
        a.routes < b.routes || (a.routes == b.routes && a.cost < b.cost)
    } else {
        a.cost < b.cost
    }
}

/// `a` ranks strictly better than `b`.
pub fn is_better(a: &Fitness, b: &Fitness, minimize_routes: bool) -> (r: bool)
    ensures
        r == fitness_less(*a, *b, minimize_routes),
{
    if minimize_routes {
        a.routes < b.routes || (a.routes == b.routes && a.cost < b.cost)
    } else {
        a.cost < b.cost
    }
}

/// With route minimisation, a solution with fewer routes ranks strictly better whatever
/// the two costs are.
pub proof fn lemma_fewer_routes_win(a: Fitness, b: Fitness)
    requires
        a.routes < b.routes,
    ensures
        fitness_less(a, b, true),
        !fitness_less(b, a, true),
{
}

/// Ranking is a strict weak order: irreflexive, and "not worse" is transitive.
pub proof fn lemma_ranking_order(a: Fitness, b: Fitness, c: Fitness, minimize_routes: bool)
    ensures
        !fitness_less(a, a, minimize_routes),
        fitness_less(a, b, minimize_routes) ==> !fitness_less(b, a, minimize_routes),
        !fitness_less(b, a, minimize_routes) && !fitness_less(c, b, minimize_routes)
            ==> !fitness_less(c, a, minimize_routes),
{
}

/// Total cost of the first `n` routes, saturated at `u64::MAX`.
pub open spec fn routes_cost(p: &Problem, fleet: &Fleet, s: &Solution, n: nat) -> int
    decreases n,
{
    if n == 0 || n > s.routes@.len() {
        0
    } else {
        saturate(
            routes_cost(p, fleet, s, (n - 1) as nat) + tour_cost(
                p,
                route_actor(fleet, s, n - 1),
                s.routes@[n - 1].tour@,
            ),
        )
    }
}

pub open spec fn fitness_spec(p: &Problem, fleet: &Fleet, s: &Solution) -> Fitness {
    Fitness { routes: s.routes@.len() as usize, cost: routes_cost(p, fleet, s, s.routes@.len()) as u64 }
}

/// Route count and total cost of a valid solution.
pub fn fitness_of(p: &Problem, fleet: &Fleet, s: &Solution) -> (r: Fitness)
    requires
        p.wf(),
        fleet.wf(p),
        solution_valid(p, fleet, s),
    ensures
        r == fitness_spec(p, fleet, s),
{
    let mut cost: u64 = 0;
    let mut i: usize = 0;
    while i < s.routes.len()
        invariant
            p.wf(),
            fleet.wf(p),
            solution_valid(p, fleet, s),
            i <= s.routes@.len(),
            cost == routes_cost(p, fleet, s, i as nat),
        decreases s.routes@.len() - i,
    {
        assert(routes_feasible(p, fleet, s));
        assert(s.routes@[i as int].actor < fleet.actors@.len());
        let actor = fleet.actors[s.routes[i].actor];
        let c = tour_cost_of(p, actor, &s.routes[i].tour);
        cost = cost.saturating_add(c);
        i = i + 1;
    }
    Fitness { routes: s.routes.len(), cost }
}

} // verus!
