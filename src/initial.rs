use vstd::prelude::*;
use crate::evaluator::{plan_valid, schedule_plan};
use crate::model::Problem;
use crate::solution::{
    actors_distinct, in_tours, jobs_assigned_once, route_actor, routes_feasible, solution_valid,
    tour_job, Fleet, Solution,
};
use crate::tour::{activity_scheduled, follows_plan, tour_feasible, Route};

verus! {

/// A route of a solution given from outside: the actor's index in the fleet and the
/// (job, place) visits in order.
#[derive(Clone, Debug)]
pub struct PlannedRoute {
    pub actor: usize,
    pub visits: Vec<(usize, usize)>,
}

/// The solution's routes are the planned ones, in order.
pub open spec fn follows_routes(s: &Solution, plans: Seq<PlannedRoute>) -> bool {
    &&& s.routes@.len() == plans.len()
    &&& forall|y: int|
        0 <= y < plans.len() ==> (#[trigger] s.routes@[y]).actor == plans[y].actor
            && follows_plan(s.routes@[y].tour@, plans[y].visits@)
}

/// Builds a solution from planned routes, scheduling each one; the jobs that no route
/// visits are unassigned, in declaration order. Fails when no valid solution has these
/// routes: an actor outside the fleet or used twice, a job or place that does not exist
/// or is visited twice, or a route that cannot be scheduled.
pub fn from_routes(p: &Problem, fleet: &Fleet, plans: &Vec<PlannedRoute>) -> (r: Option<Solution>)
    requires
        p.wf(),
        fleet.wf(p),
    ensures
        r matches Some(s) ==> solution_valid(p, fleet, &s) && follows_routes(&s, plans@),
        r is None ==> forall|s: Solution|
            follows_routes(&s, plans@) ==> !solution_valid(p, fleet, &s),
{
    let n = p.jobs.len();
    let mut job_seen: Vec<bool> = Vec::new();
    let mut j: usize = 0;
    while j < n
        invariant
            n == p.jobs@.len(),
            j <= n,
            job_seen@.len() == j,
            forall|x: int| 0 <= x < j ==> !job_seen@[x],
        decreases n - j,
    {
        job_seen.push(false);
        j = j + 1;
    }
    let mut actor_seen: Vec<bool> = Vec::new();
    let mut x: usize = 0;
    while x < fleet.actors.len()
        invariant
            x <= fleet.actors@.len(),
            actor_seen@.len() == x,
            forall|k: int| 0 <= k < x ==> !actor_seen@[k],
        decreases fleet.actors@.len() - x,
    {
        actor_seen.push(false);
        x = x + 1;
    }
    let mut s = Solution { routes: Vec::new(), unassigned: Vec::new() };
    let mut y: usize = 0;
    while y < plans.len()
        invariant
            p.wf(),
            fleet.wf(p),
            n == p.jobs@.len(),
            y <= plans@.len(),
            job_seen@.len() == n,
            actor_seen@.len() == fleet.actors@.len(),
            s.unassigned@.len() == 0,
            s.routes@.len() == y,
            routes_feasible(p, fleet, &s),
            actors_distinct(&s),
            forall|k: int|
                0 <= k < y ==> (#[trigger] s.routes@[k]).actor == plans@[k].actor && follows_plan(
                    s.routes@[k].tour@,
                    plans@[k].visits@,
                ),
            forall|a: int|
                0 <= a < fleet.actors@.len() ==> (actor_seen@[a] <==> exists|k: int|
                    0 <= k < y && (#[trigger] s.routes@[k]).actor == a),
            forall|jj: int| 0 <= jj < n ==> (job_seen@[jj] <==> in_tours(&s, jj as usize)),
            forall|y1: int, i1: int, y2: int, i2: int|
                0 <= y1 < s.routes@.len() && 0 <= i1 < s.routes@[y1].tour@.len() && 0 <= y2
                    < s.routes@.len() && 0 <= i2 < s.routes@[y2].tour@.len() && (y1 != y2 || i1
                    != i2) ==> #[trigger] tour_job(&s, y1, i1) != #[trigger] tour_job(&s, y2, i2),
        decreases plans@.len() - y,
    {
        let plan = &plans[y];
        if plan.actor >= fleet.actors.len() {
            proof {
                assert forall|c: Solution| follows_routes(&c, plans@) implies !solution_valid(
                    p,
                    fleet,
                    &c,
                ) by {
                    assert(c.routes@[y as int].actor == plans@[y as int].actor);
                }
            }
            return None;
        }
        if actor_seen[plan.actor] {
            proof {
                let k = choose|k: int| 0 <= k < y && (#[trigger] s.routes@[k]).actor == plan.actor;
                assert forall|c: Solution| follows_routes(&c, plans@) implies !solution_valid(
                    p,
                    fleet,
                    &c,
                ) by {
                    assert(c.routes@[y as int].actor == plans@[y as int].actor);
                    assert(c.routes@[k].actor == plans@[k].actor);
                }
            }
            return None;
        }
        // Check and mark the jobs of this route.
        let mut i: usize = 0;
        while i < plan.visits.len()
            invariant
                p.wf(),
                n == p.jobs@.len(),
                job_seen@.len() == n,
                i <= plan.visits@.len(),
                plan == plans@[y as int],
                y < plans@.len(),
                s.routes@.len() == y,
                forall|k: int|
                    0 <= k < y ==> (#[trigger] s.routes@[k]).actor == plans@[k].actor
                        && follows_plan(s.routes@[k].tour@, plans@[k].visits@),
                forall|k: int|
                    0 <= k < i ==> (#[trigger] plan.visits@[k]).0 < n && plan.visits@[k].1
                        < p.jobs@[plan.visits@[k].0 as int].places@.len(),
                forall|jj: int|
                    0 <= jj < n ==> (job_seen@[jj] <==> (in_tours(&s, jj as usize) || exists|k: int|
                        0 <= k < i && (#[trigger] plan.visits@[k]).0 == jj)),
                forall|k1: int, k2: int|
                    0 <= k1 < i && 0 <= k2 < i && k1 != k2 ==> (#[trigger] plan.visits@[k1]).0
                        != (#[trigger] plan.visits@[k2]).0,
                forall|k: int| 0 <= k < i ==> !in_tours(&s, (#[trigger] plan.visits@[k]).0),
            decreases plan.visits@.len() - i,
        {
            let (job, place) = plan.visits[i];
            if job >= n || place >= p.jobs[job].places.len() || job_seen[job] {
                proof {
                    assert forall|c: Solution| follows_routes(&c, plans@) implies !solution_valid(
                        p,
                        fleet,
                        &c,
                    ) by {
                        assert(c.routes@[y as int].actor == plans@[y as int].actor);
                        let t = c.routes@[y as int].tour@;
                        assert(follows_plan(t, plan.visits@));
                        assert(t[i as int].job == job && t[i as int].place == place);
                        if solution_valid(p, fleet, &c) {
                            assert(routes_feasible(p, fleet, &c));
                            assert(c.routes@[y as int].actor < fleet.actors@.len());
                            assert(tour_feasible(p, route_actor(fleet, &c, y as int), t));
                            assert(activity_scheduled(p, route_actor(fleet, &c, y as int), t, i as int));
                            if job < n && place < p.jobs@[job as int].places@.len() {
                                if in_tours(&s, job) {
                                    let (y2, i2) = choose|y2: int, i2: int|
                                        0 <= y2 < s.routes@.len() && 0 <= i2
                                            < s.routes@[y2].tour@.len() && #[trigger] tour_job(
                                            &s,
                                            y2,
                                            i2,
                                        ) == job;
                                    assert(s.routes@[y2].actor == plans@[y2].actor);
                                    assert(follows_plan(s.routes@[y2].tour@, plans@[y2].visits@));
                                    assert(s.routes@[y2].tour@[i2].job == plans@[y2].visits@[i2].0);
                                    assert(c.routes@[y2].actor == plans@[y2].actor);
                                    assert(follows_plan(c.routes@[y2].tour@, plans@[y2].visits@));
                                    assert(tour_job(&c, y2, i2) == job);
                                    assert(tour_job(&c, y as int, i as int) == job);
                                } else {
                                    let k = choose|k: int|
                                        0 <= k < i && (#[trigger] plan.visits@[k]).0 == job;
                                    assert(tour_job(&c, y as int, k) == job);
                                    assert(tour_job(&c, y as int, i as int) == job);
                                }
                            }
                        }
                    }
                }
                return None;
            }
            job_seen.set(job, true);
            i = i + 1;
        }
        let actor = fleet.actors[plan.actor];
        assert(p.actor_valid(actor));
        assert(plan_valid(p, plan.visits@));
        match schedule_plan(p, actor, &plan.visits) {
            Err(_) => {
                proof {
                    assert forall|c: Solution| follows_routes(&c, plans@) implies !solution_valid(
                        p,
                        fleet,
                        &c,
                    ) by {
                        assert(c.routes@[y as int].actor == plans@[y as int].actor);
                        assert(follows_plan(c.routes@[y as int].tour@, plan.visits@));
                        if solution_valid(p, fleet, &c) {
                            assert(routes_feasible(p, fleet, &c));
                        }
                    }
                }
                return None;
            },
            Ok(t) => {
                let ghost before = s;
                let ghost seen_before = actor_seen@;
                assert(!seen_before[plan.actor as int]);
                actor_seen.set(plan.actor, true);
                s.routes.push(Route { actor: plan.actor, tour: t });
                proof {
                    assert forall|k: int| 0 <= k < y ==> s.routes@[k] == before.routes@[k] by {}
                    assert(routes_feasible(p, fleet, &s)) by {
                        assert forall|k: int| 0 <= k < s.routes@.len() implies (
                        #[trigger] s.routes@[k]).actor < fleet.actors@.len() && tour_feasible(
                            p,
                            route_actor(fleet, &s, k),
                            s.routes@[k].tour@,
                        ) by {
                            if k < y {
                                assert(s.routes@[k] == before.routes@[k]);
                                assert(routes_feasible(p, fleet, &before));
                            }
                        }
                    }
                    assert forall|a: int|
                        0 <= a < fleet.actors@.len() implies (actor_seen@[a] <==> exists|k: int|
                            0 <= k < y + 1 && (#[trigger] s.routes@[k]).actor == a) by {
                        if a != plan.actor {
                            if actor_seen@[a] {
                                let k = choose|k: int|
                                    0 <= k < y && (#[trigger] before.routes@[k]).actor == a;
                                assert(s.routes@[k] == before.routes@[k]);
                            }
                            if exists|k: int| 0 <= k < y + 1 && (#[trigger] s.routes@[k]).actor == a {
                                let k = choose|k: int|
                                    0 <= k < y + 1 && (#[trigger] s.routes@[k]).actor == a;
                                assert(k < y);
                                assert(before.routes@[k].actor == a);
                            }
                        } else {
                            assert(s.routes@[y as int].actor == a);
                        }
                    }
                    assert forall|jj: int| 0 <= jj < n implies (job_seen@[jj] <==> in_tours(
                        &s,
                        jj as usize,
                    )) by {
                        if job_seen@[jj] {
                            if in_tours(&before, jj as usize) {
                                let (y2, i2) = choose|y2: int, i2: int|
                                    0 <= y2 < before.routes@.len() && 0 <= i2
                                        < before.routes@[y2].tour@.len() && #[trigger] tour_job(
                                        &before,
                                        y2,
                                        i2,
                                    ) == jj;
                                assert(s.routes@[y2] == before.routes@[y2]);
                                assert(tour_job(&s, y2, i2) == jj);
                            } else {
                                let k = choose|k: int|
                                    0 <= k < plan.visits@.len() && (#[trigger] plan.visits@[k]).0
                                        == jj;
                                assert(t@[k].job == plan.visits@[k].0);
                                assert(tour_job(&s, y as int, k) == jj);
                            }
                        }
                        if in_tours(&s, jj as usize) {
                            let (y2, i2) = choose|y2: int, i2: int|
                                0 <= y2 < s.routes@.len() && 0 <= i2 < s.routes@[y2].tour@.len()
                                    && #[trigger] tour_job(&s, y2, i2) == jj;
                            if y2 < y {
                                assert(s.routes@[y2] == before.routes@[y2]);
                                assert(tour_job(&before, y2, i2) == jj);
                            } else {
                                assert(t@[i2].job == plan.visits@[i2].0);
                                assert(plan.visits@[i2].0 == jj);
                            }
                        }
                    }
                    assert forall|y1: int, i1: int, y2: int, i2: int|
                        0 <= y1 < s.routes@.len() && 0 <= i1 < s.routes@[y1].tour@.len() && 0 <= y2
                            < s.routes@.len() && 0 <= i2 < s.routes@[y2].tour@.len() && (y1 != y2
                            || i1 != i2) implies #[trigger] tour_job(&s, y1, i1)
                        != #[trigger] tour_job(&s, y2, i2) by {
                        if y1 < y && y2 < y {
                            assert(s.routes@[y1] == before.routes@[y1]);
                            assert(s.routes@[y2] == before.routes@[y2]);
                            assert(tour_job(&before, y1, i1) != tour_job(&before, y2, i2));
                        } else if y1 == y && y2 == y {
                            assert(t@[i1].job == plan.visits@[i1].0);
                            assert(t@[i2].job == plan.visits@[i2].0);
                        } else if y1 == y {
                            assert(t@[i1].job == plan.visits@[i1].0);
                            assert(s.routes@[y2] == before.routes@[y2]);
                            assert(tour_job(&before, y2, i2) == tour_job(&s, y2, i2));
                            assert(!in_tours(&before, plan.visits@[i1].0));
                        } else {
                            assert(t@[i2].job == plan.visits@[i2].0);
                            assert(s.routes@[y1] == before.routes@[y1]);
                            assert(tour_job(&before, y1, i1) == tour_job(&s, y1, i1));
                            assert(!in_tours(&before, plan.visits@[i2].0));
                        }
                    }
                    assert(actors_distinct(&s)) by {
                        assert forall|y1: int, y2: int|
                            0 <= y1 < s.routes@.len() && 0 <= y2 < s.routes@.len() && y1 != y2
                                implies (#[trigger] s.routes@[y1]).actor
                                != (#[trigger] s.routes@[y2]).actor by {
                            if y1 == y || y2 == y {
                                let other = if y1 == y { y2 } else { y1 };
                                assert(s.routes@[other] == before.routes@[other]);
                                if before.routes@[other].actor == plan.actor {
                                    assert(seen_before[plan.actor as int]);
                                }
                            } else {
                                assert(s.routes@[y1] == before.routes@[y1]);
                                assert(s.routes@[y2] == before.routes@[y2]);
                            }
                        }
                    }
                }
            },
        }
        y = y + 1;
    }
    let mut unassigned: Vec<usize> = Vec::new();
    let mut jj: usize = 0;
    while jj < n
        invariant
            n == p.jobs@.len(),
            job_seen@.len() == n,
            jj <= n,
            forall|k: int| 0 <= k < unassigned@.len() ==> #[trigger] unassigned@[k] < jj,
            forall|k: int| 0 <= k < unassigned@.len() ==> !job_seen@[#[trigger] unassigned@[k] as int],
            forall|k1: int, k2: int|
                0 <= k1 < k2 < unassigned@.len() ==> #[trigger] unassigned@[k1]
                    < #[trigger] unassigned@[k2],
            forall|x: int| 0 <= x < jj && !job_seen@[x] ==> unassigned@.contains(x as usize),
        decreases n - jj,
    {
        if !job_seen[jj] {
            let ghost prev = unassigned@;
            unassigned.push(jj);
            proof {
                assert forall|x: int| 0 <= x < jj + 1 && !job_seen@[x] implies unassigned@.contains(
                    x as usize,
                ) by {
                    if x == jj {
                        assert(unassigned@[prev.len() as int] == jj);
                    } else {
                        let k = choose|k: int| 0 <= k < prev.len() && prev[k] == x as usize;
                        assert(unassigned@[k] == x as usize);
                    }
                }
            }
        }
        jj = jj + 1;
    }
    let ghost built = s;
    s.unassigned = unassigned;
    proof {
        assert forall|y1: int, i1: int|
            0 <= y1 < s.routes@.len() && 0 <= i1 < s.routes@[y1].tour@.len() implies #[trigger] tour_job(
            &s,
            y1,
            i1,
        ) == tour_job(&built, y1, i1) by {}
        assert forall|jx: usize| 0 <= jx < n implies in_tours(&s, jx) == in_tours(&built, jx) by {
            if in_tours(&s, jx) {
                let (y2, i2) = choose|y2: int, i2: int|
                    0 <= y2 < s.routes@.len() && 0 <= i2 < s.routes@[y2].tour@.len()
                        && #[trigger] tour_job(&s, y2, i2) == jx;
                assert(tour_job(&built, y2, i2) == jx);
            }
            if in_tours(&built, jx) {
                let (y2, i2) = choose|y2: int, i2: int|
                    0 <= y2 < built.routes@.len() && 0 <= i2 < built.routes@[y2].tour@.len()
                        && #[trigger] tour_job(&built, y2, i2) == jx;
                assert(tour_job(&s, y2, i2) == jx);
            }
        }
        assert(routes_feasible(p, fleet, &s));
        assert(jobs_assigned_once(p, &s)) by {
            assert forall|y1: int, i1: int, k: int|
                0 <= y1 < s.routes@.len() && 0 <= i1 < s.routes@[y1].tour@.len() && 0 <= k
                    < s.unassigned@.len() implies #[trigger] tour_job(&s, y1, i1)
                    != #[trigger] s.unassigned@[k] by {
                let jx = tour_job(&s, y1, i1);
                assert(routes_feasible(p, fleet, &s));
                assert(activity_scheduled(p, route_actor(fleet, &s, y1), s.routes@[y1].tour@, i1));
                assert(in_tours(&built, jx));
            }
            assert forall|jx: usize| 0 <= jx < p.jobs@.len() implies s.unassigned@.contains(jx)
                || in_tours(&s, jx) by {
                if job_seen@[jx as int] {
                    assert(in_tours(&built, jx));
                }
            }
            assert forall|k1: int, k2: int|
                0 <= k1 < s.unassigned@.len() && 0 <= k2 < s.unassigned@.len() && k1 != k2
                    implies #[trigger] s.unassigned@[k1] != #[trigger] s.unassigned@[k2] by {
                if k1 < k2 {
                    assert(s.unassigned@[k1] < s.unassigned@[k2]);
                } else {
                    assert(s.unassigned@[k2] < s.unassigned@[k1]);
                }
            }
        }
    }
    Some(s)
}

} // verus!
