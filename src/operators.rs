use vstd::prelude::*;
use crate::model::Problem;
use crate::solution::{
    actors_distinct, in_tours, jobs_assigned_once, route_actor, routes_feasible, solution_valid,
    tour_job, Fleet, Solution,
};
use crate::initial::{follows_routes, from_routes, PlannedRoute};
use crate::tour::{activity_scheduled, follows_plan, plan_of, tour_feasible, Activity, Route};

verus! {

/// Copies the activities of a tour.
fn copy_tour(t: &Vec<Activity>) -> (r: Vec<Activity>)
    ensures
        r@ == t@,
{
    let mut r: Vec<Activity> = Vec::new();
    let mut i: usize = 0;
    while i < t.len()
        invariant
            i <= t@.len(),
            r@ == t@.subrange(0, i as int),
        decreases t@.len() - i,
    {
        r.push(t[i]);
        proof {
            assert(r@ =~= t@.subrange(0, i + 1));
        }
        i = i + 1;
    }
    proof {
        assert(r@ =~= t@);
    }
    r
}

/// The jobs of a tour, in order.
pub open spec fn jobs_of(t: Seq<Activity>) -> Seq<usize> {
    t.map_values(|a: Activity| a.job)
}

/// The solution without route `r`, whose jobs join the end of the unassigned list.
pub open spec fn ruined(s: &Solution, c: &Solution, r: int) -> bool {
    &&& c.routes@.len() + 1 == s.routes@.len()
    &&& forall|y: int|
        0 <= y < c.routes@.len() ==> {
            let o = if y < r { y } else { y + 1 };
            &&& (#[trigger] c.routes@[y]).actor == s.routes@[o].actor
            &&& c.routes@[y].tour@ == s.routes@[o].tour@
        }
    &&& c.unassigned@ == s.unassigned@ + jobs_of(s.routes@[r].tour@)
}

/// Removing a whole route and listing its jobs as unassigned keeps every invariant.
pub proof fn lemma_ruin_keeps_valid(p: &Problem, fleet: &Fleet, s: &Solution, c: &Solution, r: int)
    requires
        solution_valid(p, fleet, s),
        0 <= r < s.routes@.len(),
        ruined(s, c, r),
    ensures
        solution_valid(p, fleet, c),
{
    let u = s.unassigned@.len() as int;
    let gone = s.routes@[r].tour@;
    assert forall|y: int, i: int|
        0 <= y < c.routes@.len() && 0 <= i < c.routes@[y].tour@.len() implies #[trigger] tour_job(
            c,
            y,
            i,
        ) == tour_job(s, if y < r { y } else { y + 1 }, i) by {
        let o = if y < r { y } else { y + 1 };
        assert(c.routes@[y].tour@ == s.routes@[o].tour@);
    }
    assert forall|k: int| u <= k < c.unassigned@.len() implies #[trigger] c.unassigned@[k]
        == tour_job(s, r, k - u) by {}
    assert forall|k: int| 0 <= k < u implies #[trigger] c.unassigned@[k] == s.unassigned@[k] by {}
    assert(routes_feasible(p, fleet, c)) by {
        assert forall|y: int| 0 <= y < c.routes@.len() implies (#[trigger] c.routes@[y]).actor
            < fleet.actors@.len() && tour_feasible(p, route_actor(fleet, c, y), c.routes@[y].tour@) by {
            let o = if y < r { y } else { y + 1 };
            assert(routes_feasible(p, fleet, s));
            assert(s.routes@[o].actor < fleet.actors@.len());
        }
    }
    assert(actors_distinct(c)) by {
        assert forall|y1: int, y2: int|
            0 <= y1 < c.routes@.len() && 0 <= y2 < c.routes@.len() && y1 != y2
                implies (#[trigger] c.routes@[y1]).actor != (#[trigger] c.routes@[y2]).actor by {
            let o1 = if y1 < r { y1 } else { y1 + 1 };
            let o2 = if y2 < r { y2 } else { y2 + 1 };
            assert(s.routes@[o1].actor != s.routes@[o2].actor);
        }
    }
    assert(jobs_assigned_once(p, c)) by {
        assert forall|k: int| 0 <= k < c.unassigned@.len() implies #[trigger] c.unassigned@[k]
            < p.jobs@.len() by {
            if k >= u {
                assert(routes_feasible(p, fleet, s));
                assert(tour_feasible(p, route_actor(fleet, s, r), gone));
                assert(activity_scheduled(p, route_actor(fleet, s, r), gone, k - u));
            }
        }
        assert forall|k1: int, k2: int|
            0 <= k1 < c.unassigned@.len() && 0 <= k2 < c.unassigned@.len() && k1 != k2
                implies #[trigger] c.unassigned@[k1] != #[trigger] c.unassigned@[k2] by {
            if k1 < u && k2 < u {
            } else if k1 >= u && k2 >= u {
                assert(tour_job(s, r, k1 - u) != tour_job(s, r, k2 - u));
            } else if k1 < u {
                assert(tour_job(s, r, k2 - u) != s.unassigned@[k1]);
            } else {
                assert(tour_job(s, r, k1 - u) != s.unassigned@[k2]);
            }
        }
        assert forall|y: int, i: int, k: int|
            0 <= y < c.routes@.len() && 0 <= i < c.routes@[y].tour@.len() && 0 <= k
                < c.unassigned@.len() implies #[trigger] tour_job(c, y, i)
                != #[trigger] c.unassigned@[k] by {
            let o = if y < r { y } else { y + 1 };
            if k < u {
                assert(tour_job(s, o, i) != s.unassigned@[k]);
            } else {
                assert(tour_job(s, o, i) != tour_job(s, r, k - u));
            }
        }
        assert forall|y1: int, i1: int, y2: int, i2: int|
            0 <= y1 < c.routes@.len() && 0 <= i1 < c.routes@[y1].tour@.len() && 0 <= y2
                < c.routes@.len() && 0 <= i2 < c.routes@[y2].tour@.len() && (y1 != y2 || i1
                != i2) implies #[trigger] tour_job(c, y1, i1) != #[trigger] tour_job(c, y2, i2) by {
            let o1 = if y1 < r { y1 } else { y1 + 1 };
            let o2 = if y2 < r { y2 } else { y2 + 1 };
            assert(tour_job(s, o1, i1) != tour_job(s, o2, i2));
        }
        assert forall|jj: usize| 0 <= jj < p.jobs@.len() implies c.unassigned@.contains(jj)
            || in_tours(c, jj) by {
            if s.unassigned@.contains(jj) {
                let k = choose|k: int| 0 <= k < u && s.unassigned@[k] == jj;
                assert(c.unassigned@[k] == jj);
            } else {
                assert(in_tours(s, jj));
                let (y, i) = choose|y: int, i: int|
                    0 <= y < s.routes@.len() && 0 <= i < s.routes@[y].tour@.len()
                        && #[trigger] tour_job(s, y, i) == jj;
                if y == r {
                    assert(c.unassigned@[u + i] == jj);
                } else {
                    let ny = if y < r { y } else { y - 1 };
                    assert(tour_job(c, ny, i) == jj);
                }
            }
        }
    }
}

/// Ruin: a copy of the solution without route `r`, whose jobs become unassigned (they
/// come after the jobs that were unassigned already).
pub fn ruin_route(p: &Problem, fleet: &Fleet, s: &Solution, r: usize) -> (c: Solution)
    requires
        solution_valid(p, fleet, s),
        r < s.routes@.len(),
    ensures
        ruined(s, &c, r as int),
        solution_valid(p, fleet, &c),
{
    let mut routes: Vec<Route> = Vec::new();
    let mut y: usize = 0;
    while y < s.routes.len()
        invariant
            r < s.routes@.len(),
            y <= s.routes@.len(),
            routes@.len() == if y <= r { y as int } else { y - 1 },
            forall|x: int|
                0 <= x < routes@.len() ==> {
                    let o = if x < r { x } else { x + 1 };
                    &&& (#[trigger] routes@[x]).actor == s.routes@[o].actor
                    &&& routes@[x].tour@ == s.routes@[o].tour@
                },
        decreases s.routes@.len() - y,
    {
        if y != r {
            let tour = copy_tour(&s.routes[y].tour);
            routes.push(Route { actor: s.routes[y].actor, tour });
        }
        y = y + 1;
    }
    let mut unassigned: Vec<usize> = Vec::new();
    let mut k: usize = 0;
    while k < s.unassigned.len()
        invariant
            k <= s.unassigned@.len(),
            unassigned@ == s.unassigned@.subrange(0, k as int),
        decreases s.unassigned@.len() - k,
    {
        unassigned.push(s.unassigned[k]);
        proof {
            assert(unassigned@ =~= s.unassigned@.subrange(0, k + 1));
        }
        k = k + 1;
    }
    let gone = &s.routes[r].tour;
    let mut i: usize = 0;
    while i < gone.len()
        invariant
            i <= gone@.len(),
            unassigned@ == s.unassigned@ + jobs_of(gone@).subrange(0, i as int),
        decreases gone@.len() - i,
    {
        unassigned.push(gone[i].job);
        proof {
            assert(unassigned@ =~= s.unassigned@ + jobs_of(gone@).subrange(0, i + 1));
        }
        i = i + 1;
    }
    proof {
        assert(jobs_of(gone@).subrange(0, gone@.len() as int) =~= jobs_of(gone@));
    }
    let c = Solution { routes, unassigned };
    proof {
        lemma_ruin_keeps_valid(p, fleet, s, &c, r as int);
    }
    c
}

/// The visits of route `y` after exchanging visit `i1` of route `r1` with visit `i2` of
/// route `r2`.
pub open spec fn swapped_visits(s: &Solution, r1: int, i1: int, r2: int, i2: int, y: int) -> Seq<
    (usize, usize),
> {
    let base = plan_of(s.routes@[y].tour@);
    let a = plan_of(s.routes@[r1].tour@)[i1];
    let b = plan_of(s.routes@[r2].tour@)[i2];
    if y == r1 && y == r2 {
        base.update(i1, b).update(i2, a)
    } else if y == r1 {
        base.update(i1, b)
    } else if y == r2 {
        base.update(i2, a)
    } else {
        base
    }
}

/// The routes of a solution as plans, with two visits exchanged.
fn swap_plans(s: &Solution, r1: usize, i1: usize, r2: usize, i2: usize) -> (plans: Vec<PlannedRoute>)
    requires
        r1 < s.routes@.len(),
        r2 < s.routes@.len(),
        i1 < s.routes@[r1 as int].tour@.len(),
        i2 < s.routes@[r2 as int].tour@.len(),
    ensures
        plans@.len() == s.routes@.len(),
        forall|y: int|
            0 <= y < plans@.len() ==> (#[trigger] plans@[y]).actor == s.routes@[y].actor
                && plans@[y].visits@ == swapped_visits(s, r1 as int, i1 as int, r2 as int, i2 as int, y),
{
    let a = (s.routes[r1].tour[i1].job, s.routes[r1].tour[i1].place);
    let b = (s.routes[r2].tour[i2].job, s.routes[r2].tour[i2].place);
    let mut plans: Vec<PlannedRoute> = Vec::new();
    let mut y: usize = 0;
    while y < s.routes.len()
        invariant
            r1 < s.routes@.len(),
            r2 < s.routes@.len(),
            i1 < s.routes@[r1 as int].tour@.len(),
            i2 < s.routes@[r2 as int].tour@.len(),
            a == plan_of(s.routes@[r1 as int].tour@)[i1 as int],
            b == plan_of(s.routes@[r2 as int].tour@)[i2 as int],
            y <= s.routes@.len(),
            plans@.len() == y,
            forall|x: int|
                0 <= x < y ==> (#[trigger] plans@[x]).actor == s.routes@[x].actor
                    && plans@[x].visits@ == swapped_visits(s, r1 as int, i1 as int, r2 as int, i2 as int, x),
        decreases s.routes@.len() - y,
    {
        let tour = &s.routes[y].tour;
        let mut visits: Vec<(usize, usize)> = Vec::new();
        let mut i: usize = 0;
        while i < tour.len()
            invariant
                i <= tour@.len(),
                visits@ == plan_of(tour@).subrange(0, i as int),
            decreases tour@.len() - i,
        {
            visits.push((tour[i].job, tour[i].place));
            proof {
                assert(visits@ =~= plan_of(tour@).subrange(0, i + 1));
            }
            i = i + 1;
        }
        proof {
            assert(visits@ =~= plan_of(tour@));
        }
        if y == r1 {
            visits.set(i1, b);
        }
        if y == r2 {
            visits.set(i2, a);
        }
        plans.push(PlannedRoute { actor: s.routes[y].actor, visits });
        y = y + 1;
    }
    plans
}

/// Mutation: exchanges two visits, within one route or across two, and reschedules.
/// Gives a solution only when the exchanged routes still form a valid one.
pub fn swap_visits(
    p: &Problem,
    fleet: &Fleet,
    s: &Solution,
    r1: usize,
    i1: usize,
    r2: usize,
    i2: usize,
) -> (r: Option<Solution>)
    requires
        p.wf(),
        fleet.wf(p),
        r1 < s.routes@.len(),
        r2 < s.routes@.len(),
        i1 < s.routes@[r1 as int].tour@.len(),
        i2 < s.routes@[r2 as int].tour@.len(),
    ensures
        r matches Some(c) ==> {
            &&& solution_valid(p, fleet, &c)
            &&& c.routes@.len() == s.routes@.len()
            &&& forall|y: int|
                0 <= y < s.routes@.len() ==> (#[trigger] c.routes@[y]).actor == s.routes@[y].actor
                    && follows_plan(
                    c.routes@[y].tour@,
                    swapped_visits(s, r1 as int, i1 as int, r2 as int, i2 as int, y),
                )
        },
        r is None ==> forall|c: Solution|
            c.routes@.len() == s.routes@.len() && (forall|y: int|
                0 <= y < s.routes@.len() ==> (#[trigger] c.routes@[y]).actor == s.routes@[y].actor
                    && follows_plan(
                    c.routes@[y].tour@,
                    swapped_visits(s, r1 as int, i1 as int, r2 as int, i2 as int, y),
                )) ==> !solution_valid(p, fleet, &c),
{
    let plans = swap_plans(s, r1, i1, r2, i2);
    let r = from_routes(p, fleet, &plans);
    proof {
        assert forall|c: Solution|
            c.routes@.len() == s.routes@.len() && (forall|y: int|
                0 <= y < s.routes@.len() ==> (#[trigger] c.routes@[y]).actor == s.routes@[y].actor
                    && follows_plan(
                    c.routes@[y].tour@,
                    swapped_visits(s, r1 as int, i1 as int, r2 as int, i2 as int, y),
                )) implies follows_routes(&c, plans@) by {
            assert forall|y: int| 0 <= y < plans@.len() implies (#[trigger] c.routes@[y]).actor
                == plans@[y].actor && follows_plan(c.routes@[y].tour@, plans@[y].visits@) by {
                assert(plans@[y].actor == s.routes@[y].actor);
            }
        }
    }
    r
}

/// Whether a job is served by a tour.
fn tour_has_job(t: &Vec<Activity>, job: usize) -> (r: bool)
    ensures
        r == jobs_of(t@).contains(job),
{
    let mut i: usize = 0;
    while i < t.len()
        invariant
            i <= t@.len(),
            forall|k: int| 0 <= k < i ==> (#[trigger] t@[k]).job != job,
        decreases t@.len() - i,
    {
        if t[i].job == job {
            assert(jobs_of(t@)[i as int] == job);
            return true;
        }
        i = i + 1;
    }
    proof {
        if jobs_of(t@).contains(job) {
            let k = choose|k: int| 0 <= k < jobs_of(t@).len() && jobs_of(t@)[k] == job;
            assert(t@[k].job == job);
        }
    }
    false
}

/// Keeps a visit whose job is not among `kept`.
pub open spec fn keep_visit(kept: Seq<usize>) -> spec_fn((usize, usize)) -> bool {
    |v: (usize, usize)| !kept.contains(v.0)
}

/// Keeps a route whose actor is not `actor`.
pub open spec fn other_actor(actor: usize) -> spec_fn(Route) -> bool {
    |rt: Route| rt.actor != actor
}

/// The routes of `b` that a child of route `r` of `a` takes: those of other actors.
pub open spec fn crossed_routes(a: &Solution, b: &Solution, r: int) -> Seq<Route> {
    b.routes@.filter(other_actor(a.routes@[r].actor))
}

/// The visits that a child keeps of a route taken from `b`: those of jobs that route `r`
/// of `a` does not serve.
pub open spec fn crossed_visits(a: &Solution, r: int, t: Seq<Activity>) -> Seq<(usize, usize)> {
    plan_of(t).filter(keep_visit(jobs_of(a.routes@[r].tour@)))
}

/// The child of route `r` of `a` and the solution `b`: route `r` of `a` first, then the
/// routes of `b` of other actors, in order, without the jobs of route `r` of `a`.
pub open spec fn follows_crossover(c: &Solution, a: &Solution, b: &Solution, r: int) -> bool {
    let others = crossed_routes(a, b, r);
    &&& c.routes@.len() == others.len() + 1
    &&& c.routes@[0].actor == a.routes@[r].actor
    &&& follows_plan(c.routes@[0].tour@, plan_of(a.routes@[r].tour@))
    &&& forall|k: int|
        1 <= k < c.routes@.len() ==> (#[trigger] c.routes@[k]).actor == others[k - 1].actor
            && follows_plan(c.routes@[k].tour@, crossed_visits(a, r, others[k - 1].tour@))
}

/// The plans of the child of route `r` of `a` and the solution `b`.
pub open spec fn crossover_plans_are(
    a: &Solution,
    b: &Solution,
    r: int,
    plans: Seq<PlannedRoute>,
) -> bool {
    let others = crossed_routes(a, b, r);
    &&& plans.len() == others.len() + 1
    &&& plans[0].actor == a.routes@[r].actor
    &&& plans[0].visits@ == plan_of(a.routes@[r].tour@)
    &&& forall|k: int|
        1 <= k < plans.len() ==> (#[trigger] plans[k]).actor == others[k - 1].actor
            && plans[k].visits@ == crossed_visits(a, r, others[k - 1].tour@)
}

/// Plans for a child of two parents: route `r` of `a` first, then every route of `b`
/// whose actor differs from that route's, without the jobs that route `r` of `a` serves.
pub fn crossover_plans(a: &Solution, b: &Solution, r: usize) -> (plans: Vec<PlannedRoute>)
    requires
        r < a.routes@.len(),
    ensures
        crossover_plans_are(a, b, r as int, plans@),
{
    let kept = &a.routes[r].tour;
    let mut first: Vec<(usize, usize)> = Vec::new();
    let mut i: usize = 0;
    while i < kept.len()
        invariant
            i <= kept@.len(),
            first@ == plan_of(kept@).subrange(0, i as int),
        decreases kept@.len() - i,
    {
        first.push((kept[i].job, kept[i].place));
        proof {
            assert(first@ =~= plan_of(kept@).subrange(0, i + 1));
        }
        i = i + 1;
    }
    proof {
        assert(first@ =~= plan_of(kept@));
    }
    let actor = a.routes[r].actor;
    let ghost pred = other_actor(actor);
    let ghost keep = keep_visit(jobs_of(kept@));
    let mut plans: Vec<PlannedRoute> = Vec::new();
    plans.push(PlannedRoute { actor, visits: first });
    let mut y: usize = 0;
    while y < b.routes.len()
        invariant
            r < a.routes@.len(),
            kept@ == a.routes@[r as int].tour@,
            actor == a.routes@[r as int].actor,
            pred == other_actor(actor),
            keep == keep_visit(jobs_of(kept@)),
            y <= b.routes@.len(),
            plans@.len() == b.routes@.subrange(0, y as int).filter(pred).len() + 1,
            plans@[0].actor == actor,
            plans@[0].visits@ == plan_of(kept@),
            forall|k: int|
                1 <= k < plans@.len() ==> (#[trigger] plans@[k]).actor == b.routes@.subrange(
                    0,
                    y as int,
                ).filter(pred)[k - 1].actor && plans@[k].visits@ == plan_of(
                    b.routes@.subrange(0, y as int).filter(pred)[k - 1].tour@,
                ).filter(keep),
        decreases b.routes@.len() - y,
    {
        let ghost prefix = b.routes@.subrange(0, y as int);
        let ghost next = b.routes@.subrange(0, y + 1);
        proof {
            assert(next.drop_last() =~= prefix);
            assert(next.last() == b.routes@[y as int]);
        }
        if b.routes[y].actor != actor {
            let tour = &b.routes[y].tour;
            let mut visits: Vec<(usize, usize)> = Vec::new();
            let mut i: usize = 0;
            while i < tour.len()
                invariant
                    i <= tour@.len(),
                    keep == keep_visit(jobs_of(kept@)),
                    visits@ == plan_of(tour@).subrange(0, i as int).filter(keep),
                decreases tour@.len() - i,
            {
                let v = (tour[i].job, tour[i].place);
                let ghost sub = plan_of(tour@).subrange(0, i + 1);
                proof {
                    reveal(Seq::filter);
                    assert(sub.drop_last() =~= plan_of(tour@).subrange(0, i as int));
                    assert(sub.last() == v);
                }
                let served = tour_has_job(kept, v.0);
                if !served {
                    visits.push(v);
                }
                proof {
                    reveal(Seq::filter);
                    assert(keep(v) == !served);
                    if !served {
                        assert(sub.filter(keep) == plan_of(tour@).subrange(0, i as int).filter(keep).push(v));
                    } else {
                        assert(sub.filter(keep) == plan_of(tour@).subrange(0, i as int).filter(keep));
                    }
                }
                i = i + 1;
            }
            proof {
                assert(plan_of(tour@).subrange(0, tour@.len() as int) =~= plan_of(tour@));
            }
            let ghost before = plans@;
            plans.push(PlannedRoute { actor: b.routes[y].actor, visits });
            proof {
                reveal(Seq::filter);
                assert(pred(b.routes@[y as int]));
                assert(next.filter(pred) == prefix.filter(pred).push(b.routes@[y as int]));
                assert forall|k: int|
                    1 <= k < plans@.len() implies (#[trigger] plans@[k]).actor == next.filter(
                        pred,
                    )[k - 1].actor && plans@[k].visits@ == plan_of(
                        next.filter(pred)[k - 1].tour@,
                    ).filter(keep) by {
                    if k < before.len() {
                        assert(plans@[k] == before[k]);
                    }
                }
            }
        } else {
            proof {
                reveal(Seq::filter);
                assert(!pred(b.routes@[y as int]));
                assert(next.filter(pred) == prefix.filter(pred));
            }
        }
        y = y + 1;
    }
    proof {
        assert(b.routes@.subrange(0, b.routes@.len() as int) =~= b.routes@);
    }
    plans
}

/// Crossover: the child keeps route `r` of `a` as it is and takes the other routes from
/// `b`, without the jobs already served; its other jobs are left unassigned for the
/// construction to place. Gives a child exactly when those routes form a valid solution.
pub fn crossover(p: &Problem, fleet: &Fleet, a: &Solution, b: &Solution, r: usize) -> (c: Option<
    Solution,
>)
    requires
        p.wf(),
        fleet.wf(p),
        r < a.routes@.len(),
    ensures
        c matches Some(child) ==> solution_valid(p, fleet, &child) && follows_crossover(
            &child,
            a,
            b,
            r as int,
        ),
        c is None ==> forall|x: Solution|
            follows_crossover(&x, a, b, r as int) ==> !#[trigger] solution_valid(p, fleet, &x),
{
    let plans = crossover_plans(a, b, r);
    let child = from_routes(p, fleet, &plans);
    proof {
        assert forall|x: Solution| follows_crossover(&x, a, b, r as int) <==> follows_routes(
            &x,
            plans@,
        ) by {
            if follows_crossover(&x, a, b, r as int) {
                assert forall|y: int| 0 <= y < plans@.len() implies (#[trigger] x.routes@[y]).actor
                    == plans@[y].actor && follows_plan(x.routes@[y].tour@, plans@[y].visits@) by {
                    if y >= 1 {
                        assert(plans@[y].actor == crossed_routes(a, b, r as int)[y - 1].actor);
                    }
                }
            }
            if follows_routes(&x, plans@) {
                assert(x.routes@[0].actor == plans@[0].actor);
                assert forall|k: int| 1 <= k < x.routes@.len() implies (#[trigger] x.routes@[k]).actor
                    == crossed_routes(a, b, r as int)[k - 1].actor && follows_plan(
                    x.routes@[k].tour@,
                    crossed_visits(a, r as int, crossed_routes(a, b, r as int)[k - 1].tour@),
                ) by {
                    assert(plans@[k].actor == crossed_routes(a, b, r as int)[k - 1].actor);
                }
            }
        }
    }
    child
}

} // verus!
