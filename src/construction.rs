use vstd::prelude::*;
use crate::evaluator::{schedule_plan, tour_cost_of};
use crate::model::{Actor, Problem};
use crate::solution::{
    in_tours, lemma_inserted_jobs, tour_job, actors_distinct, jobs_assigned_once, route_actor, routes_feasible, solution_valid, Fleet,
    Solution,
};
use crate::tour::{
    activity_scheduled, follows_plan, plan_of, tour_cost, tour_feasible, Activity, Route,
};

verus! {

/// No position of a tour takes the job at that place: every schedule of the resulting
/// visit order is infeasible for the actor.
pub open spec fn cannot_insert_at(
    p: &Problem,
    a: Actor,
    tour: Seq<Activity>,
    job: usize,
    place: usize,
) -> bool {
    forall|pos: int, t: Seq<Activity>|
        0 <= pos <= tour.len() && #[trigger] follows_plan(t, plan_of(tour).insert(pos, (job, place)))
            ==> !tour_feasible(p, a, t)
}

/// The visit order of a tour with one more visit inserted at `pos`.
fn plan_with(tour: &Vec<Activity>, pos: usize, job: usize, place: usize) -> (r: Vec<(usize, usize)>)
    requires
        pos <= tour@.len(),
    ensures
        r@ == plan_of(tour@).insert(pos as int, (job, place)),
{
    let mut r: Vec<(usize, usize)> = Vec::new();
    let mut i: usize = 0;
    while i < tour.len()
        invariant
            pos <= tour@.len(),
            i <= tour@.len(),
            r@ == (if i <= pos {
                plan_of(tour@).subrange(0, i as int)
            } else {
                plan_of(tour@).insert(pos as int, (job, place)).subrange(0, i + 1)
            }),
        decreases tour@.len() - i,
    {
        if i == pos {
            r.push((job, place));
        }
        r.push((tour[i].job, tour[i].place));
        proof {
            let ins = plan_of(tour@).insert(pos as int, (job, place));
            if i < pos {
                assert(r@ =~= plan_of(tour@).subrange(0, i + 1));
            } else {
                assert(r@ =~= ins.subrange(0, i + 2));
            }
        }
        i = i + 1;
    }
    if i == pos {
        r.push((job, place));
    }
    proof {
        let ins = plan_of(tour@).insert(pos as int, (job, place));
        assert(r@ =~= ins);
    }
    r
}

/// Tries every position of a tour for a job at one of its places, and returns the cheapest
/// feasible result (the earliest position among equals), with its cost.
pub fn best_position(p: &Problem, a: Actor, tour: &Vec<Activity>, job: usize, place: usize) -> (r:
    Option<(usize, Vec<Activity>, u64)>)
    requires
        p.wf(),
        p.actor_valid(a),
        forall|i: int| 0 <= i < tour@.len() ==> activity_scheduled(p, a, tour@, i),
        job < p.jobs@.len(),
        place < p.jobs@[job as int].places@.len(),
    ensures
        r matches Some((pos, t, c)) ==> {
            &&& pos <= tour@.len()
            &&& tour_feasible(p, a, t@)
            &&& follows_plan(t@, plan_of(tour@).insert(pos as int, (job, place)))
            &&& c == tour_cost(p, a, t@)
        },
        r is None ==> cannot_insert_at(p, a, tour@, job, place),
{
    let mut best: Option<(usize, Vec<Activity>, u64)> = None;
    let mut pos: usize = 0;
    loop
        invariant
            p.wf(),
            p.actor_valid(a),
            forall|i: int| 0 <= i < tour@.len() ==> activity_scheduled(p, a, tour@, i),
            job < p.jobs@.len(),
            place < p.jobs@[job as int].places@.len(),
            pos <= tour@.len(),
            best matches Some((bp, t, c)) ==> {
                &&& bp <= tour@.len()
                &&& tour_feasible(p, a, t@)
                &&& follows_plan(t@, plan_of(tour@).insert(bp as int, (job, place)))
                &&& c == tour_cost(p, a, t@)
            },
            best is None ==> forall|x: int, t: Seq<Activity>|
                0 <= x < pos && #[trigger] follows_plan(t, plan_of(tour@).insert(x, (job, place)))
                    ==> !tour_feasible(p, a, t),
        ensures
            best is None ==> forall|x: int, t: Seq<Activity>|
                0 <= x <= tour@.len() && #[trigger] follows_plan(
                    t,
                    plan_of(tour@).insert(x, (job, place)),
                ) ==> !tour_feasible(p, a, t),
            best matches Some((bp, t, c)) ==> {
                &&& bp <= tour@.len()
                &&& tour_feasible(p, a, t@)
                &&& follows_plan(t@, plan_of(tour@).insert(bp as int, (job, place)))
                &&& c == tour_cost(p, a, t@)
            },
        decreases tour@.len() - pos,
    {
        let plan = plan_with(tour, pos, job, place);
        proof {
            assert forall|i: int| 0 <= i < plan@.len() implies (#[trigger] plan@[i]).0
                < p.jobs@.len() && plan@[i].1 < p.jobs@[plan@[i].0 as int].places@.len() by {
                if i < pos {
                    assert(activity_scheduled(p, a, tour@, i));
                } else if i > pos {
                    assert(activity_scheduled(p, a, tour@, i - 1));
                }
            }
        }
        match schedule_plan(p, a, &plan) {
            Ok(t) => {
                let c = tour_cost_of(p, a, &t);
                let better = match &best {
                    Some((_, _, bc)) => c < *bc,
                    None => true,
                };
                if better {
                    best = Some((pos, t, c));
                }
            },
            Err(_) => {},
        }
        if pos == tour.len() {
            break;
        }
        pos = pos + 1;
    }
    best
}

/// One way to serve an unassigned job: the slot it has in the unassigned list, the place,
/// the route it joins (or none, for a new route of an unused actor), the position in
/// that route, the new tour, and how much the tour's cost grows.
#[derive(Clone, Debug)]
pub struct Insertion {
    pub slot: usize,
    pub place: usize,
    pub route: Option<usize>,
    pub actor: usize,
    pub position: usize,
    pub tour: Vec<Activity>,
    pub delta: i128,
}

pub open spec fn actor_used(s: &Solution, x: usize) -> bool {
    exists|r: int| 0 <= r < s.routes@.len() && (#[trigger] s.routes@[r]).actor == x
}

/// The tour that an insertion starts from: its route's, or an empty one.
pub open spec fn base_tour(s: &Solution, ins: &Insertion) -> Seq<Activity> {
    match ins.route {
        Some(r) => s.routes@[r as int].tour@,
        None => Seq::empty(),
    }
}

/// An insertion that can be applied to the solution and keeps its route feasible.
pub open spec fn insertion_ok(p: &Problem, fleet: &Fleet, s: &Solution, ins: &Insertion) -> bool {
    let job = s.unassigned@[ins.slot as int];
    &&& ins.slot < s.unassigned@.len()
    &&& job < p.jobs@.len()
    &&& ins.place < p.jobs@[job as int].places@.len()
    &&& ins.actor < fleet.actors@.len()
    &&& match ins.route {
        Some(r) => r < s.routes@.len() && s.routes@[r as int].actor == ins.actor,
        None => !actor_used(s, ins.actor),
    }
    &&& ins.position <= base_tour(s, ins).len()
    &&& follows_plan(ins.tour@, plan_of(base_tour(s, ins)).insert(ins.position as int, (job, ins.place)))
    &&& tour_feasible(p, fleet.actors@[ins.actor as int], ins.tour@)
}

/// No route, and no new route of an unused actor, can take the job at this place.
pub open spec fn cannot_place(p: &Problem, fleet: &Fleet, s: &Solution, job: usize, pl: usize) -> bool {
    &&& forall|r: int|
        0 <= r < s.routes@.len() ==> #[trigger] cannot_insert_at(
            p,
            route_actor(fleet, s, r),
            s.routes@[r].tour@,
            job,
            pl,
        )
    &&& forall|x: usize|
        x < fleet.actors@.len() && !actor_used(s, x) ==> #[trigger] cannot_insert_at(
            p,
            fleet.actors@[x as int],
            Seq::empty(),
            job,
            pl,
        )
}

/// No route, and no new route of an unused actor, can take the job at any of its places.
pub open spec fn cannot_insert(p: &Problem, fleet: &Fleet, s: &Solution, job: usize) -> bool {
    forall|pl: usize|
        pl < p.jobs@[job as int].places@.len() ==> #[trigger] cannot_place(p, fleet, s, job, pl)
}

/// The construction has nothing left to do: no unassigned job fits anywhere.
pub open spec fn no_insertion(p: &Problem, fleet: &Fleet, s: &Solution) -> bool {
    forall|k: int|
        0 <= k < s.unassigned@.len() ==> cannot_insert(p, fleet, s, #[trigger] s.unassigned@[k])
}

fn is_actor_used(s: &Solution, x: usize) -> (r: bool)
    ensures
        r == actor_used(s, x),
{
    let mut i: usize = 0;
    while i < s.routes.len()
        invariant
            i <= s.routes@.len(),
            forall|k: int| 0 <= k < i ==> (#[trigger] s.routes@[k]).actor != x,
        decreases s.routes@.len() - i,
    {
        if s.routes[i].actor == x {
            return true;
        }
        i = i + 1;
    }
    false
}

/// Finds the cheapest way to serve the unassigned job in `slot`: over its places, over
/// the existing routes and positions, and over new routes of unused actors.
pub fn best_for_job(p: &Problem, fleet: &Fleet, s: &Solution, slot: usize) -> (r: Option<Insertion>)
    requires
        p.wf(),
        fleet.wf(p),
        solution_valid(p, fleet, s),
        slot < s.unassigned@.len(),
    ensures
        r matches Some(ins) ==> insertion_ok(p, fleet, s, &ins) && ins.slot == slot,
        r is None ==> cannot_insert(p, fleet, s, s.unassigned@[slot as int]),
{
    let job = s.unassigned[slot];
    assert(jobs_assigned_once(p, s));
    let n_places = p.jobs[job].places.len();
    let mut best: Option<Insertion> = None;
    let mut pl: usize = 0;
    while pl < n_places
        invariant
            p.wf(),
            fleet.wf(p),
            solution_valid(p, fleet, s),
            slot < s.unassigned@.len(),
            job == s.unassigned@[slot as int],
            job < p.jobs@.len(),
            n_places == p.jobs@[job as int].places@.len(),
            pl <= n_places,
            best matches Some(ins) ==> insertion_ok(p, fleet, s, &ins) && ins.slot == slot,
            best is None ==> forall|q: usize| q < pl ==> #[trigger] cannot_place(p, fleet, s, job, q),
        decreases n_places - pl,
    {
        let ghost none_before = best is None;
        let mut r: usize = 0;
        while r < s.routes.len()
            invariant
                p.wf(),
                fleet.wf(p),
                solution_valid(p, fleet, s),
                slot < s.unassigned@.len(),
                job == s.unassigned@[slot as int],
                job < p.jobs@.len(),
                n_places == p.jobs@[job as int].places@.len(),
                pl < n_places,
                r <= s.routes@.len(),
                best matches Some(ins) ==> insertion_ok(p, fleet, s, &ins) && ins.slot == slot,
                best is None ==> none_before,
                best is None ==> forall|y: int|
                    0 <= y < r ==> #[trigger] cannot_insert_at(
                        p,
                        route_actor(fleet, s, y),
                        s.routes@[y].tour@,
                        job,
                        pl,
                    ),
            decreases s.routes@.len() - r,
        {
            let route = &s.routes[r];
            assert(routes_feasible(p, fleet, s));
            assert(s.routes@[r as int].actor < fleet.actors@.len());
            let actor = fleet.actors[route.actor];
            assert(p.actor_valid(actor));
            assert(tour_feasible(p, actor, route.tour@));
            match best_position(p, actor, &route.tour, job, pl) {
                Some((pos, t, c)) => {
                    let old_cost = tour_cost_of(p, actor, &route.tour);
                    let delta = c as i128 - old_cost as i128;
                    let better = match &best {
                        Some(b) => delta < b.delta,
                        None => true,
                    };
                    if better {
                        best = Some(
                            Insertion {
                                slot,
                                place: pl,
                                route: Some(r),
                                actor: route.actor,
                                position: pos,
                                tour: t,
                                delta,
                            },
                        );
                    }
                },
                None => {},
            }
            r = r + 1;
        }
        let mut x: usize = 0;
        while x < fleet.actors.len()
            invariant
                p.wf(),
                fleet.wf(p),
                solution_valid(p, fleet, s),
                slot < s.unassigned@.len(),
                job == s.unassigned@[slot as int],
                job < p.jobs@.len(),
                n_places == p.jobs@[job as int].places@.len(),
                pl < n_places,
                x <= fleet.actors@.len(),
                best matches Some(ins) ==> insertion_ok(p, fleet, s, &ins) && ins.slot == slot,
                best is None ==> none_before,
                best is None ==> forall|y: int|
                    0 <= y < s.routes@.len() ==> #[trigger] cannot_insert_at(
                        p,
                        route_actor(fleet, s, y),
                        s.routes@[y].tour@,
                        job,
                        pl,
                    ),
                best is None ==> forall|y: usize|
                    y < x && !actor_used(s, y) ==> #[trigger] cannot_insert_at(
                        p,
                        fleet.actors@[y as int],
                        Seq::empty(),
                        job,
                        pl,
                    ),
            decreases fleet.actors@.len() - x,
        {
            if !is_actor_used(s, x) {
                let actor = fleet.actors[x];
                assert(p.actor_valid(actor));
                let empty: Vec<Activity> = Vec::new();
                match best_position(p, actor, &empty, job, pl) {
                    Some((pos, t, c)) => {
                        let delta = c as i128;
                        let better = match &best {
                            Some(b) => delta < b.delta,
                            None => true,
                        };
                        if better {
                            best = Some(
                                Insertion {
                                    slot,
                                    place: pl,
                                    route: None,
                                    actor: x,
                                    position: pos,
                                    tour: t,
                                    delta,
                                },
                            );
                        }
                    },
                    None => {
                        assert(empty@ == Seq::<Activity>::empty());
                    },
                }
            }
            x = x + 1;
        }
        proof {
            if best is None {
                assert(cannot_place(p, fleet, s, job, pl));
            }
        }
        pl = pl + 1;
    }
    best
}

/// Finds the cheapest insertion over all unassigned jobs; among equals, the job that
/// comes first in the unassigned list wins.
pub fn best_insertion(p: &Problem, fleet: &Fleet, s: &Solution) -> (r: Option<Insertion>)
    requires
        p.wf(),
        fleet.wf(p),
        solution_valid(p, fleet, s),
    ensures
        r matches Some(ins) ==> insertion_ok(p, fleet, s, &ins),
        r is None ==> no_insertion(p, fleet, s),
{
    let mut best: Option<Insertion> = None;
    let mut k: usize = 0;
    while k < s.unassigned.len()
        invariant
            p.wf(),
            fleet.wf(p),
            solution_valid(p, fleet, s),
            k <= s.unassigned@.len(),
            best matches Some(ins) ==> insertion_ok(p, fleet, s, &ins),
            best is None ==> forall|y: int|
                0 <= y < k ==> cannot_insert(p, fleet, s, #[trigger] s.unassigned@[y]),
        decreases s.unassigned@.len() - k,
    {
        match best_for_job(p, fleet, s, k) {
            Some(ins) => {
                let better = match &best {
                    Some(b) => ins.delta < b.delta,
                    None => true,
                };
                if better {
                    best = Some(ins);
                }
            },
            None => {},
        }
        k = k + 1;
    }
    best
}

/// The solution that an insertion leads to.
pub open spec fn inserted(s: &Solution, s2: &Solution, ins: &Insertion) -> bool {
    &&& s2.unassigned@ == s.unassigned@.remove(ins.slot as int)
    &&& match ins.route {
        Some(r) => {
            &&& s2.routes@.len() == s.routes@.len()
            &&& forall|y: int| 0 <= y < s.routes@.len() && y != r ==> s2.routes@[y] == s.routes@[y]
            &&& s2.routes@[r as int].actor == ins.actor
            &&& s2.routes@[r as int].tour@ == ins.tour@
        },
        None => {
            &&& s2.routes@.len() == s.routes@.len() + 1
            &&& forall|y: int| 0 <= y < s.routes@.len() ==> s2.routes@[y] == s.routes@[y]
            &&& s2.routes@[s.routes@.len() as int].actor == ins.actor
            &&& s2.routes@[s.routes@.len() as int].tour@ == ins.tour@
        },
    }
}

/// Applying a feasible insertion keeps every invariant of a solution.
pub proof fn lemma_insertion_keeps_valid(
    p: &Problem,
    fleet: &Fleet,
    s: &Solution,
    s2: &Solution,
    ins: &Insertion,
)
    requires
        solution_valid(p, fleet, s),
        insertion_ok(p, fleet, s, ins),
        inserted(s, s2, ins),
    ensures
        solution_valid(p, fleet, s2),
{
    let j = s.unassigned@[ins.slot as int];
    let base = base_tour(s, ins);
    let pos = ins.position as int;
    let tr: int = match ins.route {
        Some(r) => r as int,
        None => s.routes@.len() as int,
    };
    let slot = ins.slot as int;
    lemma_inserted_jobs(base, ins.tour@, pos, (j, ins.place));
    assert(s2.routes@[tr].tour@ == ins.tour@);
    assert forall|y: int| 0 <= y < s2.routes@.len() && y != tr implies s2.routes@[y] == s.routes@[y]
        && y < s.routes@.len() by {}
    // where each job of the new solution's tours came from
    assert forall|y: int, i: int|
        0 <= y < s2.routes@.len() && 0 <= i < s2.routes@[y].tour@.len() && !(y == tr && i == pos)
        implies {
            let oi = if y == tr && i > pos { i - 1 } else { i };
            &&& 0 <= y < s.routes@.len()
            &&& 0 <= oi < s.routes@[y].tour@.len()
            &&& #[trigger] tour_job(s2, y, i) == tour_job(s, y, oi)
        } by {
        if y == tr {
            assert(ins.route is Some);
        }
    }
    assert(routes_feasible(p, fleet, s2)) by {
        assert forall|y: int| 0 <= y < s2.routes@.len() implies (#[trigger] s2.routes@[y]).actor
            < fleet.actors@.len() && tour_feasible(p, route_actor(fleet, s2, y), s2.routes@[y].tour@) by {
            if y != tr {
                assert(s.routes@[y] == s2.routes@[y]);
                assert(routes_feasible(p, fleet, s));
            }
        }
    }
    assert(actors_distinct(s2)) by {
        assert forall|y1: int, y2: int|
            0 <= y1 < s2.routes@.len() && 0 <= y2 < s2.routes@.len() && y1 != y2
                implies (#[trigger] s2.routes@[y1]).actor != (#[trigger] s2.routes@[y2]).actor by {
            if y1 == tr || y2 == tr {
                let other = if y1 == tr { y2 } else { y1 };
                assert(s2.routes@[other] == s.routes@[other]);
                if ins.route is None {
                    assert(!actor_used(s, ins.actor));
                    assert(s.routes@[other].actor != ins.actor);
                }
            }
        }
    }
    assert forall|k: int| 0 <= k < s2.unassigned@.len() implies #[trigger] s2.unassigned@[k]
        == s.unassigned@[if k < slot { k } else { k + 1 }] by {}
    assert(jobs_assigned_once(p, s2)) by {
        assert forall|k1: int, k2: int|
            0 <= k1 < s2.unassigned@.len() && 0 <= k2 < s2.unassigned@.len() && k1 != k2
                implies #[trigger] s2.unassigned@[k1] != #[trigger] s2.unassigned@[k2] by {
            let o1 = if k1 < slot { k1 } else { k1 + 1 };
            let o2 = if k2 < slot { k2 } else { k2 + 1 };
            assert(s.unassigned@[o1] != s.unassigned@[o2]);
        }
        assert forall|y: int, i: int, k: int|
            0 <= y < s2.routes@.len() && 0 <= i < s2.routes@[y].tour@.len() && 0 <= k
                < s2.unassigned@.len() implies #[trigger] tour_job(s2, y, i)
                != #[trigger] s2.unassigned@[k] by {
            let ok = if k < slot { k } else { k + 1 };
            assert(s2.unassigned@[k] == s.unassigned@[ok]);
            if y == tr && i == pos {
                assert(s.unassigned@[slot] != s.unassigned@[ok]);
            } else {
                let oi = if y == tr && i > pos { i - 1 } else { i };
                assert(tour_job(s, y, oi) != s.unassigned@[ok]);
            }
        }
        assert forall|y1: int, i1: int, y2: int, i2: int|
            0 <= y1 < s2.routes@.len() && 0 <= i1 < s2.routes@[y1].tour@.len() && 0 <= y2
                < s2.routes@.len() && 0 <= i2 < s2.routes@[y2].tour@.len() && (y1 != y2 || i1
                != i2) implies #[trigger] tour_job(s2, y1, i1) != #[trigger] tour_job(s2, y2, i2) by {
            let a1 = y1 == tr && i1 == pos;
            let a2 = y2 == tr && i2 == pos;
            let oi1 = if y1 == tr && i1 > pos { i1 - 1 } else { i1 };
            let oi2 = if y2 == tr && i2 > pos { i2 - 1 } else { i2 };
            if a1 && !a2 {
                assert(tour_job(s, y2, oi2) != s.unassigned@[slot]);
            } else if a2 && !a1 {
                assert(tour_job(s, y1, oi1) != s.unassigned@[slot]);
            } else if !a1 && !a2 {
                assert(tour_job(s, y1, oi1) != tour_job(s, y2, oi2));
            }
        }
        assert forall|jj: usize| 0 <= jj < p.jobs@.len() implies s2.unassigned@.contains(jj)
            || in_tours(s2, jj) by {
            if jj == j {
                assert(tour_job(s2, tr, pos) == jj);
            } else if s.unassigned@.contains(jj) {
                let k = choose|k: int| 0 <= k < s.unassigned@.len() && s.unassigned@[k] == jj;
                let nk = if k < slot { k } else { k - 1 };
                assert(s2.unassigned@[nk] == jj);
            } else {
                assert(in_tours(s, jj));
                let (y, i) = choose|y: int, i: int|
                    0 <= y < s.routes@.len() && 0 <= i < s.routes@[y].tour@.len()
                        && #[trigger] tour_job(s, y, i) == jj;
                if y == tr {
                    let ni = if i < pos { i } else { i + 1 };
                    assert(tour_job(s2, y, ni) == jj);
                } else {
                    assert(s2.routes@[y] == s.routes@[y]);
                    assert(tour_job(s2, y, i) == jj);
                }
            }
        }
    }
}

/// `f` maps each visit of `a` to the same visit in `b`, keeping the order.
pub open spec fn embedding(a: Seq<Activity>, b: Seq<Activity>, f: spec_fn(int) -> int) -> bool {
    &&& forall|i: int|
        0 <= i < a.len() ==> 0 <= #[trigger] f(i) < b.len() && b[f(i)].job == a[i].job
            && b[f(i)].place == a[i].place
    &&& forall|i1: int, i2: int| 0 <= i1 < i2 < a.len() ==> #[trigger] f(i1) < #[trigger] f(i2)
}

/// Every visit of `a` is in `b`, in the same order.
pub open spec fn embeds(a: Seq<Activity>, b: Seq<Activity>) -> bool {
    exists|f: spec_fn(int) -> int| #[trigger] embedding(a, b, f)
}

/// `s` keeps the routes of `start`: same actors at the same indices, each with every
/// visit it had, in order.
pub open spec fn keeps_routes(start: &Solution, s: &Solution) -> bool {
    &&& s.routes@.len() >= start.routes@.len()
    &&& forall|y: int|
        0 <= y < start.routes@.len() ==> (#[trigger] s.routes@[y]).actor == start.routes@[y].actor
            && embeds(start.routes@[y].tour@, s.routes@[y].tour@)
}

/// An insertion keeps the routes of any solution that the current one keeps.
proof fn lemma_insertion_keeps_routes(
    start: &Solution,
    s: &Solution,
    s2: &Solution,
    ins: &Insertion,
    j: usize,
)
    requires
        keeps_routes(start, s),
        ins.route matches Some(r) ==> r < s.routes@.len() && s.routes@[r as int].actor == ins.actor,
        ins.position <= base_tour(s, ins).len(),
        follows_plan(ins.tour@, plan_of(base_tour(s, ins)).insert(ins.position as int, (j, ins.place))),
        inserted(s, s2, ins),
    ensures
        keeps_routes(start, s2),
{
    assert forall|y: int| 0 <= y < start.routes@.len() implies (#[trigger] s2.routes@[y]).actor
        == start.routes@[y].actor && embeds(start.routes@[y].tour@, s2.routes@[y].tour@) by {
        let a = start.routes@[y].tour@;
        assert(embeds(a, s.routes@[y].tour@));
        match ins.route {
            Some(r) => {
                if y == r as int {
                    let old_t = s.routes@[y].tour@;
                    let t = ins.tour@;
                    let pos = ins.position as int;
                    let pl = plan_of(old_t).insert(pos, (j, ins.place));
                    let f = choose|f: spec_fn(int) -> int| #[trigger] embedding(a, old_t, f);
                    let g = |i: int|
                        if f(i) < pos {
                            f(i)
                        } else {
                            f(i) + 1
                        };
                    assert forall|i: int| 0 <= i < a.len() implies 0 <= #[trigger] g(i) < t.len()
                        && t[g(i)].job == a[i].job && t[g(i)].place == a[i].place by {
                        assert(t[g(i)].job == pl[g(i)].0 && t[g(i)].place == pl[g(i)].1);
                        assert(0 <= f(i) < old_t.len());
                    }
                    assert forall|i1: int, i2: int| 0 <= i1 < i2 < a.len() implies #[trigger] g(i1)
                        < #[trigger] g(i2) by {
                        assert(f(i1) < f(i2));
                    }
                    assert(embedding(a, t, g));
                } else {
                    assert(s2.routes@[y] == s.routes@[y]);
                }
            },
            None => {
                assert(s2.routes@[y] == s.routes@[y]);
            },
        }
    }
}

/// A solution where nothing can be inserted admits no insertion.
proof fn lemma_no_insertion_blocks(p: &Problem, fleet: &Fleet, s: &Solution, ins: &Insertion)
    requires
        no_insertion(p, fleet, s),
    ensures
        !insertion_ok(p, fleet, s, ins),
{
    if !insertion_ok(p, fleet, s, ins) {
        return;
    }
    let j = s.unassigned@[ins.slot as int];
    assert(cannot_insert(p, fleet, s, j));
    assert(cannot_place(p, fleet, s, j, ins.place));
    match ins.route {
        Some(r) => {
            assert(cannot_insert_at(p, route_actor(fleet, s, r as int), s.routes@[r as int].tour@, j, ins.place));
            assert(follows_plan(ins.tour@, plan_of(s.routes@[r as int].tour@).insert(ins.position as int, (j, ins.place))));
        },
        None => {
            assert(cannot_insert_at(p, fleet.actors@[ins.actor as int], Seq::empty(), j, ins.place));
            assert(follows_plan(ins.tour@, plan_of(Seq::<Activity>::empty()).insert(ins.position as int, (j, ins.place))));
        },
    }
}

/// Builds a feasible solution from a valid starting one (empty, or supplied by the caller)
/// by inserting, again and again, the cheapest feasible (job, place, route, position) until
/// none is left.
pub fn construct(p: &Problem, fleet: &Fleet, start: Solution) -> (r: Solution)
    requires
        p.wf(),
        fleet.wf(p),
        solution_valid(p, fleet, &start),
    ensures
        solution_valid(p, fleet, &r),
        no_insertion(p, fleet, &r),
        r.unassigned@.len() <= start.unassigned@.len(),
        keeps_routes(&start, &r),
        no_insertion(p, fleet, &start) ==> r == start,
{
    let ghost start_g = start;
    let mut s = start;
    proof {
        assert forall|y: int| 0 <= y < start_g.routes@.len() implies embeds(
            start_g.routes@[y].tour@,
            s.routes@[y].tour@,
        ) by {
            let f = |i: int| i;
            assert(embedding(start_g.routes@[y].tour@, s.routes@[y].tour@, f));
        }
    }
    loop
        invariant
            p.wf(),
            fleet.wf(p),
            solution_valid(p, fleet, &s),
            s.unassigned@.len() <= start_g.unassigned@.len(),
            keeps_routes(&start_g, &s),
            start_g == start,
            no_insertion(p, fleet, &start_g) ==> s == start_g,
        decreases s.unassigned@.len(),
    {
        match best_insertion(p, fleet, &s) {
            None => {
                assert(start_g == start);
                return s;
            },
            Some(ins) => {
                let ghost before = s;
                let ghost ins_g = ins;
                s.unassigned.remove(ins.slot);
                match ins.route {
                    Some(r) => {
                        s.routes.set(r, Route { actor: ins.actor, tour: ins.tour });
                    },
                    None => {
                        s.routes.push(Route { actor: ins.actor, tour: ins.tour });
                    },
                }
                proof {
                    if no_insertion(p, fleet, &start_g) {
                        lemma_no_insertion_blocks(p, fleet, &before, &ins_g);
                    }
                    assert(inserted(&before, &s, &ins_g));
                    lemma_insertion_keeps_valid(p, fleet, &before, &s, &ins_g);
                    lemma_insertion_keeps_routes(
                        &start_g,
                        &before,
                        &s,
                        &ins_g,
                        before.unassigned@[ins_g.slot as int],
                    );
                }
            },
        }
    }
}

} // verus!
