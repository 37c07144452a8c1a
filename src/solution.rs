use vstd::prelude::*;
use crate::model::{Actor, Problem};
use crate::tour::{follows_plan, plan_of, tour_feasible, Activity, Route};

verus! {

/// The actors that can be scheduled, one per vehicle, driver and shift.
#[derive(Clone, Debug)]
pub struct Fleet {
    pub actors: Vec<Actor>,
}

/// Routes, one per used actor, and the jobs that no route serves.
#[derive(Clone, Debug)]
pub struct Solution {
    pub routes: Vec<Route>,
    pub unassigned: Vec<usize>,
}

impl Fleet {
    pub open spec fn wf(&self, p: &Problem) -> bool {
        forall|x: int| 0 <= x < self.actors@.len() ==> p.actor_valid(#[trigger] self.actors@[x])
    }
}

pub open spec fn tour_job(s: &Solution, r: int, i: int) -> usize {
    s.routes@[r].tour@[i].job
}

pub open spec fn in_tours(s: &Solution, j: usize) -> bool {
    exists|r: int, i: int|
        0 <= r < s.routes@.len() && 0 <= i < s.routes@[r].tour@.len() && #[trigger] tour_job(s, r, i)
            == j
}

pub open spec fn route_actor(fleet: &Fleet, s: &Solution, r: int) -> Actor {
    fleet.actors@[s.routes@[r].actor as int]
}

/// Every route belongs to an actor of the fleet and its tour is feasible for that actor.
pub open spec fn routes_feasible(p: &Problem, fleet: &Fleet, s: &Solution) -> bool {
    forall|r: int|
        0 <= r < s.routes@.len() ==> (#[trigger] s.routes@[r]).actor < fleet.actors@.len()
            && tour_feasible(p, route_actor(fleet, s, r), s.routes@[r].tour@)
}

/// No actor has two routes.
pub open spec fn actors_distinct(s: &Solution) -> bool {
    forall|r1: int, r2: int|
        0 <= r1 < s.routes@.len() && 0 <= r2 < s.routes@.len() && r1 != r2
            ==> (#[trigger] s.routes@[r1]).actor != (#[trigger] s.routes@[r2]).actor
}

/// Each job is either served exactly once or listed once as unassigned, never both.
pub open spec fn jobs_assigned_once(p: &Problem, s: &Solution) -> bool {
    &&& forall|k: int| 0 <= k < s.unassigned@.len() ==> #[trigger] s.unassigned@[k] < p.jobs@.len()
    &&& forall|k1: int, k2: int|
        0 <= k1 < s.unassigned@.len() && 0 <= k2 < s.unassigned@.len() && k1 != k2
            ==> #[trigger] s.unassigned@[k1] != #[trigger] s.unassigned@[k2]
    &&& forall|r: int, i: int, k: int|
        0 <= r < s.routes@.len() && 0 <= i < s.routes@[r].tour@.len() && 0 <= k
            < s.unassigned@.len() ==> #[trigger] tour_job(s, r, i) != #[trigger] s.unassigned@[k]
    &&& forall|r1: int, i1: int, r2: int, i2: int|
        0 <= r1 < s.routes@.len() && 0 <= i1 < s.routes@[r1].tour@.len() && 0 <= r2
            < s.routes@.len() && 0 <= i2 < s.routes@[r2].tour@.len() && (r1 != r2 || i1 != i2)
            ==> #[trigger] tour_job(s, r1, i1) != #[trigger] tour_job(s, r2, i2)
    &&& forall|j: usize| 0 <= j < p.jobs@.len() ==> s.unassigned@.contains(j) || in_tours(s, j)
}

/// A solution that holds every invariant: one route per actor at most, feasible tours,
/// and each job served once or left unassigned.
pub open spec fn solution_valid(p: &Problem, fleet: &Fleet, s: &Solution) -> bool {
    &&& routes_feasible(p, fleet, s)
    &&& actors_distinct(s)
    &&& jobs_assigned_once(p, s)
}

/// The jobs of a tour after inserting one job at a position.
pub proof fn lemma_inserted_jobs(
    old_tour: Seq<Activity>,
    t: Seq<Activity>,
    pos: int,
    jp: (usize, usize),
)
    requires
        0 <= pos <= old_tour.len(),
        follows_plan(t, plan_of(old_tour).insert(pos, jp)),
    ensures
        t.len() == old_tour.len() + 1,
        forall|i: int| 0 <= i < pos ==> #[trigger] t[i].job == old_tour[i].job,
        t[pos].job == jp.0,
        forall|i: int| pos < i < t.len() ==> #[trigger] t[i].job == old_tour[i - 1].job,
{
    let pl = plan_of(old_tour).insert(pos, jp);
    assert forall|i: int| 0 <= i < pos implies #[trigger] t[i].job == old_tour[i].job by {
        assert(t[i].job == pl[i].0);
    }
    assert(t[pos].job == pl[pos].0);
    assert forall|i: int| pos < i < t.len() implies #[trigger] t[i].job == old_tour[i - 1].job by {
        assert(t[i].job == pl[i].0);
    }
}

/// The shifts `0..k` of vehicle `v` with driver `d`.
pub open spec fn shift_actors(v: nat, d: nat, k: nat) -> Seq<Actor>
    decreases k,
{
    if k == 0 {
        Seq::empty()
    } else {
        shift_actors(v, d, (k - 1) as nat).push(
            Actor { vehicle: v as usize, driver: d as usize, detail: (k - 1) as usize },
        )
    }
}

/// Vehicle `v` with the drivers `0..d`, driver by driver.
pub open spec fn vehicle_actors(p: &Problem, v: nat, d: nat) -> Seq<Actor>
    decreases d,
{
    if d == 0 {
        Seq::empty()
    } else {
        vehicle_actors(p, v, (d - 1) as nat) + shift_actors(
            v,
            (d - 1) as nat,
            p.vehicles@[v as int].details@.len(),
        )
    }
}

/// The actors of vehicles `0..v`, vehicle by vehicle.
pub open spec fn fleet_actors(p: &Problem, v: nat) -> Seq<Actor>
    decreases v,
{
    if v == 0 {
        Seq::empty()
    } else {
        fleet_actors(p, (v - 1) as nat) + vehicle_actors(p, (v - 1) as nat, p.drivers@.len())
    }
}

/// The fleet of a problem in its fixed order: vehicle, then driver, then shift.
pub open spec fn all_actors(p: &Problem) -> Seq<Actor> {
    fleet_actors(p, p.vehicles@.len())
}

impl Fleet {
    /// Every combination of vehicle, driver and shift of the vehicle, vehicle by vehicle.
    pub fn from_problem(p: &Problem) -> (r: Fleet)
        ensures
            r.actors@ == all_actors(p),
            r.wf(p),
            forall|a: Actor| p.actor_valid(a) ==> r.actors@.contains(a),
    {
        let mut actors: Vec<Actor> = Vec::new();
        let mut v: usize = 0;
        while v < p.vehicles.len()
            invariant
                v <= p.vehicles@.len(),
                actors@ == fleet_actors(p, v as nat),
                forall|x: int| 0 <= x < actors@.len() ==> p.actor_valid(#[trigger] actors@[x]),
                forall|a: Actor| p.actor_valid(a) && a.vehicle < v ==> actors@.contains(a),
            decreases p.vehicles@.len() - v,
        {
            let mut dr: usize = 0;
            while dr < p.drivers.len()
                invariant
                    v < p.vehicles@.len(),
                    dr <= p.drivers@.len(),
                    actors@ == fleet_actors(p, v as nat) + vehicle_actors(p, v as nat, dr as nat),
                    forall|x: int| 0 <= x < actors@.len() ==> p.actor_valid(#[trigger] actors@[x]),
                    forall|a: Actor|
                        p.actor_valid(a) && (a.vehicle < v || (a.vehicle == v && a.driver < dr))
                            ==> actors@.contains(a),
                decreases p.drivers@.len() - dr,
            {
                let mut k: usize = 0;
                while k < p.vehicles[v].details.len()
                    invariant
                        v < p.vehicles@.len(),
                        dr < p.drivers@.len(),
                        k <= p.vehicles@[v as int].details@.len(),
                        actors@ == fleet_actors(p, v as nat) + vehicle_actors(p, v as nat, dr as nat)
                            + shift_actors(v as nat, dr as nat, k as nat),
                        forall|x: int|
                            0 <= x < actors@.len() ==> p.actor_valid(#[trigger] actors@[x]),
                        forall|a: Actor|
                            p.actor_valid(a) && (a.vehicle < v || (a.vehicle == v && a.driver < dr)
                                || (a.vehicle == v && a.driver == dr && a.detail < k))
                                ==> actors@.contains(a),
                    decreases p.vehicles@[v as int].details@.len() - k,
                {
                    let a = Actor { vehicle: v, driver: dr, detail: k };
                    let ghost prev = actors@;
                    actors.push(a);
                    proof {
                        assert(actors@ =~= fleet_actors(p, v as nat) + vehicle_actors(
                            p,
                            v as nat,
                            dr as nat,
                        ) + shift_actors(v as nat, dr as nat, (k + 1) as nat));
                        assert(actors@[actors@.len() - 1] == a);
                        assert forall|b: Actor|
                            p.actor_valid(b) && (b.vehicle < v || (b.vehicle == v && b.driver < dr)
                                || (b.vehicle == v && b.driver == dr && b.detail < k + 1))
                                implies actors@.contains(b) by {
                            if b == a {
                                assert(actors@[actors@.len() - 1] == b);
                            } else {
                                let x = choose|x: int| 0 <= x < prev.len() && prev[x] == b;
                                assert(actors@[x] == b);
                            }
                        }
                    }
                    k = k + 1;
                }
                proof {
                    assert(actors@ =~= fleet_actors(p, v as nat) + vehicle_actors(
                        p,
                        v as nat,
                        (dr + 1) as nat,
                    ));
                }
                dr = dr + 1;
            }
            proof {
                assert(actors@ =~= fleet_actors(p, (v + 1) as nat));
            }
            v = v + 1;
        }
        Fleet { actors }
    }
}

impl Solution {
    /// No routes, and every job of the problem unassigned, in declaration order.
    pub fn empty(p: &Problem) -> (r: Solution)
        ensures
            r.routes@.len() == 0,
            r.unassigned@ == Seq::new(p.jobs@.len(), |j: int| j as usize),
            forall|fleet: Fleet| solution_valid(p, &fleet, &r),
    {
        let mut unassigned: Vec<usize> = Vec::new();
        let mut j: usize = 0;
        while j < p.jobs.len()
            invariant
                j <= p.jobs@.len(),
                unassigned@ == Seq::new(j as nat, |x: int| x as usize),
            decreases p.jobs@.len() - j,
        {
            unassigned.push(j);
            proof {
                assert(unassigned@ =~= Seq::new((j + 1) as nat, |x: int| x as usize));
            }
            j = j + 1;
        }
        let r = Solution { routes: Vec::new(), unassigned };
        proof {
            assert forall|jj: usize| 0 <= jj < p.jobs@.len() implies r.unassigned@.contains(jj) by {
                assert(r.unassigned@[jj as int] == jj);
            }
        }
        r
    }
}

} // verus!
