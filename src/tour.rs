use vstd::prelude::*;
use crate::model::{Actor, Matrix, Place, Problem, TimeWindow, VehicleDetail};

verus! {

/// A job served at one of its places, through one of that place's windows, with its schedule.
#[derive(Clone, Copy, Debug, PartialEq, Eq, Structural)]
pub struct Activity {
    pub job: usize,
    pub place: usize,
    pub window: usize,
    pub arrival: u64,
    pub departure: u64,
}

/// An actor and the activities it performs, in order.
#[derive(Clone, Debug)]
pub struct Route {
    pub actor: usize,
    pub tour: Vec<Activity>,
}

pub open spec fn detail_of(p: &Problem, a: Actor) -> VehicleDetail {
    p.vehicles@[a.vehicle as int].details@[a.detail as int]
}

pub open spec fn matrix_of(p: &Problem, a: Actor) -> Matrix {
    p.matrices@[p.vehicles@[a.vehicle as int].profile as int]
}

pub open spec fn travel_time(m: Matrix, from: int, to: int) -> int {
    m.durations@[from * m.size + to] as int
}

pub open spec fn travel_distance(m: Matrix, from: int, to: int) -> int {
    m.distances@[from * m.size + to] as int
}

pub open spec fn place_of(p: &Problem, job: usize, place: usize) -> Place {
    p.jobs@[job as int].places@[place as int]
}

pub open spec fn act_place(p: &Problem, act: Activity) -> Place {
    place_of(p, act.job, act.place)
}

/// Where the actor is before the activity at index `i`.
pub open spec fn location_before(p: &Problem, a: Actor, tour: Seq<Activity>, i: int) -> int {
    if i == 0 {
        detail_of(p, a).start_location as int
    } else {
        act_place(p, tour[i - 1]).location as int
    }
}

/// When the actor leaves for the activity at index `i`.
pub open spec fn departure_before(p: &Problem, a: Actor, tour: Seq<Activity>, i: int) -> int {
    if i == 0 {
        detail_of(p, a).start_time as int
    } else {
        tour[i - 1].departure as int
    }
}

/// Service starts on arrival, or when the window opens if that is later.
pub open spec fn service_start(arrival: int, w: TimeWindow) -> int {
    if arrival < w.start {
        w.start as int
    } else {
        arrival
    }
}

pub open spec fn window_fits(arrival: int, duration: int, w: TimeWindow) -> bool {
    service_start(arrival, w) + duration <= w.end
}

/// The activity at index `i` refers to a job place and window, is reached by travelling
/// straight from the previous one, and is served inside its window.
pub open spec fn activity_scheduled(p: &Problem, a: Actor, tour: Seq<Activity>, i: int) -> bool {
    let act = tour[i];
    let pl = act_place(p, act);
    &&& act.job < p.jobs@.len()
    &&& act.place < p.jobs@[act.job as int].places@.len()
    &&& act.window < pl.times@.len()
    &&& act.arrival == departure_before(p, a, tour, i) + travel_time(
        matrix_of(p, a),
        location_before(p, a, tour, i),
        pl.location as int,
    )
    &&& window_fits(act.arrival as int, pl.duration as int, pl.times@[act.window as int])
    &&& act.departure == service_start(act.arrival as int, pl.times@[act.window as int])
        + pl.duration
}

/// Net load in dimension `d` after the first `n` activities of a tour.
pub open spec fn load_after(p: &Problem, tour: Seq<Activity>, n: nat, d: int) -> int
    decreases n,
{
    if n == 0 || n > tour.len() {
        0
    } else {
        let job = p.jobs@[tour[n - 1].job as int];
        load_after(p, tour, (n - 1) as nat, d) + job.pickup@[d] - job.delivery@[d]
    }
}

pub open spec fn loads_fit(p: &Problem, a: Actor, tour: Seq<Activity>) -> bool {
    forall|n: nat, d: int|
        1 <= n <= tour.len() && 0 <= d < p.dims ==> 0 <= #[trigger] load_after(p, tour, n, d)
            <= detail_of(p, a).capacity@[d]
}

/// When the shift is over: arrival at the end location, or the last departure.
pub open spec fn finish_time(p: &Problem, a: Actor, tour: Seq<Activity>) -> int {
    let last = departure_before(p, a, tour, tour.len() as int);
    match detail_of(p, a).end_location {
        Some(e) => last + travel_time(
            matrix_of(p, a),
            location_before(p, a, tour, tour.len() as int),
            e as int,
        ),
        None => last,
    }
}

/// Every activity is reached in time and served inside one of its windows.
pub open spec fn all_scheduled(p: &Problem, a: Actor, tour: Seq<Activity>) -> bool {
    forall|i: int| 0 <= i < tour.len() ==> activity_scheduled(p, a, tour, i)
}

/// A tour that the actor can perform: schedule, time windows, capacity and shift end.
pub open spec fn tour_feasible(p: &Problem, a: Actor, tour: Seq<Activity>) -> bool {
    &&& all_scheduled(p, a, tour)
    &&& loads_fit(p, a, tour)
    &&& finish_time(p, a, tour) <= detail_of(p, a).end_time
}

/// The tour serves the planned (job, place) pairs in the planned order.
pub open spec fn follows_plan(tour: Seq<Activity>, plan: Seq<(usize, usize)>) -> bool {
    &&& tour.len() == plan.len()
    &&& forall|i: int|
        0 <= i < tour.len() ==> (#[trigger] tour[i]).job == plan[i].0 && tour[i].place == plan[i].1
}

pub open spec fn plan_of(tour: Seq<Activity>) -> Seq<(usize, usize)> {
    tour.map_values(|act: Activity| (act.job, act.place))
}

/// The rates of an actor: its vehicle's and its driver's together.
pub open spec fn actor_costs(p: &Problem, a: Actor) -> (int, int, int, int, int) {
    let v = p.vehicles@[a.vehicle as int].costs;
    let d = p.drivers@[a.driver as int].costs;
    (
        v.fixed + d.fixed,
        v.per_distance + d.per_distance,
        v.per_driving_time + d.per_driving_time,
        v.per_waiting_time + d.per_waiting_time,
        v.per_service_time + d.per_service_time,
    )
}

pub open spec fn saturate(x: int) -> int {
    if x > u64::MAX {
        u64::MAX as int
    } else {
        x
    }
}

/// Cost of the leg that leads to the activity at index `i` and of serving it.
pub open spec fn leg_cost(p: &Problem, a: Actor, tour: Seq<Activity>, i: int) -> int {
    let act = tour[i];
    let pl = act_place(p, act);
    let m = matrix_of(p, a);
    let from = location_before(p, a, tour, i);
    let start = service_start(act.arrival as int, pl.times@[act.window as int]);
    actor_costs(p, a).1 * travel_distance(m, from, pl.location as int)
        + actor_costs(p, a).2 * travel_time(m, from, pl.location as int)
        + actor_costs(p, a).3 * (start - act.arrival)
        + actor_costs(p, a).4 * pl.duration
}

/// Cost of the way back to the end location, if the shift has one.
pub open spec fn return_cost(p: &Problem, a: Actor, tour: Seq<Activity>) -> int {
    match detail_of(p, a).end_location {
        Some(e) => {
            let m = matrix_of(p, a);
            let from = location_before(p, a, tour, tour.len() as int);
            actor_costs(p, a).1 * travel_distance(m, from, e as int)
                + actor_costs(p, a).2 * travel_time(m, from, e as int)
        },
        None => 0,
    }
}

/// Fixed cost and the first `n` legs, saturated at `u64::MAX`.
pub open spec fn cost_upto(p: &Problem, a: Actor, tour: Seq<Activity>, n: nat) -> int
    decreases n,
{
    if n == 0 || n > tour.len() {
        actor_costs(p, a).0
    } else {
        saturate(cost_upto(p, a, tour, (n - 1) as nat) + leg_cost(p, a, tour, n - 1))
    }
}

pub open spec fn tour_cost(p: &Problem, a: Actor, tour: Seq<Activity>) -> int {
    saturate(cost_upto(p, a, tour, tour.len()) + return_cost(p, a, tour))
}

} // verus!
