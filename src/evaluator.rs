use vstd::prelude::*;
use crate::model::{matrix_bounded, place_bounded, Actor, Matrix, Place, Problem, VALUE_LIMIT};
use crate::tour::{
    activity_scheduled, all_scheduled, departure_before, loads_fit, detail_of, follows_plan, finish_time,
    load_after, location_before, matrix_of, service_start, tour_feasible, travel_distance,
    travel_time, window_fits, Activity, actor_costs, cost_upto, leg_cost, return_cost,
    tour_cost,
};

verus! {

proof fn lemma_cell_in_matrix(from: int, to: int, size: int)
    requires
        0 <= from < size,
        0 <= to < size,
    ensures
        0 <= from * size + to < size * size,
{
    assert(from * size <= (size - 1) * size) by (nonlinear_arith)
        requires
            0 <= from <= size - 1,
            size > 0,
    ;
    assert((size - 1) * size + size == size * size) by (nonlinear_arith);
    assert(0 <= from * size) by (nonlinear_arith)
        requires
            0 <= from,
            size > 0,
    ;
}

proof fn lemma_load_push(p: &Problem, s: Seq<Activity>, x: Activity, n: nat, d: int)
    requires
        n <= s.len(),
    ensures
        load_after(p, s.push(x), n, d) == load_after(p, s, n, d),
    decreases n,
{
    if n > 0 {
        lemma_load_push(p, s, x, (n - 1) as nat, d);
        assert(s.push(x)[n - 1] == s[n - 1]);
    }
}

/// The load profile depends on the jobs served, not on when they are served.
pub proof fn lemma_load_same_jobs(p: &Problem, s: Seq<Activity>, t: Seq<Activity>, n: nat, d: int)
    requires
        n <= s.len(),
        n <= t.len(),
        forall|k: int| 0 <= k < n ==> s[k].job == t[k].job,
    ensures
        load_after(p, s, n, d) == load_after(p, t, n, d),
    decreases n,
{
    if n > 0 {
        lemma_load_same_jobs(p, s, t, (n - 1) as nat, d);
    }
}

/// Reads the travel duration between two known locations.
fn travel(m: &Matrix, from: usize, to: usize) -> (r: u64)
    requires
        from < m.size,
        to < m.size,
        m.durations@.len() == m.size * m.size,
        matrix_bounded(*m),
    ensures
        r == travel_time(*m, from as int, to as int),
        r <= VALUE_LIMIT,
{
    proof {
        lemma_cell_in_matrix(from as int, to as int, m.size as int);
        assert(m.durations@.len() == m.durations.len());
        assert(from * m.size <= from * m.size + to);
    }
    m.durations[from * m.size + to]
}

/// Reads the distance between two known locations.
fn distance(m: &Matrix, from: usize, to: usize) -> (r: u64)
    requires
        from < m.size,
        to < m.size,
        m.distances@.len() == m.size * m.size,
        matrix_bounded(*m),
    ensures
        r == travel_distance(*m, from as int, to as int),
        r <= VALUE_LIMIT,
{
    proof {
        lemma_cell_in_matrix(from as int, to as int, m.size as int);
        assert(m.distances@.len() == m.distances.len());
        assert(from * m.size <= from * m.size + to);
    }
    m.distances[from * m.size + to]
}

/// Picks, among the windows of a place, the one that lets service end earliest.
pub fn choose_window(pl: &Place, arrival: u64) -> (r: Option<(usize, u64)>)
    requires
        place_bounded(*pl),
        arrival <= 2 * VALUE_LIMIT,
    ensures
        r matches Some((w, dep)) ==> {
            &&& w < pl.times@.len()
            &&& window_fits(arrival as int, pl.duration as int, pl.times@[w as int])
            &&& dep == service_start(arrival as int, pl.times@[w as int]) + pl.duration
            &&& forall|k: int|
                0 <= k < pl.times@.len() && window_fits(
                    arrival as int,
                    pl.duration as int,
                    #[trigger] pl.times@[k],
                ) ==> dep <= service_start(arrival as int, pl.times@[k]) + pl.duration
        },
        r is None ==> forall|k: int|
            0 <= k < pl.times@.len() ==> !window_fits(
                arrival as int,
                pl.duration as int,
                #[trigger] pl.times@[k],
            ),
{
    let mut best: Option<(usize, u64)> = None;
    let mut k: usize = 0;
    while k < pl.times.len()
        invariant
            place_bounded(*pl),
            arrival <= 2 * VALUE_LIMIT,
            k <= pl.times@.len(),
            best matches Some((w, dep)) ==> {
                &&& w < pl.times@.len()
                &&& window_fits(arrival as int, pl.duration as int, pl.times@[w as int])
                &&& dep == service_start(arrival as int, pl.times@[w as int]) + pl.duration
                &&& forall|x: int|
                    0 <= x < k && window_fits(
                        arrival as int,
                        pl.duration as int,
                        #[trigger] pl.times@[x],
                    ) ==> dep <= service_start(arrival as int, pl.times@[x]) + pl.duration
            },
            best is None ==> forall|x: int|
                0 <= x < k ==> !window_fits(
                    arrival as int,
                    pl.duration as int,
                    #[trigger] pl.times@[x],
                ),
        decreases pl.times@.len() - k,
    {
        let w = pl.times[k];
        assert(pl.times@[k as int].end <= VALUE_LIMIT);
        let start = if arrival < w.start {
            w.start
        } else {
            arrival
        };
        let end = start + pl.duration;
        if end <= w.end {
            match best {
                Some((_, dep)) => {
                    if end < dep {
                        best = Some((k, end));
                    }
                },
                None => {
                    best = Some((k, end));
                },
            }
        }
        k = k + 1;
    }
    best
}

/// Why a visit order cannot be scheduled.
#[derive(Clone, Copy, Debug, PartialEq, Eq, Structural)]
pub enum Rejection {
    /// Some visit cannot be served inside any of its windows.
    TimeWindow,
    /// The load leaves the vehicle's capacity at some point of the tour.
    Capacity,
    /// The shift would end too late.
    ShiftEnd,
}

/// A plan whose entries name existing jobs and places.
pub open spec fn plan_valid(p: &Problem, plan: Seq<(usize, usize)>) -> bool {
    forall|i: int|
        0 <= i < plan.len() ==> (#[trigger] plan[i]).0 < p.jobs@.len() && plan[i].1
            < p.jobs@[plan[i].0 as int].places@.len()
}

/// Schedules a planned sequence of (job, place) visits for an actor, propagating arrival
/// and departure times and loads from the start of the shift. Returns a tour when one
/// exists for this plan: each visit takes the window that lets it end earliest, so no
/// other choice of windows can succeed where this one fails. A refusal names the first
/// constraint that no schedule of the plan can meet.
pub fn schedule_plan(p: &Problem, a: Actor, plan: &Vec<(usize, usize)>) -> (r: Result<
    Vec<Activity>,
    Rejection,
>)
    requires
        p.wf(),
        p.actor_valid(a),
        plan_valid(p, plan@),
    ensures
        r matches Ok(t) ==> tour_feasible(p, a, t@) && follows_plan(t@, plan@),
        r matches Ok(t) ==> forall|u: Seq<Activity>, k: int|
            follows_plan(u, plan@) && all_scheduled(p, a, u) && 0 <= k < t@.len()
                ==> t@[k].departure <= #[trigger] u[k].departure,
        r is Err ==> forall|t: Seq<Activity>|
            follows_plan(t, plan@) ==> !tour_feasible(p, a, t),
        r == Err::<Vec<Activity>, Rejection>(Rejection::TimeWindow) ==> forall|t: Seq<Activity>|
            follows_plan(t, plan@) ==> !all_scheduled(p, a, t),
        r == Err::<Vec<Activity>, Rejection>(Rejection::Capacity) ==> forall|t: Seq<Activity>|
            follows_plan(t, plan@) ==> !loads_fit(p, a, t),
        r == Err::<Vec<Activity>, Rejection>(Rejection::ShiftEnd) ==> forall|t: Seq<Activity>|
            follows_plan(t, plan@) && all_scheduled(p, a, t) ==> finish_time(p, a, t)
                > detail_of(p, a).end_time,
{
    let vehicle = &p.vehicles[a.vehicle];
    let detail = &vehicle.details[a.detail];
    let m = &p.matrices[vehicle.profile];
    assert(detail_of(p, a) == *detail);
    assert(matrix_of(p, a) == *m);
    let mut loads: Vec<u64> = Vec::new();
    let mut d: usize = 0;
    while d < p.dims
        invariant
            d <= p.dims,
            loads@.len() == d,
            forall|x: int| 0 <= x < d ==> loads@[x] == 0,
        decreases p.dims - d,
    {
        loads.push(0);
        d = d + 1;
    }
    let mut out: Vec<Activity> = Vec::new();
    let mut cur_loc = detail.start_location;
    let mut cur_dep = detail.start_time;
    let mut i: usize = 0;
    while i < plan.len()
        invariant
            p.wf(),
            p.actor_valid(a),
            plan_valid(p, plan@),
            *detail == detail_of(p, a),
            *m == matrix_of(p, a),
            i <= plan@.len(),
            out@.len() == i,
            forall|k: int|
                0 <= k < i ==> (#[trigger] out@[k]).job == plan@[k].0 && out@[k].place
                    == plan@[k].1,
            forall|k: int| 0 <= k < i ==> activity_scheduled(p, a, out@, k),
            cur_loc == location_before(p, a, out@, i as int),
            cur_dep == departure_before(p, a, out@, i as int),
            cur_dep <= VALUE_LIMIT,
            cur_loc < m.size,
            loads@.len() == p.dims,
            forall|x: int| 0 <= x < p.dims ==> loads@[x] == load_after(p, out@, i as nat, x),
            forall|x: int| 0 <= x < p.dims ==> loads@[x] <= VALUE_LIMIT,
            forall|n: nat, x: int|
                1 <= n <= i && 0 <= x < p.dims ==> 0 <= #[trigger] load_after(p, out@, n, x)
                    <= detail.capacity@[x],
            forall|u: Seq<Activity>, k: int|
                follows_plan(u, plan@) && all_scheduled(p, a, u) && 0 <= k < i ==> out@[k].departure
                    <= #[trigger] u[k].departure,
            forall|t: Seq<Activity>|
                follows_plan(t, plan@) && all_scheduled(p, a, t) ==> cur_dep <= departure_before(
                    p,
                    a,
                    t,
                    i as int,
                ),
        decreases plan@.len() - i,
    {
        let (job_idx, place_idx) = plan[i];
        assert(plan_valid(p, plan@));
        assert(plan@[i as int].0 < p.jobs@.len());
        let job = &p.jobs[job_idx];
        let pl = &job.places[place_idx];
        assert(place_bounded(*pl));
        assert(matrix_bounded(*m));
        assert(pl.location < p.locations());
        let arrival = cur_dep + travel(m, cur_loc, pl.location);
        match choose_window(pl, arrival) {
            None => {
                proof {
                    assert forall|t: Seq<Activity>|
                        follows_plan(t, plan@) implies !all_scheduled(p, a, t) by {
                        if all_scheduled(p, a, t) {
                            assert(activity_scheduled(p, a, t, i as int));
                            assert(t[i as int].job == plan@[i as int].0);
                            assert(location_before(p, a, t, i as int) == cur_loc) by {
                                if i > 0 {
                                    assert(t[i - 1].job == out@[i - 1].job);
                                    assert(t[i - 1].place == out@[i - 1].place);
                                }
                            }
                            let wt = pl.times@[t[i as int].window as int];
                            assert(window_fits(arrival as int, pl.duration as int, wt));
                        }
                    }
                }
                return Err(Rejection::TimeWindow);
            },
            Some((w, dep)) => {
                let act = Activity {
                    job: job_idx,
                    place: place_idx,
                    window: w,
                    arrival,
                    departure: dep,
                };
                let ghost next = out@.push(act);
                let mut new_loads: Vec<u64> = Vec::new();
                let mut x: usize = 0;
                while x < p.dims
                    invariant
                        p.wf(),
                        p.actor_valid(a),
                        *detail == detail_of(p, a),
                        job_idx < p.jobs@.len(),
                        *job == p.jobs@[job_idx as int],
                        next == out@.push(act),
                        out@.len() == i,
                        i < plan@.len(),
                        act.job == job_idx,
                        job_idx == plan@[i as int].0,
                        forall|k: int| 0 <= k < i ==> (#[trigger] out@[k]).job == plan@[k].0,
                        x <= p.dims,
                        loads@.len() == p.dims,
                        new_loads@.len() == x,
                        forall|y: int|
                            0 <= y < p.dims ==> loads@[y] == load_after(p, out@, i as nat, y),
                        forall|y: int| 0 <= y < p.dims ==> loads@[y] <= VALUE_LIMIT,
                        forall|y: int| 0 <= y < x ==> new_loads@[y] <= VALUE_LIMIT,
                        forall|y: int|
                            0 <= y < x ==> new_loads@[y] == load_after(p, next, (i + 1) as nat, y),
                        forall|y: int|
                            0 <= y < x ==> 0 <= #[trigger] load_after(p, next, (i + 1) as nat, y)
                                <= detail.capacity@[y],
                    decreases p.dims - x,
                {
                    assert(job.pickup@.len() == p.dims && detail.capacity@.len() == p.dims);
                    assert(job.pickup@[x as int] <= VALUE_LIMIT);
                    assert(detail.capacity@[x as int] <= VALUE_LIMIT);
                    proof {
                        lemma_load_push(p, out@, act, i as nat, x as int);
                    }
                    let up = loads[x] + job.pickup[x];
                    if up < job.delivery[x] || up - job.delivery[x] > detail.capacity[x] {
                        proof {
                            assert forall|t: Seq<Activity>|
                                follows_plan(t, plan@) implies !loads_fit(p, a, t) by {
                                assert forall|k: int| 0 <= k < i + 1 implies next[k].job
                                    == t[k].job by {
                                    assert(t[k].job == plan@[k].0);
                                    if k < i {
                                        assert(next[k] == out@[k]);
                                    }
                                }
                                lemma_load_same_jobs(p, next, t, (i + 1) as nat, x as int);
                            }
                        }
                        return Err(Rejection::Capacity);
                    }
                    new_loads.push(up - job.delivery[x]);
                    x = x + 1;
                }
                proof {
                    assert forall|n: nat, y: int|
                        1 <= n <= i + 1 && 0 <= y < p.dims implies 0 <= #[trigger] load_after(
                            p,
                            next,
                            n,
                            y,
                        ) <= detail.capacity@[y] by {
                        if n <= i {
                            lemma_load_push(p, out@, act, n, y);
                        }
                    }
                    assert forall|t: Seq<Activity>|
                        follows_plan(t, plan@) && all_scheduled(p, a, t) implies dep
                        <= departure_before(p, a, t, i + 1) by {
                        assert(activity_scheduled(p, a, t, i as int));
                        assert(t[i as int].job == plan@[i as int].0);
                        assert(location_before(p, a, t, i as int) == cur_loc) by {
                            if i > 0 {
                                assert(t[i - 1].job == out@[i - 1].job);
                                assert(t[i - 1].place == out@[i - 1].place);
                            }
                        }
                        let wt = pl.times@[t[i as int].window as int];
                        assert(window_fits(arrival as int, pl.duration as int, wt));
                    }
                    assert forall|k: int| 0 <= k < i + 1 implies activity_scheduled(
                        p,
                        a,
                        next,
                        k,
                    ) by {
                        if k < i {
                            assert(next[k] == out@[k]);
                            assert(activity_scheduled(p, a, out@, k));
                            if k > 0 {
                                assert(next[k - 1] == out@[k - 1]);
                            }
                        } else {
                            assert(next[k] == act);
                            if k > 0 {
                                assert(next[k - 1] == out@[k - 1]);
                            }
                        }
                    }
                }
                let ghost prev = out@;
                out.push(act);
                loads = new_loads;
                cur_loc = pl.location;
                cur_dep = dep;
                proof {
                    assert(out@ == next);
                    assert forall|u: Seq<Activity>, k: int|
                        follows_plan(u, plan@) && all_scheduled(p, a, u) && 0 <= k < i + 1
                            implies out@[k].departure <= #[trigger] u[k].departure by {
                        if k < i {
                            assert(out@[k] == prev[k]);
                        } else {
                            assert(dep <= departure_before(p, a, u, i + 1));
                        }
                    }
                    assert forall|k: int| 0 <= k < i + 1 implies (#[trigger] out@[k]).job
                        == plan@[k].0 && out@[k].place == plan@[k].1 by {
                        if k < i {
                            assert(next[k] == prev[k]);
                        }
                    }
                }
            },
        }
        i = i + 1;
    }
    let finish = match detail.end_location {
        Some(e) => cur_dep + travel(m, cur_loc, e),
        None => cur_dep,
    };
    assert(finish == finish_time(p, a, out@));
    if finish > detail.end_time {
        proof {
            assert forall|t: Seq<Activity>|
                follows_plan(t, plan@) && all_scheduled(p, a, t) implies finish_time(p, a, t)
                > detail_of(p, a).end_time by {
                assert(location_before(p, a, t, i as int) == cur_loc) by {
                    if i > 0 {
                        assert(t[i - 1].job == out@[i - 1].job);
                        assert(t[i - 1].place == out@[i - 1].place);
                    }
                }
            }
        }
        return Err(Rejection::ShiftEnd);
    }
    Ok(out)
}

proof fn lemma_product_bound(rate: int, q: int)
    requires
        0 <= rate <= 2 * VALUE_LIMIT,
        0 <= q <= VALUE_LIMIT,
    ensures
        0 <= rate * q <= 2 * VALUE_LIMIT * VALUE_LIMIT,
{
    assert(0 <= rate * q <= (2 * VALUE_LIMIT) * q) by (nonlinear_arith)
        requires
            0 <= rate <= 2 * VALUE_LIMIT,
            0 <= q,
    ;
    assert((2 * VALUE_LIMIT) * q <= 2 * VALUE_LIMIT * VALUE_LIMIT) by (nonlinear_arith)
        requires
            0 <= q <= VALUE_LIMIT,
    ;
}

/// The cost of a feasible tour: fixed cost, then each leg and service, then the way back,
/// summed with saturation at `u64::MAX`.
pub fn tour_cost_of(p: &Problem, a: Actor, tour: &Vec<Activity>) -> (r: u64)
    requires
        p.wf(),
        p.actor_valid(a),
        tour_feasible(p, a, tour@),
    ensures
        r == tour_cost(p, a, tour@),
{
    let vehicle = &p.vehicles[a.vehicle];
    let driver = &p.drivers[a.driver];
    let detail = &vehicle.details[a.detail];
    let m = &p.matrices[vehicle.profile];
    assert(detail_of(p, a) == *detail);
    assert(matrix_of(p, a) == *m);
    assert(matrix_bounded(*m));
    let vc = vehicle.costs;
    let dc = driver.costs;
    let per_distance = vc.per_distance + dc.per_distance;
    let per_driving = vc.per_driving_time + dc.per_driving_time;
    let per_waiting = vc.per_waiting_time + dc.per_waiting_time;
    let per_service = vc.per_service_time + dc.per_service_time;
    let mut acc: u64 = vc.fixed + dc.fixed;
    let mut from = detail.start_location;
    let mut i: usize = 0;
    while i < tour.len()
        invariant
            p.wf(),
            p.actor_valid(a),
            tour_feasible(p, a, tour@),
            *detail == detail_of(p, a),
            *m == matrix_of(p, a),
            matrix_bounded(*m),
            vc == p.vehicles@[a.vehicle as int].costs,
            dc == p.drivers@[a.driver as int].costs,
            per_distance == actor_costs(p, a).1,
            per_driving == actor_costs(p, a).2,
            per_waiting == actor_costs(p, a).3,
            per_service == actor_costs(p, a).4,
            per_distance <= 2 * VALUE_LIMIT,
            per_driving <= 2 * VALUE_LIMIT,
            per_waiting <= 2 * VALUE_LIMIT,
            per_service <= 2 * VALUE_LIMIT,
            i <= tour@.len(),
            from == location_before(p, a, tour@, i as int),
            from < m.size,
            acc == cost_upto(p, a, tour@, i as nat),
        decreases tour@.len() - i,
    {
        let act = tour[i];
        assert(activity_scheduled(p, a, tour@, i as int));
        let pl = &p.jobs[act.job].places[act.place];
        assert(place_bounded(*pl));
        let w = pl.times[act.window];
        assert(pl.times@[act.window as int].end <= VALUE_LIMIT);
        let start = if act.arrival < w.start {
            w.start
        } else {
            act.arrival
        };
        let dist = distance(m, from, pl.location);
        let dur = travel(m, from, pl.location);
        proof {
            lemma_product_bound(per_distance as int, dist as int);
            lemma_product_bound(per_driving as int, dur as int);
            lemma_product_bound(per_waiting as int, (start - act.arrival) as int);
            lemma_product_bound(per_service as int, pl.duration as int);
        }
        let leg = per_distance * dist + per_driving * dur + per_waiting * (start - act.arrival)
            + per_service * pl.duration;
        assert(leg == leg_cost(p, a, tour@, i as int));
        acc = acc.saturating_add(leg);
        from = pl.location;
        i = i + 1;
    }
    let back: u64 = match detail.end_location {
        Some(e) => {
            let dist = distance(m, from, e);
            let dur = travel(m, from, e);
            proof {
                lemma_product_bound(per_distance as int, dist as int);
                lemma_product_bound(per_driving as int, dur as int);
            }
            per_distance * dist + per_driving * dur
        },
        None => 0,
    };
    assert(back == return_cost(p, a, tour@));
    acc.saturating_add(back)
}

} // verus!
