use vstd::prelude::*;
use crate::model::{
    costs_bounded, detail_bounded, job_bounded, matrix_bounded, matrix_wf, place_bounded,
    vehicle_bounded, Costs, Job, Place, Problem, ProblemError, Vehicle, VALUE_LIMIT,
};

verus! {

fn all_le_limit(v: &Vec<u64>) -> (r: bool)
    ensures
        r == forall|k: int| 0 <= k < v@.len() ==> #[trigger] v@[k] <= VALUE_LIMIT,
{
    let mut i: usize = 0;
    while i < v.len()
        invariant
            i <= v@.len(),
            forall|k: int| 0 <= k < i ==> #[trigger] v@[k] <= VALUE_LIMIT,
        decreases v@.len() - i,
    {
        if v[i] > VALUE_LIMIT {
            return false;
        }
        i = i + 1;
    }
    true
}

fn costs_ok(c: &Costs) -> (r: bool)
    ensures
        r == costs_bounded(*c),
{
    c.fixed <= VALUE_LIMIT && c.per_distance <= VALUE_LIMIT && c.per_driving_time <= VALUE_LIMIT
        && c.per_waiting_time <= VALUE_LIMIT && c.per_service_time <= VALUE_LIMIT
}

fn place_ok(pl: &Place) -> (r: bool)
    ensures
        r == place_bounded(*pl),
{
    if pl.duration > VALUE_LIMIT {
        return false;
    }
    let mut i: usize = 0;
    while i < pl.times.len()
        invariant
            i <= pl.times@.len(),
            forall|k: int|
                0 <= k < i ==> #[trigger] pl.times@[k].end <= VALUE_LIMIT && pl.times@[k].start
                    <= VALUE_LIMIT,
        decreases pl.times@.len() - i,
    {
        if pl.times[i].end > VALUE_LIMIT || pl.times[i].start > VALUE_LIMIT {
            return false;
        }
        i = i + 1;
    }
    true
}

fn job_ok(j: &Job) -> (r: bool)
    ensures
        r == job_bounded(*j),
{
    let mut i: usize = 0;
    while i < j.places.len()
        invariant
            i <= j.places@.len(),
            forall|k: int| 0 <= k < i ==> place_bounded(#[trigger] j.places@[k]),
        decreases j.places@.len() - i,
    {
        if !place_ok(&j.places[i]) {
            return false;
        }
        i = i + 1;
    }
    all_le_limit(&j.pickup) && all_le_limit(&j.delivery)
}

fn vehicle_ok(v: &Vehicle) -> (r: bool)
    ensures
        r == vehicle_bounded(*v),
{
    if !costs_ok(&v.costs) {
        return false;
    }
    let mut i: usize = 0;
    while i < v.details.len()
        invariant
            i <= v.details@.len(),
            forall|k: int| 0 <= k < i ==> detail_bounded(#[trigger] v.details@[k]),
        decreases v.details@.len() - i,
    {
        let dt = &v.details[i];
        if dt.start_time > VALUE_LIMIT || dt.end_time > VALUE_LIMIT || !all_le_limit(&dt.capacity) {
            return false;
        }
        i = i + 1;
    }
    true
}

fn check_dims(p: &Problem) -> (r: bool)
    ensures
        r == p.dims_ok(),
{
    let mut j: usize = 0;
    while j < p.jobs.len()
        invariant
            j <= p.jobs@.len(),
            forall|x: int|
                0 <= x < j ==> (#[trigger] p.jobs@[x]).pickup@.len() == p.dims
                    && p.jobs@[x].delivery@.len() == p.dims,
        decreases p.jobs@.len() - j,
    {
        if p.jobs[j].pickup.len() != p.dims || p.jobs[j].delivery.len() != p.dims {
            return false;
        }
        j = j + 1;
    }
    let mut v: usize = 0;
    while v < p.vehicles.len()
        invariant
            v <= p.vehicles@.len(),
            forall|x: int, k: int|
                0 <= x < v && 0 <= k < p.vehicles@[x].details@.len()
                    ==> (#[trigger] p.vehicles@[x].details@[k]).capacity@.len() == p.dims,
        decreases p.vehicles@.len() - v,
    {
        let mut k: usize = 0;
        while k < p.vehicles[v].details.len()
            invariant
                v < p.vehicles@.len(),
                k <= p.vehicles@[v as int].details@.len(),
                forall|x: int, y: int|
                    0 <= x < v && 0 <= y < p.vehicles@[x].details@.len()
                        ==> (#[trigger] p.vehicles@[x].details@[y]).capacity@.len() == p.dims,
                forall|y: int|
                    0 <= y < k ==> (#[trigger] p.vehicles@[v as int].details@[y]).capacity@.len()
                        == p.dims,
            decreases p.vehicles@[v as int].details@.len() - k,
        {
            if p.vehicles[v].details[k].capacity.len() != p.dims {
                return false;
            }
            k = k + 1;
        }
        v = v + 1;
    }
    true
}

fn check_locations(p: &Problem) -> (r: bool)
    ensures
        r == p.locations_ok(),
{
    if p.matrices.len() == 0 {
        return false;
    }
    let n = p.matrices[0].size;
    let mut m: usize = 0;
    while m < p.matrices.len()
        invariant
            p.matrices@.len() > 0,
            n == p.locations(),
            m <= p.matrices@.len(),
            forall|x: int|
                0 <= x < m ==> matrix_wf(#[trigger] p.matrices@[x], p.locations())
                    && p.matrices@[x].size == p.locations(),
        decreases p.matrices@.len() - m,
    {
        let mx = &p.matrices[m];
        if mx.size != n {
            return false;
        }
        match n.checked_mul(n) {
            Some(sq) => {
                if mx.durations.len() != sq || mx.distances.len() != sq {
                    return false;
                }
            },
            None => {
                assert(mx.durations@.len() == mx.durations.len());
                return false;
            },
        }
        m = m + 1;
    }
    let mut v: usize = 0;
    while v < p.vehicles.len()
        invariant
            n == p.locations(),
            v <= p.vehicles@.len(),
            forall|x: int|
                0 <= x < v ==> (#[trigger] p.vehicles@[x]).profile < p.matrices@.len(),
            forall|x: int, k: int|
                0 <= x < v && 0 <= k < p.vehicles@[x].details@.len() ==> {
                    let dt = #[trigger] p.vehicles@[x].details@[k];
                    &&& dt.start_location < p.locations()
                    &&& dt.end_location matches Some(e) ==> e < p.locations()
                },
        decreases p.vehicles@.len() - v,
    {
        if p.vehicles[v].profile >= p.matrices.len() {
            return false;
        }
        let mut k: usize = 0;
        while k < p.vehicles[v].details.len()
            invariant
                n == p.locations(),
                v < p.vehicles@.len(),
                k <= p.vehicles@[v as int].details@.len(),
                forall|x: int, y: int|
                    0 <= x < v && 0 <= y < p.vehicles@[x].details@.len() ==> {
                        let dt = #[trigger] p.vehicles@[x].details@[y];
                        &&& dt.start_location < p.locations()
                        &&& dt.end_location matches Some(e) ==> e < p.locations()
                    },
                forall|y: int|
                    0 <= y < k ==> {
                        let dt = #[trigger] p.vehicles@[v as int].details@[y];
                        &&& dt.start_location < p.locations()
                        &&& dt.end_location matches Some(e) ==> e < p.locations()
                    },
            decreases p.vehicles@[v as int].details@.len() - k,
        {
            let dt = &p.vehicles[v].details[k];
            if dt.start_location >= n {
                return false;
            }
            match dt.end_location {
                Some(e) => {
                    if e >= n {
                        return false;
                    }
                },
                None => {},
            }
            k = k + 1;
        }
        proof {
            assert forall|x: int, y: int|
                0 <= x < v + 1 && 0 <= y < p.vehicles@[x].details@.len() implies {
                    let dt = #[trigger] p.vehicles@[x].details@[y];
                    &&& dt.start_location < p.locations()
                    &&& dt.end_location matches Some(e) ==> e < p.locations()
                } by {
                if x == v {
                }
            }
        }
        v = v + 1;
    }
    let mut j: usize = 0;
    while j < p.jobs.len()
        invariant
            n == p.locations(),
            j <= p.jobs@.len(),
            forall|x: int, k: int|
                0 <= x < j && 0 <= k < p.jobs@[x].places@.len()
                    ==> (#[trigger] p.jobs@[x].places@[k]).location < p.locations(),
        decreases p.jobs@.len() - j,
    {
        let mut k: usize = 0;
        while k < p.jobs[j].places.len()
            invariant
                n == p.locations(),
                j < p.jobs@.len(),
                k <= p.jobs@[j as int].places@.len(),
                forall|x: int, y: int|
                    0 <= x < j && 0 <= y < p.jobs@[x].places@.len()
                        ==> (#[trigger] p.jobs@[x].places@[y]).location < p.locations(),
                forall|y: int|
                    0 <= y < k ==> (#[trigger] p.jobs@[j as int].places@[y]).location
                        < p.locations(),
            decreases p.jobs@[j as int].places@.len() - k,
        {
            if p.jobs[j].places[k].location >= n {
                return false;
            }
            k = k + 1;
        }
        proof {
            assert forall|x: int, y: int|
                0 <= x < j + 1 && 0 <= y < p.jobs@[x].places@.len()
                    implies (#[trigger] p.jobs@[x].places@[y]).location < p.locations() by {
                if x == j {
                }
            }
        }
        j = j + 1;
    }
    true
}

fn check_values(p: &Problem) -> (r: bool)
    ensures
        r == p.values_ok(),
{
    let mut j: usize = 0;
    while j < p.jobs.len()
        invariant
            j <= p.jobs@.len(),
            forall|x: int| 0 <= x < j ==> job_bounded(#[trigger] p.jobs@[x]),
        decreases p.jobs@.len() - j,
    {
        if !job_ok(&p.jobs[j]) {
            return false;
        }
        j = j + 1;
    }
    let mut v: usize = 0;
    while v < p.vehicles.len()
        invariant
            v <= p.vehicles@.len(),
            forall|x: int| 0 <= x < v ==> vehicle_bounded(#[trigger] p.vehicles@[x]),
        decreases p.vehicles@.len() - v,
    {
        if !vehicle_ok(&p.vehicles[v]) {
            return false;
        }
        v = v + 1;
    }
    let mut d: usize = 0;
    while d < p.drivers.len()
        invariant
            d <= p.drivers@.len(),
            forall|x: int| 0 <= x < d ==> costs_bounded(#[trigger] p.drivers@[x].costs),
        decreases p.drivers@.len() - d,
    {
        if !costs_ok(&p.drivers[d].costs) {
            return false;
        }
        d = d + 1;
    }
    let mut m: usize = 0;
    while m < p.matrices.len()
        invariant
            m <= p.matrices@.len(),
            forall|x: int| 0 <= x < m ==> matrix_bounded(#[trigger] p.matrices@[x]),
        decreases p.matrices@.len() - m,
    {
        if !all_le_limit(&p.matrices[m].durations) || !all_le_limit(&p.matrices[m].distances) {
            return false;
        }
        m = m + 1;
    }
    true
}

/// Checks a problem once, before any search: dimensions first, then locations, then
/// the size of the values.
pub fn validate_problem(p: &Problem) -> (r: Result<(), ProblemError>)
    ensures
        r is Ok <==> p.wf(),
        r == Err::<(), ProblemError>(ProblemError::DimensionMismatch) <==> !p.dims_ok(),
        r == Err::<(), ProblemError>(ProblemError::UnknownLocation) <==> p.dims_ok()
            && !p.locations_ok(),
        r == Err::<(), ProblemError>(ProblemError::ValueTooLarge) <==> p.dims_ok()
            && p.locations_ok() && !p.values_ok(),
{
    if !check_dims(p) {
        Err(ProblemError::DimensionMismatch)
    } else if !check_locations(p) {
        Err(ProblemError::UnknownLocation)
    } else if !check_values(p) {
        Err(ProblemError::ValueTooLarge)
    } else {
        Ok(())
    }
}

} // verus!
