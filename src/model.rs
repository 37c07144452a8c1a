use vstd::prelude::*;

verus! {

/// Upper bound on every time, duration, distance, capacity, demand and cost rate of a
/// problem, so that schedules and costs are computed without overflow.
pub const VALUE_LIMIT: u64 = 1073741824;

/// A closed interval of time in which service may take place.
#[derive(Clone, Copy, Debug, PartialEq, Eq, Structural)]
pub struct TimeWindow {
    pub start: u64,
    pub end: u64,
}

/// One alternative place at which a job can be served.
#[derive(Clone, Debug)]
pub struct Place {
    pub location: usize,
    pub duration: u64,
    pub times: Vec<TimeWindow>,
}

/// A unit of work: alternative places and a load change per capacity dimension.
#[derive(Clone, Debug)]
pub struct Job {
    pub places: Vec<Place>,
    pub pickup: Vec<u64>,
    pub delivery: Vec<u64>,
}

/// Cost rates, per unit of each kind.
#[derive(Clone, Copy, Debug, PartialEq, Eq, Structural)]
pub struct Costs {
    pub fixed: u64,
    pub per_distance: u64,
    pub per_driving_time: u64,
    pub per_waiting_time: u64,
    pub per_service_time: u64,
}

/// One shift variant of a vehicle.
#[derive(Clone, Debug)]
pub struct VehicleDetail {
    pub start_location: usize,
    pub start_time: u64,
    pub end_location: Option<usize>,
    pub end_time: u64,
    pub capacity: Vec<u64>,
}

#[derive(Clone, Debug)]
pub struct Vehicle {
    pub profile: usize,
    pub costs: Costs,
    pub details: Vec<VehicleDetail>,
}

#[derive(Clone, Copy, Debug, PartialEq, Eq, Structural)]
pub struct Driver {
    pub costs: Costs,
}

/// The unit that is scheduled: a vehicle, a driver and one shift of the vehicle.
#[derive(Clone, Copy, Debug, PartialEq, Eq, Structural)]
pub struct Actor {
    pub vehicle: usize,
    pub driver: usize,
    pub detail: usize,
}

/// Travel durations and distances between locations, row-major: `from * size + to`.
#[derive(Clone, Debug)]
pub struct Matrix {
    pub size: usize,
    pub durations: Vec<u64>,
    pub distances: Vec<u64>,
}

#[derive(Clone, Debug)]
pub struct Problem {
    pub dims: usize,
    pub jobs: Vec<Job>,
    pub vehicles: Vec<Vehicle>,
    pub drivers: Vec<Driver>,
    pub matrices: Vec<Matrix>,
}

/// Why a problem is refused before any search.
#[derive(Clone, Copy, Debug, PartialEq, Eq, Structural)]
pub enum ProblemError {
    DimensionMismatch,
    UnknownLocation,
    ValueTooLarge,
}

pub open spec fn costs_bounded(c: Costs) -> bool {
    &&& c.fixed <= VALUE_LIMIT
    &&& c.per_distance <= VALUE_LIMIT
    &&& c.per_driving_time <= VALUE_LIMIT
    &&& c.per_waiting_time <= VALUE_LIMIT
    &&& c.per_service_time <= VALUE_LIMIT
}

pub open spec fn matrix_wf(m: Matrix, locations: nat) -> bool {
    &&& locations <= m.size
    &&& m.durations@.len() == m.size * m.size
    &&& m.distances@.len() == m.size * m.size
}

pub open spec fn matrix_bounded(m: Matrix) -> bool {
    &&& forall|k: int| 0 <= k < m.durations@.len() ==> m.durations@[k] <= VALUE_LIMIT
    &&& forall|k: int| 0 <= k < m.distances@.len() ==> m.distances@[k] <= VALUE_LIMIT
}

pub open spec fn place_bounded(pl: Place) -> bool {
    &&& pl.duration <= VALUE_LIMIT
    &&& forall|k: int|
        0 <= k < pl.times@.len() ==> #[trigger] pl.times@[k].end <= VALUE_LIMIT
            && pl.times@[k].start <= VALUE_LIMIT
}

pub open spec fn job_bounded(j: Job) -> bool {
    &&& forall|k: int| 0 <= k < j.places@.len() ==> place_bounded(#[trigger] j.places@[k])
    &&& forall|d: int| 0 <= d < j.pickup@.len() ==> #[trigger] j.pickup@[d] <= VALUE_LIMIT
    &&& forall|d: int| 0 <= d < j.delivery@.len() ==> #[trigger] j.delivery@[d] <= VALUE_LIMIT
}

pub open spec fn detail_bounded(dt: VehicleDetail) -> bool {
    &&& dt.start_time <= VALUE_LIMIT
    &&& dt.end_time <= VALUE_LIMIT
    &&& forall|d: int| 0 <= d < dt.capacity@.len() ==> #[trigger] dt.capacity@[d] <= VALUE_LIMIT
}

pub open spec fn vehicle_bounded(v: Vehicle) -> bool {
    &&& costs_bounded(v.costs)
    &&& forall|k: int| 0 <= k < v.details@.len() ==> detail_bounded(#[trigger] v.details@[k])
}

impl Problem {
    /// Number of distinct locations: every matrix covers them all.
    pub open spec fn locations(&self) -> nat {
        if self.matrices@.len() == 0 {
            0
        } else {
            self.matrices@[0].size as nat
        }
    }

    /// Every load vector has the problem's number of dimensions, and at least one job
    /// place and one shift exist where they are declared.
    pub open spec fn dims_ok(&self) -> bool {
        &&& forall|j: int|
            0 <= j < self.jobs@.len() ==> (#[trigger] self.jobs@[j]).pickup@.len() == self.dims
                && self.jobs@[j].delivery@.len() == self.dims
        &&& forall|v: int, k: int|
            0 <= v < self.vehicles@.len() && 0 <= k < self.vehicles@[v].details@.len()
                ==> (#[trigger] self.vehicles@[v].details@[k]).capacity@.len() == self.dims
    }

    /// Every profile has a matrix over the same locations, and every location is one of them.
    pub open spec fn locations_ok(&self) -> bool {
        &&& self.matrices@.len() > 0
        &&& forall|m: int|
            0 <= m < self.matrices@.len() ==> matrix_wf(#[trigger] self.matrices@[m], self.locations())
                && self.matrices@[m].size == self.locations()
        &&& forall|v: int|
            0 <= v < self.vehicles@.len() ==> (#[trigger] self.vehicles@[v]).profile
                < self.matrices@.len()
        &&& forall|v: int, k: int|
            0 <= v < self.vehicles@.len() && 0 <= k < self.vehicles@[v].details@.len() ==> {
                let dt = #[trigger] self.vehicles@[v].details@[k];
                &&& dt.start_location < self.locations()
                &&& dt.end_location matches Some(e) ==> e < self.locations()
            }
        &&& forall|j: int, k: int|
            0 <= j < self.jobs@.len() && 0 <= k < self.jobs@[j].places@.len()
                ==> (#[trigger] self.jobs@[j].places@[k]).location < self.locations()
    }

    pub open spec fn values_ok(&self) -> bool {
        &&& forall|j: int| 0 <= j < self.jobs@.len() ==> job_bounded(#[trigger] self.jobs@[j])
        &&& forall|v: int| 0 <= v < self.vehicles@.len() ==> vehicle_bounded(#[trigger] self.vehicles@[v])
        &&& forall|d: int| 0 <= d < self.drivers@.len() ==> costs_bounded(#[trigger] self.drivers@[d].costs)
        &&& forall|m: int| 0 <= m < self.matrices@.len() ==> matrix_bounded(#[trigger] self.matrices@[m])
    }

    /// A problem that the solver accepts.
    pub open spec fn wf(&self) -> bool {
        self.dims_ok() && self.locations_ok() && self.values_ok()
    }

    pub open spec fn actor_valid(&self, a: Actor) -> bool {
        &&& a.vehicle < self.vehicles@.len()
        &&& a.driver < self.drivers@.len()
        &&& a.detail < self.vehicles@[a.vehicle as int].details@.len()
    }
}

} // verus!
