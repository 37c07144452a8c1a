use vstd::prelude::*;
use crate::model::Problem;
use crate::ranking::{fitness_less, fitness_spec, is_better, Fitness};
use crate::solution::{solution_valid, Fleet, Solution};

verus! {

/// A solution and its objective vector.
#[derive(Clone, Debug)]
pub struct Individual {
    pub solution: Solution,
    pub fitness: Fitness,
}

pub open spec fn individual_ok(p: &Problem, fleet: &Fleet, ind: &Individual) -> bool {
    &&& solution_valid(p, fleet, &ind.solution)
    &&& ind.fitness == fitness_spec(p, fleet, &ind.solution)
}

/// A bounded collection of solutions, kept ranked from best to worst.
#[derive(Clone, Debug)]
pub struct Population {
    pub minimize_routes: bool,
    pub bound: usize,
    pub members: Vec<Individual>,
}

/// A sequence cut to at most `bound` elements.
pub open spec fn trimmed<T>(s: Seq<T>, bound: int) -> Seq<T> {
    if s.len() > bound {
        s.subrange(0, bound)
    } else {
        s
    }
}

/// `members` with `ind` ranked in: after every member it does not beat, before the first
/// one it beats, then cut to `bound`.
pub open spec fn ranked_in(
    members: Seq<Individual>,
    ind: Individual,
    bound: int,
    minimize_routes: bool,
    result: Seq<Individual>,
) -> bool {
    exists|i: int|
        0 <= i <= members.len() && (forall|k: int|
            0 <= k < i ==> !fitness_less(ind.fitness, #[trigger] members[k].fitness, minimize_routes))
            && (i < members.len() ==> fitness_less(ind.fitness, members[i].fitness, minimize_routes))
            && result == trimmed(members.insert(i, ind), bound)
}

impl Population {
    pub open spec fn wf(&self, p: &Problem, fleet: &Fleet) -> bool {
        &&& 1 <= self.members@.len() <= self.bound
        &&& forall|i: int| 0 <= i < self.members@.len() ==> individual_ok(p, fleet, #[trigger] &self.members@[i])
        &&& forall|i: int, j: int|
            0 <= i < j < self.members@.len() ==> !fitness_less(
                (#[trigger] self.members@[j]).fitness,
                (#[trigger] self.members@[i]).fitness,
                self.minimize_routes,
            )
    }

    pub open spec fn best_fitness(&self) -> Fitness {
        self.members@[0].fitness
    }

    /// A population that holds one solution.
    pub fn new(first: Individual, bound: usize, minimize_routes: bool) -> (r: Population)
        requires
            bound >= 1,
        ensures
            r.members@ == seq![first],
            r.bound == bound,
            r.minimize_routes == minimize_routes,
    {
        let mut members: Vec<Individual> = Vec::new();
        members.push(first);
        Population { minimize_routes, bound, members }
    }

    /// The best solution seen so far.
    pub fn best(&self) -> (r: &Individual)
        requires
            self.members@.len() >= 1,
        ensures
            *r == self.members@[0],
    {
        &self.members[0]
    }

    /// Ranks a new solution in, then drops the worst ones beyond the bound. The best
    /// solution is never dropped, so the best fitness never gets worse.
    pub fn add(&mut self, ind: Individual, p: &Problem, fleet: &Fleet)
        requires
            old(self).wf(p, fleet),
            individual_ok(p, fleet, &ind),
        ensures
            final(self).wf(p, fleet),
            ranked_in(
                old(self).members@,
                ind,
                old(self).bound as int,
                old(self).minimize_routes,
                final(self).members@,
            ),
            final(self).bound == old(self).bound,
            final(self).minimize_routes == old(self).minimize_routes,
            !fitness_less(old(self).best_fitness(), final(self).best_fitness(), old(self).minimize_routes),
            !fitness_less(ind.fitness, final(self).best_fitness(), old(self).minimize_routes),
            fitness_less(ind.fitness, old(self).best_fitness(), old(self).minimize_routes)
                ==> final(self).best_fitness() == ind.fitness,
    {
        let mr = self.minimize_routes;
        let mut i: usize = 0;
        while i < self.members.len() && !is_better(&ind.fitness, &self.members[i].fitness, mr)
            invariant
                self.wf(p, fleet),
                self.minimize_routes == mr,
                i <= self.members@.len(),
                forall|k: int|
                    0 <= k < i ==> !fitness_less(ind.fitness, (#[trigger] self.members@[k]).fitness, mr),
            decreases self.members@.len() - i,
        {
            i = i + 1;
        }
        let ghost before = self.members@;
        let ghost ind_g = ind;
        let f = ind.fitness;
        self.members.insert(i, ind);
        proof {
            assert(self.members@ == before.insert(i as int, ind));
            assert forall|a: int, b: int|
                0 <= a < b < self.members@.len() implies !fitness_less(
                    (#[trigger] self.members@[b]).fitness,
                    (#[trigger] self.members@[a]).fitness,
                    mr,
                ) by {
                if b == i {
                    assert(self.members@[a] == before[a]);
                } else if a == i {
                    assert(self.members@[b] == before[b - 1]);
                    assert(fitness_less(f, before[i as int].fitness, mr));
                    if b - 1 > i {
                        assert(!fitness_less(before[b - 1].fitness, before[i as int].fitness, mr));
                    }
                } else {
                    let oa = if a < i { a } else { a - 1 };
                    let ob = if b < i { b } else { b - 1 };
                    assert(self.members@[a] == before[oa]);
                    assert(self.members@[b] == before[ob]);
                }
            }
            assert forall|k: int| 0 <= k < self.members@.len() implies individual_ok(
                p,
                fleet,
                #[trigger] &self.members@[k],
            ) by {
                if k < i {
                    assert(self.members@[k] == before[k]);
                } else if k > i {
                    assert(self.members@[k] == before[k - 1]);
                }
            }
            if i == 0 {
                assert(self.members@[1] == before[0]);
            } else {
                assert(self.members@[0] == before[0]);
                assert(self.members@[i as int].fitness == f);
            }
        }
        if self.members.len() > self.bound {
            let ghost full = self.members@;
            self.members.pop();
            proof {
                assert forall|k: int| 0 <= k < self.members@.len() implies self.members@[k]
                    == full[k] by {}
                assert forall|k: int| 0 <= k < self.members@.len() implies individual_ok(
                    p,
                    fleet,
                    #[trigger] &self.members@[k],
                ) by {
                    assert(self.members@[k] == full[k]);
                }
                assert forall|a: int, b: int|
                    0 <= a < b < self.members@.len() implies !fitness_less(
                        (#[trigger] self.members@[b]).fitness,
                        (#[trigger] self.members@[a]).fitness,
                        mr,
                    ) by {
                    assert(self.members@[a] == full[a]);
                    assert(self.members@[b] == full[b]);
                }
                if i > 0 {
                    assert(!fitness_less(full[i as int].fitness, full[0].fitness, mr));
                }
            }
        }
        proof {
            if before.insert(i as int, ind_g).len() > self.bound {
                assert(self.members@ =~= before.insert(i as int, ind_g).subrange(0, self.bound as int));
            } else {
                assert(self.members@ == before.insert(i as int, ind_g));
            }
            assert(ranked_in(before, ind_g, self.bound as int, mr, self.members@));
        }
    }

    /// Tournament of two: of two drawn ranks, the better one. Draws are reduced modulo
    /// the population size.
    pub fn select(&self, draw1: u64, draw2: u64) -> (r: usize)
        requires
            self.members@.len() >= 1,
        ensures
            r < self.members@.len(),
            r as int == if draw1 % (self.members@.len() as u64) <= draw2 % (
            self.members@.len() as u64) {
                draw1 % (self.members@.len() as u64)
            } else {
                draw2 % (self.members@.len() as u64)
            },
    {
        let n = self.members.len() as u64;
        let a = draw1 % n;
        let b = draw2 % n;
        if a <= b {
            a as usize
        } else {
            b as usize
        }
    }
}

} // verus!
