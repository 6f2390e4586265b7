use vstd::prelude::*;

verus! {

/// The last known state of one dependency of the service.
pub struct Dependency {
    pub name: String,
    pub up: bool,
}

/// What the health endpoint reports.
pub struct HealthPayload {
    pub dependencies: Vec<Dependency>,
}

/// The service is healthy when every dependency is up.
pub open spec fn all_up(ds: Seq<Dependency>) -> bool {
    forall|i: int| 0 <= i < ds.len() ==> (#[trigger] ds[i]).up
}

impl HealthPayload {
    pub fn is_healthy(&self) -> (r: bool)
        ensures
            r == all_up(self.dependencies@),
    {
        let mut i: usize = 0;
        while i < self.dependencies.len()
            invariant
                i <= self.dependencies@.len(),
                forall|k: int| 0 <= k < i ==> (#[trigger] self.dependencies@[k]).up,
            decreases self.dependencies@.len() - i,
        {
            if !self.dependencies[i].up {
                return false;
            }
            i += 1;
        }
        true
    }
}

/// How a dependency's health moved between two checks.
#[derive(PartialEq, Eq, Structural, Clone, Copy, Debug)]
pub enum HealthChange {
    BecameUnhealthy,
    BecameHealthy,
    Unchanged,
}

/// The change from the recorded health `current` to the outcome of a new
/// check; only a change is worth reporting.
pub fn health_change(current: bool, checked_ok: bool) -> (r: HealthChange)
    ensures
        current && !checked_ok ==> r == HealthChange::BecameUnhealthy,
        !current && checked_ok ==> r == HealthChange::BecameHealthy,
        current == checked_ok ==> r == HealthChange::Unchanged,
{
    if current && !checked_ok {
        HealthChange::BecameUnhealthy
    } else if !current && checked_ok {
        HealthChange::BecameHealthy
    } else {
        HealthChange::Unchanged
    }
}

} // verus!
