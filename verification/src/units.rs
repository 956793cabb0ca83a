//! The unit registry: units with their dependency edges, keyed by stable id.

use vstd::prelude::*;

use crate::config::UnitId;
use crate::services::Service;

verus! {

/// Dependency edges of one unit.
pub struct Install {
    /// Units that must have started before this one may.
    pub after: Vec<UnitId>,
    /// Units whose start waits for this one; walked on completion.
    pub before: Vec<UnitId>,
    /// Units that required this one; stopped when this one exits for good.
    pub required_by: Vec<UnitId>,
    /// Units that must be locked alongside this one to activate it.
    pub needed_for_activation: Vec<UnitId>,
}

/// What kind of resource a unit manages.
pub enum UnitSpecialized {
    Service(Service),
    Socket,
    Target,
}

/// One entry of the registry.
pub struct Unit {
    pub id: UnitId,
    pub name: Vec<u8>,
    pub install: Install,
    pub specialized: UnitSpecialized,
}

/// No two units share an id.
pub open spec fn unique_unit_ids(units: Seq<Unit>) -> bool {
    forall|i: int, j: int|
        0 <= i < j < units.len() ==> (#[trigger] units[i]).id != (#[trigger] units[j]).id
}

/// The registry of all units.
pub struct UnitTable {
    pub units: Vec<Unit>,
}

impl UnitTable {
    /// Ids never repeat.
    pub open spec fn wf(self) -> bool {
        unique_unit_ids(self.units@)
    }

    /// Whether some unit carries `id`.
    pub open spec fn has_id(self, id: UnitId) -> bool {
        exists|i: int| 0 <= i < self.units@.len() && (#[trigger] self.units@[i]).id == id
    }

    pub fn new() -> (r: UnitTable)
        ensures
            r.wf(),
            r.units@.len() == 0,
    {
        UnitTable { units: Vec::new() }
    }

    /// Enters a unit at boot; a second unit under an existing id is refused.
    pub fn insert_unit(&mut self, u: Unit) -> (r: bool)
        requires
            old(self).wf(),
        ensures
            final(self).wf(),
            r == !old(self).has_id(u.id),
            r ==> final(self).units@ == old(self).units@.push(u),
            !r ==> *final(self) == *old(self),
    {
        let ghost prev = self.units@;
        let ghost unit = u;
        if self.find_index(u.id).is_some() {
            return false;
        }
        self.units.push(u);
        proof {
            assert forall|i: int, j: int| 0 <= i < j < self.units@.len() implies (
            #[trigger] self.units@[i]).id != (#[trigger] self.units@[j]).id by {
                if j == self.units@.len() - 1 {
                    assert(prev[i].id != unit.id);
                } else {
                    assert(prev[i].id != prev[j].id);
                }
            }
        }
        true
    }

    /// Index of the unit carrying `id`, if any.
    pub fn find_index(&self, id: UnitId) -> (r: Option<usize>)
        ensures
            match r {
                Some(i) => i < self.units@.len() && self.units@[i as int].id == id,
                None => !self.has_id(id),
            },
    {
        let mut i: usize = 0;
        while i < self.units.len()
            invariant
                i <= self.units@.len(),
                forall|j: int| 0 <= j < i ==> (#[trigger] self.units@[j]).id != id,
            decreases self.units@.len() - i,
        {
            if self.units[i].id == id {
                return Some(i);
            }
            i += 1;
        }
        None
    }
}

} // verus!
