//! The dependency-ordered activator.
//!
//! In the running system a bounded worker pool attempts enqueued units in
//! parallel; each attempt re-checks under the registry lock that every
//! `after` predecessor has started, gives up otherwise (`Ignored` — the
//! predecessor's completion re-enqueues the unit), and on success walks the
//! unit's `before` successors. The decision, the started-order bookkeeping
//! and the worklist live here; the pool, the locks and the actual unit
//! activation live outside and report back.

use vstd::prelude::*;

use vstd::set_lib::lemma_len_subset;

use crate::config::UnitId;
use crate::units::Unit;
use crate::units::UnitTable;

verus! {

/// Outcome of one activation attempt.
pub enum StartResult {
    /// The unit was activated; these successors are to be enqueued.
    Started(Vec<UnitId>),
    /// The unit is already started, unknown, or has an unstarted `after`
    /// predecessor: the attempt is dropped and costs nothing — a later
    /// completion walks the `before` edges and re-enqueues it.
    Ignored,
}

/// The ids of a registry's units, in registry order.
pub open spec fn table_ids(units: Seq<Unit>) -> Seq<UnitId> {
    Seq::new(units.len(), |i: int| units[i].id)
}

/// Every id of `xs` occurs in `ys`.
pub open spec fn ids_all_in(xs: Seq<UnitId>, ys: Seq<UnitId>) -> bool {
    forall|k: int| 0 <= k < xs.len() ==> ys.contains(#[trigger] xs[k])
}

/// Every `after` predecessor of `u` stands in `started` before position
/// `upto`.
pub open spec fn after_satisfied(u: Unit, started: Seq<UnitId>, upto: int) -> bool {
    ids_all_in(u.install.after@, started.take(upto))
}

/// The activation-order invariant: every started unit had all its `after`
/// predecessors started earlier.
pub open spec fn activation_ordered(t: UnitTable, started: Seq<UnitId>) -> bool {
    forall|i: int, ui: int|
        0 <= i < started.len() && 0 <= ui < t.units@.len() && (#[trigger] t.units@[ui]).id
            == #[trigger] started[i] ==> after_satisfied(t.units@[ui], started, i)
}

/// Every started id names a unit of the registry.
pub open spec fn started_in_table(t: UnitTable, started: Seq<UnitId>) -> bool {
    forall|i: int|
        0 <= i < started.len() ==> exists|ui: int|
            0 <= ui < t.units@.len() && (#[trigger] t.units@[ui]).id == #[trigger] started[i]
}

/// A duplicate-free sequence of ids drawn from the registry is no longer
/// than the registry.
pub proof fn lemma_started_bounded(t: UnitTable, started: Seq<UnitId>)
    requires
        t.wf(),
        started.no_duplicates(),
        started_in_table(t, started),
    ensures
        started.len() <= t.units@.len(),
{
    let tids = table_ids(t.units@);
    assert(tids.no_duplicates()) by {
        assert forall|i: int, j: int| 0 <= i < j < tids.len() implies tids[i] != tids[j] by {
            assert(t.units@[i].id != t.units@[j].id);
        }
    }
    started.unique_seq_to_set();
    tids.unique_seq_to_set();
    vstd::seq_lib::seq_to_set_is_finite(tids);
    assert(started.to_set().subset_of(tids.to_set())) by {
        assert forall|x: UnitId| started.to_set().contains(x) implies tids.to_set().contains(x) by {
            assert(started.contains(x));
            let i = choose|i: int| 0 <= i < started.len() && started[i] == x;
            let ui = choose|ui: int|
                0 <= ui < t.units@.len() && (#[trigger] t.units@[ui]).id == started[i];
            assert(tids[ui] == x);
            assert(tids.contains(x));
        }
    }
    lemma_len_subset(started.to_set(), tids.to_set());
}

/// Whether `id` occurs in `ids`.
pub fn contains_id(ids: &Vec<UnitId>, id: UnitId) -> (r: bool)
    ensures
        r == ids@.contains(id),
{
    let mut i: usize = 0;
    while i < ids.len()
        invariant
            i <= ids@.len(),
            forall|j: int| 0 <= j < i ==> ids@[j] != id,
        decreases ids@.len() - i,
    {
        if ids[i] == id {
            return true;
        }
        i += 1;
    }
    false
}

/// Whether every id of `after` is already in `started`.
pub fn all_after_started(after: &Vec<UnitId>, started: &Vec<UnitId>) -> (r: bool)
    ensures
        r == ids_all_in(after@, started@),
{
    let mut k: usize = 0;
    while k < after.len()
        invariant
            k <= after@.len(),
            forall|j: int| 0 <= j < k ==> started@.contains(#[trigger] after@[j]),
        decreases after@.len() - k,
    {
        if !contains_id(started, after[k]) {
            return false;
        }
        k += 1;
    }
    true
}

/// One activation attempt against the current started set: `Started` with
/// the copied `before` successors when the unit exists, has not started, and
/// every `after` predecessor has; `Ignored` otherwise.
pub fn activate_unit(table: &UnitTable, started_ids: &Vec<UnitId>, id: UnitId) -> (r: StartResult)
    requires
        table.wf(),
    ensures
        match r {
            StartResult::Started(next) => {
                &&& !started_ids@.contains(id)
                &&& exists|ui: int|
                    0 <= ui < table.units@.len() && (#[trigger] table.units@[ui]).id == id
                        && ids_all_in(table.units@[ui].install.after@, started_ids@) && next@
                        == table.units@[ui].install.before@
            },
            StartResult::Ignored => started_ids@.contains(id) || !table.has_id(id) || exists|
                ui: int,
            |
                0 <= ui < table.units@.len() && (#[trigger] table.units@[ui]).id == id
                    && !ids_all_in(table.units@[ui].install.after@, started_ids@),
        },
{
    if contains_id(started_ids, id) {
        return StartResult::Ignored;
    }
    match table.find_index(id) {
        None => StartResult::Ignored,
        Some(ui) => {
            let unit = &table.units[ui];
            if all_after_started(&unit.install.after, started_ids) {
                let mut next: Vec<UnitId> = Vec::new();
                let mut k: usize = 0;
                while k < unit.install.before.len()
                    invariant
                        k <= unit.install.before@.len(),
                        next@ == unit.install.before@.take(k as int),
                    decreases unit.install.before@.len() - k,
                {
                    next.push(unit.install.before[k]);
                    k += 1;
                    proof {
                        assert(next@ =~= unit.install.before@.take(k as int));
                    }
                }
                proof {
                    assert(unit.install.before@.take(unit.install.before@.len() as int)
                        =~= unit.install.before@);
                }
                StartResult::Started(next)
            } else {
                StartResult::Ignored
            }
        },
    }
}

/// The activator's running state: the ids started so far, in start order,
/// and the worklist of ids to try.
pub struct Activator {
    pub started_ids: Vec<UnitId>,
    pub queue: Vec<UnitId>,
}

impl Activator {
    /// The engine invariant: the start order never repeats an id, names only
    /// registry units, and respects every `after` edge.
    pub open spec fn wf(self, t: UnitTable) -> bool {
        &&& self.started_ids@.no_duplicates()
        &&& started_in_table(t, self.started_ids@)
        &&& activation_ordered(t, self.started_ids@)
    }

    /// An engine with nothing started and the given worklist.
    pub fn new(queue: Vec<UnitId>) -> (r: Activator)
        ensures
            forall|t: UnitTable| r.wf(t),
            r.started_ids@.len() == 0,
            r.queue == queue,
    {
        let a = Activator { started_ids: Vec::new(), queue };
        proof {
            assert forall|t: UnitTable| a.wf(t) by {
                assert(a.started_ids@.no_duplicates());
            }
        }
        a
    }

    /// Records one successful activation: when `id` names a unit that has
    /// not started and whose `after` predecessors all have, it is appended
    /// to the start order and its `before` successors are enqueued; any
    /// other id changes nothing — so the invariant holds unconditionally.
    pub fn mark_started(&mut self, table: &UnitTable, id: UnitId) -> (r: bool)
        requires
            old(self).wf(*table),
            table.wf(),
        ensures
            final(self).wf(*table),
            r ==> final(self).started_ids@ == old(self).started_ids@.push(id) && !old(
                self,
            ).started_ids@.contains(id),
            !r ==> *final(self) == *old(self),
            !r ==> old(self).started_ids@.contains(id) || !table.has_id(id) || exists|ui: int|
                0 <= ui < table.units@.len() && (#[trigger] table.units@[ui]).id == id
                    && !ids_all_in(table.units@[ui].install.after@, old(self).started_ids@),
            forall|x: UnitId|
                old(self).queue@.contains(x) ==> final(self).queue@.contains(x),
            forall|x: UnitId|
                old(self).started_ids@.contains(x) ==> final(self).started_ids@.contains(x),
    {
        if contains_id(&self.started_ids, id) {
            return false;
        }
        match table.find_index(id) {
            None => false,
            Some(ui) => {
                let unit = &table.units[ui];
                if all_after_started(&unit.install.after, &self.started_ids) {
                    let ghost prev = self.started_ids@;
                    let ghost q_orig = self.queue@;
                    let mut k: usize = 0;
                    while k < unit.install.before.len()
                        invariant
                            k <= unit.install.before@.len(),
                            self.started_ids@ == prev,
                            self.queue@ == q_orig + unit.install.before@.take(k as int),
                        decreases unit.install.before@.len() - k,
                    {
                        self.queue.push(unit.install.before[k]);
                        k += 1;
                        proof {
                            assert(self.queue@ =~= q_orig + unit.install.before@.take(k as int));
                        }
                    }
                    proof {
                        assert(q_orig + unit.install.before@.take(0) =~= q_orig);
                        assert forall|x: UnitId| q_orig.contains(x) implies self.queue@.contains(
                            x,
                        ) by {
                            let j = choose|j: int| 0 <= j < q_orig.len() && q_orig[j] == x;
                            assert(self.queue@[j] == x);
                        }
                        assert forall|x: UnitId| prev.contains(x) implies prev.push(id).contains(
                            x,
                        ) by {
                            let j = choose|j: int| 0 <= j < prev.len() && prev[j] == x;
                            assert(prev.push(id)[j] == x);
                        }
                    }
                    self.started_ids.push(id);
                    proof {
                        let now = self.started_ids@;
                        let n = prev.len() as int;
                        assert(now == prev.push(id));
                        assert forall|i: int, j: int| 0 <= i < j < now.len() implies now[i]
                            != now[j] by {
                            if j < n {
                                assert(prev[i] != prev[j]);
                            } else {
                                assert(now[j] == id);
                                assert(now[i] == prev[i]);
                                assert(!prev.contains(id));
                            }
                        }
                        assert(started_in_table(*table, now)) by {
                            assert forall|i: int| 0 <= i < now.len() implies exists|vi: int|
                                0 <= vi < table.units@.len() && (#[trigger] table.units@[vi]).id
                                    == #[trigger] now[i] by {
                                if i < n {
                                    assert(now[i] == prev[i]);
                                    let vi = choose|vi: int|
                                        0 <= vi < table.units@.len() && (
                                        #[trigger] table.units@[vi]).id == prev[i];
                                    assert(table.units@[vi].id == now[i]);
                                } else {
                                    assert(table.units@[ui as int].id == now[i]);
                                }
                            }
                        }
                        assert(activation_ordered(*table, now)) by {
                            assert forall|i: int, vi: int|
                                0 <= i < now.len() && 0 <= vi < table.units@.len() && (
                                #[trigger] table.units@[vi]).id == #[trigger] now[i] implies after_satisfied(
                                table.units@[vi],
                                now,
                                i,
                            ) by {
                                let u = table.units@[vi];
                                if i < n {
                                    assert(now[i] == prev[i]);
                                    assert(table.units@[vi].id == prev[i]);
                                    assert(after_satisfied(u, prev, i));
                                    assert(now.take(i) =~= prev.take(i));
                                } else {
                                    // the unit just started: it is the one at ui
                                    assert(now[i] == id);
                                    if vi != ui as int {
                                        assert(table.units@[vi].id != table.units@[ui as int].id);
                                        assert(false);
                                    }
                                    assert(u == table.units@[ui as int]);
                                    assert(ids_all_in(u.install.after@, prev));
                                    assert(now.take(i) =~= prev);
                                }
                            }
                        }
                    }
                    true
                } else {
                    false
                }
            },
        }
    }

    /// Runs the worklist to exhaustion, every attempted activation
    /// succeeding at once — the sequential picture of the pool's behaviour.
    /// Every enqueued root — a unit with no `after` predecessor — is started.
    pub fn drain(&mut self, table: &UnitTable)
        requires
            old(self).wf(*table),
            table.wf(),
        ensures
            final(self).wf(*table),
            final(self).queue@.len() == 0,
            forall|x: UnitId|
                old(self).started_ids@.contains(x) ==> final(self).started_ids@.contains(x),
            forall|x: UnitId|
                old(self).queue@.contains(x) && is_root_id(*table, x)
                    ==> final(self).started_ids@.contains(x),
    {
        proof {
            lemma_started_bounded(*table, self.started_ids@);
        }
        while self.queue.len() > 0
            invariant
                self.wf(*table),
                table.wf(),
                self.started_ids@.len() <= table.units@.len(),
                forall|x: UnitId|
                    old(self).started_ids@.contains(x) ==> self.started_ids@.contains(x),
                forall|x: UnitId|
                    old(self).queue@.contains(x) && is_root_id(*table, x) ==> self.queue@.contains(
                        x,
                    ) || self.started_ids@.contains(x),
            decreases table.units@.len() - self.started_ids@.len(), self.queue@.len(),
        {
            let ghost q0 = self.queue@;
            let ghost s0 = self.started_ids@;
            let id = match self.queue.pop() {
                Some(id) => id,
                None => {
                    proof {
                        assert(false);
                    }
                    return ;
                },
            };
            let ghost q1 = self.queue@;
            let r = self.mark_started(table, id);
            proof {
                lemma_started_bounded(*table, self.started_ids@);
                if r {
                    assert forall|x: UnitId| s0.contains(x) implies self.started_ids@.contains(
                        x,
                    ) by {
                        let j = choose|j: int| 0 <= j < s0.len() && s0[j] == x;
                        assert(self.started_ids@[j] == x);
                    }
                    assert(self.started_ids@[s0.len() as int] == id);
                }
                assert forall|x: UnitId|
                    old(self).queue@.contains(x) && is_root_id(*table, x) implies self
                    .queue@.contains(x) || self.started_ids@.contains(x) by {
                    if s0.contains(x) {
                        assert(self.started_ids@.contains(x));
                    } else {
                        // x was still in the worklist before this round
                        let j = choose|j: int| 0 <= j < q0.len() && q0[j] == x;
                        if j < q0.len() - 1 {
                            assert(q1[j] == x);
                            assert(q1.contains(x));
                        } else {
                            // x is the id handled this round
                            assert(x == id);
                            if !r {
                                // a root in the registry with nothing to wait
                                // for can only be refused as already started
                                let ui = choose|ui: int|
                                    0 <= ui < table.units@.len() && (#[trigger] table.units@[ui]).id
                                        == x && table.units@[ui].install.after@.len() == 0;
                                assert(table.has_id(x));
                                if exists|vi: int|
                                    0 <= vi < table.units@.len() && (#[trigger] table.units@[vi]).id
                                        == x && !ids_all_in(
                                        table.units@[vi].install.after@,
                                        s0,
                                    ) {
                                    let vi = choose|vi: int|
                                        0 <= vi < table.units@.len() && (
                                        #[trigger] table.units@[vi]).id == x && !ids_all_in(
                                            table.units@[vi].install.after@,
                                            s0,
                                        );
                                    if vi != ui {
                                        assert(table.units@[vi].id != table.units@[ui].id);
                                    }
                                    assert(false);
                                }
                                assert(s0.contains(x));
                                assert(false);
                            }
                            assert(self.started_ids@.contains(x));
                        }
                    }
                }
            }
        }
    }
}

/// Whether `id` names a unit with no `after` predecessor.
pub open spec fn is_root_id(t: UnitTable, id: UnitId) -> bool {
    exists|ui: int|
        0 <= ui < t.units@.len() && (#[trigger] t.units@[ui]).id == id
            && t.units@[ui].install.after@.len() == 0
}

/// The ids of all units with no `after` predecessor, in registry order: the
/// roots from which activation fans out.
pub open spec fn root_ids(units: Seq<Unit>) -> Seq<UnitId>
    decreases units.len(),
{
    if units.len() == 0 {
        Seq::empty()
    } else {
        root_ids(units.drop_last()) + (if units.last().install.after@.len() == 0 {
            seq![units.last().id]
        } else {
            Seq::empty()
        })
    }
}

/// Every unit without `after` predecessors has its id among the roots.
pub proof fn lemma_root_ids_complete(units: Seq<Unit>, ui: int)
    requires
        0 <= ui < units.len(),
        units[ui].install.after@.len() == 0,
    ensures
        root_ids(units).contains(units[ui].id),
    decreases units.len(),
{
    let dl = units.drop_last();
    if ui == units.len() - 1 {
        assert(units.last() == units[ui]);
        assert(root_ids(units)[root_ids(dl).len() as int] == units[ui].id);
    } else {
        assert(dl[ui] == units[ui]);
        lemma_root_ids_complete(dl, ui);
        let j = choose|j: int| 0 <= j < root_ids(dl).len() && root_ids(dl)[j] == units[ui].id;
        assert(root_ids(units)[j] == units[ui].id);
    }
}

/// Collects the activation roots of the registry.
pub fn root_units(table: &UnitTable) -> (r: Vec<UnitId>)
    ensures
        r@ == root_ids(table.units@),
{
    let mut r: Vec<UnitId> = Vec::new();
    let mut i: usize = 0;
    proof {
        assert(table.units@.take(0) =~= Seq::<Unit>::empty());
    }
    while i < table.units.len()
        invariant
            i <= table.units@.len(),
            r@ == root_ids(table.units@.take(i as int)),
        decreases table.units@.len() - i,
    {
        if table.units[i].install.after.len() == 0 {
            r.push(table.units[i].id);
        }
        proof {
            let t1 = table.units@.take(i as int + 1);
            assert(t1.drop_last() =~= table.units@.take(i as int));
            assert(t1.last() == table.units@[i as int]);
            assert(r@ =~= root_ids(t1));
        }
        i += 1;
    }
    proof {
        assert(table.units@.take(table.units@.len() as int) =~= table.units@);
    }
    r
}

/// Activates the whole registry in dependency order, as the pool does in the
/// running system: the roots are enqueued and the worklist run dry. The
/// returned engine carries the achieved start order, and every unit without
/// `after` predecessors stands in it.
pub fn activate_units(table: &UnitTable) -> (r: Activator)
    requires
        table.wf(),
    ensures
        r.wf(*table),
        r.queue@.len() == 0,
        forall|ui: int|
            0 <= ui < table.units@.len() && (#[trigger] table.units@[ui]).install.after@.len() == 0
                ==> r.started_ids@.contains(table.units@[ui].id),
{
    let roots = root_units(table);
    let mut act = Activator::new(roots);
    act.drain(table);
    proof {
        assert forall|ui: int|
            0 <= ui < table.units@.len() && (#[trigger] table.units@[ui]).install.after@.len()
                == 0 implies act.started_ids@.contains(table.units@[ui].id) by {
            lemma_root_ids_complete(table.units@, ui);
            assert(is_root_id(*table, table.units@[ui].id));
        }
    }
    act
}

/// Ordering along `before` edges. When the edges are duals — a unit that
/// lists `v` in `before` is listed by `v` in `after` — a successor is never
/// started before its predecessor: wherever the successor stands in the
/// start order, the predecessor stands earlier.
pub open spec fn edges_dual(t: UnitTable) -> bool {
    forall|ui: int, vi: int|
        0 <= ui < t.units@.len() && 0 <= vi < t.units@.len() && (
        #[trigger] t.units@[ui]).install.before@.contains((#[trigger] t.units@[vi]).id)
            ==> t.units@[vi].install.after@.contains(t.units@[ui].id)
}

/// A unit listed in `u.before` is activated only after `u`: if `v` stands in
/// the start order, `u` stands strictly earlier.
pub proof fn lemma_before_ordering(
    t: UnitTable,
    started: Seq<UnitId>,
    ui: int,
    vi: int,
    vp: int,
)
    requires
        activation_ordered(t, started),
        edges_dual(t),
        0 <= ui < t.units@.len(),
        0 <= vi < t.units@.len(),
        t.units@[ui].install.before@.contains(t.units@[vi].id),
        0 <= vp < started.len(),
        started[vp] == t.units@[vi].id,
    ensures
        exists|up: int| 0 <= up < vp && started[up] == t.units@[ui].id,
{
    assert(t.units@[vi].install.after@.contains(t.units@[ui].id));
    assert(after_satisfied(t.units@[vi], started, vp));
    let k = choose|k: int|
        0 <= k < t.units@[vi].install.after@.len() && t.units@[vi].install.after@[k]
            == t.units@[ui].id;
    let pre = started.take(vp);
    assert(pre.contains(t.units@[vi].install.after@[k]));
    let j = choose|j: int| 0 <= j < pre.len() && pre[j] == t.units@[vi].install.after@[k];
    assert(started[j] == t.units@[ui].id);
}

/// A dependency cycle: every unit of the set waits on another of the set.
pub open spec fn cyclic_in(t: UnitTable, c: Set<UnitId>) -> bool {
    forall|ui: int|
        0 <= ui < t.units@.len() && c.contains((#[trigger] t.units@[ui]).id) ==> exists|k: int|
            0 <= k < t.units@[ui].install.after@.len() && c.contains(
                #[trigger] t.units@[ui].install.after@[k],
            )
}

/// The activator never progresses into a dependency cycle: no unit of a
/// cyclic set ever appears in the start order. Cycles are not detected —
/// their units are simply never eligible — and the worklist still runs dry,
/// so the rest of the graph is unaffected.
pub proof fn lemma_cycle_never_starts(t: UnitTable, started: Seq<UnitId>, c: Set<UnitId>, p: int)
    requires
        activation_ordered(t, started),
        started_in_table(t, started),
        cyclic_in(t, c),
        0 <= p < started.len(),
    ensures
        !c.contains(started[p]),
    decreases p,
{
    if c.contains(started[p]) {
        let ui = choose|ui: int|
            0 <= ui < t.units@.len() && (#[trigger] t.units@[ui]).id == started[p];
        let k = choose|k: int|
            0 <= k < t.units@[ui].install.after@.len() && c.contains(
                #[trigger] t.units@[ui].install.after@[k],
            );
        assert(after_satisfied(t.units@[ui], started, p));
        let pre = started.take(p);
        assert(pre.contains(t.units@[ui].install.after@[k]));
        let j = choose|j: int| 0 <= j < pre.len() && pre[j] == t.units@[ui].install.after@[k];
        assert(c.contains(started[j]));
        lemma_cycle_never_starts(t, started, c, j);
        assert(false);
    }
}

} // verus!
