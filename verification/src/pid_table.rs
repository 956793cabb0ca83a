//! The PID table: the rendezvous between the signal reaper and the waiters.
//!
//! Every child the supervisor forks is entered here under the lock of the
//! table, before the reaper can possibly observe its exit. Service children
//! are removed on reap; helper children are flipped to `HelperExited` so the
//! synchronous waiter can collect the termination exactly once.

use vstd::prelude::*;

use crate::config::ServiceType;
use crate::config::UnitId;

verus! {

/// How a reaped child ended: an exit code, or the signal that killed it.
#[derive(Clone, Copy, Debug, PartialEq, Eq, Structural)]
pub enum ChildTermination {
    Code(i32),
    Signal(i32),
}

impl ChildTermination {
    /// A child succeeded exactly when it exited with code zero.
    pub open spec fn success_spec(self) -> bool {
        self == ChildTermination::Code(0)
    }

    /// Whether the termination counts as success.
    pub fn success(&self) -> (r: bool)
        ensures
            r == self.success_spec(),
    {
        match self {
            ChildTermination::Code(c) => *c == 0,
            ChildTermination::Signal(_) => false,
        }
    }
}

/// What a pid stands for while it is in the table.
pub enum PidEntry {
    /// The main process of the service with this id.
    Service(UnitId, ServiceType),
    /// A helper command run for the unit, with its label.
    Helper(UnitId, Vec<u8>),
    /// A helper that the reaper collected; the waiter removes it.
    HelperExited(ChildTermination),
    /// A oneshot child that the reaper collected.
    OneshotExited(ChildTermination),
}

/// The mapping a sequence of `(pid, entry)` rows denotes; later rows win.
pub open spec fn entries_map(s: Seq<(i32, PidEntry)>) -> Map<int, PidEntry>
    decreases s.len(),
{
    if s.len() == 0 {
        Map::empty()
    } else {
        entries_map(s.drop_last()).insert(s.last().0 as int, s.last().1)
    }
}

/// No two rows share a pid.
pub open spec fn unique_pids(s: Seq<(i32, PidEntry)>) -> bool {
    forall|i: int, j: int| 0 <= i < j < s.len() ==> (#[trigger] s[i]).0 != (#[trigger] s[j]).0
}

/// A key is in the map exactly when some row carries it, and under unique
/// pids each row's entry is the map's value at its pid.
pub proof fn lemma_entries_map(s: Seq<(i32, PidEntry)>)
    ensures
        forall|p: int|
            entries_map(s).contains_key(p) <==> exists|i: int|
                0 <= i < s.len() && (#[trigger] s[i]).0 as int == p,
        unique_pids(s) ==> forall|i: int|
            0 <= i < s.len() ==> entries_map(s).contains_key((#[trigger] s[i]).0 as int)
                && entries_map(s)[s[i].0 as int] == s[i].1,
    decreases s.len(),
{
    if s.len() == 0 {
    } else {
        let dl = s.drop_last();
        lemma_entries_map(dl);
        let lastp = s.last().0 as int;
        assert(s.last() == s[s.len() - 1]);
        assert forall|p: int| entries_map(s).contains_key(p) implies exists|i: int|
            0 <= i < s.len() && (#[trigger] s[i]).0 as int == p by {
            if p == lastp {
                assert((s[s.len() - 1]).0 as int == p);
            } else {
                assert(entries_map(dl).contains_key(p));
                let i = choose|i: int| 0 <= i < dl.len() && (#[trigger] dl[i]).0 as int == p;
                assert(dl[i] == s[i]);
                assert((s[i]).0 as int == p);
            }
        }
        assert forall|p: int|
            (exists|i: int| 0 <= i < s.len() && (#[trigger] s[i]).0 as int == p) implies entries_map(
            s,
        ).contains_key(p) by {
            let i = choose|i: int| 0 <= i < s.len() && (#[trigger] s[i]).0 as int == p;
            if i < s.len() - 1 {
                assert(dl[i] == s[i]);
                assert(entries_map(dl).contains_key(p));
            }
        }
        if unique_pids(s) {
            assert(unique_pids(dl)) by {
                assert forall|i: int, j: int|
                    0 <= i < j < dl.len() implies (#[trigger] dl[i]).0 != (#[trigger] dl[j]).0 by {
                    assert(dl[i] == s[i]);
                    assert(dl[j] == s[j]);
                    assert(s[i].0 != s[j].0);
                }
            }
            assert forall|i: int|
                0 <= i < s.len() implies entries_map(s).contains_key((#[trigger] s[i]).0 as int)
                && entries_map(s)[s[i].0 as int] == s[i].1 by {
                if i < s.len() - 1 {
                    assert(dl[i] == s[i]);
                    assert(entries_map(dl).contains_key(s[i].0 as int));
                    assert(entries_map(dl)[s[i].0 as int] == s[i].1);
                    assert(s[i].0 != s[s.len() - 1].0);
                }
            }
        }
    }
}

/// Removing row `i` removes exactly that pid from the denoted map.
pub proof fn lemma_entries_map_remove(s: Seq<(i32, PidEntry)>, i: int)
    requires
        unique_pids(s),
        0 <= i < s.len(),
    ensures
        entries_map(s.remove(i)) == entries_map(s).remove(s[i].0 as int),
    decreases s.len(),
{
    lemma_entries_map(s);
    lemma_entries_map(s.drop_last());
    if i == s.len() - 1 {
        assert(s.remove(i) =~= s.drop_last());
        // the removed pid is on no earlier row, so removing it from the
        // prefix map is the identity
        assert(!entries_map(s.drop_last()).contains_key(s[i].0 as int)) by {
            if entries_map(s.drop_last()).contains_key(s[i].0 as int) {
                let dl = s.drop_last();
                let j = choose|j: int| 0 <= j < dl.len() && (#[trigger] dl[j]).0 as int == s[i].0
                    as int;
                assert(dl[j] == s[j]);
                assert(s[j].0 == s[i].0);
            }
        }
        assert(entries_map(s.remove(i)) =~= entries_map(s).remove(s[i].0 as int));
    } else {
        assert(unique_pids(s.drop_last())) by {
            let dl = s.drop_last();
            assert forall|a: int, b: int|
                0 <= a < b < dl.len() implies (#[trigger] dl[a]).0 != (#[trigger] dl[b]).0 by {
                assert(dl[a] == s[a]);
                assert(dl[b] == s[b]);
                assert(s[a].0 != s[b].0);
            }
        }
        lemma_entries_map_remove(s.drop_last(), i);
        assert(s.remove(i).drop_last() =~= s.drop_last().remove(i));
        assert(s.remove(i).last() == s.last());
        assert(s[i].0 != s.last().0);
        assert(entries_map(s.remove(i)) =~= entries_map(s).remove(s[i].0 as int));
    }
}

/// The table of live children, keyed by pid.
pub struct PidTable {
    pub entries: Vec<(i32, PidEntry)>,
}

impl View for PidTable {
    type V = Map<int, PidEntry>;

    open spec fn view(&self) -> Map<int, PidEntry> {
        entries_map(self.entries@)
    }
}

impl PidTable {
    /// Rows never repeat a pid.
    pub open spec fn wf(self) -> bool {
        unique_pids(self.entries@)
    }

    pub fn new() -> (r: PidTable)
        ensures
            r.wf(),
            r@ == Map::<int, PidEntry>::empty(),
    {
        PidTable { entries: Vec::new() }
    }

    /// Index of the row carrying `pid`, if any.
    fn find_index(&self, pid: i32) -> (r: Option<usize>)
        ensures
            match r {
                Some(i) => i < self.entries@.len() && self.entries@[i as int].0 == pid,
                None => forall|j: int| 0 <= j < self.entries@.len() ==> self.entries@[j].0 != pid,
            },
    {
        let mut i: usize = 0;
        while i < self.entries.len()
            invariant
                i <= self.entries@.len(),
                forall|j: int| 0 <= j < i ==> self.entries@[j].0 != pid,
            decreases self.entries@.len() - i,
        {
            if self.entries[i].0 == pid {
                return Some(i);
            }
            i += 1;
        }
        None
    }

    /// Whether `pid` is in the table.
    pub fn contains_pid(&self, pid: i32) -> (r: bool)
        ensures
            r == self@.contains_key(pid as int),
    {
        proof {
            lemma_entries_map(self.entries@);
        }
        self.find_index(pid).is_some()
    }

    /// Number of live rows.
    pub fn len(&self) -> (r: usize)
        ensures
            r == self.entries@.len(),
    {
        self.entries.len()
    }

    /// Enters a pid that is not yet in the table.
    pub fn insert_new(&mut self, pid: i32, entry: PidEntry)
        requires
            old(self).wf(),
            !old(self)@.contains_key(pid as int),
        ensures
            final(self).wf(),
            final(self)@ == old(self)@.insert(pid as int, entry),
    {
        proof {
            lemma_entries_map(self.entries@);
        }
        self.entries.push((pid, entry));
        proof {
            assert(self.entries@.drop_last() =~= old(self).entries@);
            assert forall|i: int, j: int| 0 <= i < j < self.entries@.len() implies #[trigger] self
                .entries@[i].0 != #[trigger] self.entries@[j].0 by {
                if j == self.entries@.len() - 1 {
                    assert(old(self).entries@[i].0 as int != pid as int);
                }
            }
        }
    }

    /// Enters a helper child under its unit and label, before the reaper can
    /// observe its exit.
    pub fn register_helper(&mut self, pid: i32, id: UnitId, label: Vec<u8>)
        requires
            old(self).wf(),
            !old(self)@.contains_key(pid as int),
        ensures
            final(self).wf(),
            final(self)@ == old(self)@.insert(pid as int, PidEntry::Helper(id, label)),
    {
        self.insert_new(pid, PidEntry::Helper(id, label));
    }

    /// Removes `pid`, returning its entry when it was present.
    pub fn remove_pid(&mut self, pid: i32) -> (r: Option<PidEntry>)
        requires
            old(self).wf(),
        ensures
            final(self).wf(),
            final(self)@ == old(self)@.remove(pid as int),
            match r {
                Some(e) => old(self)@.contains_key(pid as int) && old(self)@[pid as int] == e,
                None => !old(self)@.contains_key(pid as int),
            },
    {
        proof {
            lemma_entries_map(self.entries@);
        }
        match self.find_index(pid) {
            Some(i) => {
                proof {
                    lemma_entries_map_remove(self.entries@, i as int);
                }
                let (_, e) = self.entries.remove(i);
                proof {
                    assert forall|a: int, b: int|
                        0 <= a < b < self.entries@.len() implies #[trigger] self.entries@[a].0
                        != #[trigger] self.entries@[b].0 by {
                        let sa = if a < i as int {
                            a
                        } else {
                            a + 1
                        };
                        let sb = if b < i as int {
                            b
                        } else {
                            b + 1
                        };
                        assert(old(self).entries@[sa].0 != old(self).entries@[sb].0);
                    }
                }
                Some(e)
            },
            None => {
                proof {
                    assert(self@ =~= old(self)@.remove(pid as int));
                }
                None
            },
        }
    }
}

/// What the reaper concluded about a pid it collected.
#[derive(Clone, Copy, Debug, PartialEq, Eq, Structural)]
pub enum ReapOutcome {
    /// A helper: its entry was flipped to `HelperExited` for the waiter.
    WasHelper,
    /// A service main process: its entry was removed; the caller must run
    /// service-exit handling for this unit.
    ServiceExited(UnitId, ServiceType),
    /// Not one of ours, or already collected: ignored.
    Unknown,
}

/// The reaper's transition for one reaped child: helpers are kept as
/// `HelperExited` for their waiter, services are removed and handed to
/// service-exit handling, anything else is ignored.
pub fn reap_pid(table: &mut PidTable, pid: i32, term: ChildTermination) -> (r: ReapOutcome)
    requires
        old(table).wf(),
    ensures
        final(table).wf(),
        !old(table)@.contains_key(pid as int) ==> r == ReapOutcome::Unknown && final(table)@ == old(
            table,
        )@,
        old(table)@.contains_key(pid as int) ==> match old(table)@[pid as int] {
            PidEntry::Helper(_, _) => r == ReapOutcome::WasHelper && final(table)@ == old(
                table,
            )@.insert(pid as int, PidEntry::HelperExited(term)),
            PidEntry::Service(uid, st) => r == ReapOutcome::ServiceExited(uid, st)
                && final(table)@ == old(table)@.remove(pid as int),
            _ => r == ReapOutcome::Unknown && final(table)@ == old(table)@,
        },
{
    proof {
        lemma_entries_map(table.entries@);
    }
    match table.find_index(pid) {
        None => ReapOutcome::Unknown,
        Some(i) => {
            let outcome: ReapOutcome;
            match &table.entries[i].1 {
                PidEntry::Helper(_, _) => {
                    outcome = ReapOutcome::WasHelper;
                },
                PidEntry::Service(uid, st) => {
                    outcome = ReapOutcome::ServiceExited(*uid, *st);
                },
                PidEntry::HelperExited(_) => {
                    return ReapOutcome::Unknown;
                },
                PidEntry::OneshotExited(_) => {
                    return ReapOutcome::Unknown;
                },
            }
            match outcome {
                ReapOutcome::WasHelper => {
                    let _ = table.remove_pid(pid);
                    table.insert_new(pid, PidEntry::HelperExited(term));
                    proof {
                        assert(table@ =~= old(table)@.insert(
                            pid as int,
                            PidEntry::HelperExited(term),
                        ));
                    }
                },
                _ => {
                    let _ = table.remove_pid(pid);
                },
            }
            outcome
        },
    }
}

/// Whether a wait with the given bound has run out at `elapsed_us`
/// microseconds. `None` waits forever.
pub open spec fn timed_out(elapsed_us: u64, timeout_us: Option<u64>) -> bool {
    match timeout_us {
        Some(t) => elapsed_us >= t,
        None => false,
    }
}

/// The backoff sleep, in microseconds, for the given doubling counter:
/// `counter * 50`, capped at ten milliseconds.
pub open spec fn backoff_sleep_us(counter: u64) -> int {
    if counter * 50 < 10000 {
        counter * 50
    } else {
        10000
    }
}

/// The next doubling counter: doubled until the sleep reaches its cap.
pub open spec fn backoff_next(counter: u64) -> int {
    if counter * 50 < 10000 {
        counter * 2
    } else {
        counter as int
    }
}

/// One round of the helper waiter's poll loop.
#[derive(Clone, Copy, Debug, PartialEq, Eq, Structural)]
pub enum HelperWaitStep {
    /// The wait ran out; the caller must SIGKILL the carried pid.
    TimedOut(i32),
    /// The reaper collected the helper; its termination, delivered once.
    Done(ChildTermination),
    /// Keep waiting: sleep this many microseconds, then poll again with the
    /// carried counter.
    Sleep(u64, u64),
}

/// One poll of the pid table while waiting for a helper child, with
/// exponential backoff. The entry for `pid` is a `Helper` until the reaper
/// collects it and a `HelperExited` afterwards; any other shape is a
/// supervisor bug, excluded here.
pub fn helper_wait_step(
    table: &mut PidTable,
    pid: i32,
    elapsed_us: u64,
    timeout_us: Option<u64>,
    counter: u64,
) -> (r: HelperWaitStep)
    requires
        old(table).wf(),
        1 <= counter <= 400,
        old(table)@.contains_key(pid as int),
        old(table)@[pid as int] is Helper || old(table)@[pid as int] is HelperExited,
    ensures
        final(table).wf(),
        timed_out(elapsed_us, timeout_us) ==> r == HelperWaitStep::TimedOut(pid) && final(table)@
            == old(table)@,
        !timed_out(elapsed_us, timeout_us) && old(table)@[pid as int] is HelperExited ==> r
            == HelperWaitStep::Done(old(table)@[pid as int]->HelperExited_0) && final(table)@ == old(
            table,
        )@.remove(pid as int),
        !timed_out(elapsed_us, timeout_us) && old(table)@[pid as int] is Helper ==> r
            == HelperWaitStep::Sleep(backoff_sleep_us(counter) as u64, backoff_next(counter) as u64)
            && final(table)@ == old(table)@,
        r is Sleep ==> 1 <= r->Sleep_1 <= 400,
{
    match timeout_us {
        Some(t) => {
            if elapsed_us >= t {
                return HelperWaitStep::TimedOut(pid);
            }
        },
        None => {},
    }
    proof {
        lemma_entries_map(table.entries@);
    }
    match table.find_index(pid) {
        None => {
            proof {
                assert(false);
            }
            HelperWaitStep::TimedOut(pid)
        },
        Some(i) => {
            let done: Option<ChildTermination>;
            match &table.entries[i].1 {
                PidEntry::Helper(_, _) => {
                    done = None;
                },
                PidEntry::HelperExited(t) => {
                    done = Some(*t);
                },
                PidEntry::Service(_, _) => {
                    proof {
                        assert(false);
                    }
                    done = None;
                },
                PidEntry::OneshotExited(_) => {
                    proof {
                        assert(false);
                    }
                    done = None;
                },
            }
            match done {
                Some(t) => {
                    let _ = table.remove_pid(pid);
                    HelperWaitStep::Done(t)
                },
                None => {
                    let sleep = if counter * 50 < 10000 {
                        counter * 50
                    } else {
                        10000
                    };
                    let next = if counter * 50 < 10000 {
                        counter * 2
                    } else {
                        counter
                    };
                    HelperWaitStep::Sleep(sleep, next)
                },
            }
        },
    }
}

/// A helper wait configured with a zero timeout times out immediately,
/// whatever time has elapsed, and the timed-out step orders the SIGKILL of
/// the helper's pid.
pub proof fn lemma_zero_timeout_immediate(elapsed_us: u64)
    ensures
        timed_out(elapsed_us, Some(0u64)),
{
}

} // verus!
