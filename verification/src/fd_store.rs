//! The fd store: the open file descriptors of activated socket units, keyed
//! by socket-unit name. Socket activation writes them; a service start reads
//! the fds of its socket units to install them in the child under the
//! `LISTEN_FDS` convention, first fd at 3, names joined in order.

use vstd::prelude::*;

verus! {

/// The fds a sequence of rows associates with `name`: the first match.
pub open spec fn store_lookup(s: Seq<(Vec<u8>, Vec<i32>)>, name: Seq<u8>) -> Option<Seq<i32>>
    decreases s.len(),
{
    if s.len() == 0 {
        None
    } else if s[0].0@ == name {
        Some(s[0].1@)
    } else {
        store_lookup(s.skip(1), name)
    }
}

/// A row whose name occurs on no row at all looks up to nothing.
pub proof fn lemma_store_lookup_none(s: Seq<(Vec<u8>, Vec<i32>)>, name: Seq<u8>)
    requires
        forall|j: int| 0 <= j < s.len() ==> (#[trigger] s[j]).0@ != name,
    ensures
        store_lookup(s, name) is None,
    decreases s.len(),
{
    if s.len() > 0 {
        assert(s[0].0@ != name);
        assert forall|j: int| 0 <= j < s.skip(1).len() implies (#[trigger] s.skip(1)[j]).0@
            != name by {
            assert(s.skip(1)[j] == s[j + 1]);
        }
        lemma_store_lookup_none(s.skip(1), name);
    }
}

/// Under unique names, the row at `i` is what its name looks up to.
pub proof fn lemma_store_lookup_at(s: Seq<(Vec<u8>, Vec<i32>)>, i: int)
    requires
        forall|a: int, b: int| 0 <= a < b < s.len() ==> (#[trigger] s[a]).0@ != (#[trigger] s[b]).0@,
        0 <= i < s.len(),
    ensures
        store_lookup(s, s[i].0@) == Some(s[i].1@),
    decreases s.len(),
{
    if i == 0 {
    } else {
        assert(s[0].0@ != s[i].0@);
        assert forall|a: int, b: int| 0 <= a < b < s.skip(1).len() implies (#[trigger] s.skip(
            1,
        )[a]).0@ != (#[trigger] s.skip(1)[b]).0@ by {
            assert(s.skip(1)[a] == s[a + 1]);
            assert(s.skip(1)[b] == s[b + 1]);
        }
        assert(s.skip(1)[i - 1] == s[i]);
        lemma_store_lookup_at(s.skip(1), i - 1);
    }
}

/// Appending a row with a fresh name adds exactly that association.
pub proof fn lemma_store_lookup_push(s: Seq<(Vec<u8>, Vec<i32>)>, row: (Vec<u8>, Vec<i32>), name: Seq<u8>)
    ensures
        store_lookup(s, name) is Some ==> store_lookup(s.push(row), name) == store_lookup(s, name),
        store_lookup(s, name) is None && row.0@ == name ==> store_lookup(s.push(row), name)
            == Some(row.1@),
        store_lookup(s, name) is None && row.0@ != name ==> store_lookup(s.push(row), name) is None,
    decreases s.len(),
{
    if s.len() == 0 {
        assert(s.push(row)[0] == row);
        assert(s.push(row).skip(1) =~= Seq::<(Vec<u8>, Vec<i32>)>::empty());
        if row.0@ == name {
            assert(store_lookup(s.push(row), name) == Some(row.1@));
        } else {
            assert(store_lookup(s.push(row), name) == store_lookup(
                s.push(row).skip(1),
                name,
            ));
            assert(store_lookup(s.push(row), name) is None);
        }
    } else {
        assert(s.push(row)[0] == s[0]);
        assert(s.push(row).skip(1) =~= s.skip(1).push(row));
        lemma_store_lookup_push(s.skip(1), row, name);
        if s[0].0@ == name {
            assert(store_lookup(s.push(row), name) == Some(s[0].1@));
            assert(store_lookup(s, name) == Some(s[0].1@));
        } else {
            assert(store_lookup(s.push(row), name) == store_lookup(s.skip(1).push(row), name));
            assert(store_lookup(s, name) == store_lookup(s.skip(1), name));
        }
    }
}

/// The fd store of the running system.
pub struct FdStore {
    pub entries: Vec<(Vec<u8>, Vec<i32>)>,
}

impl FdStore {
    /// Names never repeat.
    pub open spec fn wf(self) -> bool {
        forall|a: int, b: int|
            0 <= a < b < self.entries@.len() ==> (#[trigger] self.entries@[a]).0@ != (
            #[trigger] self.entries@[b]).0@
    }

    pub fn new() -> (r: FdStore)
        ensures
            r.wf(),
            r.entries@.len() == 0,
    {
        FdStore { entries: Vec::new() }
    }

    /// Index of the row carrying `name`, if any.
    fn find_index(&self, name: &Vec<u8>) -> (r: Option<usize>)
        ensures
            match r {
                Some(i) => i < self.entries@.len() && self.entries@[i as int].0@ == name@,
                None => forall|j: int|
                    0 <= j < self.entries@.len() ==> (#[trigger] self.entries@[j]).0@ != name@,
            },
    {
        let mut i: usize = 0;
        while i < self.entries.len()
            invariant
                i <= self.entries@.len(),
                forall|j: int| 0 <= j < i ==> (#[trigger] self.entries@[j]).0@ != name@,
            decreases self.entries@.len() - i,
        {
            if crate::bytes::bytes_eq(&self.entries[i].0, name) {
                return Some(i);
            }
            i += 1;
        }
        None
    }

    /// The fds stored under `name`, if any.
    pub fn get(&self, name: &Vec<u8>) -> (r: Option<&Vec<i32>>)
        requires
            self.wf(),
        ensures
            match r {
                Some(fds) => store_lookup(self.entries@, name@) == Some(fds@),
                None => store_lookup(self.entries@, name@) is None,
            },
    {
        match self.find_index(name) {
            Some(i) => {
                proof {
                    lemma_store_lookup_at(self.entries@, i as int);
                }
                Some(&self.entries[i].1)
            },
            None => {
                proof {
                    lemma_store_lookup_none(self.entries@, name@);
                }
                None
            },
        }
    }

    /// Stores the fds of a newly activated socket unit under its name, which
    /// must be new to the store; every other name keeps its fds.
    pub fn insert_new(&mut self, name: Vec<u8>, fds: Vec<i32>)
        requires
            old(self).wf(),
            store_lookup(old(self).entries@, name@) is None,
        ensures
            final(self).wf(),
            store_lookup(final(self).entries@, name@) == Some(fds@),
            forall|n: Seq<u8>|
                n != name@ ==> #[trigger] store_lookup(final(self).entries@, n) == store_lookup(
                    old(self).entries@,
                    n,
                ),
    {
        proof {
            if exists|j: int| 0 <= j < self.entries@.len() && (#[trigger] self.entries@[j]).0@
                == name@ {
                let j = choose|j: int|
                    0 <= j < self.entries@.len() && (#[trigger] self.entries@[j]).0@ == name@;
                lemma_store_lookup_at(self.entries@, j);
            }
        }
        let ghost prev = self.entries@;
        let ghost row = (name, fds);
        self.entries.push((name, fds));
        proof {
            assert forall|a: int, b: int|
                0 <= a < b < self.entries@.len() implies (#[trigger] self.entries@[a]).0@ != (
            #[trigger] self.entries@[b]).0@ by {
                if b == self.entries@.len() - 1 {
                    if prev[a].0@ == row.0@ {
                        lemma_store_lookup_at(prev, a);
                    }
                } else {
                    assert(prev[a].0@ != prev[b].0@);
                }
            }
            lemma_store_lookup_push(prev, row, row.0@);
            assert forall|n: Seq<u8>| n != row.0@ implies #[trigger] store_lookup(
                self.entries@,
                n,
            ) == store_lookup(prev, n) by {
                lemma_store_lookup_push(prev, row, n);
                if store_lookup(prev, n) is None {
                }
            }
        }
    }
}

/// The activation fds of a service, in socket-name order: the concatenation
/// of the stored fds of each of its socket units, names without stored fds
/// contributing nothing.
pub open spec fn listen_fds(s: Seq<(Vec<u8>, Vec<i32>)>, names: Seq<Vec<u8>>) -> Seq<i32>
    decreases names.len(),
{
    if names.len() == 0 {
        Seq::empty()
    } else {
        (match store_lookup(s, names[0]@) {
            Some(fds) => fds,
            None => Seq::empty(),
        }) + listen_fds(s, names.skip(1))
    }
}

/// Collects the activation fds to install in a starting service's child,
/// in the order of its socket names.
pub fn collect_listen_fds(store: &FdStore, socket_names: &Vec<Vec<u8>>) -> (r: Vec<i32>)
    requires
        store.wf(),
    ensures
        r@ == listen_fds(store.entries@, socket_names@),
{
    let mut r: Vec<i32> = Vec::new();
    let mut i: usize = 0;
    proof {
        assert(socket_names@.skip(0) =~= socket_names@);
        assert(r@ + listen_fds(store.entries@, socket_names@) =~= listen_fds(
            store.entries@,
            socket_names@,
        ));
    }
    while i < socket_names.len()
        invariant
            store.wf(),
            i <= socket_names@.len(),
            listen_fds(store.entries@, socket_names@) == r@ + listen_fds(
                store.entries@,
                socket_names@.skip(i as int),
            ),
        decreases socket_names@.len() - i,
    {
        let ghost r_before = r@;
        let ghost rest = socket_names@.skip(i as int);
        match store.get(&socket_names[i]) {
            Some(fds) => {
                let mut k: usize = 0;
                while k < fds.len()
                    invariant
                        k <= fds@.len(),
                        r@ == r_before + fds@.take(k as int),
                    decreases fds@.len() - k,
                {
                    r.push(fds[k]);
                    k += 1;
                    proof {
                        assert(r@ =~= r_before + fds@.take(k as int));
                    }
                }
                proof {
                    assert(r_before + fds@.take(fds@.len() as int) =~= r_before + fds@);
                }
            },
            None => {},
        }
        proof {
            assert(rest[0] == socket_names@[i as int]);
            assert(rest.skip(1) =~= socket_names@.skip(i as int + 1));
        }
        i += 1;
    }
    proof {
        assert(listen_fds(store.entries@, socket_names@.skip(socket_names@.len() as int))
            =~= Seq::<i32>::empty());
        assert(r@ + Seq::<i32>::empty() =~= r@);
    }
    r
}

} // verus!
