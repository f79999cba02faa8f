//! The connection registry: one entry per live session.
//!
//! Each entry maps a session's connection identifier to that session's
//! outbound queue, the FIFO list of byte messages its writer still has
//! to deliver. The registry is the single piece of state the fan-out
//! engine and the readiness announcer share. Inserting an identifier a
//! second time is refused; removal is idempotent; a snapshot hands out
//! the identifiers that are registered at that moment.

use vstd::prelude::*;
use std::collections::HashMap;

verus! {

broadcast use vstd::std_specs::hash::group_hash_axioms;

/// Why a registry operation was refused.
#[derive(Clone, Copy, Debug, PartialEq, Eq, Structural)]
pub enum RegistryError {
    /// An insert found its identifier already registered. Identifiers
    /// are assigned monotonically or by address hash, so this is fatal
    /// only to the session that attempted it.
    DuplicateId,
}

/// Mapping from connection identifier to that session's outbound queue.
pub struct Registry {
    table: HashMap<u64, Vec<Vec<u8>>>,
    ids: Vec<u64>,
}

impl View for Registry {
    type V = Map<u64, Seq<Seq<u8>>>;

    closed spec fn view(&self) -> Map<u64, Seq<Seq<u8>>> {
        Map::new(
            |k: u64| self.table@.contains_key(k),
            |k: u64| self.table@[k].deep_view(),
        )
    }
}

impl Registry {
    /// The registry's internal bookkeeping is consistent: the id list
    /// carries exactly the registered identifiers, each once.
    pub closed spec fn wf(&self) -> bool {
        &&& self.ids@.no_duplicates()
        &&& forall|k: u64|
            #![trigger self.ids@.contains(k)]
            #![trigger self.table@.contains_key(k)]
            self.ids@.contains(k) <==> self.table@.contains_key(k)
    }

    /// A well-formed registry holds finitely many sessions.
    pub proof fn lemma_wf_finite_dom(&self)
        requires
            self.wf(),
        ensures
            self@.dom().finite(),
    {
        assert(self@.dom() =~= self.table@.dom());
    }

    pub fn new() -> (r: Registry)
        ensures
            r.wf(),
            r@ == Map::<u64, Seq<Seq<u8>>>::empty(),
    {
        let r = Registry { table: HashMap::new(), ids: Vec::new() };
        proof {
            assert(r@ =~= Map::<u64, Seq<Seq<u8>>>::empty());
        }
        r
    }

    /// Current cardinality, for threshold comparisons.
    pub fn len(&self) -> (n: usize)
        ensures
            n == self@.dom().len(),
    {
        proof {
            assert(self@.dom() =~= self.table@.dom());
        }
        self.table.len()
    }

    pub fn contains(&self, id: u64) -> (r: bool)
        ensures
            r == self@.contains_key(id),
    {
        self.table.contains_key(&id)
    }

    /// Registers a session under `id` with an empty outbound queue;
    /// refuses an identifier that is already present.
    pub fn insert(&mut self, id: u64) -> (r: Result<(), RegistryError>)
        requires
            old(self).wf(),
        ensures
            final(self).wf(),
            old(self)@.contains_key(id) ==> r == Err::<(), RegistryError>(
                RegistryError::DuplicateId,
            ) && final(self)@ == old(self)@,
            !old(self)@.contains_key(id) ==> r == Ok::<(), RegistryError>(()) && final(self)@
                == old(self)@.insert(id, Seq::<Seq<u8>>::empty()),
    {
        if self.table.contains_key(&id) {
            Err(RegistryError::DuplicateId)
        } else {
            let fresh: Vec<Vec<u8>> = Vec::new();
            self.table.insert(id, fresh);
            self.ids.push(id);
            proof {
                assert(fresh.deep_view() =~= Seq::<Seq<u8>>::empty());
                assert(self@ =~= old(self)@.insert(id, Seq::<Seq<u8>>::empty()));
                assert forall|k: u64| self.ids@.contains(k) <==> self.table@.contains_key(
                    k,
                ) by {
                    assert(self.ids@ == old(self).ids@.push(id));
                    if self.ids@.contains(k) {
                        let i = choose|i: int| 0 <= i < self.ids@.len() && self.ids@[i] == k;
                        if i < old(self).ids@.len() {
                            assert(old(self).ids@.contains(k));
                        }
                    }
                    if self.table@.contains_key(k) {
                        if k != id {
                            assert(old(self).ids@.contains(k));
                            let i = choose|i: int|
                                0 <= i < old(self).ids@.len() && old(self).ids@[i] == k;
                            assert(self.ids@[i] == k);
                        } else {
                            assert(self.ids@[self.ids@.len() - 1] == k);
                        }
                    }
                }
                assert(self.ids@.no_duplicates()) by {
                    assert(!old(self).ids@.contains(id));
                    assert forall|i: int, j: int|
                        0 <= i < self.ids@.len() && 0 <= j < self.ids@.len() && i != j
                        implies self.ids@[i] != self.ids@[j] by {
                        if i < old(self).ids@.len() && j < old(self).ids@.len() {
                        } else if i == old(self).ids@.len() as int {
                            assert(old(self).ids@.contains(old(self).ids@[j]));
                        } else if j == old(self).ids@.len() as int {
                            assert(old(self).ids@.contains(old(self).ids@[i]));
                        }
                    }
                }
            }
            Ok(())
        }
    }

    /// Deregisters `id`; a no-op when the identifier is not present.
    pub fn remove(&mut self, id: u64)
        requires
            old(self).wf(),
        ensures
            final(self).wf(),
            final(self)@ == old(self)@.remove(id),
    {
        match find_index(&self.ids, id) {
            Some(i) => {
                self.ids.remove(i);
                self.table.remove(&id);
                proof {
                    assert(self@ =~= old(self)@.remove(id));
                    let oids = old(self).ids@;
                    assert(self.ids@ == oids.remove(i as int));
                    assert forall|j: int, l: int|
                        0 <= j < self.ids@.len() && 0 <= l < self.ids@.len() && j != l
                        implies self.ids@[j] != self.ids@[l] by {
                        let j0: int = if j < i { j } else { j + 1 };
                        let l0: int = if l < i { l } else { l + 1 };
                        assert(self.ids@[j] == oids[j0]);
                        assert(self.ids@[l] == oids[l0]);
                    }
                    assert forall|k: u64| self.ids@.contains(k) <==> self.table@.contains_key(
                        k,
                    ) by {
                        if self.ids@.contains(k) {
                            let j = choose|j: int|
                                0 <= j < self.ids@.len() && self.ids@[j] == k;
                            let j0: int = if j < i { j } else { j + 1 };
                            assert(oids[j0] == k);
                            assert(oids.contains(k));
                            assert(k != id) by {
                                if k == id {
                                    assert(oids[i as int] == oids[j0]);
                                }
                            }
                        }
                        if self.table@.contains_key(k) {
                            assert(k != id);
                            assert(oids.contains(k));
                            let j0 = choose|j0: int| 0 <= j0 < oids.len() && oids[j0] == k;
                            assert(j0 != i);
                            let j: int = if j0 < i { j0 } else { j0 - 1 };
                            assert(self.ids@[j] == k);
                        }
                    }
                }
            },
            None => {
                proof {
                    assert(!self.table@.contains_key(id));
                    assert(self@ =~= old(self)@.remove(id));
                }
            },
        }
    }

    /// Appends `msg` to the outbound queue of `id`. Returns whether the
    /// session was registered; delivery to an unknown session is
    /// silently skipped, since such a session is already terminating.
    pub fn enqueue(&mut self, id: u64, msg: Vec<u8>) -> (r: bool)
        requires
            old(self).wf(),
        ensures
            final(self).wf(),
            r == old(self)@.contains_key(id),
            r ==> final(self)@ == old(self)@.insert(id, old(self)@[id].push(msg@)),
            !r ==> final(self)@ == old(self)@,
    {
        match self.table.remove(&id) {
            Some(mut q) => {
                proof {
                    assert(old(self)@[id] == q.deep_view());
                }
                q.push(msg);
                self.table.insert(id, q);
                proof {
                    assert(msg.deep_view() =~= msg@);
                    assert(q.deep_view() =~= old(self)@[id].push(msg@));
                    assert(self@ =~= old(self)@.insert(id, old(self)@[id].push(msg@)));
                    assert(self.table@.dom() =~= old(self).table@.dom());
                }
                true
            },
            None => {
                proof {
                    assert(self@ =~= old(self)@);
                }
                false
            },
        }
    }

    /// Pops the oldest pending message of `id`, if any.
    pub fn pop_front(&mut self, id: u64) -> (r: Option<Vec<u8>>)
        requires
            old(self).wf(),
        ensures
            final(self).wf(),
            match r {
                Some(msg) => old(self)@.contains_key(id) && old(self)@[id].len() > 0 && msg@
                    == old(self)@[id][0] && final(self)@ == old(self)@.insert(
                    id,
                    old(self)@[id].drop_first(),
                ),
                None => final(self)@ == old(self)@ && (old(self)@.contains_key(id) ==> old(
                    self,
                )@[id].len() == 0),
            },
    {
        match self.table.remove(&id) {
            Some(mut q) => {
                proof {
                    assert(old(self)@[id] == q.deep_view());
                }
                if q.len() > 0 {
                    let msg = q.remove(0);
                    self.table.insert(id, q);
                    proof {
                        assert(msg.deep_view() =~= msg@);
                        assert(q.deep_view() =~= old(self)@[id].drop_first());
                        assert(self@ =~= old(self)@.insert(id, old(self)@[id].drop_first()));
                        assert(self.table@.dom() =~= old(self).table@.dom());
                    }
                    Some(msg)
                } else {
                    self.table.insert(id, q);
                    proof {
                        assert(self.table@ =~= old(self).table@);
                        assert(self@ =~= old(self)@);
                    }
                    None
                }
            },
            None => {
                proof {
                    assert(self@ =~= old(self)@);
                }
                None
            },
        }
    }

    /// The identifiers registered right now, each exactly once, in no
    /// particular order. A snapshot taken while sessions come and go is
    /// only a point-in-time picture: broadcast is best effort.
    pub fn snapshot(&self) -> (r: Vec<u64>)
        requires
            self.wf(),
        ensures
            r@.no_duplicates(),
            forall|k: u64| #[trigger] r@.contains(k) <==> self@.contains_key(k),
            r@.len() == self@.dom().len(),
    {
        let r = vstd::slice::slice_to_vec(self.ids.as_slice());
        proof {
            assert(r@ == self.ids@);
            self.ids@.unique_seq_to_set();
            assert(self.ids@.to_set() =~= self@.dom());
        }
        r
    }

    /// How many messages are pending for `id`; zero for an unknown id.
    pub fn pending_count(&self, id: u64) -> (n: usize)
        ensures
            self@.contains_key(id) ==> n == self@[id].len(),
            !self@.contains_key(id) ==> n == 0,
    {
        match self.table.get(&id) {
            Some(q) => q.len(),
            None => 0,
        }
    }
}

/// Index of `x` in `v`, when present.
fn find_index(v: &Vec<u64>, x: u64) -> (r: Option<usize>)
    ensures
        match r {
            Some(i) => i < v@.len() && v@[i as int] == x,
            None => !v@.contains(x),
        },
{
    let mut i: usize = 0;
    while i < v.len()
        invariant
            i <= v@.len(),
            forall|j: int| 0 <= j < i ==> v@[j] != x,
        decreases v@.len() - i,
    {
        if v[i] == x {
            return Some(i);
        }
        i += 1;
    }
    None
}

} // verus!
