//! The control plane's registry: whether it is shut down, its monitor task,
//! and the registered workers by trusted identity.
//!
//! The registry is generic over what it holds for each worker (`H`) and for
//! the monitor (`M`); it decides admission, routing, removal and shutdown.
use vstd::prelude::*;

use crate::text::{chars_eq, chars_of, views_of};

verus! {

/// Entries viewed by identity text.
pub open spec fn entry_views<H>(v: Seq<(String, H)>) -> Seq<(Seq<char>, H)> {
    v.map_values(|e: (String, H)| (e.0@, e.1))
}

/// The identities of a sequence of entries.
pub open spec fn ids_of<H>(e: Seq<(Seq<char>, H)>) -> Seq<Seq<char>> {
    e.map_values(|x: (Seq<char>, H)| x.0)
}

/// The outcome of offering a worker for registration.
pub enum Admission<H> {
    /// The worker is registered; a worker previously registered under the
    /// same identity was displaced and is handed back.
    Accepted { displaced: Option<H> },
    /// The registry is shut down; the worker is handed back for cleanup.
    Rejected(H),
}

/// Workers registered by identity, a monitor slot, and a shutdown flag.
pub struct Registry<H, M> {
    closed: bool,
    monitor: Option<M>,
    workers: Vec<(String, H)>,
}

impl<H, M> Registry<H, M> {
    /// Whether the registry was shut down.
    pub closed spec fn is_shut_down(&self) -> bool {
        self.closed
    }

    /// The installed monitor, if any.
    pub closed spec fn monitor_task(&self) -> Option<M> {
        self.monitor
    }

    /// The registered workers in registration order.
    pub closed spec fn entries(&self) -> Seq<(Seq<char>, H)> {
        entry_views(self.workers@)
    }

    /// Identities are distinct.
    #[verifier::type_invariant]
    spec fn distinct_ids(&self) -> bool {
        ids_of(entry_views(self.workers@)).no_duplicates()
    }

    /// Whether `id` is registered.
    pub open spec fn holds(&self, id: Seq<char>) -> bool {
        ids_of(self.entries()).contains(id)
    }

    /// An empty, open registry without a monitor.
    pub fn new() -> (r: Self)
        ensures
            !r.is_shut_down(),
            r.monitor_task() is None,
            r.entries() == Seq::<(Seq<char>, H)>::empty(),
    {
        let workers: Vec<(String, H)> = Vec::new();
        assert(ids_of(entry_views(workers@)) =~= Seq::<Seq<char>>::empty());
        let r = Registry { closed: false, monitor: None, workers };
        assert(r.entries() =~= Seq::<(Seq<char>, H)>::empty());
        r
    }

    /// Whether the registry was shut down.
    pub fn is_closed(&self) -> (c: bool)
        ensures
            c == self.is_shut_down(),
    {
        self.closed
    }

    /// A monitor may be started: the registry is open and has none.
    pub fn monitor_slot_open(&self) -> (open: bool)
        ensures
            open == (!self.is_shut_down() && self.monitor_task() is None),
    {
        !self.closed && self.monitor.is_none()
    }

    /// Install the monitor into an open slot.
    pub fn install_monitor(&mut self, monitor: M)
        requires
            !old(self).is_shut_down(),
            old(self).monitor_task() is None,
        ensures
            final(self).monitor_task() == Some(monitor),
            !final(self).is_shut_down(),
            final(self).entries() == old(self).entries(),
    {
        proof {
            use_type_invariant(&*self);
        }
        self.monitor = Some(monitor);
    }

    /// The position of `id`, if registered.
    fn position(&self, id: &str) -> (p: Option<usize>)
        ensures
            match p {
                Some(i) => i < self.entries().len() && self.entries()[i as int].0 == id@,
                None => !self.holds(id@),
            },
    {
        let target = chars_of(id);
        let mut i: usize = 0;
        while i < self.workers.len()
            invariant
                i <= self.workers@.len(),
                target@ == id@,
                forall|j: int| 0 <= j < i ==> self.entries()[j].0 != id@,
            decreases self.workers.len() - i,
        {
            let other = chars_of(self.workers[i].0.as_str());
            if chars_eq(&other, &target) {
                return Some(i);
            }
            i += 1;
        }
        proof {
            if self.holds(id@) {
                let j = choose|j: int|
                    0 <= j < ids_of(self.entries()).len() && ids_of(self.entries())[j] == id@;
                assert(self.entries()[j].0 == id@);
            }
        }
        None
    }

    /// Register a worker under `id`. A shut-down registry refuses it and
    /// hands it back unchanged; otherwise a worker already registered under
    /// `id` is replaced in place and handed back, and a new identity is
    /// appended.
    pub fn register(&mut self, id: String, handle: H) -> (a: Admission<H>)
        ensures
            final(self).is_shut_down() == old(self).is_shut_down(),
            final(self).monitor_task() == old(self).monitor_task(),
            old(self).is_shut_down() ==> a == Admission::Rejected(handle) && final(self).entries()
                == old(self).entries(),
            !old(self).is_shut_down() ==> a is Accepted && final(self).holds(id@) && (
            forall|i: int|
                0 <= i < old(self).entries().len() ==> (if old(self).entries()[i].0 == id@ {
                    final(self).entries()[i] == (id@, handle) && a == Admission::Accepted {
                        displaced: Some(old(self).entries()[i].1),
                    }
                } else {
                    final(self).entries()[i] == old(self).entries()[i]
                })) && (!old(self).holds(id@) ==> final(self).entries() == old(
                self,
            ).entries().push((id@, handle)) && a == Admission::<H>::Accepted { displaced: None })
                && (old(self).holds(id@) ==> final(self).entries().len() == old(
                self,
            ).entries().len()),
    {
        proof {
            use_type_invariant(&*self);
        }
        if self.closed {
            return Admission::Rejected(handle);
        }
        let ghost before = self.entries();
        match self.position(id.as_str()) {
            Some(i) => {
                let ghost idv = id@;
                let mut workers: Vec<(String, H)> = Vec::new();
                proof {
                    assert(ids_of(entry_views(workers@)) =~= Seq::<Seq<char>>::empty());
                }
                std::mem::swap(&mut workers, &mut self.workers);
                let (_, old_handle) = workers.remove(i);
                workers.insert(i, (id, handle));
                proof {
                    assert(entry_views(workers@) =~= before.update(i as int, (idv, handle)));
                    assert(ids_of(entry_views(workers@)) =~= ids_of(before));
                }
                self.workers = workers;
                proof {
                    assert(ids_of(before)[i as int] == idv);
                    assert(ids_of(before).contains(idv));
                    assert(self.entries() =~= before.update(i as int, (idv, handle)));
                    assert(ids_of(self.entries()) =~= ids_of(before));
                    assert(ids_of(self.entries())[i as int] == idv);
                    assert forall|j: int| 0 <= j < before.len() && j != i implies before[j].0
                        != idv by {
                        assert(ids_of(before)[j] != ids_of(before)[i as int]);
                    }
                }
                Admission::Accepted { displaced: Some(old_handle) }
            },
            None => {
                let ghost idv = id@;
                let mut workers: Vec<(String, H)> = Vec::new();
                proof {
                    assert(ids_of(entry_views(workers@)) =~= Seq::<Seq<char>>::empty());
                }
                std::mem::swap(&mut workers, &mut self.workers);
                workers.push((id, handle));
                proof {
                    assert forall|j: int| 0 <= j < before.len() implies before[j].0 != idv by {
                        if before[j].0 == idv {
                            assert(ids_of(before)[j] == idv);
                        }
                    }
                    assert(entry_views(workers@) =~= before.push((idv, handle)));
                    assert(ids_of(entry_views(workers@)) =~= ids_of(before).push(idv));
                }
                self.workers = workers;
                proof {
                    assert forall|j: int| 0 <= j < before.len() implies before[j].0 != idv by {
                        if before[j].0 == idv {
                            assert(ids_of(before)[j] == idv);
                        }
                    }
                    assert(self.entries() =~= before.push((idv, handle)));
                    assert(ids_of(self.entries()) =~= ids_of(before).push(idv));
                    assert(ids_of(self.entries())[before.len() as int] == idv);
                }
                Admission::Accepted { displaced: None }
            },
        }
    }

    /// The worker registered under `id`, if any.
    pub fn get(&self, id: &str) -> (h: Option<&H>)
        ensures
            h is Some <==> self.holds(id@),
            h matches Some(x) ==> exists|i: int|
                0 <= i < self.entries().len() && self.entries()[i] == (id@, *x),
    {
        match self.position(id) {
            Some(i) => {
                let x = &self.workers[i].1;
                assert(self.entries()[i as int] == (id@, *x));
                assert(ids_of(self.entries())[i as int] == id@);
                Some(x)
            },
            None => None,
        }
    }

    /// Unregister `id`, handing back its worker; other workers keep their
    /// order.
    pub fn remove(&mut self, id: &str) -> (h: Option<H>)
        ensures
            !final(self).holds(id@),
            final(self).is_shut_down() == old(self).is_shut_down(),
            final(self).monitor_task() == old(self).monitor_task(),
            h is Some <==> old(self).holds(id@),
            match h {
                Some(x) => exists|i: int|
                    0 <= i < old(self).entries().len() && old(self).entries()[i] == (id@, x)
                        && final(self).entries() == old(self).entries().remove(i),
                None => final(self).entries() == old(self).entries(),
            },
    {
        proof {
            use_type_invariant(&*self);
        }
        let ghost before = self.entries();
        match self.position(id) {
            Some(i) => {
                let mut workers: Vec<(String, H)> = Vec::new();
                proof {
                    assert(ids_of(entry_views(workers@)) =~= Seq::<Seq<char>>::empty());
                }
                std::mem::swap(&mut workers, &mut self.workers);
                let (_, x) = workers.remove(i);
                proof {
                    assert(entry_views(workers@) =~= before.remove(i as int));
                    assert(ids_of(entry_views(workers@)) =~= ids_of(before).remove(i as int));
                }
                self.workers = workers;
                proof {
                    assert(self.entries() =~= before.remove(i as int));
                    assert(ids_of(self.entries()) =~= ids_of(before).remove(i as int));
                    assert(ids_of(before)[i as int] == id@);
                    assert(ids_of(before).contains(id@));
                    if ids_of(self.entries()).contains(id@) {
                        let k = choose|k: int|
                            0 <= k < ids_of(self.entries()).len() && ids_of(self.entries())[k]
                                == id@;
                        if k < i {
                            assert(ids_of(before)[k] == id@);
                        } else {
                            assert(ids_of(before)[k + 1] == id@);
                        }
                    }
                }
                Some(x)
            },
            None => None,
        }
    }

    /// Shut down: refuse every later registration, and hand back the
    /// monitor and every registered worker, leaving none registered.
    pub fn shutdown(&mut self) -> (out: (Option<M>, Vec<(String, H)>))
        ensures
            final(self).is_shut_down(),
            final(self).monitor_task() is None,
            final(self).entries() == Seq::<(Seq<char>, H)>::empty(),
            out.0 == old(self).monitor_task(),
            entry_views(out.1@) == old(self).entries(),
    {
        proof {
            use_type_invariant(&*self);
        }
        self.closed = true;
        let mut monitor: Option<M> = None;
        std::mem::swap(&mut monitor, &mut self.monitor);
        let mut drained: Vec<(String, H)> = Vec::new();
        assert(ids_of(entry_views(drained@)) =~= Seq::<Seq<char>>::empty());
        std::mem::swap(&mut drained, &mut self.workers);
        assert(self.entries() =~= Seq::<(Seq<char>, H)>::empty());
        assert(ids_of(self.entries()) =~= Seq::<Seq<char>>::empty());
        (monitor, drained)
    }

    /// The number of registered workers.
    pub fn len(&self) -> (n: usize)
        ensures
            n == self.entries().len(),
    {
        self.workers.len()
    }

    /// The worker registered at position `i`, with its identity.
    pub fn entry(&self, i: usize) -> (e: (&String, &H))
        requires
            i < self.entries().len(),
        ensures
            (e.0@, *e.1) == self.entries()[i as int],
    {
        let (id, h) = &self.workers[i];
        (id, h)
    }

    /// The registered identities, in registration order.
    pub fn ids(&self) -> (v: Vec<String>)
        ensures
            views_of(v@) == ids_of(self.entries()),
    {
        let mut v: Vec<String> = Vec::new();
        let mut i: usize = 0;
        while i < self.workers.len()
            invariant
                i <= self.workers@.len(),
                views_of(v@) == ids_of(self.entries()).take(i as int),
            decreases self.workers.len() - i,
        {
            let ghost before = v@;
            let id = self.workers[i].0.clone();
            proof {
                assert(entry_views(self.workers@)[i as int] == (self.workers@[i as int].0@, self.workers@[i as int].1));
                assert(ids_of(self.entries())[i as int] == id@);
            }
            v.push(id);
            i += 1;
            proof {
                assert(views_of(v@) =~= views_of(before).push(id@));
                assert(views_of(v@) =~= ids_of(self.entries()).take(i as int));
            }
        }
        assert(ids_of(self.entries()).take(self.workers@.len() as int) =~= ids_of(
            self.entries(),
        ));
        v
    }
}

} // verus!
