use vstd::prelude::*;

verus! {

/// One worker of the pool.
#[derive(Clone, Copy, Debug, PartialEq, Eq, Structural)]
pub struct WorkerSlot {
    pub id: u64,
    pub busy: bool,
    /// Requests this worker has finished.
    pub handled: u64,
}

/// Where the acceptor sends a new request.
#[derive(Clone, Copy, Debug, PartialEq, Eq, Structural)]
pub enum Dispatch {
    /// To an idle worker.
    ToWorker(u64),
    /// To a worker started for it.
    ToNewWorker(u64),
    /// Every worker is busy and the pool is full: block until one frees.
    Wait,
}

/// What the pool does when a worker finishes a request.
#[derive(Clone, Copy, Debug, PartialEq, Eq, Structural)]
pub enum Completion {
    /// The worker stays and is idle.
    Idle,
    /// The worker reached its request limit and ends.
    Retired,
    /// The worker ended and a new one starts in its place.
    Replaced(u64),
}

/// Every worker is busy.
pub open spec fn all_busy(ws: Seq<WorkerSlot>) -> bool {
    forall|j: int| 0 <= j < ws.len() ==> #[trigger] ws[j].busy
}

/// A request count raised by one, held at the largest value.
pub open spec fn count_up(n: u64) -> u64 {
    if n < u64::MAX {
        (n + 1) as u64
    } else {
        n
    }
}

/// The busy workers, in order.
pub open spec fn busy_of(ws: Seq<WorkerSlot>) -> Seq<WorkerSlot>
    decreases ws.len(),
{
    if ws.len() == 0 {
        Seq::empty()
    } else if ws.last().busy {
        busy_of(ws.drop_last()).push(ws.last())
    } else {
        busy_of(ws.drop_last())
    }
}

/// The ids of the idle workers, in order.
pub open spec fn idle_ids(ws: Seq<WorkerSlot>) -> Seq<u64>
    decreases ws.len(),
{
    if ws.len() == 0 {
        Seq::empty()
    } else if ws.last().busy {
        idle_ids(ws.drop_last())
    } else {
        idle_ids(ws.drop_last()).push(ws.last().id)
    }
}

/// Worker accounting of the pool: which workers run, how many were
/// started and how many ended.
pub struct WorkerPool {
    min_workers: usize,
    max_workers: usize,
    max_worker_requests: u64,
    workers: Vec<WorkerSlot>,
    next_id: u64,
    started: u64,
    ended: u64,
    shutting_down: bool,
}

impl WorkerPool {
    pub closed spec fn workers(&self) -> Seq<WorkerSlot> {
        self.workers@
    }

    pub closed spec fn min_workers(&self) -> nat {
        self.min_workers as nat
    }

    pub closed spec fn max_workers(&self) -> nat {
        self.max_workers as nat
    }

    pub closed spec fn max_worker_requests(&self) -> nat {
        self.max_worker_requests as nat
    }

    /// Workers whose start hook ran.
    pub closed spec fn started(&self) -> nat {
        self.started as nat
    }

    /// Workers whose end hook ran.
    pub closed spec fn ended(&self) -> nat {
        self.ended as nat
    }

    pub closed spec fn shutting_down(&self) -> bool {
        self.shutting_down
    }

    /// The id the next started worker gets.
    pub closed spec fn next(&self) -> u64 {
        self.next_id
    }

    /// A worker that finished its request with count `handled` ends: on
    /// shutdown, or at the request limit unless it could not be replaced
    /// while the pool is at its minimum.
    pub open spec fn retires(&self, handled: u64) -> bool {
        self.shutting_down() || (self.max_worker_requests() > 0 && count_up(handled)
            >= self.max_worker_requests() && !(self.workers().len() <= self.min_workers()
            && self.next() == u64::MAX))
    }

    /// Each worker that started has ended or is running, and no worker id
    /// is used twice.
    pub closed spec fn wf(&self) -> bool {
        &&& self.started == self.ended + self.workers@.len()
        &&& self.min_workers <= self.max_workers
        &&& self.workers@.len() <= self.max_workers
        &&& self.shutting_down || self.min_workers <= self.workers@.len()
        &&& forall|i: int| 0 <= i < self.workers@.len() ==> self.workers@[i].id < self.next_id
        &&& forall|i: int, j: int|
            0 <= i < j < self.workers@.len() ==> self.workers@[i].id != self.workers@[j].id
        &&& self.started <= self.next_id
    }

    /// A pool with `min_workers` idle workers started; `None` where the
    /// bounds are inconsistent.
    pub fn new(min_workers: usize, max_workers: usize, max_worker_requests: u64) -> (r: Option<
        WorkerPool,
    >)
        ensures
            min_workers <= max_workers <==> r is Some,
            r matches Some(p) ==> {
                &&& p.wf()
                &&& p.workers().len() == min_workers
                &&& p.started() == min_workers
                &&& p.ended() == 0
                &&& !p.shutting_down()
                &&& p.min_workers() == min_workers
                &&& p.max_workers() == max_workers
                &&& p.max_worker_requests() == max_worker_requests
            },
    {
        if min_workers > max_workers {
            return None;
        }
        let mut workers: Vec<WorkerSlot> = Vec::new();
        let mut id: u64 = 0;
        while workers.len() < min_workers
            invariant
                workers@.len() <= min_workers,
                id as int == workers@.len(),
                forall|i: int| 0 <= i < workers@.len() ==> #[trigger] workers@[i].id == i,
            decreases min_workers - workers@.len(),
        {
            workers.push(WorkerSlot { id, busy: false, handled: 0 });
            id = id + 1;
        }
        Some(
            WorkerPool {
                min_workers,
                max_workers,
                max_worker_requests,
                workers,
                next_id: id,
                started: id,
                ended: 0,
                shutting_down: false,
            },
        )
    }

    pub fn active(&self) -> (r: usize)
        ensures
            r == self.workers().len(),
    {
        self.workers.len()
    }

    /// Hands a new request to an idle worker, or to a worker started for
    /// it while the pool has room; otherwise the acceptor waits.
    pub fn on_request(&mut self) -> (r: Dispatch)
        requires
            old(self).wf(),
            !old(self).shutting_down(),
        ensures
            final(self).wf(),
            final(self).ended() == old(self).ended(),
            final(self).shutting_down() == old(self).shutting_down(),
            final(self).min_workers() == old(self).min_workers(),
            final(self).max_workers() == old(self).max_workers(),
            final(self).max_worker_requests() == old(self).max_worker_requests(),
            match r {
                Dispatch::ToWorker(id) => exists|i: int|
                    {
                        &&& 0 <= i < old(self).workers().len()
                        &&& old(self).workers()[i].id == id
                        &&& !old(self).workers()[i].busy
                        &&& forall|j: int| 0 <= j < i ==> #[trigger] old(self).workers()[j].busy
                        &&& final(self).workers() == old(self).workers().update(
                            i,
                            WorkerSlot { busy: true, ..old(self).workers()[i] },
                        )
                        &&& final(self).started() == old(self).started()
                        &&& final(self).next() == old(self).next()
                    },
                Dispatch::ToNewWorker(id) => {
                    &&& id == old(self).next()
                    &&& final(self).workers() == old(self).workers().push(
                        WorkerSlot { id, busy: true, handled: 0 },
                    )
                    &&& final(self).started() == old(self).started() + 1
                    &&& final(self).next() == old(self).next() + 1
                },
                Dispatch::Wait => *final(self) == *old(self),
            },
            !all_busy(old(self).workers()) ==> r is ToWorker,
            all_busy(old(self).workers()) && old(self).workers().len() < old(self).max_workers()
                && old(self).next() < u64::MAX ==> r is ToNewWorker,
            all_busy(old(self).workers()) && !(old(self).workers().len() < old(self).max_workers()
                && old(self).next() < u64::MAX) ==> r is Wait,
    {
        let mut i: usize = 0;
        while i < self.workers.len()
            invariant
                i <= self.workers@.len(),
                self.wf(),
                !self.shutting_down,
                *self == *old(self),
                forall|j: int| 0 <= j < i ==> self.workers@[j].busy,
            decreases self.workers@.len() - i,
        {
            if !self.workers[i].busy {
                let mut w = self.workers[i];
                w.busy = true;
                let id = w.id;
                let ghost before = self.workers@;
                self.workers.set(i, w);
                proof {
                    assert forall|a: int, b: int| 0 <= a < b < self.workers@.len() implies self.workers@[a].id
                        != self.workers@[b].id by {
                        assert(self.workers@[a].id == before[a].id);
                        assert(self.workers@[b].id == before[b].id);
                    }
                    assert forall|a: int| 0 <= a < self.workers@.len() implies self.workers@[a].id
                        < self.next_id by {
                        assert(self.workers@[a].id == before[a].id);
                    }
                }
                assert(old(self).workers()[i as int].id == id && !old(self).workers()[i as int].busy);
                assert(self.workers@ == before.update(i as int, w));
                return Dispatch::ToWorker(id);
            }
            i = i + 1;
        }
        assert(all_busy(old(self).workers()));
        if self.workers.len() >= self.max_workers || self.next_id == u64::MAX {
            return Dispatch::Wait;
        }
        let id = self.next_id;
        self.workers.push(WorkerSlot { id, busy: true, handled: 0 });
        self.next_id = id + 1;
        self.started = self.started + 1;
        Dispatch::ToNewWorker(id)
    }

    fn position(&self, id: u64) -> (r: Option<usize>)
        ensures
            match r {
                Some(i) => i < self.workers().len() && self.workers()[i as int].id == id,
                None => forall|j: int| 0 <= j < self.workers().len() ==> self.workers()[j].id != id,
            },
    {
        let mut i: usize = 0;
        while i < self.workers.len()
            invariant
                i <= self.workers@.len(),
                forall|j: int| 0 <= j < i ==> self.workers@[j].id != id,
            decreases self.workers@.len() - i,
        {
            if self.workers[i].id == id {
                return Some(i);
            }
            i = i + 1;
        }
        None
    }

    /// Worker `id` finished a request. It retires at its request limit
    /// (where there is one) or on shutdown, running its end hook once, and
    /// a new worker replaces it where the pool would fall below its minimum.
    pub fn on_done(&mut self, id: u64) -> (r: Option<Completion>)
        requires
            old(self).wf(),
        ensures
            final(self).wf(),
            final(self).shutting_down() == old(self).shutting_down(),
            final(self).min_workers() == old(self).min_workers(),
            final(self).max_workers() == old(self).max_workers(),
            final(self).max_worker_requests() == old(self).max_worker_requests(),
            (forall|j: int| 0 <= j < old(self).workers().len() ==> old(self).workers()[j].id != id)
                ==> r is None && *final(self) == *old(self),
            forall|i: int|
                0 <= i < old(self).workers().len() && #[trigger] old(self).workers()[i].id == id
                    ==> {
                    let w = old(self).workers()[i];
                    let rest = old(self).workers().remove(i);
                    let replace = !old(self).shutting_down() && rest.len() < old(self).min_workers()
                        && old(self).next() < u64::MAX;
                    if !old(self).retires(w.handled) {
                        &&& r == Some(Completion::Idle)
                        &&& final(self).workers() == old(self).workers().update(
                            i,
                            WorkerSlot { busy: false, handled: count_up(w.handled), ..w },
                        )
                        &&& final(self).started() == old(self).started()
                        &&& final(self).ended() == old(self).ended()
                        &&& final(self).next() == old(self).next()
                    } else if replace {
                        &&& r == Some(Completion::Replaced(old(self).next()))
                        &&& final(self).workers() == rest.push(
                            WorkerSlot { id: old(self).next(), busy: false, handled: 0 },
                        )
                        &&& final(self).started() == old(self).started() + 1
                        &&& final(self).ended() == old(self).ended() + 1
                        &&& final(self).next() == old(self).next() + 1
                    } else {
                        &&& r == Some(Completion::Retired)
                        &&& final(self).workers() == rest
                        &&& final(self).started() == old(self).started()
                        &&& final(self).ended() == old(self).ended() + 1
                        &&& final(self).next() == old(self).next()
                    }
                },
    {
        let i = match self.position(id) {
            Some(i) => i,
            None => {
                return None;
            },
        };
        proof {
            assert forall|j: int| 0 <= j < self.workers@.len() && #[trigger] self.workers@[j].id == id
                implies j == i by {
                if j != i {
                    assert(self.workers@[i as int].id == id);
                }
            }
        }
        let mut w = self.workers[i];
        w.busy = false;
        w.handled = if w.handled < u64::MAX {
            w.handled + 1
        } else {
            w.handled
        };
        let at_limit = self.max_worker_requests > 0 && w.handled >= self.max_worker_requests;
        // A worker that could not be replaced stays, so that the pool
        // keeps its minimum.
        let irreplaceable = self.workers.len() <= self.min_workers && self.next_id == u64::MAX;
        let retire = self.shutting_down || (at_limit && !irreplaceable);
        let ghost before = self.workers@;
        if !retire {
            self.workers.set(i, w);
            proof {
                assert forall|a: int, b: int| 0 <= a < b < self.workers@.len() implies self.workers@[a].id
                    != self.workers@[b].id by {
                    assert(self.workers@[a].id == before[a].id);
                    assert(self.workers@[b].id == before[b].id);
                }
                assert forall|a: int| 0 <= a < self.workers@.len() implies self.workers@[a].id
                    < self.next_id by {
                    assert(self.workers@[a].id == before[a].id);
                }
            }
            assert(self.workers@ == before.update(i as int, w));
            return Some(Completion::Idle);
        }
        self.workers.remove(i);
        assert(self.workers@ == before.remove(i as int));
        self.ended = self.ended + 1;
        proof {
            assert forall|a: int, b: int| 0 <= a < b < self.workers@.len() implies self.workers@[a].id
                != self.workers@[b].id by {
                let a0 = if a < i { a } else { a + 1 };
                let b0 = if b < i { b } else { b + 1 };
                assert(self.workers@[a] == before[a0]);
                assert(self.workers@[b] == before[b0]);
            }
            assert forall|a: int| 0 <= a < self.workers@.len() implies self.workers@[a].id
                < self.next_id by {
                let a0 = if a < i { a } else { a + 1 };
                assert(self.workers@[a] == before[a0]);
            }
        }
        if !self.shutting_down && self.workers.len() < self.min_workers && self.next_id < u64::MAX {
            let nid = self.next_id;
            self.workers.push(WorkerSlot { id: nid, busy: false, handled: 0 });
            self.next_id = nid + 1;
            self.started = self.started + 1;
            return Some(Completion::Replaced(nid));
        }
        Some(Completion::Retired)
    }

    /// Stops taking work: idle workers end now, busy ones when they finish.
    /// Returns the ids of the workers that end now.
    pub fn shutdown(&mut self) -> (r: Vec<u64>)
        requires
            old(self).wf(),
        ensures
            final(self).wf(),
            final(self).shutting_down(),
            final(self).started() == old(self).started(),
            final(self).ended() == old(self).ended() + r@.len(),
            r@ == idle_ids(old(self).workers()),
            final(self).workers() == busy_of(old(self).workers()),
            final(self).next() == old(self).next(),
            final(self).min_workers() == old(self).min_workers(),
            final(self).max_workers() == old(self).max_workers(),
            final(self).max_worker_requests() == old(self).max_worker_requests(),
            forall|j: int| 0 <= j < final(self).workers().len() ==> final(self).workers()[j].busy,
    {
        self.shutting_down = true;
        let mut ended_ids: Vec<u64> = Vec::new();
        let mut kept: Vec<WorkerSlot> = Vec::new();
        let mut i: usize = 0;
        let ghost orig = self.workers@;
        while i < self.workers.len()
            invariant
                self.workers@ == orig,
                i <= orig.len(),
                kept@.len() + ended_ids@.len() == i,
                kept@ == busy_of(orig.take(i as int)),
                ended_ids@ == idle_ids(orig.take(i as int)),
                forall|a: int, b: int| 0 <= a < b < orig.len() ==> orig[a].id != orig[b].id,
                forall|a: int| 0 <= a < orig.len() ==> orig[a].id < self.next_id,
                forall|j: int| 0 <= j < kept@.len() ==> #[trigger] kept@[j].busy,
                forall|j: int| 0 <= j < kept@.len() ==> kept@[j].id < self.next_id,
                forall|j: int| 0 <= j < kept@.len() ==> came_from(orig, #[trigger] kept@[j], i as int),
                forall|a: int, b: int| 0 <= a < b < kept@.len() ==> kept@[a].id != kept@[b].id,
            decreases orig.len() - i,
        {
            let w = self.workers[i];
            assert(orig.take(i + 1).drop_last() == orig.take(i as int));
            assert(orig.take(i + 1).last() == w);
            if w.busy {
                let ghost prev = kept@;
                kept.push(w);
                proof {
                    assert forall|a: int, b: int| 0 <= a < b < kept@.len() implies kept@[a].id
                        != kept@[b].id by {
                        if b == prev.len() {
                            assert(came_from(orig, prev[a], i as int));
                            let k = choose|k: int| 0 <= k < i && #[trigger] orig[k] == prev[a];
                            assert(orig[k].id != orig[i as int].id);
                        }
                    }
                    assert forall|j: int| 0 <= j < kept@.len() implies came_from(
                        orig,
                        #[trigger] kept@[j],
                        i + 1,
                    ) by {
                        if j < prev.len() {
                            assert(came_from(orig, prev[j], i as int));
                            let k = choose|k: int| 0 <= k < i && #[trigger] orig[k] == prev[j];
                            assert(orig[k] == kept@[j]);
                        } else {
                            assert(orig[i as int] == kept@[j]);
                        }
                    }
                }
            } else {
                ended_ids.push(w.id);
            }
            i = i + 1;
        }
        assert(orig.take(orig.len() as int) == orig);
        self.workers = kept;
        self.ended = self.ended + ended_ids.len() as u64;
        ended_ids
    }
}

/// `w` is one of the first `n` workers of `orig`.
pub open spec fn came_from(orig: Seq<WorkerSlot>, w: WorkerSlot, n: int) -> bool {
    exists|k: int| 0 <= k < n && #[trigger] orig[k] == w
}

/// Outside shutdown the pool keeps between its minimum and maximum
/// number of workers, and every worker whose start hook ran either runs
/// or has run its end hook exactly once.
pub proof fn lemma_pool_bounds(p: WorkerPool)
    requires
        p.wf(),
    ensures
        !p.shutting_down() ==> p.min_workers() <= p.workers().len() <= p.max_workers(),
        p.started() == p.ended() + p.workers().len(),
{
}

} // verus!
