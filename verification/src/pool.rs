use std::collections::VecDeque;
use vstd::prelude::*;

verus! {

/// The shared core of a work-dispatch pool that spawns workers on demand and
/// lets each worker exit the moment it finds no pending work.
///
/// The core holds the FIFO queue of pending tasks and the count of workers
/// currently holding a slot, together with the bound on that count. It is
/// generic over the task payload `T`, so a runtime may store boxed callables
/// while proofs and tests work with plain values. The core itself makes every
/// queue and counter decision; actually running tasks on threads is the
/// caller's side of the bargain.
pub struct ShrinkPool<T> {
    pool_size: usize,
    num_running_threads: usize,
    tasks: VecDeque<T>,
}

impl<T> ShrinkPool<T> {
    /// Pending tasks, in submission (FIFO) order.
    pub closed spec fn queue(&self) -> Seq<T> {
        self.tasks@
    }

    /// Number of workers currently holding a slot: spawned and not yet retired.
    pub closed spec fn running(&self) -> nat {
        self.num_running_threads as nat
    }

    /// The bound on concurrently live workers.
    pub closed spec fn size(&self) -> nat {
        self.pool_size as nat
    }

    /// The invariant that holds at every quiescent point (whenever no caller
    /// is in the middle of a call): the pool size is positive, the worker
    /// count never exceeds it, and pending work is never left without a live
    /// worker to claim it.
    pub open spec fn wf(&self) -> bool {
        &&& 1 <= self.size()
        &&& self.running() <= self.size()
        &&& self.queue().len() > 0 ==> 1 <= self.running()
    }

    /// Create an idle pool: no pending tasks, no live workers.
    pub fn new(pool_size: usize) -> (pool: ShrinkPool<T>)
        requires
            1 <= pool_size,
        ensures
            pool.wf(),
            pool.size() == pool_size,
            pool.running() == 0,
            pool.queue() == Seq::<T>::empty(),
    {
        ShrinkPool { pool_size, num_running_threads: 0, tasks: VecDeque::new() }
    }

    /// The dispatch decision: append one task to the tail of the queue and
    /// decide whether a new worker must be started. The worker slot is
    /// reserved here, before the caller starts the worker, so two concurrent
    /// submitters can never both see room for the same slot.
    ///
    /// Returns `true` exactly when the caller must start one new worker.
    pub fn execute(&mut self, task: T) -> (spawn: bool)
        requires
            old(self).wf(),
        ensures
            final(self).wf(),
            final(self).size() == old(self).size(),
            final(self).queue() == old(self).queue().push(task),
            spawn == (old(self).running() < old(self).size()),
            final(self).running() == if spawn {
                old(self).running() + 1
            } else {
                old(self).running()
            },
    {
        self.tasks.push_back(task);
        if self.num_running_threads < self.pool_size {
            self.num_running_threads = self.num_running_threads + 1;
            true
        } else {
            false
        }
    }

    /// The worker-loop decision, taken by a worker that holds a slot: take
    /// the front of the queue to run it, or, if the queue is empty, give the
    /// slot back so the caller retires the worker.
    ///
    /// Returns `Some` with the oldest pending task, leaving the worker count
    /// unchanged, or `None` after decrementing the worker count.
    pub fn claim(&mut self) -> (task: Option<T>)
        requires
            old(self).wf(),
            1 <= old(self).running(),
        ensures
            final(self).wf(),
            final(self).size() == old(self).size(),
            match task {
                Some(t) => {
                    &&& old(self).queue().len() > 0
                    &&& t == old(self).queue()[0]
                    &&& final(self).queue() == old(self).queue().drop_first()
                    &&& final(self).running() == old(self).running()
                },
                None => {
                    &&& old(self).queue().len() == 0
                    &&& final(self).queue() == old(self).queue()
                    &&& final(self).running() == old(self).running() - 1
                },
            },
    {
        match self.tasks.pop_front() {
            Some(t) => Some(t),
            None => {
                self.num_running_threads = self.num_running_threads - 1;
                None
            },
        }
    }
}

} // verus!
