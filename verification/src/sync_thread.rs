use crate::pool::ShrinkPool;
use vstd::prelude::*;

verus! {

/// A [`ShrinkPool`] fixed at size 1: the single-thread façade.
///
/// Because at most one worker is ever alive, tasks do not only get claimed in
/// submission order — they also complete strictly one at a time, in that same
/// order. Between bursts of work the single worker retires, and a fresh one
/// is started on the next submission.
pub struct SyncThread<T> {
    pool: ShrinkPool<T>,
}

impl<T> SyncThread<T> {
    /// Pending tasks, in submission (FIFO) order.
    pub closed spec fn queue(&self) -> Seq<T> {
        self.pool.queue()
    }

    /// Number of workers currently holding a slot: 0 or 1.
    pub closed spec fn running(&self) -> nat {
        self.pool.running()
    }

    /// The façade's invariant: the underlying pool is well formed and its
    /// size is exactly 1.
    pub closed spec fn wf(&self) -> bool {
        &&& self.pool.wf()
        &&& self.pool.size() == 1
    }

    /// Create an idle façade: no pending tasks, no live worker.
    pub fn new() -> (thread: SyncThread<T>)
        ensures
            thread.wf(),
            thread.running() == 0,
            thread.queue() == Seq::<T>::empty(),
    {
        SyncThread { pool: ShrinkPool::new(1) }
    }

    /// The dispatch decision of the façade: append one task to the tail of
    /// the queue; the single worker slot is reserved exactly when no worker
    /// is alive.
    ///
    /// Returns `true` exactly when the caller must start the worker.
    pub fn execute(&mut self, task: T) -> (spawn: bool)
        requires
            old(self).wf(),
        ensures
            final(self).wf(),
            final(self).queue() == old(self).queue().push(task),
            spawn == (old(self).running() == 0),
            final(self).running() == 1,
    {
        self.pool.execute(task)
    }

    /// The worker-loop decision of the façade's single worker: take the
    /// oldest pending task, or give the slot back when the queue is empty.
    pub fn claim(&mut self) -> (task: Option<T>)
        requires
            old(self).wf(),
            1 <= old(self).running(),
        ensures
            final(self).wf(),
            match task {
                Some(t) => {
                    &&& old(self).queue().len() > 0
                    &&& t == old(self).queue()[0]
                    &&& final(self).queue() == old(self).queue().drop_first()
                    &&& final(self).running() == old(self).running()
                },
                None => {
                    &&& old(self).queue().len() == 0
                    &&& final(self).queue() == old(self).queue()
                    &&& final(self).running() == old(self).running() - 1
                },
            },
    {
        self.pool.claim()
    }
}

} // verus!
