//! An abstract model of the pool's concurrent execution, and the laws proved
//! over it.
//!
//! A run of the pool is a sequence of atomic steps, each taken with the
//! protecting lock held (or, for task completion and abnormal termination,
//! at the instant the worker re-engages the pool). The model records what
//! the executable core cannot see from inside one call: which tasks are in
//! flight, and the full histories of submission, claiming, completion and
//! loss. The bridge lemmas at the end state that each call on
//! [`ShrinkPool`](crate::pool::ShrinkPool) is exactly one step of this model.

use crate::pool::ShrinkPool;
use crate::sync_thread::SyncThread;
use vstd::multiset::Multiset;
use vstd::prelude::*;

verus! {

/// One atomic step of a pool run.
pub enum Event<T> {
    /// A caller hands the pool one task: the dispatch path of `execute`.
    Submit(T),
    /// A worker holding a slot, with the lock held, takes the front of the
    /// queue and starts executing it.
    Claim,
    /// The in-flight task at the given position returns normally; its worker
    /// goes back to draining the queue.
    Finish(int),
    /// The in-flight task at the given position terminates abnormally; the
    /// failure guard starts a replacement worker into the same slot, so the
    /// worker count does not change.
    Abort(int),
    /// A worker that found the queue empty gives its slot back and exits.
    Retire,
}

/// The abstract state of one pool together with the histories of a run.
pub struct PoolModel<T> {
    /// The bound on concurrently live workers.
    pub pool_size: nat,
    /// Pending tasks, in submission order.
    pub queue: Seq<T>,
    /// Workers currently holding a slot.
    pub running: nat,
    /// Tasks claimed and not yet finished or aborted, in claim order.
    pub executing: Seq<T>,
    /// Every task ever submitted, in submission order.
    pub submitted: Seq<T>,
    /// Every task ever claimed, in claim order.
    pub claimed: Seq<T>,
    /// Every task that returned normally, in completion order.
    pub done: Seq<T>,
    /// Every task that terminated abnormally, in the order observed.
    pub lost: Seq<T>,
}

impl<T> PoolModel<T> {
    /// The state of a freshly constructed pool: empty histories, no workers.
    pub open spec fn initial(pool_size: nat) -> PoolModel<T> {
        PoolModel {
            pool_size,
            queue: Seq::empty(),
            running: 0,
            executing: Seq::empty(),
            submitted: Seq::empty(),
            claimed: Seq::empty(),
            done: Seq::empty(),
            lost: Seq::empty(),
        }
    }

    /// When an event can occur. Submission is always possible; a claim or a
    /// retirement needs a worker that is not executing (a draining worker);
    /// completion and abnormal termination need the named in-flight task.
    pub open spec fn enabled(self, e: Event<T>) -> bool {
        match e {
            Event::Submit(_) => true,
            Event::Claim => self.queue.len() > 0 && self.executing.len() < self.running,
            Event::Finish(i) => 0 <= i < self.executing.len(),
            Event::Abort(i) => 0 <= i < self.executing.len(),
            Event::Retire => self.queue.len() == 0 && self.executing.len() < self.running,
        }
    }

    /// The state after one event. `Submit` reserves a worker slot exactly
    /// when there is room, before the new worker exists — the
    /// increment-before-spawn protocol that keeps the ceiling tight.
    /// `Abort` keeps `running` unchanged: the replacement worker reuses the
    /// slot already accounted to the failed one.
    pub open spec fn step(self, e: Event<T>) -> PoolModel<T> {
        match e {
            Event::Submit(t) => PoolModel {
                queue: self.queue.push(t),
                submitted: self.submitted.push(t),
                running: if self.running < self.pool_size {
                    self.running + 1
                } else {
                    self.running
                },
                ..self
            },
            Event::Claim => PoolModel {
                queue: self.queue.drop_first(),
                claimed: self.claimed.push(self.queue[0]),
                executing: self.executing.push(self.queue[0]),
                ..self
            },
            Event::Finish(i) => PoolModel {
                done: self.done.push(self.executing[i]),
                executing: self.executing.remove(i),
                ..self
            },
            Event::Abort(i) => PoolModel {
                lost: self.lost.push(self.executing[i]),
                executing: self.executing.remove(i),
                ..self
            },
            Event::Retire => PoolModel { running: (self.running - 1) as nat, ..self },
        }
    }

    /// The inductive invariant of every reachable state: the worker count
    /// stays within the bound, in-flight tasks each occupy a worker, pending
    /// work always has a live worker to claim it, the queue is exactly the
    /// submitted tasks not yet claimed (in order), and every claimed task is
    /// in flight, finished or lost — exactly once.
    pub open spec fn inv(self) -> bool {
        &&& 1 <= self.pool_size
        &&& self.executing.len() <= self.running
        &&& self.running <= self.pool_size
        &&& self.queue.len() > 0 ==> 1 <= self.running
        &&& self.submitted == self.claimed + self.queue
        &&& self.claimed.to_multiset() == self.done.to_multiset().add(
            self.lost.to_multiset(),
        ).add(self.executing.to_multiset())
    }

    /// No pending work, nothing in flight, no live workers.
    pub open spec fn quiescent(self) -> bool {
        &&& self.queue.len() == 0
        &&& self.executing.len() == 0
        &&& self.running == 0
    }

    /// The strengthened invariant of a size-1 pool on a run with no abnormal
    /// terminations: the completed, in-flight and pending tasks, in that
    /// order, spell out the submission history exactly.
    pub open spec fn single_ordered(self) -> bool {
        &&& self.inv()
        &&& self.pool_size == 1
        &&& self.lost.len() == 0
        &&& self.submitted == self.done + self.executing + self.queue
    }

    /// The state after a whole trace of events.
    pub open spec fn run_trace(self, tr: Seq<Event<T>>) -> PoolModel<T>
        decreases tr.len(),
    {
        if tr.len() == 0 {
            self
        } else {
            self.step(tr[0]).run_trace(tr.drop_first())
        }
    }

    /// Every event of the trace is enabled in the state it is taken from.
    pub open spec fn trace_enabled(self, tr: Seq<Event<T>>) -> bool
        decreases tr.len(),
    {
        tr.len() == 0 || (self.enabled(tr[0]) && self.step(tr[0]).trace_enabled(tr.drop_first()))
    }
}

/// A trace with no abnormal terminations.
pub open spec fn no_abort<T>(tr: Seq<Event<T>>) -> bool {
    forall|i: int| 0 <= i < tr.len() ==> !(#[trigger] tr[i] is Abort)
}

/// A trace in which no further tasks are submitted.
pub open spec fn no_submit<T>(tr: Seq<Event<T>>) -> bool {
    forall|i: int| 0 <= i < tr.len() ==> !(#[trigger] tr[i] is Submit)
}

/// A freshly constructed pool with a positive size satisfies the invariant
/// and is quiescent. A size of zero is rejected at construction, so no model
/// of a live pool ever carries it.
pub proof fn lemma_initial_well_formed<T>(pool_size: nat)
    requires
        1 <= pool_size,
    ensures
        PoolModel::<T>::initial(pool_size).inv(),
        PoolModel::<T>::initial(pool_size).quiescent(),
        pool_size == 1 ==> PoolModel::<T>::initial(pool_size).single_ordered(),
{
    let m = PoolModel::<T>::initial(pool_size);
    lemma_empty_to_multiset(m.claimed);
    assert(m.submitted =~= m.claimed + m.queue);
    assert(m.claimed.to_multiset() =~= m.done.to_multiset().add(m.lost.to_multiset()).add(
        m.executing.to_multiset(),
    ));
    assert(m.submitted =~= m.done + m.executing + m.queue);
}

/// The multiset of an empty sequence is the empty multiset.
proof fn lemma_empty_to_multiset<T>(s: Seq<T>)
    requires
        s.len() == 0,
    ensures
        s.to_multiset() == Multiset::<T>::empty(),
{
    broadcast use vstd::seq_lib::group_to_multiset_ensures;

    assert forall|a: T| s.to_multiset().count(a) == 0 by {
        assert(!s.contains(a));
    }
    assert(s.to_multiset() =~= Multiset::<T>::empty());
}

/// Every enabled event preserves the invariant: the pool can never be driven
/// out of its reachable-state envelope, whatever the interleaving.
pub proof fn lemma_step_preserves_inv<T>(m: PoolModel<T>, e: Event<T>)
    requires
        m.inv(),
        m.enabled(e),
    ensures
        m.step(e).inv(),
        m.step(e).pool_size == m.pool_size,
{
    broadcast use vstd::seq_lib::group_to_multiset_ensures;

    let n = m.step(e);
    match e {
        Event::Submit(t) => {
            assert(n.submitted =~= n.claimed + n.queue);
        },
        Event::Claim => {
            assert(n.submitted =~= n.claimed + n.queue);
            assert(n.claimed.to_multiset() =~= n.done.to_multiset().add(
                n.lost.to_multiset(),
            ).add(n.executing.to_multiset()));
        },
        Event::Finish(i) => {
            let t = m.executing[i];
            assert(m.executing.contains(t));
            assert(m.executing.to_multiset().count(t) > 0);
            assert(n.claimed.to_multiset() =~= n.done.to_multiset().add(
                n.lost.to_multiset(),
            ).add(n.executing.to_multiset()));
        },
        Event::Abort(i) => {
            let t = m.executing[i];
            assert(m.executing.contains(t));
            assert(m.executing.to_multiset().count(t) > 0);
            assert(n.claimed.to_multiset() =~= n.done.to_multiset().add(
                n.lost.to_multiset(),
            ).add(n.executing.to_multiset()));
        },
        Event::Retire => {},
    }
}

/// Unfolding a trace that starts with one known event: the run and the
/// enabledness condition decompose into the first step and the rest.
proof fn lemma_cons_trace<T>(m: PoolModel<T>, e: Event<T>, rest: Seq<Event<T>>)
    ensures
        (seq![e] + rest)[0] == e,
        (seq![e] + rest).drop_first() == rest,
        (seq![e] + rest).len() == rest.len() + 1,
        m.run_trace(seq![e] + rest) == m.step(e).run_trace(rest),
        m.enabled(e) && m.step(e).trace_enabled(rest) ==> m.trace_enabled(seq![e] + rest),
{
    assert((seq![e] + rest).drop_first() =~= rest);
}

/// The invariant holds after any enabled trace, and the pool size never
/// changes along it.
pub proof fn lemma_run_preserves_inv<T>(m: PoolModel<T>, tr: Seq<Event<T>>)
    requires
        m.inv(),
        m.trace_enabled(tr),
    ensures
        m.run_trace(tr).inv(),
        m.run_trace(tr).pool_size == m.pool_size,
    decreases tr.len(),
{
    if tr.len() > 0 {
        lemma_step_preserves_inv(m, tr[0]);
        lemma_run_preserves_inv(m.step(tr[0]), tr.drop_first());
    }
}

/// Accounting at rest: once the queue is empty and nothing is in flight,
/// the claim history is exactly the submission history, and the finished
/// and lost tasks together are exactly the submitted ones. With nothing
/// lost, every submitted task finished exactly once.
pub proof fn lemma_quiescent_accounting<T>(m: PoolModel<T>)
    requires
        m.inv(),
        m.queue.len() == 0,
        m.executing.len() == 0,
    ensures
        m.claimed == m.submitted,
        m.done.to_multiset().add(m.lost.to_multiset()) == m.submitted.to_multiset(),
        m.lost.len() == 0 ==> m.done.to_multiset() == m.submitted.to_multiset(),
{
    assert(m.claimed =~= m.claimed + m.queue);
    lemma_empty_to_multiset(m.executing);
    assert(m.done.to_multiset().add(m.lost.to_multiset()) =~= m.done.to_multiset().add(
        m.lost.to_multiset(),
    ).add(m.executing.to_multiset()));
    if m.lost.len() == 0 {
        lemma_empty_to_multiset(m.lost);
        assert(m.done.to_multiset() =~= m.done.to_multiset().add(m.lost.to_multiset()));
    }
}

/// The workers alone drive any reachable pool to rest: from any state that
/// satisfies the invariant there is an enabled trace of claim, finish and
/// retire steps — no further submissions, no abnormal terminations — whose
/// end state is quiescent. Every task that was pending or in flight has
/// finished, and nothing new has been submitted or lost along the way.
pub proof fn drain_schedule<T>(m: PoolModel<T>) -> (tr: Seq<Event<T>>)
    requires
        m.inv(),
    ensures
        m.trace_enabled(tr),
        no_abort(tr),
        no_submit(tr),
        m.run_trace(tr).quiescent(),
        m.run_trace(tr).submitted == m.submitted,
        m.run_trace(tr).lost == m.lost,
        m.run_trace(tr).pool_size == m.pool_size,
    decreases 2 * m.queue.len() + m.executing.len() + m.running,
{
    if m.running == 0 {
        let tr = Seq::<Event<T>>::empty();
        assert(m.queue.len() == 0);
        assert(m.executing.len() == 0);
        tr
    } else {
        let e: Event<T> = if m.queue.len() > 0 && m.executing.len() < m.running {
            Event::Claim
        } else if m.executing.len() > 0 {
            Event::Finish(0)
        } else {
            Event::Retire
        };
        assert(m.enabled(e));
        lemma_step_preserves_inv(m, e);
        let rest = drain_schedule(m.step(e));
        lemma_cons_trace(m, e, rest);
        assert(forall|i: int|
            0 <= i < (seq![e] + rest).len() ==> !(#[trigger] (seq![e] + rest)[i] is Abort)
                && !((seq![e] + rest)[i] is Submit));
        seq![e] + rest
    }
}

/// An enabled trace stays enabled when cut off after `k` events.
proof fn lemma_trace_enabled_prefix<T>(m: PoolModel<T>, tr: Seq<Event<T>>, k: int)
    requires
        m.trace_enabled(tr),
        0 <= k <= tr.len(),
    ensures
        m.trace_enabled(tr.take(k)),
    decreases k,
{
    if k > 0 {
        assert(tr.take(k)[0] == tr[0]);
        assert(tr.take(k).drop_first() =~= tr.drop_first().take(k - 1));
        lemma_trace_enabled_prefix(m.step(tr[0]), tr.drop_first(), k - 1);
    }
}

/// Law: the number of concurrently executing tasks, and the number of live
/// workers, never exceed the pool size — at every point along any enabled
/// trace from a reachable state, not just at its end.
pub proof fn lemma_worker_bound<T>(m: PoolModel<T>, tr: Seq<Event<T>>, k: int)
    requires
        m.inv(),
        m.trace_enabled(tr),
        0 <= k <= tr.len(),
    ensures
        m.run_trace(tr.take(k)).executing.len() <= m.pool_size,
        m.run_trace(tr.take(k)).running <= m.pool_size,
{
    lemma_trace_enabled_prefix(m, tr, k);
    lemma_run_preserves_inv(m, tr.take(k));
}

/// Law: tasks are claimed strictly in submission order. In every reachable
/// state the claim history is a prefix of the submission history — whatever
/// the interleaving of submitters and workers, and whatever the pool size.
/// Only the claim order is guaranteed; completion order across workers is
/// not.
pub proof fn lemma_fifo_claim_order<T>(m: PoolModel<T>)
    requires
        m.inv(),
    ensures
        m.claimed == m.submitted.take(m.claimed.len() as int),
{
    assert(m.claimed =~= (m.claimed + m.queue).take(m.claimed.len() as int));
}

/// Law: with no abnormal terminations, every submitted task eventually runs,
/// each exactly once. From any reachable state with nothing lost there is an
/// enabled schedule of worker steps — no further submissions needed — after
/// which the pool is quiescent and the multiset of finished tasks is exactly
/// the multiset of submitted ones.
pub proof fn lemma_all_submitted_finish_exactly_once<T>(m: PoolModel<T>) -> (tr: Seq<Event<T>>)
    requires
        m.inv(),
        m.lost.len() == 0,
    ensures
        m.trace_enabled(tr),
        no_abort(tr),
        no_submit(tr),
        m.run_trace(tr).quiescent(),
        m.run_trace(tr).done.to_multiset() == m.submitted.to_multiset(),
{
    let tr = drain_schedule(m);
    lemma_run_preserves_inv(m, tr);
    lemma_quiescent_accounting(m.run_trace(tr));
    tr
}

/// Law: after the last claimed task completes and no further submissions
/// occur, the live-worker count converges to zero within a bounded number of
/// steps: exactly one retirement per live worker, and nothing else changes.
pub proof fn lemma_workers_converge_to_zero<T>(m: PoolModel<T>) -> (tr: Seq<Event<T>>)
    requires
        m.inv(),
        m.queue.len() == 0,
        m.executing.len() == 0,
    ensures
        m.trace_enabled(tr),
        tr.len() == m.running,
        forall|i: int| 0 <= i < tr.len() ==> (#[trigger] tr[i]) is Retire,
        m.run_trace(tr).quiescent(),
        m.run_trace(tr).done == m.done,
        m.run_trace(tr).lost == m.lost,
        m.run_trace(tr).submitted == m.submitted,
    decreases m.running,
{
    if m.running == 0 {
        Seq::<Event<T>>::empty()
    } else {
        let e = Event::<T>::Retire;
        lemma_step_preserves_inv(m, e);
        let rest = lemma_workers_converge_to_zero(m.step(e));
        lemma_cons_trace(m, e, rest);
        assert(forall|i: int|
            0 <= i < (seq![e] + rest).len() ==> (#[trigger] (seq![e] + rest)[i]) is Retire);
        seq![e] + rest
    }
}

/// Law (self-healing): a task that terminates abnormally costs the pool
/// nothing but that task. The abort step leaves the queue, the worker-slot
/// accounting and the submission history intact — the replacement worker
/// reuses the failed worker's slot — and from the resulting state every
/// other pending or in-flight task still finishes: at rest the finished
/// tasks are exactly the submitted ones except those lost.
pub proof fn lemma_self_healing<T>(m: PoolModel<T>, i: int) -> (tr: Seq<Event<T>>)
    requires
        m.inv(),
        0 <= i < m.executing.len(),
    ensures
        ({
            let after = m.step(Event::Abort(i));
            &&& after.inv()
            &&& after.queue == m.queue
            &&& after.running == m.running
            &&& after.submitted == m.submitted
            &&& after.trace_enabled(tr)
            &&& after.run_trace(tr).quiescent()
            &&& after.run_trace(tr).done.to_multiset().add(
                m.lost.to_multiset().insert(m.executing[i]),
            ) == m.submitted.to_multiset()
        }),
{
    broadcast use vstd::seq_lib::group_to_multiset_ensures;

    lemma_step_preserves_inv(m, Event::Abort(i));
    let after = m.step(Event::Abort(i));
    let tr = drain_schedule(after);
    lemma_run_preserves_inv(after, tr);
    lemma_quiescent_accounting(after.run_trace(tr));
    tr
}

/// Law: spawn-on-demand survives a full shrink. Submitting to a pool at
/// rest — zero live workers, as after a fully drained first batch — reserves
/// a worker slot at once, so the new task has a worker to claim it, and the
/// new batch then drains with the same guarantees as the first.
pub proof fn lemma_resume_after_shrink<T>(m: PoolModel<T>, t: T) -> (tr: Seq<Event<T>>)
    requires
        m.inv(),
        m.running == 0,
    ensures
        ({
            let after = m.step(Event::Submit(t));
            &&& after.inv()
            &&& after.running == 1
            &&& after.enabled(Event::Claim)
            &&& after.trace_enabled(tr)
            &&& after.run_trace(tr).quiescent()
            &&& after.run_trace(tr).lost == m.lost
            &&& after.run_trace(tr).done.to_multiset().add(m.lost.to_multiset())
                == m.submitted.to_multiset().insert(t)
        }),
{
    broadcast use vstd::seq_lib::group_to_multiset_ensures;

    lemma_step_preserves_inv(m, Event::Submit(t));
    let after = m.step(Event::Submit(t));
    let tr = drain_schedule(after);
    lemma_run_preserves_inv(after, tr);
    lemma_quiescent_accounting(after.run_trace(tr));
    tr
}

/// A non-abort event preserves the strict-order invariant of a size-1 pool.
proof fn lemma_step_preserves_order<T>(m: PoolModel<T>, e: Event<T>)
    requires
        m.single_ordered(),
        m.enabled(e),
        !(e is Abort),
    ensures
        m.step(e).single_ordered(),
{
    lemma_step_preserves_inv(m, e);
    let n = m.step(e);
    match e {
        Event::Submit(t) => {
            assert(n.submitted =~= n.done + n.executing + n.queue);
        },
        Event::Claim => {
            assert(m.executing.len() == 0);
            assert(m.queue =~= seq![m.queue[0]] + m.queue.drop_first());
            assert(n.submitted =~= n.done + n.executing + n.queue);
        },
        Event::Finish(i) => {
            assert(m.executing.len() == 1);
            assert(m.executing.remove(0) =~= Seq::<T>::empty());
            assert(n.submitted =~= n.done + n.executing + n.queue);
        },
        Event::Abort(_) => {
            assert(false);
        },
        Event::Retire => {},
    }
}

/// The strict-order invariant holds after any enabled trace with no aborts.
proof fn lemma_run_preserves_order<T>(m: PoolModel<T>, tr: Seq<Event<T>>)
    requires
        m.single_ordered(),
        m.trace_enabled(tr),
        no_abort(tr),
    ensures
        m.run_trace(tr).single_ordered(),
    decreases tr.len(),
{
    if tr.len() > 0 {
        assert(forall|i: int|
            0 <= i < tr.drop_first().len() ==> !((#[trigger] tr.drop_first()[i]) is Abort));
        lemma_step_preserves_order(m, tr[0]);
        lemma_run_preserves_order(m.step(tr[0]), tr.drop_first());
    }
}

/// Law: the single-thread façade preserves strict submission order. For a
/// size-1 pool on a run with no abnormal terminations, draining the pool
/// completes the tasks in exactly the order they were submitted: at rest the
/// completion history equals the submission history — as sequences, not just
/// as multisets.
pub proof fn lemma_single_thread_fifo<T>(m: PoolModel<T>) -> (tr: Seq<Event<T>>)
    requires
        m.single_ordered(),
    ensures
        m.trace_enabled(tr),
        no_abort(tr),
        no_submit(tr),
        m.run_trace(tr).quiescent(),
        m.run_trace(tr).done == m.submitted,
{
    let tr = drain_schedule(m);
    lemma_run_preserves_order(m, tr);
    let f = m.run_trace(tr);
    assert(f.done =~= f.done + f.executing + f.queue);
    tr
}

/// Abstraction: the model state whose observable part — pool size, worker
/// count and pending queue — is the one the executable core holds.
pub open spec fn abstracts<T>(m: PoolModel<T>, p: ShrinkPool<T>) -> bool {
    &&& m.pool_size == p.size()
    &&& m.running == p.running()
    &&& m.queue == p.queue()
}

/// Bridge: one call of `ShrinkPool::execute` is one `Submit` step of the
/// model — the contract of `execute` forces exactly the observable part of
/// that step.
pub proof fn lemma_execute_is_submit<T>(
    m: PoolModel<T>,
    pre: ShrinkPool<T>,
    post: ShrinkPool<T>,
    task: T,
    spawn: bool,
)
    requires
        abstracts(m, pre),
        post.size() == pre.size(),
        post.queue() == pre.queue().push(task),
        spawn == (pre.running() < pre.size()),
        post.running() == if spawn {
            pre.running() + 1
        } else {
            pre.running()
        },
    ensures
        m.enabled(Event::Submit(task)),
        abstracts(m.step(Event::Submit(task)), post),
{
}

/// Bridge: one call of `ShrinkPool::claim` by a worker that holds a slot and
/// is not executing is one `Claim` step (a task came back) or one `Retire`
/// step (the queue was empty) of the model.
pub proof fn lemma_claim_is_claim_or_retire<T>(
    m: PoolModel<T>,
    pre: ShrinkPool<T>,
    post: ShrinkPool<T>,
    task: Option<T>,
)
    requires
        abstracts(m, pre),
        m.executing.len() < m.running,
        post.size() == pre.size(),
        match task {
            Some(t) => {
                &&& pre.queue().len() > 0
                &&& t == pre.queue()[0]
                &&& post.queue() == pre.queue().drop_first()
                &&& post.running() == pre.running()
            },
            None => {
                &&& pre.queue().len() == 0
                &&& post.queue() == pre.queue()
                &&& post.running() == pre.running() - 1
            },
        },
    ensures
        match task {
            Some(_) => m.enabled(Event::Claim) && abstracts(m.step(Event::Claim), post),
            None => m.enabled(Event::Retire) && abstracts(m.step(Event::Retire), post),
        },
{
}

/// Abstraction for the single-thread façade: a size-1 model state whose
/// worker count and pending queue are the façade's.
pub open spec fn abstracts_sync<T>(m: PoolModel<T>, s: SyncThread<T>) -> bool {
    &&& m.pool_size == 1
    &&& m.running == s.running()
    &&& m.queue == s.queue()
}

/// Bridge: one call of `SyncThread::execute` is one `Submit` step of the
/// size-1 model.
pub proof fn lemma_sync_execute_is_submit<T>(
    m: PoolModel<T>,
    pre: SyncThread<T>,
    post: SyncThread<T>,
    task: T,
    spawn: bool,
)
    requires
        abstracts_sync(m, pre),
        post.queue() == pre.queue().push(task),
        spawn == (pre.running() == 0),
        post.running() == 1,
        pre.running() <= 1,
    ensures
        m.enabled(Event::Submit(task)),
        abstracts_sync(m.step(Event::Submit(task)), post),
{
}

/// Bridge: one call of `SyncThread::claim` by the façade's single worker is
/// one `Claim` step (a task came back) or one `Retire` step (the queue was
/// empty) of the size-1 model.
pub proof fn lemma_sync_claim_is_claim_or_retire<T>(
    m: PoolModel<T>,
    pre: SyncThread<T>,
    post: SyncThread<T>,
    task: Option<T>,
)
    requires
        abstracts_sync(m, pre),
        m.executing.len() < m.running,
        match task {
            Some(t) => {
                &&& pre.queue().len() > 0
                &&& t == pre.queue()[0]
                &&& post.queue() == pre.queue().drop_first()
                &&& post.running() == pre.running()
            },
            None => {
                &&& pre.queue().len() == 0
                &&& post.queue() == pre.queue()
                &&& post.running() == pre.running() - 1
            },
        },
    ensures
        match task {
            Some(_) => m.enabled(Event::Claim) && abstracts_sync(m.step(Event::Claim), post),
            None => m.enabled(Event::Retire) && abstracts_sync(m.step(Event::Retire), post),
        },
{
}

} // verus!
