//! A minimal executor: tasks are polled in the order they are scheduled, and
//! a task whose future has completed is never polled again.

use vstd::prelude::*;
use crate::timer::{PollState, TimedFuture};

verus! {

/// A future together with the result of the latest poll of it.
pub struct TaskFuture<F> {
    future: F,
    poll: PollState,
}

/// The state a task is in after one more poll at `now`.
pub open spec fn state_after_poll<F: TimedFuture>(t: TaskFuture<F>, now: u64) -> PollState {
    if t.last_poll() == PollState::Ready || t.future().ready_at(now) {
        PollState::Ready
    } else {
        PollState::Pending
    }
}

/// Both tasks' futures complete at the same times.
pub open spec fn same_readiness<F: TimedFuture>(a: TaskFuture<F>, b: TaskFuture<F>) -> bool {
    forall|t: u64| #[trigger] a.future().ready_at(t) == b.future().ready_at(t)
}

/// `cur` is what polling `before` once or more at `now` leaves.
pub open spec fn polled_at<F: TimedFuture>(before: TaskFuture<F>, cur: TaskFuture<F>, now: u64) -> bool {
    &&& cur.last_poll() == state_after_poll(before, now)
    &&& before.last_poll() == PollState::Ready ==> cur == before
    &&& same_readiness(before, cur)
}

/// Polling a task again at the same time changes nothing more: spurious
/// wake-ups are harmless.
pub proof fn law_repoll<F: TimedFuture>(o: TaskFuture<F>, c: TaskFuture<F>, d: TaskFuture<F>, now: u64)
    requires
        polled_at(o, c, now),
        polled_at(c, d, now),
    ensures
        polled_at(o, d, now),
{
    assert(c.future().ready_at(now) == o.future().ready_at(now));
    assert forall|t: u64| #[trigger] o.future().ready_at(t) == d.future().ready_at(t) by {
        assert(c.future().ready_at(t) == o.future().ready_at(t));
    }
}

impl<F: TimedFuture> TaskFuture<F> {
    /// The future being driven.
    pub closed spec fn future(&self) -> F {
        self.future
    }

    /// The result of the latest poll (pending before the first).
    pub closed spec fn last_poll(&self) -> PollState {
        self.poll
    }

    /// A task for `future`, not yet polled.
    pub fn new(future: F) -> (r: TaskFuture<F>)
        ensures
            r.future() == future,
            r.last_poll() == PollState::Pending,
    {
        TaskFuture { future, poll: PollState::Pending }
    }

    /// Polls the future at `now`, unless it has already completed: a
    /// completed future is never polled again.
    pub fn poll(&mut self, now: u64)
        ensures
            polled_at(*old(self), *final(self), now),
            final(self).future() == old(self).future(),
    {
        if self.poll == PollState::Pending {
            self.poll = self.future.poll(now);
        }
    }
}

/// The entries of queue `q`, in order and one for each entry, whose task
/// in `tasks` is pending.
pub open spec fn pending_ids<F: TimedFuture>(q: Seq<usize>, tasks: Seq<TaskFuture<F>>) -> Seq<usize>
    decreases q.len(),
{
    if q.len() == 0 {
        Seq::empty()
    } else {
        let rest = pending_ids(q.drop_last(), tasks);
        if q.last() < tasks.len() && tasks[q.last() as int].last_poll() == PollState::Pending {
            rest.push(q.last())
        } else {
            rest
        }
    }
}

/// `pending_ids` looks only at the states of the tasks the queue names.
proof fn lemma_pending_ids_same_states<F: TimedFuture>(q: Seq<usize>, a: Seq<TaskFuture<F>>, b: Seq<TaskFuture<F>>)
    requires
        a.len() == b.len(),
        forall|m: int| 0 <= m < q.len() ==> #[trigger] q[m] < a.len() && a[q[m] as int].last_poll() == b[q[m] as int].last_poll(),
    ensures
        pending_ids(q, a) == pending_ids(q, b),
    decreases q.len(),
{
    if q.len() > 0 {
        let p = q.drop_last();
        assert forall|m: int| 0 <= m < p.len() implies #[trigger] p[m] < a.len() && a[p[m] as int].last_poll() == b[p[m] as int].last_poll() by {
            assert(p[m] == q[m]);
        }
        lemma_pending_ids_same_states(p, a, b);
        assert(q[q.len() - 1] == q.last());
    }
}

/// The executor: its tasks, and the queue of tasks scheduled to be polled.
pub struct MiniTokio<F> {
    tasks: Vec<TaskFuture<F>>,
    scheduled: Vec<usize>,
    polled: Ghost<Seq<usize>>,
}

impl<F: TimedFuture> MiniTokio<F> {
    /// The tasks, by their id.
    pub closed spec fn tasks(&self) -> Seq<TaskFuture<F>> {
        self.tasks@
    }

    /// The ids of the tasks polled so far, one entry per poll, in order.
    pub closed spec fn poll_log(&self) -> Seq<usize> {
        self.polled@
    }

    /// The ids of the tasks scheduled to be polled, in order.
    pub closed spec fn queue(&self) -> Seq<usize> {
        self.scheduled@
    }

    /// Every scheduled id names a task.
    pub open spec fn wf(&self) -> bool {
        forall|k: int| 0 <= k < self.queue().len() ==> #[trigger] self.queue()[k] < self.tasks().len()
    }

    /// An executor with no task.
    pub fn new() -> (r: MiniTokio<F>)
        ensures
            r.wf(),
            r.tasks() == Seq::<TaskFuture<F>>::empty(),
            r.queue() == Seq::<usize>::empty(),
            r.poll_log() == Seq::<usize>::empty(),
    {
        MiniTokio { tasks: Vec::new(), scheduled: Vec::new(), polled: Ghost(Seq::empty()) }
    }

    /// Whether every task has completed: the executor's work is done.
    pub fn all_complete(&self) -> (r: bool)
        ensures
            r == forall|j: int| 0 <= j < self.tasks().len() ==> #[trigger] self.tasks()[j].last_poll() == PollState::Ready,
    {
        let n = self.tasks.len();
        let mut i: usize = 0;
        while i < n
            invariant
                n == self.tasks@.len(),
                i <= n,
                forall|j: int| 0 <= j < i ==> #[trigger] self.tasks@[j].last_poll() == PollState::Ready,
            decreases n - i,
        {
            if self.tasks[i].poll == PollState::Pending {
                assert(self.tasks@[i as int].last_poll() != PollState::Ready);
                return false;
            }
            i = i + 1;
        }
        true
    }

    /// Puts task `id` at the end of the queue, as its waker does.
    pub fn schedule(&mut self, id: usize)
        requires
            old(self).wf(),
            id < old(self).tasks().len(),
        ensures
            final(self).wf(),
            final(self).tasks() == old(self).tasks(),
            final(self).queue() == old(self).queue().push(id),
            final(self).poll_log() == old(self).poll_log(),
    {
        self.scheduled.push(id);
        assert forall|k: int| 0 <= k < self.queue().len() implies #[trigger] self.queue()[k] < self.tasks().len() by {
            if k < old(self).queue().len() {
                assert(self.queue()[k] == old(self).queue()[k]);
            }
        }
    }

    /// Adds a task for `future` and schedules it; the task's id is returned.
    pub fn spawn(&mut self, future: F) -> (id: usize)
        requires
            old(self).wf(),
            old(self).tasks().len() < usize::MAX,
        ensures
            final(self).wf(),
            id == old(self).tasks().len(),
            final(self).tasks().len() == old(self).tasks().len() + 1,
            forall|j: int| 0 <= j < id ==> #[trigger] final(self).tasks()[j] == old(self).tasks()[j],
            final(self).tasks()[id as int].future() == future,
            final(self).tasks()[id as int].last_poll() == PollState::Pending,
            final(self).queue() == old(self).queue().push(id),
            final(self).poll_log() == old(self).poll_log(),
    {
        let id = self.tasks.len();
        self.tasks.push(TaskFuture::new(future));
        self.scheduled.push(id);
        assert forall|k: int| 0 <= k < self.queue().len() implies #[trigger] self.queue()[k] < self.tasks().len() by {
            if k < old(self).queue().len() {
                assert(self.queue()[k] == old(self).queue()[k]);
            }
        }
        id
    }

    /// Polls every scheduled task at `now`, in queue order, and empties the
    /// queue. Returns, in that order, the ids polled that are still pending.
    pub fn run(&mut self, now: u64) -> (pending: Vec<usize>)
        requires
            old(self).wf(),
        ensures
            final(self).wf(),
            final(self).queue() == Seq::<usize>::empty(),
            final(self).poll_log() == old(self).poll_log() + old(self).queue(),
            final(self).tasks().len() == old(self).tasks().len(),
            forall|j: int|
                0 <= j < old(self).tasks().len() ==> if old(self).queue().contains(j as usize) {
                    polled_at(old(self).tasks()[j], #[trigger] final(self).tasks()[j], now)
                } else {
                    final(self).tasks()[j] == old(self).tasks()[j]
                },
            forall|k: int|
                0 <= k < pending@.len() ==> {
                    &&& old(self).queue().contains(#[trigger] pending@[k])
                    &&& final(self).tasks()[pending@[k] as int].last_poll() == PollState::Pending
                },
            forall|j: usize|
                old(self).queue().contains(j) && final(self).tasks()[j as int].last_poll()
                    == PollState::Pending ==> #[trigger] pending@.contains(j),
            pending@ == pending_ids(old(self).queue(), final(self).tasks()),
    {
        let ghost old_tasks = self.tasks@;
        let task_count = self.tasks.len();
        let mut queue: Vec<usize> = Vec::new();
        std::mem::swap(&mut queue, &mut self.scheduled);
        assert forall|m: int| 0 <= m < queue@.len() implies #[trigger] queue@[m] < old_tasks.len() by {
            assert(old(self).queue()[m] == queue@[m]);
        }
        let mut pending: Vec<usize> = Vec::new();
        let n = queue.len();
        let mut k: usize = 0;
        assert(queue@.subrange(0, 0) =~= Seq::<usize>::empty());
        while k < n
            invariant
                n == queue@.len(),
                k <= n,
                self.scheduled@ == Seq::<usize>::empty(),
                self.tasks@.len() == old_tasks.len(),
                old_tasks.len() == task_count,
                forall|m: int| 0 <= m < n ==> #[trigger] queue@[m] < old_tasks.len(),
                pending@ == pending_ids(queue@.subrange(0, k as int), self.tasks@),
                self.polled@ == old(self).polled@ + queue@.subrange(0, k as int),
                queue@ == old(self).scheduled@,
                forall|j: usize|
                    j < old_tasks.len() ==> if queue@.subrange(0, k as int).contains(j) {
                        polled_at(old_tasks[j as int], #[trigger] self.tasks@[j as int], now)
                    } else {
                        self.tasks@[j as int] == old_tasks[j as int]
                    },
                forall|m: int|
                    0 <= m < pending@.len() ==> {
                        &&& queue@.subrange(0, k as int).contains(#[trigger] pending@[m])
                        &&& self.tasks@[pending@[m] as int].last_poll() == PollState::Pending
                    },
                forall|j: usize|
                    queue@.subrange(0, k as int).contains(j) && self.tasks@[j as int].last_poll()
                        == PollState::Pending ==> #[trigger] pending@.contains(j),
            decreases n - k,
        {
            let id = queue[k];
            let ghost before = self.tasks@;
            let ghost old_pending = pending@;
            let ghost prefix = queue@.subrange(0, k as int);
            let ghost next = queue@.subrange(0, k + 1);
            assert(next =~= prefix.push(id));
            self.tasks[id].poll(now);
            self.polled = Ghost(self.polled@.push(id));
            if self.tasks[id].poll == PollState::Pending {
                pending.push(id);
            }
            proof {
                assert forall|j: usize| #[trigger] next.contains(j) <==> (prefix.contains(j) || j == id) by {
                    if next.contains(j) {
                        let m = choose|m: int| 0 <= m < next.len() && next[m] == j;
                        if m < k {
                            assert(prefix[m] == j);
                        }
                    }
                    if prefix.contains(j) {
                        let m = choose|m: int| 0 <= m < prefix.len() && prefix[m] == j;
                        assert(next[m] == j);
                    }
                    if j == id {
                        assert(next[k as int] == id);
                    }
                }
                if prefix.contains(id) {
                    law_repoll(old_tasks[id as int], before[id as int], self.tasks@[id as int], now);
                }
                assert forall|m: int| 0 <= m < prefix.len() implies #[trigger] prefix[m] < before.len()
                    && before[prefix[m] as int].last_poll() == self.tasks@[prefix[m] as int].last_poll() by {
                    assert(prefix[m] == queue@[m]);
                    if prefix[m] == id {
                        assert(prefix.contains(id));
                    }
                }
                lemma_pending_ids_same_states(prefix, before, self.tasks@);
                assert(next.drop_last() =~= prefix);
                assert(next.last() == id);
                assert forall|j: usize| j < old_tasks.len() implies if next.contains(j) {
                    polled_at(old_tasks[j as int], #[trigger] self.tasks@[j as int], now)
                } else {
                    self.tasks@[j as int] == old_tasks[j as int]
                } by {
                    if j != id {
                        assert(self.tasks@[j as int] == before[j as int]);
                        assert(next.contains(j) == prefix.contains(j));
                    }
                }
                assert forall|m: int| 0 <= m < pending@.len() implies {
                    &&& next.contains(#[trigger] pending@[m])
                    &&& self.tasks@[pending@[m] as int].last_poll() == PollState::Pending
                } by {
                    if m < old_pending.len() {
                        assert(pending@[m] == old_pending[m]);
                        assert(prefix.contains(old_pending[m]));
                    }
                }
                assert forall|j: usize| next.contains(j) && self.tasks@[j as int].last_poll()
                    == PollState::Pending implies #[trigger] pending@.contains(j) by {
                    if j == id {
                        assert(pending@[pending@.len() - 1] == id);
                    } else {
                        assert(prefix.contains(j));
                        assert(old_pending.contains(j));
                        let m = choose|m: int| 0 <= m < old_pending.len() && old_pending[m] == j;
                        assert(pending@[m] == j);
                    }
                }
            }
            k = k + 1;
        }
        assert(queue@.subrange(0, n as int) =~= queue@);
        assert forall|j: int| 0 <= j < old_tasks.len() implies if old(self).queue().contains(j as usize) {
            polled_at(old_tasks[j], #[trigger] self.tasks@[j], now)
        } else {
            self.tasks@[j] == old_tasks[j]
        } by {
            let ju = j as usize;
            assert(ju as int == j);
            assert(self.tasks@[ju as int] == self.tasks@[j]);
        }
        pending
    }
}

} // verus!
