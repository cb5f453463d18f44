//! Futures that become ready at a point in time: a delay, a select over
//! several branches, and a task that owns a future. Time is a count of
//! nanoseconds read from a monotonic clock by the caller.

use vstd::prelude::*;
use rand::seq::SliceRandom;

verus! {

broadcast use vstd::seq_lib::group_to_multiset_ensures;

/// The outcome of polling a future once.
#[derive(Debug, PartialEq, Eq, Structural, Clone, Copy)]
pub enum PollState {
    Ready,
    Pending,
}

/// A future whose completion depends on the time alone.
pub trait TimedFuture: Sized {
    /// Whether the future is complete when polled at `now`.
    spec fn ready_at(&self, now: u64) -> bool;

    /// Polls the future at `now`.
    fn poll(&self, now: u64) -> (r: PollState)
        ensures
            (r == PollState::Ready) == self.ready_at(now),
    ;
}

/// A future that completes once its deadline is reached.
pub struct Delay {
    when: u64,
}

impl Delay {
    /// The time at which the delay completes.
    pub closed spec fn deadline(&self) -> u64 {
        self.when
    }

    /// A delay of `duration` nanoseconds from `now`. A deadline beyond the
    /// clock's range is refused, as adding a duration to an instant is.
    pub fn new(now: u64, duration: u64) -> (r: Delay)
        requires
            now + duration <= u64::MAX,
        ensures
            r.deadline() == now + duration,
    {
        Delay { when: now + duration }
    }

    /// The time at which the delay completes.
    pub fn when(&self) -> (r: u64)
        ensures
            r == self.deadline(),
    {
        self.when
    }
}

impl TimedFuture for Delay {
    open spec fn ready_at(&self, now: u64) -> bool {
        now >= self.deadline()
    }

    fn poll(&self, now: u64) -> (r: PollState) {
        if now >= self.when {
            PollState::Ready
        } else {
            PollState::Pending
        }
    }
}

/// A delay that is complete stays complete as time goes on.
pub proof fn law_delay_stays_ready(d: Delay, earlier: u64, later: u64)
    requires
        earlier <= later,
        d.ready_at(earlier),
    ensures
        d.ready_at(later),
{
}

/// A delay made at `now` for `duration` completes exactly from `now +
/// duration` on.
pub proof fn law_delay_deadline(d: Delay, now: u64, duration: u64, t: u64)
    requires
        d.deadline() == now + duration,
    ensures
        d.ready_at(t) <==> t >= now + duration,
{
}

/// Some future in `s` is complete at `now`.
pub open spec fn any_ready<F: TimedFuture>(s: Seq<F>, now: u64) -> bool {
    exists|i: int| 0 <= i < s.len() && #[trigger] s[i].ready_at(now)
}

/// Reordering futures does not change whether one of them is complete.
pub proof fn lemma_any_ready_permutation<F: TimedFuture>(a: Seq<F>, b: Seq<F>, now: u64)
    requires
        a.to_multiset() == b.to_multiset(),
    ensures
        any_ready(a, now) == any_ready(b, now),
{
    if any_ready(a, now) {
        let i = choose|i: int| 0 <= i < a.len() && #[trigger] a[i].ready_at(now);
        assert(a.contains(a[i]));
        assert(b.to_multiset().count(a[i]) > 0);
        assert(b.contains(a[i]));
        let j = choose|j: int| 0 <= j < b.len() && b[j] == a[i];
        assert(b[j].ready_at(now));
    }
    if any_ready(b, now) {
        let i = choose|i: int| 0 <= i < b.len() && #[trigger] b[i].ready_at(now);
        assert(b.contains(b[i]));
        assert(a.to_multiset().count(b[i]) > 0);
        assert(a.contains(b[i]));
        let j = choose|j: int| 0 <= j < a.len() && a[j] == b[i];
        assert(a[j].ready_at(now));
    }
}

/// `SliceRandom::shuffle` of `rand` with the thread-local generator: the
/// branches come back in an order chosen at random, the same branches as
/// before. Which order comes out is left open, as it rests on chance; that
/// the thread-local generator can be seeded by the operating system is not
/// stated either.
#[verifier::external_body]
fn shuffle_branches<F>(branches: &mut Vec<F>)
    ensures
        final(branches)@.to_multiset() == old(branches)@.to_multiset(),
{
    branches.shuffle(&mut rand::rng())
}

/// A future that completes when the first of its branches does. Each poll
/// tries the branches in a fresh random order.
pub struct MySelect<F> {
    branches: Vec<F>,
}

impl<F: TimedFuture> MySelect<F> {
    /// The branches, in their current order.
    pub closed spec fn branches(&self) -> Seq<F> {
        self.branches@
    }

    /// A select over `branches`.
    pub fn new(branches: Vec<F>) -> (r: MySelect<F>)
        ensures
            r.branches() == branches@,
    {
        MySelect { branches }
    }
}

impl<F: TimedFuture> MySelect<F> {
    /// Whether some branch is complete at `now`.
    pub open spec fn ready_at(&self, now: u64) -> bool {
        any_ready(self.branches(), now)
    }

    /// Shuffles the branches, then polls them in their new order until one
    /// is complete. The select is complete exactly when some branch is; the
    /// branches afterwards are those before, reordered; a complete select
    /// stopped at the first complete branch of the new order, a pending one
    /// polled every branch.
    pub fn poll(&mut self, now: u64) -> (r: PollState)
        ensures
            (r == PollState::Ready) == old(self).ready_at(now),
            final(self).branches().to_multiset() == old(self).branches().to_multiset(),
            final(self).branches().len() == old(self).branches().len(),
            r == PollState::Ready ==> exists|i: int|
                0 <= i < final(self).branches().len() && #[trigger] final(self).branches()[i].ready_at(now)
                    && forall|j: int| 0 <= j < i ==> !(#[trigger] final(self).branches()[j].ready_at(now)),
            r == PollState::Pending ==> forall|j: int|
                0 <= j < final(self).branches().len() ==> !(#[trigger] final(self).branches()[j].ready_at(now)),
    {
        let ghost before = self.branches@;
        shuffle_branches(&mut self.branches);
        proof {
            lemma_any_ready_permutation(self.branches@, before, now);
            assert(self.branches@.len() == self.branches@.to_multiset().len());
            assert(before.len() == before.to_multiset().len());
        }
        let n = self.branches.len();
        let mut i: usize = 0;
        while i < n
            invariant
                n == self.branches@.len(),
                i <= n,
                before == old(self).branches@,
                self.branches@.to_multiset() == before.to_multiset(),
                self.branches@.len() == before.len(),
                any_ready(self.branches@, now) == any_ready(before, now),
                forall|j: int| 0 <= j < i ==> !(#[trigger] self.branches@[j].ready_at(now)),
            decreases n - i,
        {
            let st = self.branches[i].poll(now);
            if st == PollState::Ready {
                return PollState::Ready;
            }
            i = i + 1;
        }
        PollState::Pending
    }
}

/// A task: a future the executor drives, and the handle by which it is
/// scheduled again.
pub struct Task<F, S> {
    future: F,
    sender: S,
}

impl<F: TimedFuture, S> Task<F, S> {
    /// The future the task drives.
    pub closed spec fn future(&self) -> F {
        self.future
    }

    /// The handle by which the task is scheduled.
    pub closed spec fn sender(&self) -> S {
        self.sender
    }

    /// A task driving `future`, scheduled through `sender`.
    pub fn new(future: F, sender: S) -> (r: Task<F, S>)
        ensures
            r.future() == future,
            r.sender() == sender,
    {
        Task { future, sender }
    }

    /// Polls the task's future once at `now`.
    pub fn poll(&mut self, now: u64) -> (r: PollState)
        ensures
            (r == PollState::Ready) == old(self).future().ready_at(now),
            *final(self) == *old(self),
    {
        self.future.poll(now)
    }
}

} // verus!
